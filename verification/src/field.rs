//! Mutation-staging value cells.
//!
//! A [`NumberField`] holds one authoritative number. During the process
//! phase, writers never touch that number: they stage a [`Modifier`]
//! (overwrite, add or subtract) which is merged with whatever is already
//! pending by a small algebra, and the authoritative value only changes
//! when [`NumberField::process_modifiers`] runs during the flush phase.
//!
//! The merge algebra keeps additive staging order-independent: staging
//! `Add(a)` and `Add(b)` in either order commits the same value, and an
//! overwrite dominates any pending arithmetic. Arithmetic wraps on
//! overflow, exactly as the underlying machine operations do.

use vstd::prelude::*;

verus! {

/// A staged mutation queued against a field: overwrite the value,
/// add to it, or subtract from it.
#[derive(Clone, Copy)]
pub enum Modifier<T> {
    /// Overwrite the authoritative value with the payload.
    SetTo(T),
    /// Add the payload to the authoritative value (wrapping).
    Add(T),
    /// Subtract the payload from the authoritative value (wrapping).
    Sub(T),
}

/// Numbers a [`NumberField`] can hold: machine integers with wrapping
/// addition and subtraction. The proof obligations state the few
/// algebraic facts the merge algebra rests on: wrapping addition is
/// commutative and associative, subtraction is addition of the negation,
/// and negation distributes over addition and is an involution.
pub trait AtomicNumber: Sized + Copy {
    /// Wrapping addition, at the specification level.
    spec fn wadd_spec(self, other: Self) -> Self;

    /// Wrapping subtraction, at the specification level.
    spec fn wsub_spec(self, other: Self) -> Self;

    /// Wrapping negation, at the specification level.
    spec fn wneg_spec(self) -> Self;

    /// Strict order, at the specification level.
    spec fn lt_spec(self, other: Self) -> bool;

    /// Whether this is a signed domain; the merge of a subtraction into a
    /// pending addition cancels differently in the two domains.
    spec fn signed_domain() -> bool;

    /// Wrapping addition.
    fn wadd(self, other: Self) -> (r: Self)
        ensures
            r == self.wadd_spec(other),
    ;

    /// Wrapping subtraction.
    fn wsub(self, other: Self) -> (r: Self)
        ensures
            r == self.wsub_spec(other),
    ;

    /// Strict order.
    fn wlt(self, other: Self) -> (r: bool)
        ensures
            r == self.lt_spec(other),
    ;

    /// Whether this is a signed domain.
    fn signed() -> (r: bool)
        ensures
            r == Self::signed_domain(),
    ;

    proof fn lemma_wadd_comm(a: Self, b: Self)
        ensures
            a.wadd_spec(b) == b.wadd_spec(a),
    ;

    proof fn lemma_wadd_assoc(a: Self, b: Self, c: Self)
        ensures
            a.wadd_spec(b).wadd_spec(c) == a.wadd_spec(b.wadd_spec(c)),
    ;

    proof fn lemma_wsub_is_wadd_wneg(a: Self, b: Self)
        ensures
            a.wsub_spec(b) == a.wadd_spec(b.wneg_spec()),
    ;

    proof fn lemma_wneg_wadd(a: Self, b: Self)
        ensures
            a.wadd_spec(b).wneg_spec() == a.wneg_spec().wadd_spec(b.wneg_spec()),
    ;

    proof fn lemma_wneg_wneg(a: Self)
        ensures
            a.wneg_spec().wneg_spec() == a,
    ;
}

/// The value a staged modifier commits against a given authoritative value.
pub open spec fn apply_modifier<T: AtomicNumber>(value: T, staged: Option<Modifier<T>>) -> T {
    match staged {
        Option::None => value,
        Option::Some(Modifier::SetTo(x)) => x,
        Option::Some(Modifier::Add(a)) => value.wadd_spec(a),
        Option::Some(Modifier::Sub(a)) => value.wsub_spec(a),
    }
}

/// The merge algebra: how a newly queued operation `op` combines with an
/// already pending modifier.
///
/// - An overwrite always replaces whatever is pending.
/// - Additions and subtractions accumulate, cancelling against a pending
///   modifier of the opposite sign; in an unsigned domain the cancelled
///   form is chosen so the stored amount never goes below zero.
/// - Arithmetic against a pending overwrite folds into the overwrite,
///   since the overwritten value is already fully determined.
pub open spec fn merge_modifier<T: AtomicNumber>(
    pending: Option<Modifier<T>>,
    op: Modifier<T>,
) -> Modifier<T> {
    match op {
        Modifier::SetTo(x) => Modifier::SetTo(x),
        Modifier::Add(b) => match pending {
            Option::None => Modifier::Add(b),
            Option::Some(Modifier::SetTo(x)) => Modifier::SetTo(x.wadd_spec(b)),
            Option::Some(Modifier::Add(a)) => Modifier::Add(a.wadd_spec(b)),
            Option::Some(Modifier::Sub(a)) => if b.lt_spec(a) {
                Modifier::Sub(a.wsub_spec(b))
            } else {
                Modifier::Add(b.wsub_spec(a))
            },
        },
        Modifier::Sub(b) => match pending {
            Option::None => Modifier::Sub(b),
            Option::Some(Modifier::SetTo(x)) => Modifier::SetTo(x.wsub_spec(b)),
            Option::Some(Modifier::Add(a)) => if T::signed_domain() || b.lt_spec(a) {
                Modifier::Add(a.wsub_spec(b))
            } else {
                Modifier::Sub(b.wsub_spec(a))
            },
            Option::Some(Modifier::Sub(a)) => Modifier::Sub(a.wadd_spec(b)),
        },
    }
}

/// Chained wrapping sums and differences regroup freely; all six shapes
/// the merge algebra produces follow from the trait's five laws.
proof fn lemma_regroup<T: AtomicNumber>(x: T, a: T, b: T)
    ensures
        x.wadd_spec(a.wadd_spec(b)) == x.wadd_spec(a).wadd_spec(b),
        x.wsub_spec(a.wsub_spec(b)) == x.wsub_spec(a).wadd_spec(b),
        x.wadd_spec(b.wsub_spec(a)) == x.wsub_spec(a).wadd_spec(b),
        x.wadd_spec(a.wsub_spec(b)) == x.wadd_spec(a).wsub_spec(b),
        x.wsub_spec(b.wsub_spec(a)) == x.wadd_spec(a).wsub_spec(b),
        x.wsub_spec(a.wadd_spec(b)) == x.wsub_spec(a).wsub_spec(b),
{
    T::lemma_wadd_assoc(x, a, b);
    T::lemma_wsub_is_wadd_wneg(a, b);
    T::lemma_wsub_is_wadd_wneg(x, a.wsub_spec(b));
    T::lemma_wneg_wadd(a, b.wneg_spec());
    T::lemma_wneg_wneg(b);
    T::lemma_wsub_is_wadd_wneg(x, a);
    T::lemma_wadd_assoc(x, a.wneg_spec(), b);
    T::lemma_wadd_comm(a.wneg_spec(), b);
    T::lemma_wadd_assoc(x, b, a.wneg_spec());
    T::lemma_wsub_is_wadd_wneg(b, a);
    T::lemma_wadd_assoc(x, a, b.wneg_spec());
    T::lemma_wsub_is_wadd_wneg(x.wadd_spec(a), b);
    T::lemma_wsub_is_wadd_wneg(x, b.wsub_spec(a));
    T::lemma_wneg_wadd(b, a.wneg_spec());
    T::lemma_wneg_wneg(a);
    T::lemma_wadd_comm(b.wneg_spec(), a);
    T::lemma_wadd_comm(a, b.wneg_spec());
    T::lemma_wadd_assoc(x, b.wneg_spec(), a);
    T::lemma_wsub_is_wadd_wneg(x, a.wadd_spec(b));
    T::lemma_wneg_wadd(a, b);
    T::lemma_wadd_assoc(x, a.wneg_spec(), b.wneg_spec());
    T::lemma_wsub_is_wadd_wneg(x.wadd_spec(a.wneg_spec()), b);
}

/// Merging a new operation into the pending stage commits the same value
/// as committing the pending stage first and the new operation second:
/// the merge algebra is exactly staged composition.
pub proof fn lemma_merge_applies<T: AtomicNumber>(
    base: T,
    pending: Option<Modifier<T>>,
    op: Modifier<T>,
)
    ensures
        apply_modifier(base, Option::Some(merge_modifier(pending, op)))
            == apply_modifier(apply_modifier(base, pending), Option::Some(op)),
{
    match op {
        Modifier::SetTo(x) => {},
        Modifier::Add(b) => match pending {
            Option::None => {},
            Option::Some(Modifier::SetTo(x)) => {},
            Option::Some(Modifier::Add(a)) => {
                lemma_regroup::<T>(base, a, b);
            },
            Option::Some(Modifier::Sub(a)) => {
                lemma_regroup::<T>(base, a, b);
            },
        },
        Modifier::Sub(b) => match pending {
            Option::None => {},
            Option::Some(Modifier::SetTo(x)) => {},
            Option::Some(Modifier::Add(a)) => {
                lemma_regroup::<T>(base, a, b);
            },
            Option::Some(Modifier::Sub(a)) => {
                lemma_regroup::<T>(base, a, b);
            },
        },
    }
}

/// Whether an operation only shifts the value (add or subtract), as
/// opposed to overwriting it.
pub open spec fn is_additive<T>(op: Modifier<T>) -> bool {
    match op {
        Modifier::SetTo(x) => false,
        Modifier::Add(a) => true,
        Modifier::Sub(a) => true,
    }
}

/// Wrapping shifts by `a` and by `b` land on the same value in either
/// order, whatever each one's sign.
proof fn lemma_shift_order<T: AtomicNumber>(v: T, a: T, b: T)
    ensures
        v.wadd_spec(a).wadd_spec(b) == v.wadd_spec(b).wadd_spec(a),
        v.wadd_spec(a).wsub_spec(b) == v.wsub_spec(b).wadd_spec(a),
        v.wsub_spec(a).wsub_spec(b) == v.wsub_spec(b).wsub_spec(a),
{
    T::lemma_wadd_assoc(v, a, b);
    T::lemma_wadd_assoc(v, b, a);
    T::lemma_wadd_comm(a, b);
    T::lemma_wsub_is_wadd_wneg(v.wadd_spec(a), b);
    T::lemma_wsub_is_wadd_wneg(v, b);
    T::lemma_wadd_assoc(v, a, b.wneg_spec());
    T::lemma_wadd_comm(a, b.wneg_spec());
    T::lemma_wadd_assoc(v, b.wneg_spec(), a);
    T::lemma_wsub_is_wadd_wneg(v, a);
    T::lemma_wsub_is_wadd_wneg(v.wadd_spec(a.wneg_spec()), b);
    T::lemma_wsub_is_wadd_wneg(v.wadd_spec(b.wneg_spec()), a);
    T::lemma_wadd_assoc(v, a.wneg_spec(), b.wneg_spec());
    T::lemma_wadd_comm(a.wneg_spec(), b.wneg_spec());
    T::lemma_wadd_assoc(v, b.wneg_spec(), a.wneg_spec());
}

/// Commutative merge: two additive operations staged against the same
/// field commit the same value in either order. This is what makes
/// concurrent add/subtract staging well-defined: the committed value
/// does not depend on the order in which writers reached the field.
pub proof fn lemma_additive_merge_commutes<T: AtomicNumber>(
    base: T,
    pending: Option<Modifier<T>>,
    op1: Modifier<T>,
    op2: Modifier<T>,
)
    requires
        is_additive(op1),
        is_additive(op2),
    ensures
        apply_modifier(
            base,
            Option::Some(merge_modifier(Option::Some(merge_modifier(pending, op1)), op2)),
        ) == apply_modifier(
            base,
            Option::Some(merge_modifier(Option::Some(merge_modifier(pending, op2)), op1)),
        ),
{
    lemma_merge_applies(base, pending, op1);
    lemma_merge_applies(base, Option::Some(merge_modifier(pending, op1)), op2);
    lemma_merge_applies(base, pending, op2);
    lemma_merge_applies(base, Option::Some(merge_modifier(pending, op2)), op1);
    let v = apply_modifier(base, pending);
    match (op1, op2) {
        (Modifier::Add(a), Modifier::Add(b)) => lemma_shift_order::<T>(v, a, b),
        (Modifier::Add(a), Modifier::Sub(b)) => lemma_shift_order::<T>(v, a, b),
        (Modifier::Sub(a), Modifier::Add(b)) => lemma_shift_order::<T>(v, b, a),
        (Modifier::Sub(a), Modifier::Sub(b)) => lemma_shift_order::<T>(v, a, b),
        _ => {},
    }
}

/// Overwrite dominance: an overwrite staged after any additive operation
/// commits exactly the overwritten value, regardless of what was pending
/// or how the earlier operation merged.
pub proof fn lemma_set_dominates<T: AtomicNumber>(
    base: T,
    pending: Option<Modifier<T>>,
    op: Modifier<T>,
    x: T,
)
    ensures
        apply_modifier(
            base,
            Option::Some(
                merge_modifier(Option::Some(merge_modifier(pending, op)), Modifier::SetTo(x)),
            ),
        ) == x,
{
}

/// Merges `op` into `pending`, following [`merge_modifier`] exactly.
fn merge_exec<T: AtomicNumber>(pending: Option<Modifier<T>>, op: Modifier<T>) -> (r: Modifier<T>)
    ensures
        r == merge_modifier(pending, op),
{
    match op {
        Modifier::SetTo(x) => Modifier::SetTo(x),
        Modifier::Add(b) => match pending {
            Option::None => Modifier::Add(b),
            Option::Some(Modifier::SetTo(x)) => Modifier::SetTo(x.wadd(b)),
            Option::Some(Modifier::Add(a)) => Modifier::Add(a.wadd(b)),
            Option::Some(Modifier::Sub(a)) => if b.wlt(a) {
                Modifier::Sub(a.wsub(b))
            } else {
                Modifier::Add(b.wsub(a))
            },
        },
        Modifier::Sub(b) => match pending {
            Option::None => Modifier::Sub(b),
            Option::Some(Modifier::SetTo(x)) => Modifier::SetTo(x.wsub(b)),
            Option::Some(Modifier::Add(a)) => if T::signed() || b.wlt(a) {
                Modifier::Add(a.wsub(b))
            } else {
                Modifier::Sub(b.wsub(a))
            },
            Option::Some(Modifier::Sub(a)) => Modifier::Sub(a.wadd(b)),
        },
    }
}

/// Commits a single staged modifier against an authoritative value.
fn apply_exec<T: AtomicNumber>(value: T, op: Modifier<T>) -> (r: T)
    ensures
        r == apply_modifier(value, Option::Some(op)),
{
    match op {
        Modifier::SetTo(x) => x,
        Modifier::Add(a) => value.wadd(a),
        Modifier::Sub(a) => value.wsub(a),
    }
}

/// A field whose staged mutations are applied during flush.
pub trait ComponentField {
    /// Applies whatever mutations are staged and clears the stage.
    /// Called exactly once per tick, during flush, under exclusive access.
    fn process_modifiers(&mut self);
}

/// An authoritative number plus at most one pending, already merged
/// modifier. Writers stage mutations through a [`NumberFieldRef`] view or
/// [`NumberField::queue_modifier`]; the number itself changes only in
/// [`NumberField::process_modifiers`].
pub struct NumberField<T: AtomicNumber> {
    number: T,
    staged: Option<Modifier<T>>,
}

impl<T: AtomicNumber> NumberField<T> {
    /// The authoritative value.
    pub closed spec fn value(self) -> T {
        self.number
    }

    /// The pending, already merged modifier, if any.
    pub closed spec fn pending(self) -> Option<Modifier<T>> {
        self.staged
    }

    /// Creates a field with nothing staged.
    pub fn new(number: T) -> (field: Self)
        ensures
            field.value() == number,
            field.pending() is None,
    {
        NumberField { number, staged: Option::None }
    }

    /// Reads the authoritative value; staged mutations are not visible.
    pub fn get(&self) -> (v: T)
        ensures
            v == self.value(),
    {
        self.number
    }

    /// A cheap, copyable view of the field: the authoritative value plus
    /// a private stage for this writer's own mutations.
    pub fn get_ref(&self) -> (r: NumberFieldRef<T>)
        ensures
            r.base() == self.value(),
            r.current() == self.value(),
            r.staged_op() is None,
            r.wf(),
    {
        NumberFieldRef { base: self.number, folded: self.number, staged: Option::None }
    }

    /// Stages one more operation, merging it with whatever is pending.
    pub fn queue_modifier(&mut self, op: Modifier<T>)
        ensures
            final(self).value() == old(self).value(),
            final(self).pending() == Option::Some(merge_modifier(old(self).pending(), op)),
    {
        self.staged = Option::Some(merge_exec(self.staged, op));
    }

    /// Merges the mutations staged on a view back into this field.
    pub fn absorb(&mut self, r: NumberFieldRef<T>)
        ensures
            final(self).value() == old(self).value(),
            final(self).pending() == match r.staged_op() {
                Option::None => old(self).pending(),
                Option::Some(op) => Option::Some(merge_modifier(old(self).pending(), op)),
            },
    {
        match r.staged {
            Option::None => {},
            Option::Some(op) => {
                self.queue_modifier(op);
            },
        }
    }

    /// Applies the one outstanding modifier to the authoritative value
    /// and clears the stage. Flush-only: callers must hold exclusive
    /// access to the field.
    pub fn process_modifiers(&mut self)
        ensures
            final(self).value() == apply_modifier(old(self).value(), old(self).pending()),
            final(self).pending() is None,
    {
        match self.staged {
            Option::None => {},
            Option::Some(op) => {
                self.number = apply_exec(self.number, op);
                self.staged = Option::None;
            },
        }
    }
}

impl<T: AtomicNumber> ComponentField for NumberField<T> {
    fn process_modifiers(&mut self) {
        NumberField::process_modifiers(self);
    }
}

/// A writer's view of a [`NumberField`]: the value it read, with the
/// writer's own uncommitted mutations folded in locally, plus the merged
/// modifier those mutations amount to. Reads through the view see the
/// writer's own writes; the field itself is untouched until the view is
/// absorbed and the field flushed.
#[derive(Clone, Copy)]
pub struct NumberFieldRef<T: AtomicNumber> {
    base: T,
    folded: T,
    staged: Option<Modifier<T>>,
}

impl<T: AtomicNumber> NumberFieldRef<T> {
    /// The authoritative value this view was taken from.
    pub closed spec fn base(self) -> T {
        self.base
    }

    /// The value as this writer sees it: base plus own staged mutations.
    pub closed spec fn current(self) -> T {
        self.folded
    }

    /// The merged modifier this writer has staged so far.
    pub closed spec fn staged_op(self) -> Option<Modifier<T>> {
        self.staged
    }

    /// The locally folded value is exactly what the staged modifier
    /// would commit against the base value.
    pub open spec fn wf(self) -> bool {
        self.current() == apply_modifier(self.base(), self.staged_op())
    }

    /// Reads the value with this writer's own staged mutations folded in.
    pub fn get(&self) -> (v: T)
        ensures
            v == self.current(),
    {
        self.folded
    }

    /// Stages a wrapping addition.
    pub fn add_assign(&mut self, rhs: T)
        requires
            old(self).wf(),
        ensures
            final(self).wf(),
            final(self).base() == old(self).base(),
            final(self).staged_op() == Option::Some(
                merge_modifier(old(self).staged_op(), Modifier::Add(rhs)),
            ),
            final(self).current() == old(self).current().wadd_spec(rhs),
    {
        proof {
            lemma_merge_applies::<T>(self.base, self.staged, Modifier::Add(rhs));
        }
        self.folded = self.folded.wadd(rhs);
        self.staged = Option::Some(merge_exec(self.staged, Modifier::Add(rhs)));
    }

    /// Stages a wrapping subtraction.
    pub fn sub_assign(&mut self, rhs: T)
        requires
            old(self).wf(),
        ensures
            final(self).wf(),
            final(self).base() == old(self).base(),
            final(self).staged_op() == Option::Some(
                merge_modifier(old(self).staged_op(), Modifier::Sub(rhs)),
            ),
            final(self).current() == old(self).current().wsub_spec(rhs),
    {
        proof {
            lemma_merge_applies::<T>(self.base, self.staged, Modifier::Sub(rhs));
        }
        self.folded = self.folded.wsub(rhs);
        self.staged = Option::Some(merge_exec(self.staged, Modifier::Sub(rhs)));
    }

    /// Stages an overwrite, which dominates any pending arithmetic.
    pub fn set(&mut self, value: T)
        ensures
            final(self).wf(),
            final(self).base() == old(self).base(),
            final(self).staged_op() == Option::Some(
                merge_modifier(old(self).staged_op(), Modifier::SetTo(value)),
            ),
            final(self).current() == value,
    {
        self.folded = value;
        self.staged = Option::Some(Modifier::SetTo(value));
    }
}

impl AtomicNumber for u8 {
    open spec fn wadd_spec(self, other: u8) -> u8 {
        vstd::wrapping::u8_specs::wrapping_add(self, other)
    }

    open spec fn wsub_spec(self, other: u8) -> u8 {
        vstd::wrapping::u8_specs::wrapping_sub(self, other)
    }

    open spec fn wneg_spec(self) -> u8 {
        vstd::wrapping::u8_specs::wrapping_sub(0u8, self)
    }

    open spec fn lt_spec(self, other: u8) -> bool {
        self < other
    }

    open spec fn signed_domain() -> bool {
        false
    }

    fn wadd(self, other: u8) -> u8 {
        self.wrapping_add(other)
    }

    fn wsub(self, other: u8) -> u8 {
        self.wrapping_sub(other)
    }

    fn wlt(self, other: u8) -> bool {
        self < other
    }

    fn signed() -> bool {
        false
    }

    proof fn lemma_wadd_comm(a: u8, b: u8) {
    }

    proof fn lemma_wadd_assoc(a: u8, b: u8, c: u8) {
    }

    proof fn lemma_wsub_is_wadd_wneg(a: u8, b: u8) {
    }

    proof fn lemma_wneg_wadd(a: u8, b: u8) {
    }

    proof fn lemma_wneg_wneg(a: u8) {
    }
}

impl AtomicNumber for u32 {
    open spec fn wadd_spec(self, other: u32) -> u32 {
        vstd::wrapping::u32_specs::wrapping_add(self, other)
    }

    open spec fn wsub_spec(self, other: u32) -> u32 {
        vstd::wrapping::u32_specs::wrapping_sub(self, other)
    }

    open spec fn wneg_spec(self) -> u32 {
        vstd::wrapping::u32_specs::wrapping_sub(0u32, self)
    }

    open spec fn lt_spec(self, other: u32) -> bool {
        self < other
    }

    open spec fn signed_domain() -> bool {
        false
    }

    fn wadd(self, other: u32) -> u32 {
        self.wrapping_add(other)
    }

    fn wsub(self, other: u32) -> u32 {
        self.wrapping_sub(other)
    }

    fn wlt(self, other: u32) -> bool {
        self < other
    }

    fn signed() -> bool {
        false
    }

    proof fn lemma_wadd_comm(a: u32, b: u32) {
    }

    proof fn lemma_wadd_assoc(a: u32, b: u32, c: u32) {
    }

    proof fn lemma_wsub_is_wadd_wneg(a: u32, b: u32) {
    }

    proof fn lemma_wneg_wadd(a: u32, b: u32) {
    }

    proof fn lemma_wneg_wneg(a: u32) {
    }
}

impl AtomicNumber for i32 {
    open spec fn wadd_spec(self, other: i32) -> i32 {
        vstd::wrapping::i32_specs::wrapping_add(self, other)
    }

    open spec fn wsub_spec(self, other: i32) -> i32 {
        vstd::wrapping::i32_specs::wrapping_sub(self, other)
    }

    open spec fn wneg_spec(self) -> i32 {
        vstd::wrapping::i32_specs::wrapping_sub(0i32, self)
    }

    open spec fn lt_spec(self, other: i32) -> bool {
        self < other
    }

    open spec fn signed_domain() -> bool {
        true
    }

    fn wadd(self, other: i32) -> i32 {
        self.wrapping_add(other)
    }

    fn wsub(self, other: i32) -> i32 {
        self.wrapping_sub(other)
    }

    fn wlt(self, other: i32) -> bool {
        self < other
    }

    fn signed() -> bool {
        true
    }

    proof fn lemma_wadd_comm(a: i32, b: i32) {
    }

    proof fn lemma_wadd_assoc(a: i32, b: i32, c: i32) {
    }

    proof fn lemma_wsub_is_wadd_wneg(a: i32, b: i32) {
    }

    proof fn lemma_wneg_wadd(a: i32, b: i32) {
    }

    proof fn lemma_wneg_wneg(a: i32) {
    }
}

impl AtomicNumber for u16 {
    open spec fn wadd_spec(self, other: u16) -> u16 {
        vstd::wrapping::u16_specs::wrapping_add(self, other)
    }

    open spec fn wsub_spec(self, other: u16) -> u16 {
        vstd::wrapping::u16_specs::wrapping_sub(self, other)
    }

    open spec fn wneg_spec(self) -> u16 {
        vstd::wrapping::u16_specs::wrapping_sub(0u16, self)
    }

    open spec fn lt_spec(self, other: u16) -> bool {
        self < other
    }

    open spec fn signed_domain() -> bool {
        false
    }

    fn wadd(self, other: u16) -> u16 {
        self.wrapping_add(other)
    }

    fn wsub(self, other: u16) -> u16 {
        self.wrapping_sub(other)
    }

    fn wlt(self, other: u16) -> bool {
        self < other
    }

    fn signed() -> bool {
        false
    }

    proof fn lemma_wadd_comm(a: u16, b: u16) {
    }

    proof fn lemma_wadd_assoc(a: u16, b: u16, c: u16) {
    }

    proof fn lemma_wsub_is_wadd_wneg(a: u16, b: u16) {
    }

    proof fn lemma_wneg_wadd(a: u16, b: u16) {
    }

    proof fn lemma_wneg_wneg(a: u16) {
    }
}

impl AtomicNumber for u64 {
    open spec fn wadd_spec(self, other: u64) -> u64 {
        vstd::wrapping::u64_specs::wrapping_add(self, other)
    }

    open spec fn wsub_spec(self, other: u64) -> u64 {
        vstd::wrapping::u64_specs::wrapping_sub(self, other)
    }

    open spec fn wneg_spec(self) -> u64 {
        vstd::wrapping::u64_specs::wrapping_sub(0u64, self)
    }

    open spec fn lt_spec(self, other: u64) -> bool {
        self < other
    }

    open spec fn signed_domain() -> bool {
        false
    }

    fn wadd(self, other: u64) -> u64 {
        self.wrapping_add(other)
    }

    fn wsub(self, other: u64) -> u64 {
        self.wrapping_sub(other)
    }

    fn wlt(self, other: u64) -> bool {
        self < other
    }

    fn signed() -> bool {
        false
    }

    proof fn lemma_wadd_comm(a: u64, b: u64) {
    }

    proof fn lemma_wadd_assoc(a: u64, b: u64, c: u64) {
    }

    proof fn lemma_wsub_is_wadd_wneg(a: u64, b: u64) {
    }

    proof fn lemma_wneg_wadd(a: u64, b: u64) {
    }

    proof fn lemma_wneg_wneg(a: u64) {
    }
}

impl AtomicNumber for i8 {
    open spec fn wadd_spec(self, other: i8) -> i8 {
        vstd::wrapping::i8_specs::wrapping_add(self, other)
    }

    open spec fn wsub_spec(self, other: i8) -> i8 {
        vstd::wrapping::i8_specs::wrapping_sub(self, other)
    }

    open spec fn wneg_spec(self) -> i8 {
        vstd::wrapping::i8_specs::wrapping_sub(0i8, self)
    }

    open spec fn lt_spec(self, other: i8) -> bool {
        self < other
    }

    open spec fn signed_domain() -> bool {
        true
    }

    fn wadd(self, other: i8) -> i8 {
        self.wrapping_add(other)
    }

    fn wsub(self, other: i8) -> i8 {
        self.wrapping_sub(other)
    }

    fn wlt(self, other: i8) -> bool {
        self < other
    }

    fn signed() -> bool {
        true
    }

    proof fn lemma_wadd_comm(a: i8, b: i8) {
    }

    proof fn lemma_wadd_assoc(a: i8, b: i8, c: i8) {
    }

    proof fn lemma_wsub_is_wadd_wneg(a: i8, b: i8) {
    }

    proof fn lemma_wneg_wadd(a: i8, b: i8) {
    }

    proof fn lemma_wneg_wneg(a: i8) {
    }
}

impl AtomicNumber for i16 {
    open spec fn wadd_spec(self, other: i16) -> i16 {
        vstd::wrapping::i16_specs::wrapping_add(self, other)
    }

    open spec fn wsub_spec(self, other: i16) -> i16 {
        vstd::wrapping::i16_specs::wrapping_sub(self, other)
    }

    open spec fn wneg_spec(self) -> i16 {
        vstd::wrapping::i16_specs::wrapping_sub(0i16, self)
    }

    open spec fn lt_spec(self, other: i16) -> bool {
        self < other
    }

    open spec fn signed_domain() -> bool {
        true
    }

    fn wadd(self, other: i16) -> i16 {
        self.wrapping_add(other)
    }

    fn wsub(self, other: i16) -> i16 {
        self.wrapping_sub(other)
    }

    fn wlt(self, other: i16) -> bool {
        self < other
    }

    fn signed() -> bool {
        true
    }

    proof fn lemma_wadd_comm(a: i16, b: i16) {
    }

    proof fn lemma_wadd_assoc(a: i16, b: i16, c: i16) {
    }

    proof fn lemma_wsub_is_wadd_wneg(a: i16, b: i16) {
    }

    proof fn lemma_wneg_wadd(a: i16, b: i16) {
    }

    proof fn lemma_wneg_wneg(a: i16) {
    }
}

impl AtomicNumber for i64 {
    open spec fn wadd_spec(self, other: i64) -> i64 {
        vstd::wrapping::i64_specs::wrapping_add(self, other)
    }

    open spec fn wsub_spec(self, other: i64) -> i64 {
        vstd::wrapping::i64_specs::wrapping_sub(self, other)
    }

    open spec fn wneg_spec(self) -> i64 {
        vstd::wrapping::i64_specs::wrapping_sub(0i64, self)
    }

    open spec fn lt_spec(self, other: i64) -> bool {
        self < other
    }

    open spec fn signed_domain() -> bool {
        true
    }

    fn wadd(self, other: i64) -> i64 {
        self.wrapping_add(other)
    }

    fn wsub(self, other: i64) -> i64 {
        self.wrapping_sub(other)
    }

    fn wlt(self, other: i64) -> bool {
        self < other
    }

    fn signed() -> bool {
        true
    }

    proof fn lemma_wadd_comm(a: i64, b: i64) {
    }

    proof fn lemma_wadd_assoc(a: i64, b: i64, c: i64) {
    }

    proof fn lemma_wsub_is_wadd_wneg(a: i64, b: i64) {
    }

    proof fn lemma_wneg_wadd(a: i64, b: i64) {
    }

    proof fn lemma_wneg_wneg(a: i64) {
    }
}

impl AtomicNumber for usize {
    open spec fn wadd_spec(self, other: usize) -> usize {
        vstd::wrapping::usize_specs::wrapping_add(self, other)
    }

    open spec fn wsub_spec(self, other: usize) -> usize {
        vstd::wrapping::usize_specs::wrapping_sub(self, other)
    }

    open spec fn wneg_spec(self) -> usize {
        vstd::wrapping::usize_specs::wrapping_sub(0usize, self)
    }

    open spec fn lt_spec(self, other: usize) -> bool {
        self < other
    }

    open spec fn signed_domain() -> bool {
        false
    }

    fn wadd(self, other: usize) -> usize {
        self.wrapping_add(other)
    }

    fn wsub(self, other: usize) -> usize {
        self.wrapping_sub(other)
    }

    fn wlt(self, other: usize) -> bool {
        self < other
    }

    fn signed() -> bool {
        false
    }

    proof fn lemma_wadd_comm(a: usize, b: usize) {
    }

    proof fn lemma_wadd_assoc(a: usize, b: usize, c: usize) {
    }

    proof fn lemma_wsub_is_wadd_wneg(a: usize, b: usize) {
    }

    proof fn lemma_wneg_wadd(a: usize, b: usize) {
    }

    proof fn lemma_wneg_wneg(a: usize) {
    }
}

impl AtomicNumber for isize {
    open spec fn wadd_spec(self, other: isize) -> isize {
        vstd::wrapping::isize_specs::wrapping_add(self, other)
    }

    open spec fn wsub_spec(self, other: isize) -> isize {
        vstd::wrapping::isize_specs::wrapping_sub(self, other)
    }

    open spec fn wneg_spec(self) -> isize {
        vstd::wrapping::isize_specs::wrapping_sub(0isize, self)
    }

    open spec fn lt_spec(self, other: isize) -> bool {
        self < other
    }

    open spec fn signed_domain() -> bool {
        true
    }

    fn wadd(self, other: isize) -> isize {
        self.wrapping_add(other)
    }

    fn wsub(self, other: isize) -> isize {
        self.wrapping_sub(other)
    }

    fn wlt(self, other: isize) -> bool {
        self < other
    }

    fn signed() -> bool {
        true
    }

    proof fn lemma_wadd_comm(a: isize, b: isize) {
    }

    proof fn lemma_wadd_assoc(a: isize, b: isize, c: isize) {
    }

    proof fn lemma_wsub_is_wadd_wneg(a: isize, b: isize) {
    }

    proof fn lemma_wneg_wadd(a: isize, b: isize) {
    }

    proof fn lemma_wneg_wneg(a: isize) {
    }
}

} // verus!
