use bina_ecs::field::Modifier;
use bina_ecs::field::NumberField;

#[test]
fn add_u8() {
    let mut num = NumberField::new(43u8);
    let mut num_ref = num.get_ref();
    num_ref.add_assign(2);
    num.absorb(num_ref);
    assert_eq!(num.get(), 43);
    let mut num_ref = num.get_ref();
    num_ref.set(2);
    num.absorb(num_ref);
    num.process_modifiers();
    assert_eq!(num.get(), 2);
}

#[test]
fn commutative_add_merge() {
    // two writers stage Add(5) and Add(3); either absorption order
    // commits base + 8
    let mut a = NumberField::new(10u32);
    let mut r1 = a.get_ref();
    r1.add_assign(5);
    let mut r2 = a.get_ref();
    r2.add_assign(3);
    a.absorb(r1);
    a.absorb(r2);
    a.process_modifiers();
    assert_eq!(a.get(), 18);

    let mut b = NumberField::new(10u32);
    let mut r1 = b.get_ref();
    r1.add_assign(5);
    let mut r2 = b.get_ref();
    r2.add_assign(3);
    b.absorb(r2);
    b.absorb(r1);
    b.process_modifiers();
    assert_eq!(b.get(), 18);
}

#[test]
fn set_dominates_pending_arithmetic() {
    let mut a = NumberField::new(100u32);
    a.queue_modifier(Modifier::Add(7));
    a.queue_modifier(Modifier::SetTo(3));
    a.process_modifiers();
    assert_eq!(a.get(), 3);

    let mut b = NumberField::new(100u32);
    b.queue_modifier(Modifier::Sub(40));
    b.queue_modifier(Modifier::SetTo(55));
    b.process_modifiers();
    assert_eq!(b.get(), 55);
}

#[test]
fn unsigned_cancellation() {
    // Add(5) then Sub(8): the pending stage cancels to Sub(3), never
    // holding a negative amount in the unsigned domain
    let mut a = NumberField::new(10u8);
    a.queue_modifier(Modifier::Add(5));
    a.queue_modifier(Modifier::Sub(8));
    a.process_modifiers();
    assert_eq!(a.get(), 7);

    // Sub(8) then Add(5) commits the same value
    let mut b = NumberField::new(10u8);
    b.queue_modifier(Modifier::Sub(8));
    b.queue_modifier(Modifier::Add(5));
    b.process_modifiers();
    assert_eq!(b.get(), 7);
}

#[test]
fn signed_cancellation() {
    let mut a = NumberField::new(-4i32);
    a.queue_modifier(Modifier::Add(3));
    a.queue_modifier(Modifier::Sub(10));
    a.process_modifiers();
    assert_eq!(a.get(), -11);
}

#[test]
fn wrapping_add_commits_wrapped() {
    let mut a = NumberField::new(250u8);
    a.queue_modifier(Modifier::Add(10));
    a.process_modifiers();
    assert_eq!(a.get(), 4);
}

#[test]
fn view_folds_own_writes() {
    // a writer's view shows its own uncommitted writes; the field does
    // not change until the stage is absorbed and flushed
    let field = NumberField::new(20u32);
    let mut view = field.get_ref();
    view.add_assign(5);
    view.sub_assign(2);
    assert_eq!(view.get(), 23);
    assert_eq!(field.get(), 20);
}

#[test]
fn process_modifiers_clears_stage() {
    let mut a = NumberField::new(1u32);
    a.queue_modifier(Modifier::Add(1));
    a.process_modifiers();
    assert_eq!(a.get(), 2);
    // nothing is staged any more: a second flush commits nothing
    a.process_modifiers();
    assert_eq!(a.get(), 2);
}

#[test]
fn arithmetic_folds_into_pending_set() {
    let mut a = NumberField::new(9u32);
    a.queue_modifier(Modifier::SetTo(100));
    a.queue_modifier(Modifier::Add(11));
    a.process_modifiers();
    assert_eq!(a.get(), 111);
}
