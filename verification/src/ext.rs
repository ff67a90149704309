//! Specifications for the few std functions the runtime uses that the
//! verification library does not yet cover.

use vstd::prelude::*;

verus! {

/// Relies on core::mem::replace: moves `src` into `dest` and returns the
/// value that was in `dest`, as its documentation states.
pub assume_specification<T>[ core::mem::replace ](dest: &mut T, src: T) -> (prev: T)
    ensures
        *final(dest) == src,
        prev == *old(dest),
;

} // verus!
