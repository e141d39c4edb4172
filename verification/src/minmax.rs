//! `setmin` / `setmax`: overwrite a variable only when the new value improves it.

use vstd::prelude::*;

verus! {

/// Overwrites `self` with `v` when `v` is smaller (`setmin`) or larger
/// (`setmax`), and reports whether it did.
pub trait SetMinMax: Sized {
    /// The strict order the two methods go by.
    spec fn below(&self, other: &Self) -> bool;

    fn setmin(&mut self, v: Self) -> (changed: bool)
        ensures
            changed <==> v.below(old(self)),
            *final(self) == (if changed { v } else { *old(self) }),
    ;

    fn setmax(&mut self, v: Self) -> (changed: bool)
        ensures
            changed <==> old(self).below(&v),
            *final(self) == (if changed { v } else { *old(self) }),
    ;
}

impl SetMinMax for i64 {
    open spec fn below(&self, other: &i64) -> bool {
        *self < *other
    }

    fn setmin(&mut self, v: i64) -> (changed: bool) {
        if *self > v {
            *self = v;
            true
        } else {
            false
        }
    }

    fn setmax(&mut self, v: i64) -> (changed: bool) {
        if *self < v {
            *self = v;
            true
        } else {
            false
        }
    }
}

impl SetMinMax for usize {
    open spec fn below(&self, other: &usize) -> bool {
        *self < *other
    }

    fn setmin(&mut self, v: usize) -> (changed: bool) {
        if *self > v {
            *self = v;
            true
        } else {
            false
        }
    }

    fn setmax(&mut self, v: usize) -> (changed: bool) {
        if *self < v {
            *self = v;
            true
        } else {
            false
        }
    }
}

} // verus!
