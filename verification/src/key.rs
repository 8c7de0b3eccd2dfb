//! What a store asks of its keys.

use vstd::prelude::*;

verus! {

/// A key of an expiring store. Two keys name the same entry exactly when their
/// views are equal, so a key needs a test for that and a way to make a second
/// key with the same view.
pub trait StoreKey: View + Sized {
    /// Whether `self` and `other` name the same entry.
    fn same_key(&self, other: &Self) -> (same: bool)
        ensures
            same == (self@ == other@),
    ;

    /// Another key that names the same entry.
    fn duplicate(&self) -> (copy: Self)
        ensures
            copy@ == self@,
    ;
}

impl StoreKey for u128 {
    fn same_key(&self, other: &Self) -> (same: bool) {
        *self == *other
    }

    fn duplicate(&self) -> (copy: Self) {
        *self
    }
}

impl StoreKey for String {
    fn same_key(&self, other: &Self) -> (same: bool) {
        *self == *other
    }

    fn duplicate(&self) -> (copy: Self) {
        self.clone()
    }
}

} // verus!
