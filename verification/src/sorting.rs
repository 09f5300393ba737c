//! Putting a deck in order, for cards that have one.

use crate::arrangement::same_cards;
use crate::deck::{contiguous, Deck};
use std::cmp::Ordering;
use vstd::laws_cmp::obeys_cmp;
use vstd::prelude::*;
use vstd::std_specs::cmp::OrdSpec;

verus! {

/// `a` may stand before `b`: it is not the greater of the two.
pub open spec fn in_order<T: Ord>(a: T, b: T) -> bool {
    a.cmp_spec(&b) != Ordering::Greater
}

/// No item of `s` is greater than one that stands after it.
pub open spec fn ascending<T: Ord>(s: Seq<T>) -> bool {
    forall|i: int, j: int| 0 <= i <= j < s.len() ==> #[trigger] in_order(s[i], s[j])
}

/// `slice::sort`: puts the items in ascending order and keeps every one of
/// them. It is documented that the call may panic where the order of the
/// items is no total order, so the order has to obey the laws of one.
#[verifier::external_body]
fn sort_slice<T: Ord>(items: &mut [T])
    requires
        obeys_cmp::<T>(),
    ensures
        same_cards(final(items)@, old(items)@),
        ascending(final(items)@),
{
    items.sort()
}

impl<T: Ord> Deck<T> {
    /// Puts the cards in ascending order, the least on top.
    pub fn sort(&mut self)
        requires
            obeys_cmp::<T>(),
        ensures
            same_cards(final(self)@, old(self)@),
            ascending(final(self)@),
            final(self)@.len() == old(self)@.len(),
            final(self).rng == old(self).rng,
    {
        broadcast use vstd::seq_lib::group_to_multiset_ensures;

        let slice = contiguous(&mut self.cards);
        sort_slice(slice);
        assert(self@.to_multiset().len() == old(self)@.to_multiset().len());
    }
}

} // verus!
