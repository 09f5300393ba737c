//! When two decks are equal.

use crate::deck::Deck;
use vstd::prelude::*;
use vstd::std_specs::cmp::{PartialEqSpec, PartialEqSpecImpl};

verus! {

impl<T: PartialEq> PartialEq for Deck<T> {
    /// Two decks are equal where they hold equal cards in the same order.
    /// Their generators are not compared.
    fn eq(&self, other: &Deck<T>) -> (equal: bool) {
        let n = self.cards.len();
        if n != other.cards.len() {
            return false;
        }
        let mut k: usize = 0;
        while k < n
            invariant
                k <= n,
                n == self@.len(),
                n == other@.len(),
                T::obeys_eq_spec() ==> forall|i: int|
                    0 <= i < k ==> (#[trigger] self@[i]).eq_spec(&other@[i]),
            decreases n - k,
        {
            if self.cards[k] != other.cards[k] {
                return false;
            }
            k += 1;
        }
        true
    }
}

impl<T: PartialEq> PartialEqSpecImpl for Deck<T> {
    open spec fn obeys_eq_spec() -> bool {
        T::obeys_eq_spec()
    }

    open spec fn eq_spec(&self, other: &Deck<T>) -> bool {
        &&& self@.len() == other@.len()
        &&& forall|i: int| 0 <= i < self@.len() ==> (#[trigger] self@[i]).eq_spec(&other@[i])
    }
}

} // verus!
