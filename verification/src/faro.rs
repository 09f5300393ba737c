//! What holds of the faro shuffle: it is a riffle, and how often it has to
//! be repeated until the deck is back in its order.
//!
//! Count the positions of an even deck from 0. An out-shuffle sends the card
//! at `i` to `2 * i` modulo one less than the number of cards, and leaves
//! the bottom card where it is. An in-shuffle sends the card at `i` to
//! `2 * i + 1` modulo one more than the number of cards. So the deck is back
//! in its order as soon as that many doublings are the identity for this
//! modulus.

use crate::arrangement::{
    faro_order, interleaves, lemma_interleaving_keeps_cards, same_cards, selected,
};
use vstd::prelude::*;

verus! {

/// The marks of a faro shuffle: every other card comes from the bottom half,
/// beginning with the second card in an out-shuffle and with the first in an
/// in-shuffle.
pub open spec fn faro_marks(len: nat, out: bool) -> Seq<bool> {
    Seq::new(len, |p: int| (p % 2 == 0) != out)
}

/// The first `m` cards of a faro shuffle are the first cards of the two
/// halves, taken in turn.
proof fn lemma_faro_prefix<T>(s: Seq<T>, out: bool, m: int)
    requires
        !out || s.len() % 2 == 0,
        0 <= m <= s.len(),
    ensures
        selected(faro_order(s, out).subrange(0, m), faro_marks(s.len(), out), false) == s.subrange(
            0,
            if out {
                (m + 1) / 2
            } else {
                m / 2
            },
        ),
        selected(faro_order(s, out).subrange(0, m), faro_marks(s.len(), out), true) == s.subrange(
            s.len() as int / 2,
            s.len() as int / 2 + if out {
                m / 2
            } else {
                (m + 1) / 2
            },
        ),
    decreases m,
{
    let woven = faro_order(s, out);
    let marks = faro_marks(s.len(), out);
    let half = s.len() as int / 2;
    if m == 0 {
        assert(selected(woven.subrange(0, m), marks, false) =~= s.subrange(0, 0));
        assert(selected(woven.subrange(0, m), marks, true) =~= s.subrange(half, half));
    } else {
        lemma_faro_prefix(s, out, m - 1);
        let p = m - 1;
        assert(woven.subrange(0, m).drop_last() == woven.subrange(0, p));
        assert(woven.subrange(0, m).last() == woven[p]);
        if (p % 2 == 0) == out {
            assert(s.subrange(0, p / 2).push(s[p / 2]) == s.subrange(0, p / 2 + 1));
        } else {
            assert(s.subrange(half, half + p / 2).push(s[half + p / 2]) == s.subrange(
                half,
                half + p / 2 + 1,
            ));
        }
    }
}

/// A faro shuffle is a riffle in which the cards of the two halves fall in
/// turn. So it keeps every card.
pub proof fn lemma_faro_is_a_riffle<T>(s: Seq<T>, out: bool)
    requires
        !out || s.len() % 2 == 0,
    ensures
        interleaves(
            s.subrange(0, s.len() as int / 2),
            s.subrange(s.len() as int / 2, s.len() as int),
            faro_order(s, out),
        ),
        same_cards(faro_order(s, out), s),
        faro_order(s, out).len() == s.len(),
{
    let woven = faro_order(s, out);
    let half = s.len() as int / 2;
    lemma_faro_prefix(s, out, s.len() as int);
    assert(woven.subrange(0, s.len() as int) == woven);
    assert(faro_marks(s.len(), out).len() == woven.len());
    lemma_interleaving_keeps_cards(s.subrange(0, half), s.subrange(half, s.len() as int), woven);
    assert(s.subrange(0, half) + s.subrange(half, s.len() as int) == s);
    vstd::seq_lib::lemma_multiset_commutative(
        s.subrange(0, half),
        s.subrange(half, s.len() as int),
    );
}

/// `s` after `times` faro shuffles of the same kind.
pub open spec fn faro_repeated<T>(s: Seq<T>, out: bool, times: nat) -> Seq<T>
    decreases times,
{
    if times == 0 {
        s
    } else {
        faro_order(faro_repeated(s, out, (times - 1) as nat), out)
    }
}

/// Two to the power of `times`.
pub open spec fn two_to(times: nat) -> int
    decreases times,
{
    if times == 0 {
        1
    } else {
        2 * two_to((times - 1) as nat)
    }
}

/// The position from which a faro shuffle of `len` cards takes the card
/// that it puts at `p`.
pub open spec fn faro_source(len: int, out: bool, p: int) -> int {
    if (p % 2 == 0) == out {
        p / 2
    } else {
        len / 2 + p / 2
    }
}

/// The position from which `times` faro shuffles of `len` cards take the
/// card that they put at `p`.
pub open spec fn faro_source_repeated(len: int, out: bool, times: nat, p: int) -> int
    decreases times,
{
    if times == 0 {
        p
    } else {
        faro_source_repeated(len, out, (times - 1) as nat, faro_source(len, out, p))
    }
}

/// The number by which positions are counted modulo: one less than the
/// number of cards for an out-shuffle, one more for an in-shuffle.
pub open spec fn faro_modulus(len: int, out: bool) -> int {
    if out {
        len - 1
    } else {
        len + 1
    }
}

/// What is added to a position before it is doubled: nothing for an
/// out-shuffle, one for an in-shuffle.
pub open spec fn faro_shift(out: bool) -> int {
    if out {
        0
    } else {
        1
    }
}

/// Repeated shuffles take each card from the position that
/// [`faro_source_repeated`] names, which is a position of the deck. In an
/// out-shuffle the top and the bottom card stay, and no other card takes
/// their place.
proof fn lemma_faro_repeated_index<T>(s: Seq<T>, out: bool, times: nat, p: int)
    requires
        s.len() % 2 == 0,
        0 <= p < s.len(),
    ensures
        faro_repeated(s, out, times).len() == s.len(),
        0 <= faro_source_repeated(s.len() as int, out, times, p) < s.len(),
        faro_repeated(s, out, times)[p] == s[faro_source_repeated(s.len() as int, out, times, p)],
        out && p == 0 ==> faro_source_repeated(s.len() as int, out, times, p) == 0,
        out && p == s.len() - 1 ==> faro_source_repeated(s.len() as int, out, times, p) == s.len()
            - 1,
        out && 0 < p < s.len() - 1 ==> 0 < faro_source_repeated(s.len() as int, out, times, p)
            < s.len() - 1,
    decreases times,
{
    if times > 0 {
        let earlier = (times - 1) as nat;
        let from = faro_source(s.len() as int, out, p);
        lemma_faro_repeated_index(s, out, earlier, from);
        lemma_faro_repeated_index(s, out, earlier, p);
    }
}

/// Doubling the source `times` times gives the position again, up to a
/// multiple of the modulus. The multiple is handed back.
proof fn lemma_faro_source_doubled(len: int, out: bool, times: nat, p: int) -> (multiple: int)
    requires
        len % 2 == 0,
        0 <= p < len,
    ensures
        two_to(times) * (faro_source_repeated(len, out, times, p) + faro_shift(out)) - (p
            + faro_shift(out)) == multiple * faro_modulus(len, out),
    decreases times,
{
    let modulus = faro_modulus(len, out);
    let shift = faro_shift(out);
    if times == 0 {
        assert(1 * (p + shift) - (p + shift) == 0 * modulus) by (nonlinear_arith);
        0
    } else {
        let earlier = (times - 1) as nat;
        let from = faro_source(len, out, p);
        let step: int = if 2 * (from + shift) == p + shift {
            0
        } else {
            1
        };
        assert(2 * (from + shift) - (p + shift) == step * modulus) by {
            assert(0 * modulus == 0);
            assert(1 * modulus == modulus);
        }
        let before = lemma_faro_source_doubled(len, out, earlier, from);
        let source = faro_source_repeated(len, out, times, p);
        assert(source == faro_source_repeated(len, out, earlier, from));
        let power = two_to(earlier);
        assert((2 * power) * (source + shift) - (p + shift) == (2 * before + step) * modulus)
            by (nonlinear_arith)
            requires
                power * (source + shift) - (from + shift) == before * modulus,
                2 * (from + shift) - (p + shift) == step * modulus,
        ;
        2 * before + step
    }
}

/// Two numbers that differ by a multiple of the modulus and by less than
/// the modulus are the same.
proof fn lemma_close_and_congruent(x: int, y: int, multiple: int, modulus: int)
    requires
        modulus > 0,
        y - x == multiple * modulus,
        -modulus < y - x < modulus,
    ensures
        x == y,
{
    assert(multiple == 0) by (nonlinear_arith)
        requires
            modulus > 0,
            -modulus < multiple * modulus < modulus,
    ;
}

/// A faro shuffle that is repeated as often as it takes doubling to come
/// back to where it began, modulo the modulus of the shuffle, leaves the
/// deck in its order. The deck holds an even number of cards.
pub proof fn lemma_faro_cycle<T>(s: Seq<T>, out: bool, times: nat)
    requires
        s.len() % 2 == 0,
        s.len() > 0,
        (two_to(times) - 1) % faro_modulus(s.len() as int, out) == 0,
    ensures
        faro_repeated(s, out, times) == s,
{
    let len = s.len() as int;
    let modulus = faro_modulus(len, out);
    let shift = faro_shift(out);
    let power = two_to(times);
    let turns = (power - 1) / modulus;
    assert(power - 1 == turns * modulus) by {
        vstd::arithmetic::div_mod::lemma_fundamental_div_mod(power - 1, modulus);
        assert(modulus * turns == turns * modulus) by (nonlinear_arith);
    }
    assert forall|p: int| 0 <= p < len implies #[trigger] faro_repeated(s, out, times)[p]
        == s[p] by {
        lemma_faro_repeated_index(s, out, times, p);
        let source = faro_source_repeated(len, out, times, p);
        if out && (p == 0 || p == len - 1) {
        } else {
            let multiple = lemma_faro_source_doubled(len, out, times, p);
            let x = p + shift;
            let y = source + shift;
            assert(y - x == (multiple - turns * y) * modulus) by (nonlinear_arith)
                requires
                    power * y - x == multiple * modulus,
                    power - 1 == turns * modulus,
            ;
            lemma_close_and_congruent(x, y, multiple - turns * y, modulus);
        }
    }
    lemma_faro_repeated_index(s, out, times, 0);
    assert(faro_repeated(s, out, times) =~= s);
}

/// Two out-shuffles leave a deck of two or of four cards in its order.
pub proof fn lemma_out_faro_twice<T>(s: Seq<T>)
    requires
        s.len() == 2 || s.len() == 4,
    ensures
        faro_order(faro_order(s, true), true) == s,
{
    assert(faro_order(faro_order(s, true), true) =~= s);
}

/// Eight out-shuffles leave a deck of fifty-two cards in its order.
pub proof fn lemma_out_faro_of_fifty_two<T>(s: Seq<T>)
    requires
        s.len() == 52,
    ensures
        faro_repeated(s, true, 8) == s,
{
    assert(two_to(8) == 256) by {
        reveal_with_fuel(two_to, 9);
    }
    lemma_faro_cycle(s, true, 8);
}

} // verus!
