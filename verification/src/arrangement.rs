//! What the orders of a deck are, as plain sequences: the vocabulary in which
//! the deck's operations state what they do.

use vstd::prelude::*;

verus! {

/// The two sequences hold the same items, each as often in one as in the
/// other.
pub open spec fn same_cards<T>(a: Seq<T>, b: Seq<T>) -> bool {
    a.to_multiset() == b.to_multiset()
}

/// `s` with its items in other places: the item at position `i` is the one
/// that stood at `places[i]`.
pub open spec fn rearranged<T>(s: Seq<T>, places: Seq<int>) -> Seq<T> {
    Seq::new(s.len(), |i: int| s[places[i]])
}

/// `s` after a cut at `n`: the first `n` items go below the others, and both
/// parts keep their order.
pub open spec fn cut_at<T>(s: Seq<T>, n: int) -> Seq<T> {
    s.subrange(n, s.len() as int) + s.subrange(0, n)
}

/// `s` with the items at `i` and `j` exchanged.
pub open spec fn swapped<T>(s: Seq<T>, i: int, j: int) -> Seq<T> {
    s.update(i, s[j]).update(j, s[i])
}

/// `s` with the items from position `from` up to, but not including, `to`
/// in reverse order.
pub open spec fn turned_over<T>(s: Seq<T>, from: int, to: int) -> Seq<T> {
    Seq::new(
        s.len(),
        |p: int|
            if from <= p < to {
                s[from + to - 1 - p]
            } else {
                s[p]
            },
    )
}

/// `s` after the cards at each two neighbouring entries of `positions` have
/// been exchanged, pair after pair from the first: the card at the first
/// position ends at the last one, and each other card of the cycle one
/// position earlier in it.
pub open spec fn cycled<T>(s: Seq<T>, positions: Seq<usize>) -> Seq<T>
    decreases positions.len(),
{
    if positions.len() < 2 {
        s
    } else {
        let n = positions.len() as int;
        swapped(cycled(s, positions.drop_last()), positions[n - 2] as int, positions[n - 1] as int)
    }
}

/// A perfect weave of the two halves of `s`. The top half holds the first
/// `s.len() / 2` cards. An out-shuffle leaves the top card on top; an
/// in-shuffle puts it second, below the first card of the bottom half.
pub open spec fn faro_order<T>(s: Seq<T>, out: bool) -> Seq<T> {
    Seq::new(
        s.len(),
        |p: int|
            if (p % 2 == 0) == out {
                s[p / 2]
            } else {
                s[s.len() / 2 + p / 2]
            },
    )
}

/// Where the packet that holds position `p` begins: at the last cut at or
/// above `p`, or at the top where there is none. A cut at `i` parts the card
/// at `i` from the one above it.
pub open spec fn packet_start(cuts: Seq<bool>, p: int) -> int
    decreases p,
{
    if p <= 0 {
        0
    } else if cuts[p] {
        p
    } else {
        packet_start(cuts, p - 1)
    }
}

/// Where the packet that holds position `p` ends: at the first cut below
/// `p`, or at `cuts.len()` where there is none.
pub open spec fn packet_end(cuts: Seq<bool>, p: int) -> int
    decreases cuts.len() - p,
{
    if p + 1 >= cuts.len() {
        cuts.len() as int
    } else if cuts[p + 1] {
        p + 1
    } else {
        packet_end(cuts, p + 1)
    }
}

/// `s` after each packet but the last has been turned over where it lies.
/// `cuts` has a flag for each position of `s`.
pub open spec fn packets_turned<T>(s: Seq<T>, cuts: Seq<bool>) -> Seq<T> {
    Seq::new(
        s.len(),
        |p: int|
            if packet_end(cuts, p) < s.len() {
                s[packet_start(cuts, p) + packet_end(cuts, p) - 1 - p]
            } else {
                s[p]
            },
    )
}

/// The items of `s` at the positions `k`, `k + n`, `k + 2 * n` and so on, in
/// their order.
pub open spec fn every_nth<T>(s: Seq<T>, n: int, k: int) -> Seq<T>
    decreases s.len(),
{
    if s.len() == 0 {
        Seq::empty()
    } else {
        let rest = every_nth(s.drop_last(), n, k);
        if (s.len() - 1) % n == k {
            rest.push(s.last())
        } else {
            rest
        }
    }
}

/// Pile `k` after `s` has been dealt out to `n` piles in turn, each card on
/// top of its pile: the pile's cards lie in the reverse of their order in
/// `s`.
pub open spec fn dealt_pile<T>(s: Seq<T>, n: int, k: int) -> Seq<T> {
    every_nth(s, n, k).reverse()
}

/// The `n` piles after `s` has been dealt out to them in turn, from the
/// first pile on.
pub open spec fn dealt_piles<T>(s: Seq<T>, n: int) -> Seq<Seq<T>> {
    Seq::new(n as nat, |k: int| dealt_pile(s, n, k))
}

/// The items of `s` whose mark is `wanted`, in their order. The mark of the
/// item at position `i` is `marks[i]`.
pub open spec fn selected<T>(s: Seq<T>, marks: Seq<bool>, wanted: bool) -> Seq<T>
    decreases s.len(),
{
    if s.len() == 0 {
        Seq::empty()
    } else {
        let rest = selected(s.drop_last(), marks, wanted);
        if marks[s.len() - 1] == wanted {
            rest.push(s.last())
        } else {
            rest
        }
    }
}

/// `merged` holds the items of `left` and of `right`, each of the two in its
/// own order, woven into one another in any way: some marking of its
/// positions picks out `right`, and what is left unmarked is `left`.
pub open spec fn interleaves<T>(left: Seq<T>, right: Seq<T>, merged: Seq<T>) -> bool {
    exists|marks: Seq<bool>|
        marks.len() == merged.len() && #[trigger] selected(merged, marks, false) == left
            && selected(merged, marks, true) == right
}

/// How many of the first `p` marks are set.
pub open spec fn marked_before(marks: Seq<bool>, p: int) -> int
    decreases p,
{
    if p <= 0 {
        0
    } else {
        marked_before(marks, p - 1) + if marks[p - 1] {
            1int
        } else {
            0int
        }
    }
}

/// The marks are as many as the cards of two packets of `left` and `right`
/// cards, and as many of them are set as the second packet has cards.
pub open spec fn marks_fit(marks: Seq<bool>, left: nat, right: nat) -> bool {
    marks.len() == left + right && marked_before(marks, marks.len() as int) == right
}

/// The two packets woven into one by the marks: where the mark is set the
/// next card of `right` falls, and where it is not, the next card of
/// `left`.
pub open spec fn woven<T>(left: Seq<T>, right: Seq<T>, marks: Seq<bool>) -> Seq<T> {
    Seq::new(
        marks.len(),
        |p: int|
            if marks[p] {
                right[marked_before(marks, p)]
            } else {
                left[p - marked_before(marks, p)]
            },
    )
}

/// `s` with the marked items lifted out and put below the others; both the
/// lifted items and those that stay keep their order.
pub open spec fn lifted<T>(s: Seq<T>, marks: Seq<bool>) -> Seq<T> {
    selected(s, marks, false) + selected(s, marks, true)
}

/// Exchanging two cards keeps every card.
pub proof fn lemma_swap_keeps_cards<T>(s: Seq<T>, i: int, j: int)
    requires
        0 <= i < s.len(),
        0 <= j < s.len(),
    ensures
        same_cards(swapped(s, i, j), s),
        swapped(s, i, j).len() == s.len(),
{
    broadcast use vstd::seq_lib::group_to_multiset_ensures;

    let half = s.update(i, s[j]);
    assert(half.to_multiset() =~= s.to_multiset().insert(s[j]).remove(s[i]));
    assert(half.update(j, s[i]).to_multiset() =~= half.to_multiset().insert(s[i]).remove(half[j]));
    assert(s.to_multiset().count(s[i]) > 0) by {
        assert(s.contains(s[i]));
    }
    assert(s.to_multiset().count(s[j]) > 0) by {
        assert(s.contains(s[j]));
    }
    assert(swapped(s, i, j).to_multiset() =~= s.to_multiset());
}

/// A cut keeps every card.
pub proof fn lemma_cut_keeps_cards<T>(s: Seq<T>, n: int)
    requires
        0 <= n <= s.len(),
    ensures
        same_cards(cut_at(s, n), s),
        cut_at(s, n).len() == s.len(),
        n == 0 || n == s.len() ==> cut_at(s, n) == s,
{
    let top = s.subrange(0, n);
    let rest = s.subrange(n, s.len() as int);
    assert(top + rest == s);
    vstd::seq_lib::lemma_multiset_commutative(top, rest);
    vstd::seq_lib::lemma_multiset_commutative(rest, top);
    assert(rest.to_multiset().add(top.to_multiset()) =~= top.to_multiset().add(
        rest.to_multiset(),
    ));
    if n == 0 || n == s.len() {
        assert(cut_at(s, n) =~= s);
    }
}

/// A cycle of exchanges keeps every card.
pub proof fn lemma_cycle_keeps_cards<T>(s: Seq<T>, positions: Seq<usize>)
    requires
        forall|k: int| 0 <= k < positions.len() ==> positions[k] < s.len(),
    ensures
        same_cards(cycled(s, positions), s),
        cycled(s, positions).len() == s.len(),
    decreases positions.len(),
{
    if positions.len() >= 2 {
        let n = positions.len() as int;
        lemma_cycle_keeps_cards(s, positions.drop_last());
        lemma_swap_keeps_cards(
            cycled(s, positions.drop_last()),
            positions[n - 2] as int,
            positions[n - 1] as int,
        );
    }
}

/// Where no cut is made there is one packet, which stays as it lies; and
/// where a cut is made at every card each packet is one card, which is the
/// same turned over.
pub proof fn lemma_packets_of_trivial_cuts<T>(s: Seq<T>, cuts: Seq<bool>)
    requires
        cuts.len() == s.len(),
        (forall|i: int| 0 <= i < cuts.len() ==> !cuts[i]) || (forall|i: int|
            0 <= i < cuts.len() ==> cuts[i]),
    ensures
        packets_turned(s, cuts) == s,
{
    assert forall|p: int| 0 <= p < s.len() implies #[trigger] packets_turned(s, cuts)[p]
        == s[p] by {
        if forall|i: int| 0 <= i < cuts.len() ==> !cuts[i] {
            lemma_packet_end_found(cuts, p, cuts.len() as int);
        } else if p + 1 < s.len() {
            lemma_packet_end_found(cuts, p, p + 1);
            lemma_packet_start_found(cuts, p, p);
        } else {
            lemma_packet_end_found(cuts, p, cuts.len() as int);
        }
    }
    assert(packets_turned(s, cuts) =~= s);
}

/// With no cut between `lo` and `p`, and `lo` a cut or the top, the packet
/// of `p` begins at `lo`.
pub proof fn lemma_packet_start_found(cuts: Seq<bool>, lo: int, p: int)
    requires
        0 <= lo <= p,
        lo == 0 || cuts[lo],
        forall|i: int| lo < i <= p ==> !cuts[i],
    ensures
        packet_start(cuts, p) == lo,
    decreases p,
{
    if p > lo {
        lemma_packet_start_found(cuts, lo, p - 1);
    }
}

/// With no cut between `p` and `hi`, the packet of `p` ends at `hi` where
/// `hi` is a cut or the end of the deck.
pub proof fn lemma_packet_end_found(cuts: Seq<bool>, p: int, hi: int)
    requires
        0 <= p < hi <= cuts.len(),
        hi == cuts.len() || cuts[hi],
        forall|i: int| p < i < hi ==> !cuts[i],
    ensures
        packet_end(cuts, p) == hi,
    decreases hi - p,
{
    if p + 1 < hi {
        lemma_packet_end_found(cuts, p + 1, hi);
    }
}

/// Selecting the marked and the unmarked items shares out the items of `s`:
/// none is lost and none is taken twice.
pub proof fn lemma_selected_shares_out<T>(s: Seq<T>, marks: Seq<bool>)
    ensures
        selected(s, marks, false).to_multiset().add(selected(s, marks, true).to_multiset())
            == s.to_multiset(),
        selected(s, marks, false).len() + selected(s, marks, true).len() == s.len(),
    decreases s.len(),
{
    broadcast use vstd::seq_lib::group_to_multiset_ensures;

    if s.len() == 0 {
        assert(selected(s, marks, false).to_multiset().add(selected(s, marks, true).to_multiset())
            =~= s.to_multiset());
    } else {
        lemma_selected_shares_out(s.drop_last(), marks);
        assert(s == s.drop_last().push(s.last()));
        assert(selected(s, marks, false).to_multiset().add(selected(s, marks, true).to_multiset())
            =~= s.to_multiset());
    }
}

/// Weaving two packets into one keeps every card of both: the merged packet
/// holds the items of the two, each as often as the two together.
pub proof fn lemma_interleaving_keeps_cards<T>(left: Seq<T>, right: Seq<T>, merged: Seq<T>)
    requires
        interleaves(left, right, merged),
    ensures
        merged.to_multiset() == left.to_multiset().add(right.to_multiset()),
        merged.len() == left.len() + right.len(),
{
    let marks = choose|marks: Seq<bool>|
        marks.len() == merged.len() && #[trigger] selected(merged, marks, false) == left
            && selected(merged, marks, true) == right;
    lemma_selected_shares_out(merged, marks);
}

/// Between two positions there are no more set marks than positions.
pub proof fn lemma_marked_before_grows(marks: Seq<bool>, p: int, q: int)
    requires
        0 <= p <= q,
    ensures
        0 <= marked_before(marks, q) - marked_before(marks, p) <= q - p,
        0 <= marked_before(marks, p) <= p,
    decreases q,
{
    if q > p {
        lemma_marked_before_grows(marks, p, q - 1);
    } else if p > 0 {
        lemma_marked_before_grows(marks, p - 1, p - 1);
    }
}

/// Only the marks before `p` count.
pub proof fn lemma_marked_before_agree(a: Seq<bool>, b: Seq<bool>, p: int)
    requires
        forall|i: int| 0 <= i < p ==> a[i] == b[i],
    ensures
        marked_before(a, p) == marked_before(b, p),
    decreases p,
{
    if p > 0 {
        lemma_marked_before_agree(a, b, p - 1);
    }
}

/// The first `m` cards of a weave are the first cards of the two packets.
proof fn lemma_woven_prefix<T>(left: Seq<T>, right: Seq<T>, marks: Seq<bool>, m: int)
    requires
        marks_fit(marks, left.len(), right.len()),
        0 <= m <= marks.len(),
    ensures
        selected(woven(left, right, marks).subrange(0, m), marks, true) == right.subrange(
            0,
            marked_before(marks, m),
        ),
        selected(woven(left, right, marks).subrange(0, m), marks, false) == left.subrange(
            0,
            m - marked_before(marks, m),
        ),
    decreases m,
{
    let merged = woven(left, right, marks);
    lemma_marked_before_grows(marks, m, marks.len() as int);
    lemma_marked_before_grows(marks, 0, m);
    if m == 0 {
        assert(selected(merged.subrange(0, m), marks, true) =~= right.subrange(0, 0));
        assert(selected(merged.subrange(0, m), marks, false) =~= left.subrange(0, 0));
    } else {
        let p = m - 1;
        let taken = marked_before(marks, p);
        lemma_woven_prefix(left, right, marks, p);
        lemma_marked_before_grows(marks, 0, p);
        assert(merged.subrange(0, m).drop_last() == merged.subrange(0, p));
        assert(merged.subrange(0, m).last() == merged[p]);
        if marks[p] {
            assert(right.subrange(0, taken).push(right[taken]) == right.subrange(0, taken + 1));
        } else {
            assert(left.subrange(0, p - taken).push(left[p - taken]) == left.subrange(
                0,
                p - taken + 1,
            ));
        }
    }
}

/// A weave is a riffle: its marked cards are the second packet, the others
/// are the first, and it holds the cards of both.
pub proof fn lemma_woven_is_a_riffle<T>(left: Seq<T>, right: Seq<T>, marks: Seq<bool>)
    requires
        marks_fit(marks, left.len(), right.len()),
    ensures
        selected(woven(left, right, marks), marks, false) == left,
        selected(woven(left, right, marks), marks, true) == right,
        interleaves(left, right, woven(left, right, marks)),
        woven(left, right, marks).to_multiset() == left.to_multiset().add(right.to_multiset()),
        woven(left, right, marks).len() == left.len() + right.len(),
{
    let merged = woven(left, right, marks);
    lemma_woven_prefix(left, right, marks, marks.len() as int);
    assert(merged.subrange(0, marks.len() as int) == merged);
    assert(right.subrange(0, right.len() as int) == right);
    assert(left.subrange(0, left.len() as int) == left);
    lemma_interleaving_keeps_cards(left, right, merged);
}

/// A riffle can be undone: lifting out the cards that came from the second
/// packet gives the first packet with the second below it.
pub proof fn lemma_lifting_undoes_riffle<T>(left: Seq<T>, right: Seq<T>, merged: Seq<T>)
    requires
        interleaves(left, right, merged),
    ensures
        exists|marks: Seq<bool>|
            marks.len() == merged.len() && #[trigger] lifted(merged, marks) == left + right,
{
    let marks = choose|marks: Seq<bool>|
        marks.len() == merged.len() && #[trigger] selected(merged, marks, false) == left
            && selected(merged, marks, true) == right;
    assert(lifted(merged, marks) == left + right);
}

/// Lifting cards out of a packet and putting them below keeps every card.
pub proof fn lemma_lifting_keeps_cards<T>(s: Seq<T>, marks: Seq<bool>)
    ensures
        same_cards(lifted(s, marks), s),
        lifted(s, marks).len() == s.len(),
{
    broadcast use vstd::seq_lib::group_to_multiset_ensures;

    lemma_selected_shares_out(s, marks);
    vstd::seq_lib::lemma_multiset_commutative(selected(s, marks, false), selected(s, marks, true));
}

/// A packet put at the end of a row adds its cards to those of the row.
pub proof fn lemma_flatten_push_cards<T>(packets: Seq<Seq<T>>, packet: Seq<T>)
    ensures
        packets.push(packet).flatten().to_multiset() == packets.flatten().to_multiset().add(
            packet.to_multiset(),
        ),
{
    packets.lemma_flatten_push(packet);
    vstd::seq_lib::lemma_multiset_commutative(packets.flatten(), packet);
}

/// A row of packets holds the cards of any one of them and those of the row
/// without it.
pub proof fn lemma_flatten_without<T>(packets: Seq<Seq<T>>, i: int)
    requires
        0 <= i < packets.len(),
    ensures
        packets.remove(i).flatten().to_multiset().add(packets[i].to_multiset())
            == packets.flatten().to_multiset(),
    decreases packets.len(),
{
    let front = packets.drop_last();
    let last = packets.last();
    assert(packets == front.push(last));
    lemma_flatten_push_cards(front, last);
    if i == packets.len() - 1 {
        assert(packets.remove(i) == front);
    } else {
        lemma_flatten_without(front, i);
        assert(packets.remove(i) == front.remove(i).push(last));
        lemma_flatten_push_cards(front.remove(i), last);
        assert(packets.remove(i).flatten().to_multiset().add(packets[i].to_multiset())
            =~= packets.flatten().to_multiset());
    }
}

/// A packet that takes the place of another in a row changes the cards of
/// the row by those two packets only.
pub proof fn lemma_flatten_update<T>(packets: Seq<Seq<T>>, i: int, packet: Seq<T>)
    requires
        0 <= i < packets.len(),
    ensures
        packets.update(i, packet).flatten().to_multiset().add(packets[i].to_multiset())
            == packets.flatten().to_multiset().add(packet.to_multiset()),
{
    lemma_flatten_without(packets, i);
    lemma_flatten_without(packets.update(i, packet), i);
    assert(packets.update(i, packet).remove(i) == packets.remove(i));
    assert(packets.update(i, packet).flatten().to_multiset().add(packets[i].to_multiset())
        =~= packets.flatten().to_multiset().add(packet.to_multiset()));
}

/// Rows of the same packets, in whatever order, hold the same cards.
pub proof fn lemma_rearranged_flatten<T>(a: Seq<Seq<T>>, b: Seq<Seq<T>>)
    requires
        a.to_multiset() == b.to_multiset(),
    ensures
        a.flatten().to_multiset() == b.flatten().to_multiset(),
    decreases a.len(),
{
    broadcast use vstd::seq_lib::group_to_multiset_ensures;

    if a.len() == 0 {
        assert(a.to_multiset().len() == a.len());
        assert(b.to_multiset().len() == b.len());
        assert(a =~= b);
    } else {
        let x = a.last();
        assert(a == a.drop_last().push(x));
        assert(a.to_multiset().count(x) > 0);
        assert(b.contains(x));
        let j = choose|j: int| 0 <= j < b.len() && b[j] == x;
        assert(a.drop_last().to_multiset() =~= a.to_multiset().remove(x));
        assert(b.remove(j).to_multiset() == b.to_multiset().remove(x));
        lemma_rearranged_flatten(a.drop_last(), b.remove(j));
        lemma_flatten_push_cards(a.drop_last(), x);
        lemma_flatten_without(b, j);
    }
}

/// What is made item by item from two sequences of the same items is the
/// same, but for the order.
pub proof fn lemma_rearranged_map<A, B>(a: Seq<A>, b: Seq<A>, f: spec_fn(A) -> B)
    requires
        a.to_multiset() == b.to_multiset(),
    ensures
        a.map_values(f).to_multiset() == b.map_values(f).to_multiset(),
    decreases a.len(),
{
    broadcast use vstd::seq_lib::group_to_multiset_ensures;

    if a.len() == 0 {
        assert(a.to_multiset().len() == a.len());
        assert(b.to_multiset().len() == b.len());
        assert(a.map_values(f) =~= b.map_values(f));
    } else {
        let x = a.last();
        assert(a == a.drop_last().push(x));
        assert(a.to_multiset().count(x) > 0);
        assert(b.contains(x));
        let j = choose|j: int| 0 <= j < b.len() && b[j] == x;
        assert(a.drop_last().to_multiset() =~= a.to_multiset().remove(x));
        assert(b.remove(j).to_multiset() == b.to_multiset().remove(x));
        lemma_rearranged_map(a.drop_last(), b.remove(j), f);
        assert(a.map_values(f) =~= a.drop_last().map_values(f).push(f(x)));
        assert(b.map_values(f).remove(j) =~= b.remove(j).map_values(f));
        assert(b.map_values(f).remove(j).to_multiset() == b.map_values(f).to_multiset().remove(
            f(x),
        ));
        assert(b.map_values(f).to_multiset().count(f(x)) > 0) by {
            assert(b.map_values(f)[j] == f(x));
            assert(b.map_values(f).contains(f(x)));
        }
        assert(a.map_values(f).to_multiset() =~= b.map_values(f).to_multiset());
    }
}

} // verus!
