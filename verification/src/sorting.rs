//! Arranging a hand: by suit (Clubs, Diamonds, Hearts, Spades), and within
//! a suit from the weakest to the strongest value of a given order.
use vstd::prelude::*;
use vstd::relations::{sorted_by, total_ordering};
use vstd::seq_lib::lemma_sorted_unique;
use crate::cards::{
    Card, CardSuits, CardValue, cards_actual_value, is_value_order, lemma_order_position,
    lemma_order_position_injective, order_position, suit_index,
};

verus! {

broadcast use vstd::seq_lib::group_to_multiset_ensures, vstd::multiset::group_multiset_axioms;

/// The key by which a hand is arranged: suit first, then place in `order`.
pub open spec fn hand_key(c: Card, order: Seq<CardValue>) -> int {
    (suit_index(c.suit) * 8 + order_position(order, c.value)) as int
}

/// `a` comes no later than `b` in a hand arranged by `order`.
pub open spec fn hand_leq(order: Seq<CardValue>) -> spec_fn(Card, Card) -> bool {
    |a: Card, b: Card| hand_key(a, order) <= hand_key(b, order)
}

/// `a` is no stronger than `b` in `order`, whatever the suits.
pub open spec fn value_leq(order: Seq<CardValue>) -> spec_fn(Card, Card) -> bool {
    |a: Card, b: Card| order_position(order, a.value) <= order_position(order, b.value)
}

pub open spec fn suit_pred(s: CardSuits) -> spec_fn(Card) -> bool {
    |c: Card| c.suit == s
}

pub open spec fn suit_at(i: int) -> CardSuits {
    if i == 0 {
        CardSuits::Clubs
    } else if i == 1 {
        CardSuits::Diamonds
    } else if i == 2 {
        CardSuits::Hearts
    } else {
        CardSuits::Spades
    }
}

/// The cards of the first `k` suits, suit by suit, each in the order of `h`.
pub open spec fn group_by_suits(h: Seq<Card>, k: int) -> Seq<Card>
    decreases k,
{
    if k <= 0 {
        Seq::empty()
    } else {
        group_by_suits(h, k - 1) + h.filter(suit_pred(suit_at(k - 1)))
    }
}

/// The four suits in grouping order.
pub fn all_suits() -> (suits: [CardSuits; 4])
    ensures
        forall|i: int| 0 <= i < 4 ==> suits@[i] == suit_at(i),
        suits@.len() == 4,
{
    [CardSuits::Clubs, CardSuits::Diamonds, CardSuits::Hearts, CardSuits::Spades]
}

proof fn lemma_swap_multiset(s: Seq<Card>, i: int, j: int)
    requires
        0 <= i < s.len(),
        0 <= j < s.len(),
    ensures
        s.update(i, s[j]).update(j, s[i]).to_multiset() == s.to_multiset(),
{
    let t = s.update(i, s[j]);
    assert(t.to_multiset() == s.to_multiset().insert(s[j]).remove(s[i]));
    assert(t.update(j, s[i]).to_multiset() == t.to_multiset().insert(s[i]).remove(t[j]));
    if i == j {
        assert(t =~= s);
        assert(t.update(j, s[i]) =~= s);
    } else {
        assert(t[j] == s[j]);
        assert(s.to_multiset().insert(s[j]).remove(s[i]).insert(s[i]).remove(s[j]) =~= s.to_multiset());
    }
}

pub proof fn lemma_filter_take_step(h: Seq<Card>, p: spec_fn(Card) -> bool, i: int)
    requires
        0 <= i < h.len(),
    ensures
        h.take(i + 1).filter(p) == (if p(h[i]) {
            h.take(i).filter(p).push(h[i])
        } else {
            h.take(i).filter(p)
        }),
{
    reveal(Seq::filter);
    assert(h.take(i + 1).drop_last() =~= h.take(i));
    assert(h.take(i + 1).last() == h[i]);
}

pub proof fn lemma_filter_count(h: Seq<Card>, p: spec_fn(Card) -> bool, x: Card)
    ensures
        h.filter(p).to_multiset().count(x) == (if p(x) {
            h.to_multiset().count(x)
        } else {
            0
        }),
    decreases h.len(),
{
    reveal(Seq::filter);
    if h.len() > 0 {
        lemma_filter_count(h.drop_last(), p, x);
        assert(h =~= h.drop_last().push(h.last()));
        if p(h.last()) {
            assert(h.filter(p) == h.drop_last().filter(p).push(h.last()));
        }
    }
}

proof fn lemma_group_count(h: Seq<Card>, k: int, x: Card)
    requires
        0 <= k <= 4,
    ensures
        group_by_suits(h, k).to_multiset().count(x) == (if suit_index(x.suit) < k {
            h.to_multiset().count(x)
        } else {
            0
        }),
    decreases k,
{
    if k > 0 {
        lemma_group_count(h, k - 1, x);
        lemma_filter_count(h, suit_pred(suit_at(k - 1)), x);
        vstd::seq_lib::lemma_multiset_commutative(
            group_by_suits(h, k - 1),
            h.filter(suit_pred(suit_at(k - 1))),
        );
    }
}

/// Grouping all four suits keeps every card exactly as often as it was.
pub proof fn lemma_group_multiset(h: Seq<Card>)
    ensures
        group_by_suits(h, 4).to_multiset() == h.to_multiset(),
{
    assert forall|x: Card|
        group_by_suits(h, 4).to_multiset().count(x) == h.to_multiset().count(x) by {
        lemma_group_count(h, 4, x);
    }
    assert(group_by_suits(h, 4).to_multiset() =~= h.to_multiset());
}

proof fn lemma_filter_sorted(h: Seq<Card>, p: spec_fn(Card) -> bool, leq: spec_fn(Card, Card) -> bool)
    requires
        sorted_by(h, leq),
    ensures
        sorted_by(h.filter(p), leq),
        forall|i: int| 0 <= i < h.filter(p).len() ==> h.contains(#[trigger] h.filter(p)[i]),
        forall|i: int| 0 <= i < h.filter(p).len() ==> p(#[trigger] h.filter(p)[i]),
    decreases h.len(),
{
    reveal(Seq::filter);
    if h.len() > 0 {
        let d = h.drop_last();
        assert(sorted_by(d, leq));
        lemma_filter_sorted(d, p, leq);
        assert forall|i: int| 0 <= i < h.filter(p).len() implies h.contains(#[trigger] h.filter(p)[i]) by {
            if i < d.filter(p).len() {
                let y = d.filter(p)[i];
                assert(d.contains(y));
                let k = choose|k: int| 0 <= k < d.len() && d[k] == y;
                assert(h[k] == y);
            } else {
                assert(h[h.len() - 1] == h.last());
            }
        }
        if p(h.last()) {
            let f = h.filter(p);
            assert forall|i: int, j: int| 0 <= i < j < f.len() implies #[trigger] leq(f[i], f[j]) by {
                if j == f.len() - 1 {
                    let y = d.filter(p)[i];
                    assert(d.contains(y));
                    let k = choose|k: int| 0 <= k < d.len() && d[k] == y;
                    assert(leq(h[k], h[h.len() - 1]));
                }
            }
        }
    }
}

proof fn lemma_group_sorted(h: Seq<Card>, order: Seq<CardValue>, k: int)
    requires
        0 <= k <= 4,
        sorted_by(h, value_leq(order)),
        is_value_order(order),
    ensures
        sorted_by(group_by_suits(h, k), hand_leq(order)),
        forall|i: int|
            0 <= i < group_by_suits(h, k).len() ==> suit_index(
                #[trigger] group_by_suits(h, k)[i].suit,
            ) < k,
    decreases k,
{
    if k > 0 {
        lemma_group_sorted(h, order, k - 1);
        let g = group_by_suits(h, k - 1);
        let p = suit_pred(suit_at(k - 1));
        let f = h.filter(p);
        lemma_filter_sorted(h, p, value_leq(order));
        let r = group_by_suits(h, k);
        assert(r == g + f);
        assert forall|i: int| 0 <= i < f.len() implies suit_index(#[trigger] f[i].suit) == k - 1 by {
            assert(p(f[i]));
        }
        assert forall|i: int| 0 <= i < r.len() implies suit_index(#[trigger] r[i].suit) < k by {
            if i >= g.len() {
                assert(r[i] == f[i - g.len()]);
            }
        }
        assert forall|i: int, j: int| 0 <= i < j < r.len() implies #[trigger] hand_leq(order)(
            r[i],
            r[j],
        ) by {
            if j < g.len() {
                assert(r[i] == g[i] && r[j] == g[j]);
                assert(hand_leq(order)(g[i], g[j]));
            } else if i >= g.len() {
                assert(r[i] == f[i - g.len()] && r[j] == f[j - g.len()]);
                assert(value_leq(order)(f[i - g.len()], f[j - g.len()]));
            } else {
                assert(r[i] == g[i] && r[j] == f[j - g.len()]);
                assert(suit_index(f[j - g.len()].suit) == k - 1);
                assert(suit_index(g[i].suit) < k - 1);
                assert(order.contains(r[i].value));
                lemma_order_position(order, r[i].value);
            }
        }
    }
}

/// The arrangement order of a complete value order is a total order on cards.
pub proof fn lemma_hand_leq_total(order: Seq<CardValue>)
    requires
        is_value_order(order),
    ensures
        total_ordering(hand_leq(order)),
{
    assert forall|a: Card, b: Card|
        #[trigger] hand_leq(order)(a, b) && #[trigger] hand_leq(order)(b, a) implies a == b by {
        assert(order.contains(a.value));
        assert(order.contains(b.value));
        lemma_order_position(order, a.value);
        lemma_order_position(order, b.value);
        assert(hand_key(a, order) == hand_key(b, order));
        let sa = suit_index(a.suit);
        let sb = suit_index(b.suit);
        if sa < sb {
            assert(sa * 8 + 8 <= sb * 8);
        } else if sb < sa {
            assert(sb * 8 + 8 <= sa * 8);
        }
        assert(sa == sb);
        assert(a.suit == b.suit);
        lemma_order_position_injective(order, a.value, b.value);
    }
}

/// Two hands arranged by the same complete order and holding the same cards
/// are the same sequence: arranging determines the result.
pub proof fn lemma_arranged_unique(x: Seq<Card>, y: Seq<Card>, order: Seq<CardValue>)
    requires
        is_value_order(order),
        sorted_by(x, hand_leq(order)),
        sorted_by(y, hand_leq(order)),
        x.to_multiset() == y.to_multiset(),
    ensures
        x == y,
{
    lemma_hand_leq_total(order);
    lemma_sorted_unique(x, y, hand_leq(order));
}

/// `hand` arranged by `order`: grouped by suit, each suit from the weakest
/// to the strongest value.
pub open spec fn arranged(hand: Seq<Card>, order: Seq<CardValue>) -> Seq<Card> {
    choose|h: Seq<Card>| sorted_by(h, hand_leq(order)) && h.to_multiset() == hand.to_multiset()
}

/// Every hand has an arrangement, and it holds the same cards.
pub proof fn lemma_arranged_exists(hand: Seq<Card>, order: Seq<CardValue>)
    requires
        is_value_order(order),
    ensures
        sorted_by(arranged(hand, order), hand_leq(order)),
        arranged(hand, order).to_multiset() == hand.to_multiset(),
{
    let w = hand.sort_by(hand_leq(order));
    lemma_hand_leq_total(order);
    hand.lemma_sort_by_ensures(hand_leq(order));
    assert(sorted_by(w, hand_leq(order)) && w.to_multiset() == hand.to_multiset());
}

pub proof fn lemma_sorted_is_arranged(h: Seq<Card>, hand: Seq<Card>, order: Seq<CardValue>)
    requires
        is_value_order(order),
        sorted_by(h, hand_leq(order)),
        h.to_multiset() == hand.to_multiset(),
    ensures
        h == arranged(hand, order),
{
    let a = arranged(hand, order);
    assert(sorted_by(a, hand_leq(order)) && a.to_multiset() == hand.to_multiset());
    lemma_arranged_unique(h, a, order);
}

/// Arranging an arranged hand leaves it as it is.
pub proof fn lemma_arrange_idempotent(hand: Seq<Card>, order: Seq<CardValue>)
    requires
        is_value_order(order),
    ensures
        arranged(arranged(hand, order), order) == arranged(hand, order),
{
    lemma_arranged_exists(hand, order);
    lemma_sorted_is_arranged(arranged(hand, order), arranged(hand, order), order);
}

/// How a hand is arranged depends only on which cards it holds, not on
/// their order.
pub proof fn lemma_arranged_same_cards(x: Seq<Card>, y: Seq<Card>, order: Seq<CardValue>)
    requires
        is_value_order(order),
        x.to_multiset() == y.to_multiset(),
    ensures
        arranged(x, order) == arranged(y, order),
{
    lemma_arranged_exists(x, order);
    lemma_sorted_is_arranged(arranged(x, order), y, order);
}

/// Index of the first card of `s[start..j]` with the weakest value in
/// `order` (the earliest one among equals).
pub open spec fn weakest_from(s: Seq<Card>, order: Seq<CardValue>, start: int, j: int) -> int
    decreases j - start,
{
    if j <= start + 1 {
        start
    } else {
        let m = weakest_from(s, order, start, j - 1);
        if order_position(order, s[j - 1].value) < order_position(order, s[m].value) {
            j - 1
        } else {
            m
        }
    }
}

/// The first weakest card lies in the range searched.
pub proof fn lemma_weakest_in_range(s: Seq<Card>, order: Seq<CardValue>, start: int, j: int)
    requires
        start < j,
    ensures
        start <= weakest_from(s, order, start, j) < j,
    decreases j - start,
{
    if j > start + 1 {
        lemma_weakest_in_range(s, order, start, j - 1);
    }
}

/// Selection sort from position `i` on: the weakest card of what is left
/// (the first among equals) is swapped into place `i`, then on to `i + 1`.
pub open spec fn selection_from(s: Seq<Card>, order: Seq<CardValue>, i: int) -> Seq<Card>
    decreases s.len() - i,
{
    if i < 0 || i >= s.len() {
        s
    } else {
        let m = weakest_from(s, order, i, s.len() as int);
        proof {
            lemma_weakest_in_range(s, order, i, s.len() as int);
        }
        selection_from(s.update(i, s[m]).update(m, s[i]), order, i + 1)
    }
}

/// Sorts `hand` in place by value (weakest first) and returns its cards
/// grouped by suit, each suit from weakest to strongest.
pub fn sort_hand(hand: &mut Vec<Card>, sort_way: [CardValue; 8]) -> (sorted: Vec<Card>)
    requires
        is_value_order(sort_way@),
    ensures
        final(hand)@.to_multiset() == old(hand)@.to_multiset(),
        sorted_by(final(hand)@, value_leq(sort_way@)),
        final(hand)@ == selection_from(old(hand)@, sort_way@, 0),
        sorted@ == group_by_suits(final(hand)@, 4),
        sorted@.to_multiset() == old(hand)@.to_multiset(),
        sorted_by(sorted@, hand_leq(sort_way@)),
        sorted@ == arranged(old(hand)@, sort_way@),
{
    let ghost order = sort_way@;
    let ghost orig = hand@;
    let mut ranks = cards_actual_value(hand, sort_way);
    let n = hand.len();
    let mut index: usize = 0;
    while index < n
        invariant
            index <= n,
            order == sort_way@,
            hand@.len() == n,
            ranks@.len() == n,
            forall|k: int| 0 <= k < n ==> ranks@[k] == order_position(order, #[trigger] hand@[k].value),
            hand@.to_multiset() == orig.to_multiset(),
            forall|a: int, b: int| 0 <= a < b < index ==> ranks@[a] <= ranks@[b],
            forall|a: int, b: int| 0 <= a < index <= b < n ==> ranks@[a] <= ranks@[b],
            selection_from(hand@, order, index as int) == selection_from(orig, order, 0),
        decreases n - index,
    {
        let mut smallest = ranks[index];
        let mut temp_j = index;
        let mut j = index + 1;
        while j < n
            invariant
                index < n,
                index + 1 <= j <= n,
                ranks@.len() == n,
                index <= temp_j < j,
                smallest == ranks@[temp_j as int],
                forall|k: int| index <= k < j ==> smallest <= ranks@[k],
                hand@.len() == n,
                forall|k: int| 0 <= k < n ==> ranks@[k] == order_position(order, #[trigger] hand@[k].value),
                temp_j == weakest_from(hand@, order, index as int, j as int),
            decreases n - j,
        {
            if smallest > ranks[j] {
                smallest = ranks[j];
                temp_j = j;
            }
            j = j + 1;
        }
        let ghost before = hand@;
        let ghost rbefore = ranks@;
        let temp = hand[index];
        let other = hand[temp_j];
        hand.set(index, other);
        hand.set(temp_j, temp);
        let temp_rank = ranks[index];
        let other_rank = ranks[temp_j];
        ranks.set(index, other_rank);
        ranks.set(temp_j, temp_rank);
        proof {
            assert(hand@ == before.update(index as int, before[temp_j as int]).update(
                temp_j as int,
                before[index as int],
            ));
            lemma_swap_multiset(before, index as int, temp_j as int);
            assert forall|k: int| 0 <= k < n implies ranks@[k] == order_position(
                order,
                #[trigger] hand@[k].value,
            ) by {
                if k == index as int {
                    assert(rbefore[temp_j as int] == order_position(order, before[temp_j as int].value));
                } else if k == temp_j as int {
                    assert(rbefore[index as int] == order_position(order, before[index as int].value));
                } else {
                    assert(rbefore[k] == order_position(order, before[k].value));
                }
            }
        }
        index = index + 1;
    }
    proof {
        assert forall|a: int, b: int| 0 <= a < b < hand@.len() implies #[trigger] value_leq(order)(
            hand@[a],
            hand@[b],
        ) by {
            assert(ranks@[a] == order_position(order, hand@[a].value));
            assert(ranks@[b] == order_position(order, hand@[b].value));
        }
    }
    let suits = all_suits();
    let mut sorted_suit_hand: Vec<Card> = Vec::new();
    let mut si: usize = 0;
    while si < 4
        invariant
            si <= 4,
            hand@.len() == n,
            forall|i: int| 0 <= i < 4 ==> suits@[i] == suit_at(i),
            suits@.len() == 4,
            sorted_suit_hand@ == group_by_suits(hand@, si as int),
        decreases 4 - si,
    {
        let spec_suit = suits[si];
        let mut ci: usize = 0;
        while ci < n
            invariant
                si < 4,
                ci <= n,
                hand@.len() == n,
                spec_suit == suit_at(si as int),
                sorted_suit_hand@ == group_by_suits(hand@, si as int) + hand@.take(
                    ci as int,
                ).filter(suit_pred(spec_suit)),
            decreases n - ci,
        {
            proof {
                lemma_filter_take_step(hand@, suit_pred(spec_suit), ci as int);
            }
            let card = hand[ci];
            if card.suit == spec_suit {
                sorted_suit_hand.push(card);
            }
            ci = ci + 1;
        }
        proof {
            assert(hand@.take(n as int) =~= hand@);
        }
        si = si + 1;
    }
    proof {
        lemma_group_multiset(hand@);
        lemma_group_sorted(hand@, order, 4);
        lemma_sorted_is_arranged(sorted_suit_hand@, orig, order);
    }
    sorted_suit_hand
}

} // verus!
