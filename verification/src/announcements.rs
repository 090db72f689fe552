//! Announcements made from a hand: sequences of consecutive cards of a suit
//! (tierce, quarte, quinte, ...) and carrés (four cards of one value).
use vstd::prelude::*;
use crate::cards::{
    Card, CardSuits, CardValue, cards_actual_value, lemma_fixed_orders, regular_order,
    regular_order_seq, regular_rank,
};
use crate::sorting::{arranged, lemma_sorted_is_arranged, sort_hand, suit_at};

verus! {

/// Card `i` of `h` directly continues card `i - 1`: same suit, next value.
pub open spec fn continues(h: Seq<Card>, i: int) -> bool {
    &&& 0 < i < h.len()
    &&& h[i - 1].suit == h[i].suit
    &&& regular_rank(h[i - 1].value) + 1 == regular_rank(h[i].value)
}

/// Length of the run of consecutive cards that ends at card `i`.
pub open spec fn run_len(h: Seq<Card>, i: int) -> nat
    decreases i,
{
    if i > 0 && continues(h, i) {
        run_len(h, i - 1) + 1
    } else {
        1
    }
}

/// Card `i` is the last card of a run.
pub open spec fn run_end(h: Seq<Card>, i: int) -> bool {
    &&& 0 <= i < h.len()
    &&& (i == h.len() - 1 || !continues(h, i + 1))
}

/// The run ending at `i` is the longest run of suit `s` in `h`, and the
/// first one of that length.
pub open spec fn is_best_run(h: Seq<Card>, s: CardSuits, i: int) -> bool {
    &&& run_end(h, i)
    &&& h[i].suit == s
    &&& forall|j: int|
        #![trigger run_end(h, j)]
        run_end(h, j) && h[j].suit == s ==> run_len(h, j) < run_len(h, i) || (run_len(h, j)
            == run_len(h, i) && i <= j)
}

/// Suit `s` holds a run of at least three cards in `h`.
pub open spec fn has_sequence(h: Seq<Card>, s: CardSuits) -> bool {
    exists|i: int| #![trigger run_end(h, i)] run_end(h, i) && h[i].suit == s && run_len(h, i) >= 3
}

pub open spec fn best_run(h: Seq<Card>, s: CardSuits) -> int {
    choose|i: int| is_best_run(h, s, i)
}

/// Lengths of the longest sequences of the first `k` suits that have one.
pub open spec fn sequence_lengths(h: Seq<Card>, k: int) -> Seq<usize>
    decreases k,
{
    if k <= 0 {
        Seq::empty()
    } else if has_sequence(h, suit_at(k - 1)) {
        sequence_lengths(h, k - 1).push(run_len(h, best_run(h, suit_at(k - 1))) as usize)
    } else {
        sequence_lengths(h, k - 1)
    }
}

/// Highest cards of the longest sequences of the first `k` suits that have one.
pub open spec fn sequence_tops(h: Seq<Card>, k: int) -> Seq<Card>
    decreases k,
{
    if k <= 0 {
        Seq::empty()
    } else if has_sequence(h, suit_at(k - 1)) {
        sequence_tops(h, k - 1).push(h[best_run(h, suit_at(k - 1))])
    } else {
        sequence_tops(h, k - 1)
    }
}

/// The hand arranged by suit and natural value, as sequences are read.
pub open spec fn regular_arrangement(hand: Seq<Card>) -> Seq<Card> {
    arranged(hand, regular_order_seq())
}

proof fn lemma_run_len_bound(h: Seq<Card>, i: int)
    requires
        0 <= i,
    ensures
        1 <= run_len(h, i) <= i + 1,
    decreases i,
{
    if i > 0 && continues(h, i) {
        lemma_run_len_bound(h, i - 1);
    }
}

proof fn lemma_best_unique(h: Seq<Card>, s: CardSuits, i: int)
    requires
        is_best_run(h, s, i),
    ensures
        best_run(h, s) == i,
{
    let b = best_run(h, s);
    assert(is_best_run(h, s, b));
    assert(run_end(h, i));
    assert(run_end(h, b));
}

/// The best run end of suit `s` among the first `bound` cards (-1 if none).
spec fn best_below(h: Seq<Card>, s: CardSuits, bound: int) -> int
    decreases bound,
{
    if bound <= 0 {
        -1
    } else {
        let b = best_below(h, s, bound - 1);
        let k = bound - 1;
        if run_end(h, k) && h[k].suit == s && (b < 0 || run_len(h, k) > run_len(h, b)) {
            k
        } else {
            b
        }
    }
}

proof fn lemma_best_below(h: Seq<Card>, s: CardSuits, bound: int)
    requires
        0 <= bound <= h.len(),
    ensures
        ({
            let b = best_below(h, s, bound);
            &&& -1 <= b < bound
            &&& b == -1 ==> forall|i: int|
                #![trigger run_end(h, i)]
                0 <= i < bound && run_end(h, i) ==> h[i].suit != s
            &&& b >= 0 ==> run_end(h, b) && h[b].suit == s
            &&& b >= 0 ==> forall|i: int|
                #![trigger run_end(h, i)]
                0 <= i < bound && run_end(h, i) && h[i].suit == s ==> run_len(h, i) < run_len(h, b)
                    || (run_len(h, i) == run_len(h, b) && b <= i)
        }),
    decreases bound,
{
    if bound > 0 {
        lemma_best_below(h, s, bound - 1);
    }
}

/// When a suit has a run, it has a longest one.
proof fn lemma_best_exists(h: Seq<Card>, s: CardSuits, j: int)
    requires
        run_end(h, j),
        h[j].suit == s,
    ensures
        is_best_run(h, s, best_run(h, s)),
{
    lemma_best_below(h, s, h.len() as int);
    let b = best_below(h, s, h.len() as int);
    assert(run_end(h, j));
    assert(is_best_run(h, s, b));
}

fn copy_cards(v: &Vec<Card>) -> (copy: Vec<Card>)
    ensures
        copy@ == v@,
{
    let mut copy: Vec<Card> = Vec::new();
    let mut i: usize = 0;
    while i < v.len()
        invariant
            i <= v@.len(),
            copy@ == v@.take(i as int),
        decreases v@.len() - i,
    {
        copy.push(v[i]);
        i = i + 1;
        proof {
            assert(copy@ =~= v@.take(i as int));
        }
    }
    proof {
        assert(v@.take(v@.len() as int) =~= v@);
    }
    copy
}

/// Two cards of suit `s` sit side by side among the first `i` cards of `h`.
pub open spec fn pair_below(h: Seq<Card>, s: CardSuits, i: int) -> bool {
    exists|k: int| 0 < k < i && #[trigger] h[k - 1].suit == s && h[k].suit == s
}

/// Two cards of suit `s` sit side by side in `h`.
pub open spec fn has_pair(h: Seq<Card>, s: CardSuits) -> bool {
    pair_below(h, s, h.len() as int)
}

/// What a hand shows of suit `s` when its suits are read one by one: the
/// longest run of the suit and that run's highest card, or, for a suit of
/// fewer than two cards, a run of one and the hand's second card.
pub open spec fn slot_len(h: Seq<Card>, s: CardSuits) -> usize {
    if has_pair(h, s) {
        run_len(h, best_run(h, s)) as usize
    } else {
        1
    }
}

pub open spec fn slot_top(h: Seq<Card>, s: CardSuits) -> Card {
    if has_pair(h, s) {
        h[best_run(h, s)]
    } else {
        h[1]
    }
}

/// The four suits' entries, Clubs, Diamonds, Hearts, Spades.
#[verifier::opaque]
pub open spec fn slot_lengths(h: Seq<Card>) -> Seq<usize> {
    seq![
        slot_len(h, CardSuits::Clubs),
        slot_len(h, CardSuits::Diamonds),
        slot_len(h, CardSuits::Hearts),
        slot_len(h, CardSuits::Spades),
    ]
}

#[verifier::opaque]
pub open spec fn slot_tops(h: Seq<Card>) -> Seq<Card> {
    seq![
        slot_top(h, CardSuits::Clubs),
        slot_top(h, CardSuits::Diamonds),
        slot_top(h, CardSuits::Hearts),
        slot_top(h, CardSuits::Spades),
    ]
}

/// From a card of suit `s`, the run it belongs to ends at a card of suit `s`.
proof fn lemma_run_end_after(h: Seq<Card>, k: int)
    requires
        0 <= k < h.len(),
    ensures
        exists|j: int| #![trigger run_end(h, j)] k <= j && run_end(h, j) && h[j].suit == h[k].suit,
    decreases h.len() - k,
{
    if run_end(h, k) {
    } else {
        lemma_run_end_after(h, k + 1);
        let j = choose|j: int|
            #![trigger run_end(h, j)]
            k + 1 <= j && run_end(h, j) && h[j].suit == h[k + 1].suit;
        assert(run_end(h, j));
    }
}

/// For each suit (in grouping order) of an arranged hand `h`: the length of
/// its best run (0 if the suit has no card), the run's highest card, and
/// whether two cards of the suit sit side by side.
fn best_runs(h: &Vec<Card>) -> (res: (Vec<usize>, Vec<Card>, Vec<bool>))
    ensures
        res.0@.len() == 4,
        res.1@.len() == 4,
        res.2@.len() == 4,
        forall|s: int| 0 <= s < 4 ==> #[trigger] res.2@[s] == has_pair(h@, suit_at(s)),
        forall|s: int| 0 <= s < 4 && res.2@[s] ==> #[trigger] res.0@[s] > 0,
        forall|s: int|
            0 <= s < 4 && #[trigger] res.0@[s] > 0 ==> {
                &&& is_best_run(h@, suit_at(s), best_run(h@, suit_at(s)))
                &&& res.0@[s] == run_len(h@, best_run(h@, suit_at(s)))
                &&& res.1@[s] == h@[best_run(h@, suit_at(s))]
            },
        forall|s: int|
            0 <= s < 4 && #[trigger] res.0@[s] == 0 ==> forall|j: int|
                #![trigger run_end(h@, j)]
                run_end(h@, j) ==> h@[j].suit != suit_at(s),
{
    let ghost hs = h@;
    proof {
        lemma_fixed_orders(CardValue::Seven);
    }
    let ranks = cards_actual_value(h, regular_order());
    let n = h.len();
    proof {
        assert forall|k: int| 0 <= k < n implies ranks@[k] == regular_rank(#[trigger] hs[k].value) by {
            lemma_fixed_orders(hs[k].value);
        }
    }
    let mut best_len: Vec<usize> = vec![0, 0, 0, 0];
    let mut best_card: Vec<Card> = vec![
        Card { value: CardValue::Seven, suit: CardSuits::Clubs },
        Card { value: CardValue::Seven, suit: CardSuits::Clubs },
        Card { value: CardValue::Seven, suit: CardSuits::Clubs },
        Card { value: CardValue::Seven, suit: CardSuits::Clubs },
    ];
    let mut pairs: Vec<bool> = vec![false, false, false, false];
    let ghost mut best_idx: Seq<int> = seq![0, 0, 0, 0];
    let mut cur: usize = 0;
    let mut i: usize = 0;
    while i < n
        invariant
            i <= n,
            n == hs.len(),
            h@ == hs,
            ranks@.len() == n,
            forall|k: int| 0 <= k < n ==> ranks@[k] == regular_rank(#[trigger] hs[k].value),
            i > 0 ==> cur == run_len(hs, i - 1),
            best_len@.len() == 4,
            best_card@.len() == 4,
            pairs@.len() == 4,
            best_idx.len() == 4,
            forall|s: int| 0 <= s < 4 ==> #[trigger] pairs@[s] == pair_below(hs, suit_at(s), i as int),
            forall|s: int|
                0 <= s < 4 ==> {
                    &&& #[trigger] best_len@[s] > 0 ==> {
                        &&& 0 <= best_idx[s] < i
                        &&& run_end(hs, best_idx[s])
                        &&& hs[best_idx[s]].suit == suit_at(s)
                        &&& run_len(hs, best_idx[s]) == best_len@[s]
                        &&& best_card@[s] == hs[best_idx[s]]
                    }
                    &&& forall|j: int|
                        #![trigger run_end(hs, j)]
                        0 <= j < i && run_end(hs, j) && hs[j].suit == suit_at(s) ==> best_len@[s]
                            > 0 && (run_len(hs, j) < best_len@[s] || (run_len(hs, j)
                            == best_len@[s] && best_idx[s] <= j))
                },
        decreases n - i,
    {
        proof {
            lemma_run_len_bound(hs, i as int);
        }
        let s: usize = match h[i].suit {
            CardSuits::Clubs => 0,
            CardSuits::Diamonds => 1,
            CardSuits::Hearts => 2,
            CardSuits::Spades => 3,
        };
        proof {
            assert(suit_at(s as int) == hs[i as int].suit);
        }
        let ghost old_pairs = pairs@;
        if i > 0 && h[i - 1].suit == h[i].suit {
            pairs.set(s, true);
        }
        proof {
            assert forall|t: int| 0 <= t < 4 implies #[trigger] pairs@[t] == pair_below(
                hs,
                suit_at(t),
                i + 1,
            ) by {
                if pair_below(hs, suit_at(t), i + 1) && !pair_below(hs, suit_at(t), i as int) {
                    let k = choose|k: int|
                        0 < k < i + 1 && #[trigger] hs[k - 1].suit == suit_at(t) && hs[k].suit
                            == suit_at(t);
                    assert(k == i);
                    assert(t == s);
                }
                if i > 0 && hs[i - 1].suit == hs[i as int].suit && t == s {
                    assert(hs[(i as int) - 1].suit == suit_at(t));
                }
            }
        }
        if i > 0 && h[i - 1].suit == h[i].suit && ranks[i - 1] + 1 == ranks[i] {
            cur = cur + 1;
        } else {
            cur = 1;
        }
        proof {
            assert(ranks@[i as int] == regular_rank(hs[i as int].value));
        }
        let is_end = i + 1 == n || !(h[i].suit == h[i + 1].suit && ranks[i] + 1 == ranks[i + 1]);
        if is_end {
            proof {
                assert(run_end(hs, i as int));
            }
            if cur > best_len[s] {
                best_len.set(s, cur);
                best_card.set(s, h[i]);
                proof {
                    best_idx = best_idx.update(s as int, i as int);
                }
            }
        }
        proof {
            assert forall|t: int| #![trigger best_len@[t]] 0 <= t < 4 implies {
                forall|j: int|
                    #![trigger run_end(hs, j)]
                    0 <= j < i + 1 && run_end(hs, j) && hs[j].suit == suit_at(t) ==> best_len@[t]
                        > 0 && (run_len(hs, j) < best_len@[t] || (run_len(hs, j) == best_len@[t]
                        && best_idx[t] <= j))
            } by {
                assert forall|j: int|
                    #![trigger run_end(hs, j)]
                    0 <= j < i + 1 && run_end(hs, j) && hs[j].suit == suit_at(t) implies best_len@[t]
                        > 0 && (run_len(hs, j) < best_len@[t] || (run_len(hs, j) == best_len@[t]
                        && best_idx[t] <= j)) by {
                    if j == i {
                        assert(is_end);
                    }
                }
            }
        }
        i = i + 1;
    }
    proof {
        assert forall|s: int| 0 <= s < 4 && pairs@[s] implies #[trigger] best_len@[s] > 0 by {
            let k = choose|k: int|
                0 < k < n && #[trigger] hs[k - 1].suit == suit_at(s) && hs[k].suit == suit_at(s);
            lemma_run_end_after(hs, k);
            let j = choose|j: int|
                #![trigger run_end(hs, j)]
                k <= j && run_end(hs, j) && hs[j].suit == hs[k].suit;
            assert(run_end(hs, j));
        }
        assert forall|s: int| 0 <= s < 4 && #[trigger] best_len@[s] > 0 implies {
            &&& is_best_run(hs, suit_at(s), best_run(hs, suit_at(s)))
            &&& best_len@[s] == run_len(hs, best_run(hs, suit_at(s)))
            &&& best_card@[s] == hs[best_run(hs, suit_at(s))]
        } by {
            assert(is_best_run(hs, suit_at(s), best_idx[s]));
            lemma_best_unique(hs, suit_at(s), best_idx[s]);
        }
        assert forall|s: int| 0 <= s < 4 && #[trigger] best_len@[s] == 0 implies forall|j: int|
            #![trigger run_end(hs, j)]
            run_end(hs, j) ==> hs[j].suit != suit_at(s) by {
            assert forall|j: int| #![trigger run_end(hs, j)] run_end(hs, j) implies hs[j].suit
                != suit_at(s) by {
                assert(0 <= j < n);
            }
        }
    }
    (best_len, best_card, pairs)
}

/// The hand arranged for reading sequences.
fn regular_copy(hand: &Vec<Card>) -> (h: Vec<Card>)
    ensures
        h@ == regular_arrangement(hand@),
        h@.len() == hand@.len(),
{
    proof {
        lemma_fixed_orders(CardValue::Seven);
    }
    let mut copy = copy_cards(hand);
    let h = sort_hand(&mut copy, regular_order());
    proof {
        lemma_sorted_is_arranged(h@, hand@, regular_order_seq());
        vstd::seq_lib::to_multiset_len(h@);
        vstd::seq_lib::to_multiset_len(hand@);
    }
    h
}

/// For each suit with a sequence of at least three consecutive cards, the
/// length of its longest sequence and that sequence's highest card.
pub fn check_cards_sequence(hand: &Vec<Card>) -> (res: (Vec<usize>, Vec<Card>))
    requires
        hand@.len() >= 2,
    ensures
        res.0@ == sequence_lengths(regular_arrangement(hand@), 4),
        res.1@ == sequence_tops(regular_arrangement(hand@), 4),
        res.0@.len() == res.1@.len(),
{
    let h = regular_copy(hand);
    let ghost hs = h@;
    let (best_len, best_card, _pairs) = best_runs(&h);
    let mut lengths: Vec<usize> = Vec::new();
    let mut tops: Vec<Card> = Vec::new();
    let mut si: usize = 0;
    while si < 4
        invariant
            si <= 4,
            h@ == hs,
            best_len@.len() == 4,
            best_card@.len() == 4,
            forall|s: int|
                0 <= s < 4 && #[trigger] best_len@[s] > 0 ==> {
                    &&& is_best_run(hs, suit_at(s), best_run(hs, suit_at(s)))
                    &&& best_len@[s] == run_len(hs, best_run(hs, suit_at(s)))
                    &&& best_card@[s] == hs[best_run(hs, suit_at(s))]
                },
            forall|s: int|
                0 <= s < 4 && #[trigger] best_len@[s] == 0 ==> forall|j: int|
                    #![trigger run_end(hs, j)]
                    run_end(hs, j) ==> hs[j].suit != suit_at(s),
            lengths@ == sequence_lengths(hs, si as int),
            tops@ == sequence_tops(hs, si as int),
            lengths@.len() == tops@.len(),
        decreases 4 - si,
    {
        let ghost s = si as int;
        proof {
            if has_sequence(hs, suit_at(s)) {
                let j = choose|j: int|
                    #![trigger run_end(hs, j)]
                    run_end(hs, j) && hs[j].suit == suit_at(s) && run_len(hs, j) >= 3;
                assert(run_end(hs, j));
            }
            if best_len@[s] >= 3 {
                assert(run_end(hs, best_run(hs, suit_at(s))));
            }
        }
        if best_len[si] >= 3 {
            lengths.push(best_len[si]);
            tops.push(best_card[si]);
        }
        si = si + 1;
    }
    (lengths, tops)
}

/// The entry of each suit, Clubs, Diamonds, Hearts, Spades, as the hand's
/// suits are read one by one for sequences: the length of the suit's longest
/// run and its highest card, or a run of one and the hand's second card for
/// a suit of fewer than two cards. Teams' sequences are compared suit by suit
/// on these entries.
pub fn suit_sequences(hand: &Vec<Card>) -> (res: (Vec<usize>, Vec<Card>))
    requires
        hand@.len() >= 2,
    ensures
        res.0@ == slot_lengths(regular_arrangement(hand@)),
        res.1@ == slot_tops(regular_arrangement(hand@)),
        res.0@.len() == 4,
        res.1@.len() == 4,
{
    let h = regular_copy(hand);
    let ghost hs = h@;
    let (best_len, best_card, pairs) = best_runs(&h);
    let mut lengths: Vec<usize> = Vec::new();
    let mut tops: Vec<Card> = Vec::new();
    let mut si: usize = 0;
    while si < 4
        invariant
            si <= 4,
            h@ == hs,
            hs.len() >= 2,
            best_len@.len() == 4,
            best_card@.len() == 4,
            pairs@.len() == 4,
            forall|s: int| 0 <= s < 4 ==> #[trigger] pairs@[s] == has_pair(hs, suit_at(s)),
            forall|s: int| 0 <= s < 4 && pairs@[s] ==> #[trigger] best_len@[s] > 0,
            forall|s: int|
                0 <= s < 4 && #[trigger] best_len@[s] > 0 ==> {
                    &&& best_len@[s] == run_len(hs, best_run(hs, suit_at(s)))
                    &&& best_card@[s] == hs[best_run(hs, suit_at(s))]
                },
            lengths@.len() == si,
            tops@.len() == si,
            forall|t: int| 0 <= t < si ==> #[trigger] lengths@[t] == slot_len(hs, suit_at(t)),
            forall|t: int| 0 <= t < si ==> #[trigger] tops@[t] == slot_top(hs, suit_at(t)),
        decreases 4 - si,
    {
        if pairs[si] {
            lengths.push(best_len[si]);
            tops.push(best_card[si]);
        } else {
            lengths.push(1);
            tops.push(h[1]);
        }
        si = si + 1;
    }
    proof {
        reveal(slot_lengths);
        reveal(slot_tops);
        assert(lengths@ =~= slot_lengths(hs));
        assert(tops@ =~= slot_tops(hs));
    }
    (lengths, tops)
}

/// The sequences found in a hand depend only on the cards it holds, not on
/// the order in which it holds them.
pub proof fn lemma_sequences_ignore_order(x: Seq<Card>, y: Seq<Card>)
    requires
        x.to_multiset() == y.to_multiset(),
    ensures
        sequence_lengths(regular_arrangement(x), 4) == sequence_lengths(regular_arrangement(y), 4),
        sequence_tops(regular_arrangement(x), 4) == sequence_tops(regular_arrangement(y), 4),
{
    lemma_fixed_orders(CardValue::Seven);
    crate::sorting::lemma_arranged_same_cards(x, y, regular_order_seq());
}

/// Every sequence reported is at least three cards long and ends with a
/// card of the hand.
pub proof fn lemma_reported_sequences(hand: Seq<Card>, k: int)
    requires
        0 <= k <= 4,
        hand.len() <= usize::MAX,
    ensures
        sequence_lengths(regular_arrangement(hand), k).len() == sequence_tops(regular_arrangement(hand), k).len(),
        forall|i: int|
            0 <= i < sequence_lengths(regular_arrangement(hand), k).len() ==> #[trigger] sequence_lengths(
                regular_arrangement(hand),
                k,
            )[i] >= 3,
        forall|i: int|
            0 <= i < sequence_tops(regular_arrangement(hand), k).len() ==> hand.contains(
                #[trigger] sequence_tops(regular_arrangement(hand), k)[i],
            ),
    decreases k,
{
    let h = regular_arrangement(hand);
    if k > 0 {
        lemma_reported_sequences(hand, k - 1);
        let s = suit_at(k - 1);
        if has_sequence(h, s) {
            let j = choose|j: int|
                #![trigger run_end(h, j)]
                run_end(h, j) && h[j].suit == s && run_len(h, j) >= 3;
            let b = best_run(h, s);
            lemma_best_exists(h, s, j);
            assert(is_best_run(h, s, b));
            assert(run_end(h, j));
            lemma_fixed_orders(CardValue::Seven);
            crate::sorting::lemma_arranged_exists(hand, regular_order_seq());
            vstd::seq_lib::to_multiset_len(h);
            vstd::seq_lib::to_multiset_len(hand);
            lemma_run_len_bound(h, b);
            assert(h.contains(h[b]));
            vstd::seq_lib::to_multiset_contains(h, h[b]);
            vstd::seq_lib::to_multiset_contains(hand, h[b]);
            assert(sequence_lengths(h, k) =~= sequence_lengths(h, k - 1).push(run_len(h, b) as usize));
            assert(sequence_tops(h, k) =~= sequence_tops(h, k - 1).push(h[b]));
        }
    }
}

/// Points that a list of sequence lengths is worth: 3 cards 20, 4 cards 50,
/// 5 to 7 cards 100, 8 cards 120.
pub open spec fn sequence_points(len: usize) -> nat {
    if len == 3 {
        20
    } else if len == 4 {
        50
    } else if len == 5 || len == 6 || len == 7 {
        100
    } else if len == 8 {
        120
    } else {
        0
    }
}

pub open spec fn sequences_points(lens: Seq<usize>) -> nat
    decreases lens.len(),
{
    if lens.len() == 0 {
        0
    } else {
        sequences_points(lens.drop_last()) + sequence_points(lens.last())
    }
}

proof fn lemma_sequences_points_prefix(lens: Seq<usize>, i: int)
    requires
        0 <= i <= lens.len(),
    ensures
        sequences_points(lens.take(i)) <= sequences_points(lens),
    decreases lens.len() - i,
{
    if i < lens.len() {
        lemma_sequences_points_prefix(lens, i + 1);
        assert(lens.take(i + 1).drop_last() =~= lens.take(i));
    } else {
        assert(lens.take(i) =~= lens);
    }
}

/// Each sequence adds its worth to what the others are worth: 20 for three
/// cards, 50 for four, 100 for five to seven, 120 for eight, and nothing
/// for fewer than three cards.
pub proof fn lemma_sequence_adds_points(lens: Seq<usize>, len: usize)
    requires
        len <= 8,
    ensures
        sequences_points(lens.push(len)) == sequences_points(lens) + (if len == 8 {
            120nat
        } else if len >= 5 {
            100nat
        } else if len == 4 {
            50nat
        } else if len == 3 {
            20nat
        } else {
            0nat
        }),
{
    assert(lens.push(len).drop_last() =~= lens);
}

pub fn points_from_card_sequences(sequence_values: &Vec<usize>) -> (points: usize)
    requires
        sequences_points(sequence_values@) <= usize::MAX,
    ensures
        points == sequences_points(sequence_values@),
{
    let mut points: usize = 0;
    let mut i: usize = 0;
    while i < sequence_values.len()
        invariant
            i <= sequence_values@.len(),
            points == sequences_points(sequence_values@.take(i as int)),
            sequences_points(sequence_values@) <= usize::MAX,
        decreases sequence_values@.len() - i,
    {
        proof {
            assert(sequence_values@.take(i + 1).drop_last() =~= sequence_values@.take(i as int));
            lemma_sequences_points_prefix(sequence_values@, i + 1);
        }
        let val = sequence_values[i];
        if val == 3 {
            points = points + 20;
        } else if val == 4 {
            points = points + 50;
        } else if val == 5 || val == 6 || val == 7 {
            points = points + 100;
        } else if val == 8 {
            points = points + 120;
        }
        i = i + 1;
    }
    proof {
        assert(sequence_values@.take(i as int) =~= sequence_values@);
    }
    points
}

/// Number of cards of value `v` in `hand`.
pub open spec fn value_count(hand: Seq<Card>, v: CardValue) -> nat
    decreases hand.len(),
{
    if hand.len() == 0 {
        0
    } else {
        value_count(hand.drop_last(), v) + (if hand.last().value == v {
            1nat
        } else {
            0nat
        })
    }
}

/// What four cards of value `v` are worth (sevens and eights are worth nothing).
pub open spec fn carre_bonus(v: CardValue) -> nat {
    match v {
        CardValue::Nine => 150,
        CardValue::Jack => 200,
        CardValue::Seven => 0,
        CardValue::Eight => 0,
        _ => 100,
    }
}

pub open spec fn carre_part(hand: Seq<Card>, v: CardValue) -> nat {
    if value_count(hand, v) == 4 {
        carre_bonus(v)
    } else {
        0
    }
}

/// Points from every value of which `hand` holds exactly four cards.
pub open spec fn carre_points(hand: Seq<Card>) -> nat {
    carre_part(hand, CardValue::Nine) + carre_part(hand, CardValue::Ten) + carre_part(
        hand,
        CardValue::Jack,
    ) + carre_part(hand, CardValue::Queen) + carre_part(hand, CardValue::King) + carre_part(
        hand,
        CardValue::Ace,
    )
}

pub proof fn lemma_carre_points_bound(hand: Seq<Card>)
    ensures
        carre_points(hand) <= 750,
{
}

/// The values of which `hand` holds a carré, from nine to ace.
pub open spec fn carre_values(hand: Seq<Card>) -> Seq<CardValue> {
    let vs = seq![
        CardValue::Nine,
        CardValue::Ten,
        CardValue::Jack,
        CardValue::Queen,
        CardValue::King,
        CardValue::Ace,
    ];
    vs.filter(|v: CardValue| value_count(hand, v) == 4)
}

spec fn push_if(s: Seq<CardValue>, b: bool, v: CardValue) -> Seq<CardValue> {
    if b {
        s.push(v)
    } else {
        s
    }
}

spec fn has_four(hand: Seq<Card>, v: CardValue) -> bool {
    value_count(hand, v) == 4
}

proof fn lemma_carre_values_listed(hand: Seq<Card>)
    ensures
        carre_values(hand) == push_if(
            push_if(
                push_if(
                    push_if(
                        push_if(
                            push_if(Seq::empty(), has_four(hand, CardValue::Nine), CardValue::Nine),
                            has_four(hand, CardValue::Ten),
                            CardValue::Ten,
                        ),
                        has_four(hand, CardValue::Jack),
                        CardValue::Jack,
                    ),
                    has_four(hand, CardValue::Queen),
                    CardValue::Queen,
                ),
                has_four(hand, CardValue::King),
                CardValue::King,
            ),
            has_four(hand, CardValue::Ace),
            CardValue::Ace,
        ),
{
    reveal_with_fuel(Seq::filter, 7);
    let vs = seq![
        CardValue::Nine,
        CardValue::Ten,
        CardValue::Jack,
        CardValue::Queen,
        CardValue::King,
        CardValue::Ace,
    ];
    assert(vs.drop_last().drop_last().drop_last().drop_last().drop_last().drop_last()
        =~= Seq::<CardValue>::empty());
    assert(carre_values(hand) =~= push_if(
        push_if(
            push_if(
                push_if(
                    push_if(
                        push_if(Seq::empty(), has_four(hand, CardValue::Nine), CardValue::Nine),
                        has_four(hand, CardValue::Ten),
                        CardValue::Ten,
                    ),
                    has_four(hand, CardValue::Jack),
                    CardValue::Jack,
                ),
                has_four(hand, CardValue::Queen),
                CardValue::Queen,
            ),
            has_four(hand, CardValue::King),
            CardValue::King,
        ),
        has_four(hand, CardValue::Ace),
        CardValue::Ace,
    ));
}

/// A carré is named for every value from nine to ace of which the hand
/// holds exactly four cards, and for no other; every carré named is worth
/// 100 points, but one of nines is worth 150 and one of jacks 200.
pub proof fn lemma_carre_worth(hand: Seq<Card>)
    ensures
        forall|v: CardValue|
            #[trigger] carre_values(hand).contains(v) <==> (value_count(hand, v) == 4 && v
                != CardValue::Seven && v != CardValue::Eight),
        carre_points(hand) == 100 * carre_values(hand).len() + (if carre_values(hand).contains(
            CardValue::Nine,
        ) {
            50nat
        } else {
            0nat
        }) + (if carre_values(hand).contains(CardValue::Jack) {
            100nat
        } else {
            0nat
        }),
{
    broadcast use vstd::seq_lib::group_filter_ensures;
    lemma_carre_values_listed(hand);
    let vs = seq![
        CardValue::Nine,
        CardValue::Ten,
        CardValue::Jack,
        CardValue::Queen,
        CardValue::King,
        CardValue::Ace,
    ];
    let pred = |v: CardValue| value_count(hand, v) == 4;
    let w = carre_values(hand);
    assert(w == vs.filter(pred));
    if w.contains(CardValue::Nine) {
        let k = choose|k: int| 0 <= k < w.len() && w[k] == CardValue::Nine;
        assert(pred(w[k]));
    }
    if has_four(hand, CardValue::Nine) {
        assert(vs[0] == CardValue::Nine);
        assert(pred(vs[0]));
    }
    if w.contains(CardValue::Jack) {
        let k = choose|k: int| 0 <= k < w.len() && w[k] == CardValue::Jack;
        assert(pred(w[k]));
    }
    if has_four(hand, CardValue::Jack) {
        assert(vs[2] == CardValue::Jack);
        assert(pred(vs[2]));
    }
    assert forall|v: CardValue|
        #[trigger] w.contains(v) <==> (value_count(hand, v) == 4 && v != CardValue::Seven && v
            != CardValue::Eight) by {
        if w.contains(v) {
            let k = choose|k: int| 0 <= k < w.len() && w[k] == v;
            assert(pred(w[k]));
            assert(vs.contains(v));
        }
        if value_count(hand, v) == 4 && v != CardValue::Seven && v != CardValue::Eight {
            let k: int = match v {
                CardValue::Nine => 0,
                CardValue::Ten => 1,
                CardValue::Jack => 2,
                CardValue::Queen => 3,
                CardValue::King => 4,
                _ => 5,
            };
            assert(vs[k] == v);
            assert(pred(vs[k]));
        }
    }
}

/// Adds the carré points of `hand` to the team of player `hand_index`, and
/// names the values of the carrés.
pub fn check_carre(hand: &Vec<Card>, hand_index: usize, points_count: &mut [usize; 2]) -> (carres:
    Vec<CardValue>)
    requires
        old(points_count)@[(hand_index % 2) as int] + carre_points(hand@) <= usize::MAX,
    ensures
        final(points_count)@[(hand_index % 2) as int] == old(points_count)@[(hand_index
            % 2) as int] + carre_points(hand@),
        final(points_count)@[((hand_index + 1) % 2) as int] == old(points_count)@[((hand_index
            + 1) % 2) as int],
        carres@ == carre_values(hand@),
{
    let mut nines: usize = 0;
    let mut tens: usize = 0;
    let mut jacks: usize = 0;
    let mut queens: usize = 0;
    let mut kings: usize = 0;
    let mut aces: usize = 0;
    let mut i: usize = 0;
    while i < hand.len()
        invariant
            i <= hand@.len(),
            nines == value_count(hand@.take(i as int), CardValue::Nine),
            tens == value_count(hand@.take(i as int), CardValue::Ten),
            jacks == value_count(hand@.take(i as int), CardValue::Jack),
            queens == value_count(hand@.take(i as int), CardValue::Queen),
            kings == value_count(hand@.take(i as int), CardValue::King),
            aces == value_count(hand@.take(i as int), CardValue::Ace),
            nines <= i && tens <= i && jacks <= i && queens <= i && kings <= i && aces <= i,
        decreases hand@.len() - i,
    {
        proof {
            assert(hand@.take(i + 1).drop_last() =~= hand@.take(i as int));
        }
        match hand[i].value {
            CardValue::Seven => {},
            CardValue::Eight => {},
            CardValue::Nine => nines = nines + 1,
            CardValue::Ten => tens = tens + 1,
            CardValue::Jack => jacks = jacks + 1,
            CardValue::Queen => queens = queens + 1,
            CardValue::King => kings = kings + 1,
            CardValue::Ace => aces = aces + 1,
        }
        i = i + 1;
    }
    proof {
        assert(hand@.take(i as int) =~= hand@);
    }
    let team = hand_index % 2;
    let mut total: usize = points_count[team];
    let mut carres: Vec<CardValue> = Vec::new();
    if nines == 4 {
        total = total + 150;
        carres.push(CardValue::Nine);
    }
    if tens == 4 {
        total = total + 100;
        carres.push(CardValue::Ten);
    }
    if jacks == 4 {
        total = total + 200;
        carres.push(CardValue::Jack);
    }
    if queens == 4 {
        total = total + 100;
        carres.push(CardValue::Queen);
    }
    if kings == 4 {
        total = total + 100;
        carres.push(CardValue::King);
    }
    if aces == 4 {
        total = total + 100;
        carres.push(CardValue::Ace);
    }
    proof {
        reveal_with_fuel(Seq::filter, 7);
        let vs = seq![
            CardValue::Nine,
            CardValue::Ten,
            CardValue::Jack,
            CardValue::Queen,
            CardValue::King,
            CardValue::Ace,
        ];
        assert(vs.drop_last().drop_last().drop_last().drop_last().drop_last().drop_last() =~= Seq::<CardValue>::empty());
        assert(carres@ =~= carre_values(hand@));
    }
    points_count[team] = total;
    carres
}

/// How the highest cards of two equally long sequences compare.
#[derive(Debug, Clone, Copy, PartialEq, Eq, Structural)]
pub enum SequenceComparison {
    FirstHigher,
    SecondHigher,
    Equal,
}

/// The outcome of setting the two teams' sequences against each other.
#[derive(Debug)]
pub enum SequenceDuel {
    /// At most one team has a sequence of three cards or more.
    Unopposed,
    /// Team `0` or `1` has the longer sequence.
    Longer(usize),
    /// The longest sequences are equally long: for each of the first team's
    /// entries of that length, how its highest card compares with the second
    /// team's entry in the same place (same suit, the matching player).
    SameLength(Vec<SequenceComparison>),
}

/// Length of the longest sequence of a list (0 for none).
pub open spec fn longest(lens: Seq<usize>) -> nat
    decreases lens.len(),
{
    if lens.len() == 0 {
        0
    } else {
        let rest = longest(lens.drop_last());
        if lens.last() > rest {
            lens.last() as nat
        } else {
            rest
        }
    }
}

pub open spec fn compare_tops(a: Card, b: Card) -> SequenceComparison {
    if regular_rank(a.value) > regular_rank(b.value) {
        SequenceComparison::FirstHigher
    } else if regular_rank(a.value) < regular_rank(b.value) {
        SequenceComparison::SecondHigher
    } else {
        SequenceComparison::Equal
    }
}

/// Comparisons for the first `k` entries of the first team's list.
pub open spec fn tie_comparisons(
    lens0: Seq<usize>,
    tops0: Seq<Card>,
    tops1: Seq<Card>,
    hi: nat,
    k: int,
) -> Seq<SequenceComparison>
    decreases k,
{
    if k <= 0 {
        Seq::empty()
    } else {
        let rest = tie_comparisons(lens0, tops0, tops1, hi, k - 1);
        if lens0[k - 1] == hi {
            rest.push(compare_tops(tops0[k - 1], tops1[k - 1]))
        } else {
            rest
        }
    }
}

fn longest_of(lens: &Vec<usize>) -> (m: usize)
    ensures
        m == longest(lens@),
{
    let mut m: usize = 0;
    let mut i: usize = 0;
    while i < lens.len()
        invariant
            i <= lens@.len(),
            m == longest(lens@.take(i as int)),
        decreases lens@.len() - i,
    {
        proof {
            assert(lens@.take(i + 1).drop_last() =~= lens@.take(i as int));
        }
        if m < lens[i] {
            m = lens[i];
        }
        i = i + 1;
    }
    proof {
        assert(lens@.take(i as int) =~= lens@);
    }
    m
}

fn regular_position(v: CardValue) -> (r: usize)
    ensures
        r == regular_rank(v),
{
    match v {
        CardValue::Seven => 0,
        CardValue::Eight => 1,
        CardValue::Nine => 2,
        CardValue::Ten => 3,
        CardValue::Jack => 4,
        CardValue::Queen => 5,
        CardValue::King => 6,
        CardValue::Ace => 7,
    }
}

/// Sets the two teams' sequences against each other: the entries of each
/// team's players, as `suit_sequences` gives them, first player first.
pub fn compare_sequences(
    lens0: &Vec<usize>,
    tops0: &Vec<Card>,
    lens1: &Vec<usize>,
    tops1: &Vec<Card>,
) -> (duel: SequenceDuel)
    requires
        lens0@.len() == tops0@.len(),
        lens0@.len() <= tops1@.len(),
    ensures
        ({
            let hi0 = longest(lens0@);
            let hi1 = longest(lens1@);
            if hi0 >= 3 && hi1 >= 3 {
                if hi0 == hi1 {
                    duel matches SequenceDuel::SameLength(c) && c@ == tie_comparisons(
                        lens0@,
                        tops0@,
                        tops1@,
                        hi0,
                        lens0@.len() as int,
                    )
                } else {
                    duel == SequenceDuel::Longer(if hi0 > hi1 {
                        0
                    } else {
                        1
                    })
                }
            } else {
                duel == SequenceDuel::Unopposed
            }
        }),
{
    let hi0 = longest_of(lens0);
    let hi1 = longest_of(lens1);
    if hi0 >= 3 && hi1 >= 3 {
        if hi0 == hi1 {
            let mut comparisons: Vec<SequenceComparison> = Vec::new();
            let mut index: usize = 0;
            while index < lens0.len()
                invariant
                    index <= lens0@.len(),
                    lens0@.len() == tops0@.len(),
                    lens0@.len() <= tops1@.len(),
                    hi0 == longest(lens0@),
                    comparisons@ == tie_comparisons(lens0@, tops0@, tops1@, hi0 as nat, index as int),
                decreases lens0@.len() - index,
            {
                if lens0[index] == hi0 {
                    let a = regular_position(tops0[index].value);
                    let b = regular_position(tops1[index].value);
                    let c = if a > b {
                        SequenceComparison::FirstHigher
                    } else if a < b {
                        SequenceComparison::SecondHigher
                    } else {
                        SequenceComparison::Equal
                    };
                    comparisons.push(c);
                }
                index = index + 1;
            }
            SequenceDuel::SameLength(comparisons)
        } else if hi0 > hi1 {
            SequenceDuel::Longer(0)
        } else {
            SequenceDuel::Longer(1)
        }
    } else {
        SequenceDuel::Unopposed
    }
}

} // verus!
