//! The deck, dealing, and arranging and announcing the hands of a new round.
use vstd::prelude::*;
use rand::seq::SliceRandom;
use rand::rngs::ThreadRng;
use crate::cards::{
    Card, CardSuits, CardValue, GameMode, lemma_fixed_orders, no_trump_order, no_trump_order_seq,
    trump_order, trump_order_seq,
};
use crate::sorting::{arranged, lemma_filter_take_step, sort_hand, suit_at, suit_pred};
use crate::announcements::{
    SequenceDuel, carre_points, carre_values, check_carre, compare_sequences, longest,
    regular_arrangement, slot_lengths, slot_tops, suit_sequences, tie_comparisons,
};

verus! {

broadcast use vstd::seq_lib::group_to_multiset_ensures, vstd::multiset::group_multiset_axioms;

pub open spec fn value_at(i: int) -> CardValue {
    if i == 0 {
        CardValue::Seven
    } else if i == 1 {
        CardValue::Eight
    } else if i == 2 {
        CardValue::Nine
    } else if i == 3 {
        CardValue::Ten
    } else if i == 4 {
        CardValue::Jack
    } else if i == 5 {
        CardValue::Queen
    } else if i == 6 {
        CardValue::King
    } else {
        CardValue::Ace
    }
}

/// The 32 cards, suit by suit, each suit from seven to ace.
pub open spec fn full_deck_seq() -> Seq<Card> {
    Seq::new(32, |i: int| Card { value: value_at(i % 8), suit: suit_at(i / 8) })
}

/// Four empty hands.
pub fn new_hands() -> (hands: [Vec<Card>; 4])
    ensures
        forall|i: int| 0 <= i < 4 ==> (#[trigger] hands@[i])@.len() == 0,
{
    [Vec::new(), Vec::new(), Vec::new(), Vec::new()]
}

/// `rand`'s handle on the thread-local random generator.
#[verifier::external_type_specification]
#[verifier::external_body]
pub struct ExThreadRng(rand::rngs::ThreadRng);

/// `rand::thread_rng`: a handle on the generator of the current thread.
/// Nothing is claimed of it.
#[verifier::external_body]
fn thread_rng() -> ThreadRng {
    rand::thread_rng()
}

/// `SliceRandom::shuffle` on the deck. The crate swaps cards pairwise
/// (Fisher-Yates), so the result holds the same cards; which order comes
/// out is left unsaid: it is random.
#[verifier::external_body]
fn shuffle_deck(deck: &mut Vec<Card>, rng: &mut ThreadRng)
    ensures
        final(deck)@.to_multiset() == old(deck)@.to_multiset(),
{
    deck.shuffle(rng);
}

/// The 32 cards in a random order.
pub fn generate_full_deck() -> (deck: Vec<Card>)
    ensures
        deck@.len() == 32,
        deck@.to_multiset() == full_deck_seq().to_multiset(),
{
    let suits = [CardSuits::Clubs, CardSuits::Diamonds, CardSuits::Hearts, CardSuits::Spades];
    let values = [
        CardValue::Seven,
        CardValue::Eight,
        CardValue::Nine,
        CardValue::Ten,
        CardValue::Jack,
        CardValue::Queen,
        CardValue::King,
        CardValue::Ace,
    ];
    let mut deck: Vec<Card> = Vec::new();
    let mut s: usize = 0;
    while s < 4
        invariant
            s <= 4,
            forall|k: int| 0 <= k < 4 ==> suits@[k] == suit_at(k),
            forall|k: int| 0 <= k < 8 ==> values@[k] == value_at(k),
            deck@ == full_deck_seq().take(8 * s as int),
        decreases 4 - s,
    {
        let mut v: usize = 0;
        while v < 8
            invariant
                s < 4,
                v <= 8,
                forall|k: int| 0 <= k < 4 ==> suits@[k] == suit_at(k),
                forall|k: int| 0 <= k < 8 ==> values@[k] == value_at(k),
                deck@ == full_deck_seq().take(8 * s + v),
            decreases 8 - v,
        {
            deck.push(Card { value: values[v], suit: suits[s] });
            proof {
                let k = 8 * s + v;
                assert(k / 8 == s && k % 8 == v);
                assert(deck@ =~= full_deck_seq().take(k + 1));
            }
            v = v + 1;
        }
        s = s + 1;
    }
    proof {
        assert(deck@ =~= full_deck_seq());
    }
    let ghost before = deck@;
    let mut rng = thread_rng();
    shuffle_deck(&mut deck, &mut rng);
    proof {
        vstd::seq_lib::to_multiset_len(deck@);
        vstd::seq_lib::to_multiset_len(before);
    }
    deck
}

/// Moves the first `n` cards of `deck` to the end of `hand`.
fn deal_into(hand: &mut Vec<Card>, deck: &mut Vec<Card>, n: usize)
    requires
        n <= old(deck)@.len(),
    ensures
        final(hand)@ == old(hand)@ + old(deck)@.take(n as int),
        final(deck)@ == old(deck)@.skip(n as int),
{
    let rest = deck.split_off(n);
    hand.append(deck);
    *deck = rest;
}

/// Gives `num_add` cards from the top of `deck` to each hand in turn.
pub fn add_cards(hands: [Vec<Card>; 4], deck: &mut Vec<Card>, num_add: usize) -> (dealt: [Vec<Card>;
    4])
    requires
        4 * num_add <= old(deck)@.len(),
    ensures
        forall|i: int|
            0 <= i < 4 ==> (#[trigger] dealt@[i])@ == hands@[i]@ + old(deck)@.subrange(
                i * num_add,
                (i + 1) * num_add,
            ),
        final(deck)@ == old(deck)@.skip(4 * num_add),
{
    let ghost d = deck@;
    let mut hands = hands;
    let ghost orig = hands;
    let mut index: usize = 0;
    while index < 4
        invariant
            index <= 4,
            4 * num_add <= d.len(),
            deck@ == d.skip(index * num_add),
            forall|i: int|
                0 <= i < index ==> (#[trigger] hands@[i])@ == orig@[i]@ + d.subrange(
                    i * num_add,
                    (i + 1) * num_add,
                ),
            forall|i: int| index <= i < 4 ==> #[trigger] hands@[i] == orig@[i],
        decreases 4 - index,
    {
        let mut hand: Vec<Card> = Vec::new();
        std::mem::swap(&mut hand, &mut hands[index]);
        proof {
            assert(index * num_add + num_add <= 4 * num_add) by (nonlinear_arith)
                requires
                    index < 4,
            ;
            assert((index + 1) * num_add == index * num_add + num_add) by (nonlinear_arith);
        }
        deal_into(&mut hand, deck, num_add);
        hands[index] = hand;
        proof {
            assert(d.skip(index * num_add).take(num_add as int) =~= d.subrange(
                index * num_add,
                (index + 1) * num_add,
            ));
            assert(d.skip(index * num_add).skip(num_add as int) =~= d.skip((index + 1) * num_add));
        }
        index = index + 1;
    }
    hands
}

/// The hands and deck that a new round starts with when the shuffled deck
/// is `deck`: five cards each, dealt in turn, each hand arranged in
/// no-trump order.
pub open spec fn first_deal(deck: Seq<Card>, i: int) -> Seq<Card> {
    arranged(deck.subrange(5 * i, 5 * i + 5), no_trump_order_seq())
}

/// Dealing the first five cards to each player neither loses nor adds a
/// card: the four hands and the rest of the deck hold the deck's cards.
pub proof fn lemma_first_deal_keeps_cards(d: Seq<Card>)
    requires
        d.len() >= 20,
    ensures
        first_deal(d, 0).to_multiset().add(first_deal(d, 1).to_multiset()).add(
            first_deal(d, 2).to_multiset(),
        ).add(first_deal(d, 3).to_multiset()).add(d.skip(20).to_multiset()) == d.to_multiset(),
{
    lemma_fixed_orders(CardValue::Seven);
    let nt = no_trump_order_seq();
    let s0 = d.subrange(0, 5);
    let s1 = d.subrange(5, 10);
    let s2 = d.subrange(10, 15);
    let s3 = d.subrange(15, 20);
    let r = d.skip(20);
    crate::sorting::lemma_arranged_exists(s0, nt);
    crate::sorting::lemma_arranged_exists(s1, nt);
    crate::sorting::lemma_arranged_exists(s2, nt);
    crate::sorting::lemma_arranged_exists(s3, nt);
    assert(d =~= s0 + s1 + s2 + s3 + r);
    vstd::seq_lib::lemma_multiset_commutative(s0 + s1 + s2 + s3, r);
    vstd::seq_lib::lemma_multiset_commutative(s0 + s1 + s2, s3);
    vstd::seq_lib::lemma_multiset_commutative(s0 + s1, s2);
    vstd::seq_lib::lemma_multiset_commutative(s0, s1);
    assert(5 * 0 + 5 == 5 && 5 * 1 == 5 && 5 * 1 + 5 == 10 && 5 * 2 == 10 && 5 * 2 + 5 == 15 && 5 * 3 == 15 && 5 * 3 + 5 == 20);
}

/// Deals five cards to each player from a shuffled deck and arranges the hands.
pub fn deal_new_game(deck: Vec<Card>) -> (res: ([Vec<Card>; 4], Vec<Card>))
    requires
        deck@.len() >= 20,
    ensures
        forall|i: int| 0 <= i < 4 ==> (#[trigger] res.0@[i])@ == first_deal(deck@, i),
        res.1@ == deck@.skip(20),
{
    let ghost d = deck@;
    let mut deck = deck;
    let hands = new_hands();
    let mut hands = add_cards(hands, &mut deck, 5);
    let ghost dealt = hands;
    proof {
        lemma_fixed_orders(CardValue::Seven);
        assert forall|i: int| 0 <= i < 4 implies (#[trigger] dealt@[i])@ == d.subrange(5 * i, 5 * i + 5) by {
            assert(dealt@[i]@ =~= d.subrange(5 * i, 5 * i + 5));
        }
    }
    let mut index: usize = 0;
    while index < 4
        invariant
            index <= 4,
            forall|i: int| 0 <= i < 4 ==> (#[trigger] dealt@[i])@ == d.subrange(5 * i, 5 * i + 5),
            forall|i: int| 0 <= i < index ==> (#[trigger] hands@[i])@ == first_deal(d, i),
            forall|i: int| index <= i < 4 ==> #[trigger] hands@[i] == dealt@[i],
        decreases 4 - index,
    {
        let mut hand: Vec<Card> = Vec::new();
        std::mem::swap(&mut hand, &mut hands[index]);
        proof {
            lemma_fixed_orders(CardValue::Seven);
        }
        let sorted = sort_hand(&mut hand, no_trump_order());
        hands[index] = sorted;
        index = index + 1;
    }
    (hands, deck)
}

/// Starts a round: a shuffled deck, and five cards to each player.
pub fn new_game() -> (res: ([Vec<Card>; 4], Vec<Card>))
    ensures
        exists|d: Seq<Card>|
            {
                &&& d.len() == 32
                &&& d.to_multiset() == full_deck_seq().to_multiset()
                &&& forall|i: int| 0 <= i < 4 ==> (#[trigger] res.0@[i])@ == first_deal(d, i)
                &&& res.1@ == d.skip(20)
            },
{
    let deck = generate_full_deck();
    let ghost d = deck@;
    let res = deal_new_game(deck);
    proof {
        assert(d.len() == 32 && d.to_multiset() == full_deck_seq().to_multiset() && (forall|i: int|
            0 <= i < 4 ==> (#[trigger] res.0@[i])@ == first_deal(d, i)) && res.1@ == d.skip(20));
    }
    res
}

pub open spec fn not_suit_pred(s: CardSuits) -> spec_fn(Card) -> bool {
    |c: Card| c.suit != s
}

/// A one-trump hand: the plain suits arranged in no-trump order, then the
/// trumps at the end in trump order.
pub open spec fn one_trump_arrangement(h: Seq<Card>, t: CardSuits) -> Seq<Card> {
    arranged(h, no_trump_order_seq()).filter(not_suit_pred(t)) + arranged(
        arranged(h, no_trump_order_seq()).filter(suit_pred(t)),
        trump_order_seq(),
    )
}

/// How a hand is arranged once the game mode is known.
pub open spec fn mode_arrangement(h: Seq<Card>, mode: GameMode) -> Seq<Card> {
    match mode {
        GameMode::NoTrumps => arranged(h, no_trump_order_seq()),
        GameMode::AllTrumps => arranged(h, trump_order_seq()),
        GameMode::OneTrump(t) => one_trump_arrangement(h, t),
        GameMode::Pass => h,
    }
}

/// Arranging a hand for a game mode keeps exactly its cards.
pub proof fn arrangement_keeps_cards(h: Seq<Card>, mode: GameMode)
    ensures
        mode_arrangement(h, mode).to_multiset() == h.to_multiset(),
{
    lemma_fixed_orders(CardValue::Seven);
    let nt = no_trump_order_seq();
    let tr = trump_order_seq();
    match mode {
        GameMode::NoTrumps => {
            crate::sorting::lemma_arranged_exists(h, nt);
        },
        GameMode::AllTrumps => {
            crate::sorting::lemma_arranged_exists(h, tr);
        },
        GameMode::OneTrump(t) => {
            crate::sorting::lemma_arranged_exists(h, nt);
            let a = arranged(h, nt);
            let plain = a.filter(not_suit_pred(t));
            let trumps = a.filter(suit_pred(t));
            crate::sorting::lemma_arranged_exists(trumps, tr);
            vstd::seq_lib::lemma_multiset_commutative(plain, arranged(trumps, tr));
            assert forall|x: Card|
                (plain + arranged(trumps, tr)).to_multiset().count(x) == h.to_multiset().count(x) by {
                crate::sorting::lemma_filter_count(a, not_suit_pred(t), x);
                crate::sorting::lemma_filter_count(a, suit_pred(t), x);
            }
            assert((plain + arranged(trumps, tr)).to_multiset() =~= h.to_multiset());
        },
        GameMode::Pass => {},
    }
}

fn arrange_for_mode(hand: Vec<Card>, game_mode: &GameMode) -> (arranged_hand: Vec<Card>)
    ensures
        arranged_hand@ == mode_arrangement(hand@, *game_mode),
{
    proof {
        lemma_fixed_orders(CardValue::Seven);
    }
    let mut hand = hand;
    match game_mode {
        GameMode::NoTrumps => sort_hand(&mut hand, no_trump_order()),
        GameMode::AllTrumps => sort_hand(&mut hand, trump_order()),
        GameMode::OneTrump(t) => {
            let sorted = sort_hand(&mut hand, no_trump_order());
            let mut others: Vec<Card> = Vec::new();
            let mut trump_cards: Vec<Card> = Vec::new();
            let mut i: usize = 0;
            while i < sorted.len()
                invariant
                    i <= sorted@.len(),
                    others@ == sorted@.take(i as int).filter(not_suit_pred(*t)),
                    trump_cards@ == sorted@.take(i as int).filter(suit_pred(*t)),
                decreases sorted@.len() - i,
            {
                proof {
                    lemma_filter_take_step(sorted@, not_suit_pred(*t), i as int);
                    lemma_filter_take_step(sorted@, suit_pred(*t), i as int);
                }
                let card = sorted[i];
                if card.suit == *t {
                    trump_cards.push(card);
                } else {
                    others.push(card);
                }
                i = i + 1;
            }
            proof {
                assert(sorted@.take(i as int) =~= sorted@);
                lemma_fixed_orders(CardValue::Seven);
            }
            let mut trumps_sorted = sort_hand(&mut trump_cards, trump_order());
            others.append(&mut trumps_sorted);
            others
        },
        GameMode::Pass => hand,
    }
}

fn announce(hand: &Vec<Card>, index: usize, points_from_announs: &mut [usize; 2]) -> (res: (
    Vec<usize>,
    Vec<Card>,
    Vec<CardValue>,
))
    requires
        hand@.len() >= 2,
        old(points_from_announs)@[(index % 2) as int] + 750 <= usize::MAX,
    ensures
        final(points_from_announs)@[(index % 2) as int] == old(points_from_announs)@[(index
            % 2) as int] + carre_points(hand@),
        final(points_from_announs)@[((index + 1) % 2) as int] == old(points_from_announs)@[((index
            + 1) % 2) as int],
        res.0@ == slot_lengths(regular_arrangement(hand@)),
        res.1@ == slot_tops(regular_arrangement(hand@)),
        res.0@.len() == 4,
        res.1@.len() == 4,
        res.2@ == carre_values(hand@),
{
    proof {
        crate::announcements::lemma_carre_points_bound(hand@);
    }
    let carres = check_carre(hand, index, points_from_announs);
    let (lens, tops) = suit_sequences(hand);
    (lens, tops, carres)
}

/// A team's entries once the round's hands are complete: the four suits'
/// entries of its first player, then those of its second player.
pub open spec fn team_sequence_lengths(hands: Seq<Seq<Card>>, team: int) -> Seq<usize> {
    slot_lengths(regular_arrangement(hands[team])) + slot_lengths(
        regular_arrangement(hands[team + 2]),
    )
}

pub open spec fn team_sequence_tops(hands: Seq<Seq<Card>>, team: int) -> Seq<Card> {
    slot_tops(regular_arrangement(hands[team])) + slot_tops(regular_arrangement(hands[team + 2]))
}

pub open spec fn hands_view(hands: [Vec<Card>; 4]) -> Seq<Seq<Card>> {
    seq![hands@[0]@, hands@[1]@, hands@[2]@, hands@[3]@]
}

/// Deals three more cards to each player, arranges the hands for the game
/// mode, adds carrés to the teams' announcements and sets the teams'
/// sequences against each other (neither in a no-trumps game). Also names
/// the values of each hand's carrés.
pub fn continue_game(
    hands: [Vec<Card>; 4],
    deck: &mut Vec<Card>,
    game_mode: &GameMode,
    points_from_announs: &mut [usize; 2],
) -> (res: ([Vec<Card>; 4], SequenceDuel, [Vec<CardValue>; 4]))
    requires
        12 <= old(deck)@.len(),
        old(points_from_announs)@[0] <= usize::MAX - 1500,
        old(points_from_announs)@[1] <= usize::MAX - 1500,
    ensures
        forall|i: int|
            0 <= i < 4 ==> (#[trigger] res.0@[i])@ == mode_arrangement(
                hands@[i]@ + old(deck)@.subrange(3 * i, 3 * i + 3),
                *game_mode,
            ),
        final(deck)@ == old(deck)@.skip(12),
        *game_mode is NoTrumps ==> final(points_from_announs)@ == old(points_from_announs)@,
        !(*game_mode is NoTrumps) ==> forall|t: int|
            0 <= t < 2 ==> #[trigger] final(points_from_announs)@[t] == old(points_from_announs)@[t]
                + carre_points(res.0@[t]@) + carre_points(res.0@[t + 2]@),
        *game_mode is NoTrumps ==> res.1 == SequenceDuel::Unopposed,
        forall|i: int|
            0 <= i < 4 ==> (#[trigger] res.2@[i])@ == (if *game_mode is NoTrumps {
                Seq::empty()
            } else {
                carre_values(res.0@[i]@)
            }),
        !(*game_mode is NoTrumps) ==> ({
            let hv = hands_view(res.0);
            let lens0 = team_sequence_lengths(hv, 0);
            let lens1 = team_sequence_lengths(hv, 1);
            let hi0 = longest(lens0);
            let hi1 = longest(lens1);
            if hi0 >= 3 && hi1 >= 3 {
                if hi0 == hi1 {
                    res.1 matches SequenceDuel::SameLength(c) && c@ == tie_comparisons(
                        lens0,
                        team_sequence_tops(hv, 0),
                        team_sequence_tops(hv, 1),
                        hi0,
                        lens0.len() as int,
                    )
                } else {
                    res.1 == SequenceDuel::Longer(if hi0 > hi1 {
                        0
                    } else {
                        1
                    })
                }
            } else {
                res.1 == SequenceDuel::Unopposed
            }
        }),
{
    let ghost d = deck@;
    let ghost announs0 = points_from_announs@;
    let ghost orig_hands = hands;
    let mut hands = add_cards(hands, deck, 3);
    let ghost dealt = hands;
    let mut lens: [Vec<usize>; 4] = [Vec::new(), Vec::new(), Vec::new(), Vec::new()];
    let mut tops: [Vec<Card>; 4] = [Vec::new(), Vec::new(), Vec::new(), Vec::new()];
    let mut carres: [Vec<CardValue>; 4] = [Vec::new(), Vec::new(), Vec::new(), Vec::new()];
    let no_trumps = match game_mode {
        GameMode::NoTrumps => true,
        _ => false,
    };
    let mut index: usize = 0;
    while index < 4
        invariant
            index <= 4,
            no_trumps == (*game_mode is NoTrumps),
            forall|i: int| 0 <= i < 4 ==> (#[trigger] dealt@[i])@.len() >= 3,
            forall|i: int|
                0 <= i < index ==> (#[trigger] hands@[i])@ == mode_arrangement(
                    dealt@[i]@,
                    *game_mode,
                ),
            forall|i: int| index <= i < 4 ==> #[trigger] hands@[i] == dealt@[i],
            no_trumps ==> points_from_announs@ == announs0,
            !no_trumps ==> forall|t: int|
                0 <= t < 2 ==> #[trigger] points_from_announs@[t] == announs0[t] + (if t < index {
                    carre_points(hands@[t]@)
                } else {
                    0
                }) + (if t + 2 < index {
                    carre_points(hands@[t + 2]@)
                } else {
                    0
                }),
            announs0[0] <= usize::MAX - 1500,
            announs0[1] <= usize::MAX - 1500,
            !no_trumps ==> forall|i: int|
                0 <= i < index ==> {
                    &&& (#[trigger] lens@[i])@ == slot_lengths(regular_arrangement(hands@[i]@))
                    &&& tops@[i]@ == slot_tops(regular_arrangement(hands@[i]@))
                    &&& lens@[i]@.len() == 4
                    &&& tops@[i]@.len() == 4
                },
            forall|i: int|
                0 <= i < 4 ==> (#[trigger] carres@[i])@ == (if no_trumps || i >= index {
                    Seq::empty()
                } else {
                    carre_values(hands@[i]@)
                }),
        decreases 4 - index,
    {
        let mut hand: Vec<Card> = Vec::new();
        std::mem::swap(&mut hand, &mut hands[index]);
        let arranged_hand = arrange_for_mode(hand, game_mode);
        proof {
            arrangement_keeps_cards(dealt@[index as int]@, *game_mode);
            vstd::seq_lib::to_multiset_len(arranged_hand@);
            vstd::seq_lib::to_multiset_len(dealt@[index as int]@);
        }
        let ghost prev_lens_all = lens;
        let ghost arranged_ghost = arranged_hand;
        if !no_trumps {
            let (seq_lens, seq_tops, hand_carres) = announce(&arranged_hand, index, points_from_announs);
            let ghost prev_lens = lens;
            let ghost prev_tops = tops;
            let ghost prev_carres = carres;
            lens[index] = seq_lens;
            tops[index] = seq_tops;
            carres[index] = hand_carres;
            proof {
                assert forall|i: int| 0 <= i < 4 && i != index implies #[trigger] lens@[i] == prev_lens@[i] && tops@[i] == prev_tops@[i] && carres@[i] == prev_carres@[i] by {}
            }
        }
        let ghost prev_hands = hands;
        hands[index] = arranged_hand;
        index = index + 1;
        proof {
            if !no_trumps {
                assert forall|i: int| 0 <= i < index implies {
                    &&& (#[trigger] lens@[i])@ == slot_lengths(regular_arrangement(hands@[i]@))
                    &&& tops@[i]@ == slot_tops(regular_arrangement(hands@[i]@))
                    &&& lens@[i]@.len() == 4
                    &&& tops@[i]@.len() == 4
                } by {
                    if i < index - 1 {
                        assert(hands@[i] == prev_hands@[i]);
                        assert(lens@[i] == prev_lens_all@[i]);
                    } else {
                        assert(hands@[i] == arranged_ghost);
                        assert(lens@[i]@ == slot_lengths(regular_arrangement(arranged_ghost@)));
                    }
                }
            }
        }
    }
    let mut lens0: Vec<usize> = Vec::new();
    let mut lens1: Vec<usize> = Vec::new();
    let mut tops0: Vec<Card> = Vec::new();
    let mut tops1: Vec<Card> = Vec::new();
    if !no_trumps {
        std::mem::swap(&mut lens0, &mut lens[0]);
        std::mem::swap(&mut lens1, &mut lens[1]);
        std::mem::swap(&mut tops0, &mut tops[0]);
        std::mem::swap(&mut tops1, &mut tops[1]);
        lens0.append(&mut lens[2]);
        lens1.append(&mut lens[3]);
        tops0.append(&mut tops[2]);
        tops1.append(&mut tops[3]);
    }
    let duel = if no_trumps {
        SequenceDuel::Unopposed
    } else {
        compare_sequences(&lens0, &tops0, &lens1, &tops1)
    };
    proof {
        assert forall|i: int| 0 <= i < 4 implies (#[trigger] dealt@[i])@ == orig_hands@[i]@ + d.subrange(
            3 * i,
            3 * i + 3,
        ) by {
            assert(dealt@[i]@ == orig_hands@[i]@ + d.subrange(i * 3, (i + 1) * 3));
        }
        assert(hands_view(hands) =~= seq![hands@[0]@, hands@[1]@, hands@[2]@, hands@[3]@]);
    }
    (hands, duel, carres)
}

} // verus!
