//! Cards, suits, values, game modes and the three orders in which the
//! values of a suit are ranked.
use vstd::prelude::*;

verus! {

/// The four suits, in the order in which hands are grouped.
#[derive(Debug, Clone, Copy, PartialEq, Eq, Structural)]
pub enum CardSuits {
    Clubs,
    Diamonds,
    Hearts,
    Spades,
}

/// The eight values of a belot deck, in their natural order.
#[derive(Debug, Clone, Copy, PartialEq, Eq, Structural)]
pub enum CardValue {
    Seven,
    Eight,
    Nine,
    Ten,
    Jack,
    Queen,
    King,
    Ace,
}

/// A single card.
#[derive(Debug, Clone, Copy, PartialEq, Eq, Structural)]
pub struct Card {
    pub value: CardValue,
    pub suit: CardSuits,
}

/// The contract that the bidding settles on.
#[derive(Debug, Clone, Copy, PartialEq, Eq, Structural)]
pub enum GameMode {
    Pass,
    OneTrump(CardSuits),
    NoTrumps,
    AllTrumps,
}

impl Default for GameMode {
    fn default() -> (mode: GameMode)
        ensures
            mode == GameMode::NoTrumps,
    {
        GameMode::NoTrumps
    }
}

impl Default for CardSuits {
    fn default() -> (suit: CardSuits)
        ensures
            suit == CardSuits::Clubs,
    {
        CardSuits::Clubs
    }
}

/// Position of a suit in the grouping order Clubs, Diamonds, Hearts, Spades.
pub open spec fn suit_index(s: CardSuits) -> nat {
    match s {
        CardSuits::Clubs => 0,
        CardSuits::Diamonds => 1,
        CardSuits::Hearts => 2,
        CardSuits::Spades => 3,
    }
}

/// Strength of a value in a suit that is not trump: 7 8 9 J Q K 10 A.
pub open spec fn no_trump_rank(v: CardValue) -> nat {
    match v {
        CardValue::Seven => 0,
        CardValue::Eight => 1,
        CardValue::Nine => 2,
        CardValue::Jack => 3,
        CardValue::Queen => 4,
        CardValue::King => 5,
        CardValue::Ten => 6,
        CardValue::Ace => 7,
    }
}

/// Strength of a value in a trump suit: 7 8 Q K 10 A 9 J.
pub open spec fn trump_rank(v: CardValue) -> nat {
    match v {
        CardValue::Seven => 0,
        CardValue::Eight => 1,
        CardValue::Queen => 2,
        CardValue::King => 3,
        CardValue::Ten => 4,
        CardValue::Ace => 5,
        CardValue::Nine => 6,
        CardValue::Jack => 7,
    }
}

/// Place of a value in the natural order used for sequences: 7 8 9 10 J Q K A.
pub open spec fn regular_rank(v: CardValue) -> nat {
    match v {
        CardValue::Seven => 0,
        CardValue::Eight => 1,
        CardValue::Nine => 2,
        CardValue::Ten => 3,
        CardValue::Jack => 4,
        CardValue::Queen => 5,
        CardValue::King => 6,
        CardValue::Ace => 7,
    }
}

pub open spec fn no_trump_order_seq() -> Seq<CardValue> {
    seq![
        CardValue::Seven,
        CardValue::Eight,
        CardValue::Nine,
        CardValue::Jack,
        CardValue::Queen,
        CardValue::King,
        CardValue::Ten,
        CardValue::Ace,
    ]
}

pub open spec fn trump_order_seq() -> Seq<CardValue> {
    seq![
        CardValue::Seven,
        CardValue::Eight,
        CardValue::Queen,
        CardValue::King,
        CardValue::Ten,
        CardValue::Ace,
        CardValue::Nine,
        CardValue::Jack,
    ]
}

pub open spec fn regular_order_seq() -> Seq<CardValue> {
    seq![
        CardValue::Seven,
        CardValue::Eight,
        CardValue::Nine,
        CardValue::Ten,
        CardValue::Jack,
        CardValue::Queen,
        CardValue::King,
        CardValue::Ace,
    ]
}

/// Index of the first occurrence of `v` in `order` (the length if absent).
pub open spec fn order_position(order: Seq<CardValue>, v: CardValue) -> nat
    decreases order.len(),
{
    if order.len() == 0 {
        0
    } else if order[0] == v {
        0
    } else {
        1 + order_position(order.drop_first(), v)
    }
}

/// An order of the eight values in which every value occurs.
pub open spec fn is_value_order(order: Seq<CardValue>) -> bool {
    &&& order.len() == 8
    &&& forall|v: CardValue| #[trigger] order.contains(v)
}

pub proof fn lemma_order_position(order: Seq<CardValue>, v: CardValue)
    requires
        order.contains(v),
    ensures
        order_position(order, v) < order.len(),
        order[order_position(order, v) as int] == v,
        forall|i: int| 0 <= i < order_position(order, v) ==> order[i] != v,
    decreases order.len(),
{
    if order[0] != v {
        let i = choose|i: int| 0 <= i < order.len() && order[i] == v;
        assert(order.drop_first()[i - 1] == v);
        lemma_order_position(order.drop_first(), v);
        assert forall|j: int| 0 <= j < order_position(order, v) implies order[j] != v by {
            if j > 0 {
                assert(order[j] == order.drop_first()[j - 1]);
            }
        }
    }
}

/// Two values of a complete order sit at the same position only if they are equal.
pub proof fn lemma_order_position_injective(order: Seq<CardValue>, a: CardValue, b: CardValue)
    requires
        is_value_order(order),
        order_position(order, a) == order_position(order, b),
    ensures
        a == b,
{
    assert(order.contains(a));
    assert(order.contains(b));
    lemma_order_position(order, a);
    lemma_order_position(order, b);
}

pub proof fn lemma_fixed_orders(v: CardValue)
    ensures
        order_position(no_trump_order_seq(), v) == no_trump_rank(v),
        order_position(trump_order_seq(), v) == trump_rank(v),
        order_position(regular_order_seq(), v) == regular_rank(v),
        is_value_order(no_trump_order_seq()),
        is_value_order(trump_order_seq()),
        is_value_order(regular_order_seq()),
{
    reveal_with_fuel(order_position, 9);
    assert forall|w: CardValue| #[trigger] no_trump_order_seq().contains(w) by {
        assert(no_trump_order_seq()[no_trump_rank(w) as int] == w);
    }
    assert forall|w: CardValue| #[trigger] trump_order_seq().contains(w) by {
        assert(trump_order_seq()[trump_rank(w) as int] == w);
    }
    assert forall|w: CardValue| #[trigger] regular_order_seq().contains(w) by {
        assert(regular_order_seq()[regular_rank(w) as int] == w);
    }
}

pub fn no_trump_order() -> (order: [CardValue; 8])
    ensures
        order@ == no_trump_order_seq(),
{
    let order = [
        CardValue::Seven,
        CardValue::Eight,
        CardValue::Nine,
        CardValue::Jack,
        CardValue::Queen,
        CardValue::King,
        CardValue::Ten,
        CardValue::Ace,
    ];
    assert(order@ =~= no_trump_order_seq());
    order
}

pub fn trump_order() -> (order: [CardValue; 8])
    ensures
        order@ == trump_order_seq(),
{
    let order = [
        CardValue::Seven,
        CardValue::Eight,
        CardValue::Queen,
        CardValue::King,
        CardValue::Ten,
        CardValue::Ace,
        CardValue::Nine,
        CardValue::Jack,
    ];
    assert(order@ =~= trump_order_seq());
    order
}

pub fn regular_order() -> (order: [CardValue; 8])
    ensures
        order@ == regular_order_seq(),
{
    let order = [
        CardValue::Seven,
        CardValue::Eight,
        CardValue::Nine,
        CardValue::Ten,
        CardValue::Jack,
        CardValue::Queen,
        CardValue::King,
        CardValue::Ace,
    ];
    assert(order@ =~= regular_order_seq());
    order
}

/// Position of `v` in `order`; every value occurs in an order.
pub fn value_position(order: &[CardValue; 8], v: CardValue) -> (pos: usize)
    requires
        is_value_order(order@),
    ensures
        pos == order_position(order@, v),
        pos < 8,
{
    proof {
        assert(order@.contains(v));
        lemma_order_position(order@, v);
    }
    let mut i: usize = 0;
    while i < 8
        invariant
            i <= order_position(order@, v),
            order_position(order@, v) < 8,
            order@.len() == 8,
            order@[order_position(order@, v) as int] == v,
            forall|j: int| 0 <= j < order_position(order@, v) ==> order@[j] != v,
        decreases 8 - i,
    {
        if order[i] == v {
            return i;
        }
        i = i + 1;
    }
    i
}

/// Each card's position, by value, in `sort_way`.
pub fn cards_actual_value(hand: &Vec<Card>, sort_way: [CardValue; 8]) -> (values: Vec<usize>)
    requires
        is_value_order(sort_way@),
    ensures
        values@.len() == hand@.len(),
        forall|i: int|
            0 <= i < hand@.len() ==> values@[i] == order_position(sort_way@, #[trigger] hand@[i].value),
{
    let mut values: Vec<usize> = Vec::new();
    let mut i: usize = 0;
    while i < hand.len()
        invariant
            i <= hand@.len(),
            is_value_order(sort_way@),
            values@.len() == i,
            forall|j: int|
                0 <= j < i ==> values@[j] == order_position(sort_way@, #[trigger] hand@[j].value),
        decreases hand@.len() - i,
    {
        let p = value_position(&sort_way, hand[i].value);
        values.push(p);
        i = i + 1;
    }
    values
}

} // verus!
