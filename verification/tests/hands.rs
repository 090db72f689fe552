use belot::cards::{
    cards_actual_value, no_trump_order, regular_order, trump_order, Card, CardSuits, CardValue,
    GameMode,
};
use belot::deal::{add_cards, continue_game, deal_new_game, generate_full_deck, new_game, new_hands};
use belot::announcements::{check_carre, points_from_card_sequences, SequenceDuel};
use belot::sorting::sort_hand;

fn c(suit: CardSuits, value: CardValue) -> Card {
    Card { suit, value }
}

fn ordered_deck() -> Vec<Card> {
    let suits = [CardSuits::Clubs, CardSuits::Diamonds, CardSuits::Hearts, CardSuits::Spades];
    let values = [
        CardValue::Seven,
        CardValue::Eight,
        CardValue::Nine,
        CardValue::Ten,
        CardValue::Jack,
        CardValue::Queen,
        CardValue::King,
        CardValue::Ace,
    ];
    let mut deck = Vec::new();
    for s in suits.iter() {
        for v in values.iter() {
            deck.push(c(*s, *v));
        }
    }
    deck
}

#[test]
fn actual_values_follow_the_order() {
    let hand = vec![c(CardSuits::Clubs, CardValue::Nine), c(CardSuits::Hearts, CardValue::Jack)];
    assert_eq!(cards_actual_value(&hand, trump_order()), vec![6, 7]);
    assert_eq!(cards_actual_value(&hand, no_trump_order()), vec![2, 3]);
    assert_eq!(cards_actual_value(&hand, regular_order()), vec![2, 4]);
}

#[test]
fn sort_hand_groups_by_suit_then_value() {
    let mut hand = vec![
        c(CardSuits::Spades, CardValue::Ace),
        c(CardSuits::Clubs, CardValue::Ten),
        c(CardSuits::Spades, CardValue::Seven),
        c(CardSuits::Clubs, CardValue::King),
        c(CardSuits::Hearts, CardValue::Nine),
    ];
    let sorted = sort_hand(&mut hand, no_trump_order());
    assert_eq!(
        sorted,
        vec![
            c(CardSuits::Clubs, CardValue::King),
            c(CardSuits::Clubs, CardValue::Ten),
            c(CardSuits::Hearts, CardValue::Nine),
            c(CardSuits::Spades, CardValue::Seven),
            c(CardSuits::Spades, CardValue::Ace),
        ]
    );
    // the hand itself is left ordered by value only
    let values = cards_actual_value(&hand, no_trump_order());
    for w in values.windows(2) {
        assert!(w[0] <= w[1]);
    }
    // in trump order the nine beats the ace
    let mut hand2 = vec![c(CardSuits::Clubs, CardValue::Nine), c(CardSuits::Clubs, CardValue::Ace)];
    assert_eq!(
        sort_hand(&mut hand2, trump_order()),
        vec![c(CardSuits::Clubs, CardValue::Ace), c(CardSuits::Clubs, CardValue::Nine)]
    );
}

#[test]
fn sorting_twice_changes_nothing() {
    let mut hand = vec![
        c(CardSuits::Diamonds, CardValue::Jack),
        c(CardSuits::Clubs, CardValue::Eight),
        c(CardSuits::Diamonds, CardValue::Seven),
    ];
    let once = sort_hand(&mut hand, regular_order());
    let mut again = once.clone();
    assert_eq!(sort_hand(&mut again, regular_order()), once);
}

#[test]
fn full_deck_has_every_card_once() {
    let deck = generate_full_deck();
    assert_eq!(deck.len(), 32);
    for card in ordered_deck() {
        assert_eq!(deck.iter().filter(|d| **d == card).count(), 1);
    }
}

#[test]
fn add_cards_deals_in_turn() {
    let mut deck = ordered_deck();
    let hands = add_cards(new_hands(), &mut deck, 2);
    assert_eq!(hands[0], vec![c(CardSuits::Clubs, CardValue::Seven), c(CardSuits::Clubs, CardValue::Eight)]);
    assert_eq!(hands[3], vec![c(CardSuits::Clubs, CardValue::King), c(CardSuits::Clubs, CardValue::Ace)]);
    assert_eq!(deck.len(), 24);
    assert_eq!(deck[0], c(CardSuits::Diamonds, CardValue::Seven));
}

#[test]
fn first_deal_from_a_known_deck() {
    let (hands, deck) = deal_new_game(ordered_deck());
    assert_eq!(deck.len(), 12);
    assert_eq!(deck[0], c(CardSuits::Hearts, CardValue::Jack));
    // player 1 gets the clubs queen, king and ace and the diamonds seven and eight
    assert_eq!(
        hands[1],
        vec![
            c(CardSuits::Clubs, CardValue::Queen),
            c(CardSuits::Clubs, CardValue::King),
            c(CardSuits::Clubs, CardValue::Ace),
            c(CardSuits::Diamonds, CardValue::Seven),
            c(CardSuits::Diamonds, CardValue::Eight),
        ]
    );
    // jack before ten in no-trump order
    assert_eq!(
        hands[0],
        vec![
            c(CardSuits::Clubs, CardValue::Seven),
            c(CardSuits::Clubs, CardValue::Eight),
            c(CardSuits::Clubs, CardValue::Nine),
            c(CardSuits::Clubs, CardValue::Jack),
            c(CardSuits::Clubs, CardValue::Ten),
        ]
    );
}

#[test]
fn new_game_deals_five_each_and_keeps_every_card() {
    let (hands, deck) = new_game();
    let mut all: Vec<Card> = deck.clone();
    for h in hands.iter() {
        assert_eq!(h.len(), 5);
        all.extend(h.iter().cloned());
    }
    assert_eq!(deck.len(), 12);
    for card in ordered_deck() {
        assert_eq!(all.iter().filter(|d| **d == card).count(), 1);
    }
}

#[test]
fn continue_game_arranges_and_announces() {
    let (hands, mut deck) = deal_new_game(ordered_deck());
    let mut announs = [0usize, 0usize];
    let (hands, duel, carres) = continue_game(hands, &mut deck, &GameMode::OneTrump(CardSuits::Hearts), &mut announs);
    assert!(deck.is_empty());
    // player 0: clubs 7 to jack and hearts jack, queen, king;
    // hearts are trumps and go last, in trump order
    assert_eq!(
        hands[0],
        vec![
            c(CardSuits::Clubs, CardValue::Seven),
            c(CardSuits::Clubs, CardValue::Eight),
            c(CardSuits::Clubs, CardValue::Nine),
            c(CardSuits::Clubs, CardValue::Jack),
            c(CardSuits::Clubs, CardValue::Ten),
            c(CardSuits::Hearts, CardValue::Queen),
            c(CardSuits::Hearts, CardValue::King),
            c(CardSuits::Hearts, CardValue::Jack),
        ]
    );
    // player 2 holds no trump
    assert_eq!(
        hands[2],
        vec![
            c(CardSuits::Diamonds, CardValue::Nine),
            c(CardSuits::Diamonds, CardValue::Jack),
            c(CardSuits::Diamonds, CardValue::Queen),
            c(CardSuits::Diamonds, CardValue::King),
            c(CardSuits::Diamonds, CardValue::Ten),
            c(CardSuits::Spades, CardValue::Nine),
            c(CardSuits::Spades, CardValue::Jack),
            c(CardSuits::Spades, CardValue::Ten),
        ]
    );
    assert_eq!(announs, [0, 0]);
    assert!(carres.iter().all(|c| c.is_empty()));
    // team 0 (players 0 and 2) has sequences of 5; team 1's longest is 4 (hearts)
    match duel {
        SequenceDuel::Longer(team) => assert_eq!(team, 0),
        other => panic!("unexpected duel {:?}", other),
    }
}

#[test]
fn no_trumps_has_no_announcements() {
    let (hands, mut deck) = deal_new_game(ordered_deck());
    let mut announs = [5usize, 7usize];
    let (hands, duel, carres) = continue_game(hands, &mut deck, &GameMode::NoTrumps, &mut announs);
    assert_eq!(announs, [5, 7]);
    assert!(carres.iter().all(|c| c.is_empty()));
    assert!(matches!(duel, SequenceDuel::Unopposed));
    assert_eq!(hands[0].len(), 8);
}

#[test]
fn carre_points_per_value() {
    let mut points = [0usize, 10usize];
    let jacks = vec![
        c(CardSuits::Clubs, CardValue::Jack),
        c(CardSuits::Diamonds, CardValue::Jack),
        c(CardSuits::Hearts, CardValue::Jack),
        c(CardSuits::Spades, CardValue::Jack),
        c(CardSuits::Spades, CardValue::Nine),
    ];
    assert_eq!(check_carre(&jacks, 3, &mut points), vec![CardValue::Jack]);
    assert_eq!(points, [0, 210]);
    let nines = vec![
        c(CardSuits::Clubs, CardValue::Nine),
        c(CardSuits::Diamonds, CardValue::Nine),
        c(CardSuits::Hearts, CardValue::Nine),
        c(CardSuits::Spades, CardValue::Nine),
    ];
    check_carre(&nines, 2, &mut points);
    assert_eq!(points, [150, 210]);
    let sevens = vec![
        c(CardSuits::Clubs, CardValue::Seven),
        c(CardSuits::Diamonds, CardValue::Seven),
        c(CardSuits::Hearts, CardValue::Seven),
        c(CardSuits::Spades, CardValue::Seven),
    ];
    check_carre(&sevens, 0, &mut points);
    assert_eq!(points, [150, 210]);
}

#[test]
fn sequence_points_table() {
    assert_eq!(points_from_card_sequences(&vec![3, 4, 5, 6, 7, 8, 2, 9]), 20 + 50 + 300 + 120);
    assert_eq!(points_from_card_sequences(&vec![]), 0);
}

#[test]
fn the_deck_comes_shuffled() {
    // the chance that a shuffle leaves 32 cards in their order is 1 in 32!
    let deck = generate_full_deck();
    assert_ne!(deck, ordered_deck());
}

#[test]
fn carres_are_found_after_the_deal() {
    // player 0 ends with the four jacks and four aces
    let mut deck = vec![
        c(CardSuits::Clubs, CardValue::Jack),
        c(CardSuits::Diamonds, CardValue::Jack),
        c(CardSuits::Hearts, CardValue::Jack),
        c(CardSuits::Spades, CardValue::Jack),
        c(CardSuits::Clubs, CardValue::Ace),
    ];
    let rest: Vec<Card> = ordered_deck()
        .into_iter()
        .filter(|x| x.value != CardValue::Jack && x.value != CardValue::Ace)
        .collect();
    deck.extend(rest[0..15].iter().cloned());
    deck.extend([
        c(CardSuits::Diamonds, CardValue::Ace),
        c(CardSuits::Hearts, CardValue::Ace),
        c(CardSuits::Spades, CardValue::Ace),
    ]);
    deck.extend(rest[15..24].iter().cloned());
    let (hands, mut deck) = deal_new_game(deck);
    let mut announs = [0usize, 0usize];
    let (hands, _duel, carres) = continue_game(hands, &mut deck, &GameMode::AllTrumps, &mut announs);
    assert_eq!(carres[0], vec![CardValue::Jack, CardValue::Ace]);
    assert_eq!(announs[0], 300);
    assert_eq!(hands[0].len(), 8);
}

#[test]
fn sort_hand_swaps_the_first_weakest_card_into_place() {
    let mut hand = vec![
        c(CardSuits::Hearts, CardValue::Seven),
        c(CardSuits::Clubs, CardValue::Nine),
        c(CardSuits::Spades, CardValue::Seven),
        c(CardSuits::Diamonds, CardValue::Eight),
    ];
    let sorted = sort_hand(&mut hand, regular_order());
    assert_eq!(
        hand,
        vec![
            c(CardSuits::Hearts, CardValue::Seven),
            c(CardSuits::Spades, CardValue::Seven),
            c(CardSuits::Diamonds, CardValue::Eight),
            c(CardSuits::Clubs, CardValue::Nine),
        ]
    );
    assert_eq!(
        sorted,
        vec![
            c(CardSuits::Clubs, CardValue::Nine),
            c(CardSuits::Diamonds, CardValue::Eight),
            c(CardSuits::Hearts, CardValue::Seven),
            c(CardSuits::Spades, CardValue::Seven),
        ]
    );
}
