use belot::announcements::check_cards_sequence;
use belot::cards::{Card, CardSuits, CardValue};

fn card(suit: CardSuits, value: CardValue) -> Card {
    Card { suit, value }
}

#[test]
fn test_card_sequence_right() {
    //hand has 1 not in a row card on right
    let hand = vec![
        card(CardSuits::Clubs, CardValue::Eight),
        card(CardSuits::Clubs, CardValue::Nine),
        card(CardSuits::Clubs, CardValue::Ace),
        card(CardSuits::Clubs, CardValue::Ten),
        card(CardSuits::Clubs, CardValue::Jack),
        card(CardSuits::Clubs, CardValue::Queen),
    ];
    assert_eq!(
        check_cards_sequence(&hand),
        (vec![5], vec![card(CardSuits::Clubs, CardValue::Queen)])
    )
}

#[test]
fn test_card_sequence_left() {
    //hand has 1 not in a row card on left
    let hand = vec![
        card(CardSuits::Clubs, CardValue::Eight),
        card(CardSuits::Clubs, CardValue::Ace),
        card(CardSuits::Clubs, CardValue::Ten),
        card(CardSuits::Clubs, CardValue::Jack),
        card(CardSuits::Clubs, CardValue::Queen),
    ];
    assert_eq!(
        check_cards_sequence(&hand),
        (vec![3], vec![card(CardSuits::Clubs, CardValue::Queen)])
    )
}

#[test]
fn test_card_sequence_trim() {
    //hand is only of cards in a row
    let hand = vec![
        card(CardSuits::Diamonds, CardValue::Ace),
        card(CardSuits::Clubs, CardValue::Ace),
        card(CardSuits::Diamonds, CardValue::King),
        card(CardSuits::Diamonds, CardValue::Queen),
    ];
    assert_eq!(
        check_cards_sequence(&hand),
        (vec![3], vec![card(CardSuits::Diamonds, CardValue::Ace)])
    )
}

#[test]
fn sequences_in_two_suits_and_ties_keep_the_first_longest() {
    let hand = vec![
        card(CardSuits::Spades, CardValue::Seven),
        card(CardSuits::Spades, CardValue::Eight),
        card(CardSuits::Spades, CardValue::Nine),
        card(CardSuits::Spades, CardValue::Jack),
        card(CardSuits::Spades, CardValue::Queen),
        card(CardSuits::Spades, CardValue::King),
        card(CardSuits::Hearts, CardValue::Ten),
        card(CardSuits::Hearts, CardValue::Jack),
        card(CardSuits::Hearts, CardValue::Queen),
        card(CardSuits::Hearts, CardValue::King),
    ];
    assert_eq!(
        check_cards_sequence(&hand),
        (
            vec![4, 3],
            vec![
                card(CardSuits::Hearts, CardValue::King),
                card(CardSuits::Spades, CardValue::Nine)
            ]
        )
    )
}

#[test]
fn two_card_runs_are_no_sequence() {
    let hand = vec![
        card(CardSuits::Clubs, CardValue::Seven),
        card(CardSuits::Clubs, CardValue::Eight),
        card(CardSuits::Hearts, CardValue::Ace),
    ];
    assert_eq!(check_cards_sequence(&hand), (vec![], vec![]));
}

#[test]
fn full_suit_is_one_sequence_of_eight() {
    let values = [
        CardValue::Ace,
        CardValue::King,
        CardValue::Queen,
        CardValue::Jack,
        CardValue::Ten,
        CardValue::Nine,
        CardValue::Eight,
        CardValue::Seven,
    ];
    let hand: Vec<Card> = values.iter().map(|v| card(CardSuits::Diamonds, *v)).collect();
    assert_eq!(
        check_cards_sequence(&hand),
        (vec![8], vec![card(CardSuits::Diamonds, CardValue::Ace)])
    );
}

#[test]
fn sequences_do_not_depend_on_the_order_of_the_hand() {
    let a = vec![
        card(CardSuits::Hearts, CardValue::Nine),
        card(CardSuits::Hearts, CardValue::Jack),
        card(CardSuits::Spades, CardValue::Ace),
        card(CardSuits::Hearts, CardValue::Ten),
    ];
    let mut b = a.clone();
    b.reverse();
    assert_eq!(check_cards_sequence(&a), check_cards_sequence(&b));
    assert_eq!(check_cards_sequence(&a), (vec![3], vec![card(CardSuits::Hearts, CardValue::Jack)]));
}
