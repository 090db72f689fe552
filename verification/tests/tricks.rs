use belot::announcements::{compare_sequences, suit_sequences, SequenceComparison, SequenceDuel};
use belot::cards::{Card, CardSuits, CardValue, GameMode};
use belot::trick::{belot_check, card_validation, cards_compare, PlayVerdict};

fn c(suit: CardSuits, value: CardValue) -> Card {
    Card { suit, value }
}

#[test]
fn strongest_card_follows_the_suit_led() {
    let trick = vec![
        c(CardSuits::Clubs, CardValue::Ten),
        c(CardSuits::Clubs, CardValue::Ace),
        c(CardSuits::Hearts, CardValue::Jack),
        c(CardSuits::Clubs, CardValue::King),
    ];
    assert_eq!(cards_compare(&trick, &GameMode::NoTrumps), 1);
    // in all trumps the jack is highest, but only in its own suit
    assert_eq!(cards_compare(&trick, &GameMode::AllTrumps), 1);
    // a trump takes the trick
    assert_eq!(cards_compare(&trick, &GameMode::OneTrump(CardSuits::Hearts)), 2);
    assert_eq!(cards_compare(&trick, &GameMode::OneTrump(CardSuits::Spades)), 1);
}

#[test]
fn highest_trump_wins_in_trump_order() {
    let trick = vec![
        c(CardSuits::Spades, CardValue::Ace),
        c(CardSuits::Spades, CardValue::Nine),
        c(CardSuits::Diamonds, CardValue::Jack),
        c(CardSuits::Spades, CardValue::Jack),
    ];
    assert_eq!(cards_compare(&trick, &GameMode::OneTrump(CardSuits::Spades)), 3);
    assert_eq!(cards_compare(&trick, &GameMode::AllTrumps), 3);
    assert_eq!(cards_compare(&trick, &GameMode::NoTrumps), 0);
    let two_trumps = vec![
        c(CardSuits::Clubs, CardValue::Ace),
        c(CardSuits::Hearts, CardValue::Seven),
        c(CardSuits::Hearts, CardValue::Nine),
        c(CardSuits::Hearts, CardValue::Ace),
    ];
    assert_eq!(cards_compare(&two_trumps, &GameMode::OneTrump(CardSuits::Hearts)), 2);
    assert_eq!(cards_compare(&vec![c(CardSuits::Clubs, CardValue::Seven)], &GameMode::NoTrumps), 0);
}

#[test]
fn follow_suit_is_required() {
    let mut hand = vec![c(CardSuits::Clubs, CardValue::Seven), c(CardSuits::Hearts, CardValue::Ace)];
    let init = c(CardSuits::Clubs, CardValue::Ace);
    let table = vec![init];
    let v = card_validation(&mut hand, &GameMode::NoTrumps, init, &table, 1);
    assert_eq!(v, PlayVerdict::WrongSuit);
    assert_eq!(hand.len(), 2);
    let v = card_validation(&mut hand, &GameMode::NoTrumps, init, &table, 0);
    assert_eq!(v, PlayVerdict::FollowsSuit);
    assert_eq!(hand, vec![c(CardSuits::Hearts, CardValue::Ace)]);
}

#[test]
fn all_trumps_demands_a_higher_card() {
    let init = c(CardSuits::Diamonds, CardValue::Ace);
    let table = vec![init];
    let mut hand = vec![c(CardSuits::Diamonds, CardValue::Ten), c(CardSuits::Diamonds, CardValue::Nine)];
    assert_eq!(card_validation(&mut hand, &GameMode::AllTrumps, init, &table, 0), PlayVerdict::MustBeat);
    assert_eq!(card_validation(&mut hand, &GameMode::AllTrumps, init, &table, 1), PlayVerdict::BeatsTrump);
    let mut low = vec![c(CardSuits::Diamonds, CardValue::Ten)];
    assert_eq!(card_validation(&mut low, &GameMode::AllTrumps, init, &table, 0), PlayVerdict::NoHigherTrump);
    let mut none = vec![c(CardSuits::Clubs, CardValue::Ten)];
    assert_eq!(card_validation(&mut none, &GameMode::AllTrumps, init, &table, 0), PlayVerdict::NoSuit);
}

#[test]
fn one_trump_rules() {
    let mode = GameMode::OneTrump(CardSuits::Spades);
    let init = c(CardSuits::Hearts, CardValue::Ten);
    let table = vec![init];
    let mut hand = vec![c(CardSuits::Clubs, CardValue::Ace), c(CardSuits::Spades, CardValue::Seven)];
    assert_eq!(card_validation(&mut hand, &mode, init, &table, 0), PlayVerdict::MustTrump);
    assert_eq!(card_validation(&mut hand, &mode, init, &table, 1), PlayVerdict::TrumpsInstead);
    let mut plain = vec![c(CardSuits::Clubs, CardValue::Ace)];
    assert_eq!(card_validation(&mut plain, &mode, init, &table, 0), PlayVerdict::NoSuitNoTrump);
    // a trump was led: the higher trump must be played, unless the teammate holds the trick
    let trump_lead = c(CardSuits::Spades, CardValue::Queen);
    let mut trumps = vec![c(CardSuits::Spades, CardValue::Eight), c(CardSuits::Spades, CardValue::Jack)];
    assert_eq!(card_validation(&mut trumps, &mode, trump_lead, &vec![trump_lead], 0), PlayVerdict::MustBeat);
    let partner_table = vec![trump_lead, c(CardSuits::Spades, CardValue::Seven)];
    assert_eq!(
        card_validation(&mut trumps, &mode, trump_lead, &partner_table, 0),
        PlayVerdict::TeammateHoldsTrick
    );
    let mut no_spade = vec![c(CardSuits::Clubs, CardValue::Eight)];
    assert_eq!(card_validation(&mut no_spade, &mode, trump_lead, &vec![trump_lead], 0), PlayVerdict::NoSuit);
    assert!(PlayVerdict::NoSuit.accepted());
    assert!(!PlayVerdict::MustTrump.accepted());
}

#[test]
fn belot_needs_king_and_queen_of_trump() {
    let hand = vec![c(CardSuits::Hearts, CardValue::Queen)];
    let king = c(CardSuits::Hearts, CardValue::King);
    assert!(belot_check(&hand, &GameMode::OneTrump(CardSuits::Hearts), king, king));
    assert!(!belot_check(&hand, &GameMode::OneTrump(CardSuits::Clubs), king, king));
    assert!(!belot_check(&hand, &GameMode::NoTrumps, king, king));
    assert!(belot_check(&hand, &GameMode::AllTrumps, king, c(CardSuits::Hearts, CardValue::Ace)));
    assert!(!belot_check(&hand, &GameMode::AllTrumps, king, c(CardSuits::Clubs, CardValue::Ace)));
    assert!(!belot_check(&vec![], &GameMode::AllTrumps, king, king));
}

#[test]
fn sequences_set_against_each_other() {
    let duel = compare_sequences(&vec![3], &vec![c(CardSuits::Clubs, CardValue::Nine)], &vec![], &vec![c(CardSuits::Clubs, CardValue::Ten)]);
    assert!(matches!(duel, SequenceDuel::Unopposed));
    let duel = compare_sequences(
        &vec![4],
        &vec![c(CardSuits::Clubs, CardValue::Nine)],
        &vec![3],
        &vec![c(CardSuits::Hearts, CardValue::Ace)],
    );
    assert!(matches!(duel, SequenceDuel::Longer(0)));
    let duel = compare_sequences(
        &vec![5, 3],
        &vec![c(CardSuits::Clubs, CardValue::King), c(CardSuits::Clubs, CardValue::Ace)],
        &vec![5, 1],
        &vec![c(CardSuits::Diamonds, CardValue::Ace), c(CardSuits::Diamonds, CardValue::Eight)],
    );
    match duel {
        SequenceDuel::SameLength(cmp) => assert_eq!(cmp, vec![SequenceComparison::SecondHigher]),
        other => panic!("unexpected duel {:?}", other),
    }
}

#[test]
fn equal_sequences_are_compared_suit_by_suit() {
    // team 0: a heart run up to the nine; team 1: a club run up to the nine
    // and a heart run up to the ace
    let first = vec![
        c(CardSuits::Hearts, CardValue::Seven),
        c(CardSuits::Hearts, CardValue::Eight),
        c(CardSuits::Hearts, CardValue::Nine),
        c(CardSuits::Spades, CardValue::King),
    ];
    let second = vec![
        c(CardSuits::Clubs, CardValue::Seven),
        c(CardSuits::Clubs, CardValue::Eight),
        c(CardSuits::Clubs, CardValue::Nine),
        c(CardSuits::Hearts, CardValue::Queen),
        c(CardSuits::Hearts, CardValue::King),
        c(CardSuits::Hearts, CardValue::Ace),
    ];
    let (l0, t0) = suit_sequences(&first);
    let (l1, t1) = suit_sequences(&second);
    assert_eq!(l0, vec![1, 1, 3, 1]);
    assert_eq!(t0[2], c(CardSuits::Hearts, CardValue::Nine));
    // a suit without two cards shows a run of one and the hand's second card
    assert_eq!(t0[0], c(CardSuits::Hearts, CardValue::Eight));
    assert_eq!(l1, vec![3, 1, 3, 1]);
    match compare_sequences(&l0, &t0, &l1, &t1) {
        SequenceDuel::SameLength(cmp) => assert_eq!(cmp, vec![SequenceComparison::SecondHigher]),
        other => panic!("unexpected duel {:?}", other),
    }
}
