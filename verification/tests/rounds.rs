use belot::bidding::{mode_of_bid, BidStep, BiddingState};
use belot::cards::{Card, CardSuits, CardValue, GameMode};
use belot::game::{Game, GameOutcome, Hanging};
use belot::round::{PlayResult, Round};
use belot::scoring::{point_count, score_round, RoundScore};
use belot::trick::PlayVerdict;

fn c(suit: CardSuits, value: CardValue) -> Card {
    Card { suit, value }
}

fn suit(s: CardSuits) -> Vec<Card> {
    [
        CardValue::Seven,
        CardValue::Eight,
        CardValue::Nine,
        CardValue::Ten,
        CardValue::Jack,
        CardValue::Queen,
        CardValue::King,
        CardValue::Ace,
    ]
    .iter()
    .map(|v| c(s, *v))
    .collect()
}

fn full_deck() -> Vec<Card> {
    let mut d = suit(CardSuits::Clubs);
    d.extend(suit(CardSuits::Diamonds));
    d.extend(suit(CardSuits::Hearts));
    d.extend(suit(CardSuits::Spades));
    d
}

#[test]
fn card_points_per_mode() {
    let decks = [suit(CardSuits::Clubs), suit(CardSuits::Hearts)];
    assert_eq!(point_count(&decks, &GameMode::NoTrumps), [60, 60]);
    assert_eq!(point_count(&decks, &GameMode::AllTrumps), [62, 62]);
    assert_eq!(point_count(&decks, &GameMode::OneTrump(CardSuits::Hearts)), [30, 62]);
}

#[test]
fn a_full_deck_is_worth_a_fixed_total() {
    let deck = full_deck();
    let (a, b) = deck.split_at(13);
    let decks = [a.to_vec(), b.to_vec()];
    let nt = point_count(&decks, &GameMode::NoTrumps);
    assert_eq!(nt[0] + nt[1] + 20, 260);
    let at = point_count(&decks, &GameMode::AllTrumps);
    assert_eq!(at[0] + at[1] + 10, 258);
    let ot = point_count(&decks, &GameMode::OneTrump(CardSuits::Diamonds));
    assert_eq!(ot[0] + ot[1] + 10, 162);
}

#[test]
fn score_of_a_one_trump_round() {
    // team 0 took clubs and hearts, team 1 diamonds and spades; spades are trumps
    let mut d0 = suit(CardSuits::Clubs);
    d0.extend(suit(CardSuits::Hearts));
    let mut d1 = suit(CardSuits::Diamonds);
    d1.extend(suit(CardSuits::Spades));
    let decks = [d0, d1];
    let score = score_round(&decks, &GameMode::OneTrump(CardSuits::Spades), 1, &[20, 0], 0);
    // 60 + 20 announcements; 92 + 10 last trick
    assert_eq!(score.counted, [80, 102]);
    assert!(score.inside);
    assert_eq!(score.checked, [0, 182]);
    assert_eq!(score.rounded, [0, 182]);
    assert_eq!(score.game_points, [0, 18]);
    assert_eq!(score.kapo, [false, false]);
}

#[test]
fn kapo_and_rounding() {
    let decks = [full_deck(), vec![]];
    let score = score_round(&decks, &GameMode::AllTrumps, 2, &[0, 40], 1);
    // 248 + 10 + 0 + 90 for the kapo; team 1 has its 40 announced points
    assert_eq!(score.counted, [348, 40]);
    assert_eq!(score.kapo, [false, true]);
    assert!(score.inside);
    assert_eq!(score.checked, [388, 0]);
    // 8 units >= 4 in all trumps
    assert_eq!(score.rounded, [398, 0]);
    assert_eq!(score.game_points, [39, 0]);
    let nt = score_round(&decks, &GameMode::NoTrumps, 0, &[100, 100], 0);
    // announcements do not count in no trumps
    assert_eq!(nt.counted, [240 + 20 + 90, 0]);
    assert!(!nt.inside);
    assert_eq!(nt.rounded, [350, 0]);
    assert_eq!(nt.game_points, [35, 0]);
}

#[test]
fn bidding_until_three_passes() {
    let mut b = BiddingState::new(3);
    assert_eq!(b.menu_size(), 7);
    assert_eq!(b.bid(4), BidStep::Continue); // player 3: hearts
    assert_eq!(b.menu_size(), 4);
    assert_eq!(b.current_player, 0);
    assert_eq!(b.bid(0), BidStep::Continue);
    assert_eq!(b.bid(1), BidStep::Continue); // player 1: all trumps
    assert_eq!(b.menu_size(), 1);
    assert_eq!(b.bid(0), BidStep::Continue);
    assert_eq!(b.bid(0), BidStep::Continue);
    assert_eq!(b.bid(0), BidStep::Done(GameMode::AllTrumps, 1));
}

#[test]
fn four_passes_end_the_bidding() {
    let mut b = BiddingState::new(0);
    assert_eq!(b.bid(0), BidStep::Continue);
    assert_eq!(b.bid(0), BidStep::Continue);
    assert_eq!(b.bid(0), BidStep::Continue);
    assert_eq!(b.bid(0), BidStep::Done(GameMode::Pass, 4));
    assert_eq!(mode_of_bid(6), GameMode::OneTrump(CardSuits::Clubs));
    assert_eq!(mode_of_bid(2), GameMode::NoTrumps);
}

#[test]
fn playing_a_trick() {
    let hands = [
        vec![c(CardSuits::Hearts, CardValue::King), c(CardSuits::Hearts, CardValue::Queen)],
        vec![c(CardSuits::Hearts, CardValue::Ace), c(CardSuits::Clubs, CardValue::Seven)],
        vec![c(CardSuits::Clubs, CardValue::Eight), c(CardSuits::Spades, CardValue::Jack)],
        vec![c(CardSuits::Hearts, CardValue::Seven), c(CardSuits::Diamonds, CardValue::Nine)],
    ];
    let mut round = Round::new(hands, GameMode::OneTrump(CardSuits::Spades), 0, [0, 0]);
    assert_eq!(round.current_player(), 0);
    match round.play_card(0) {
        PlayResult::Played { card, verdict, belot, trick } => {
            assert_eq!(card, c(CardSuits::Hearts, CardValue::King));
            assert!(verdict.is_none());
            // hearts are not trumps: no belot
            assert!(!belot);
            assert!(trick.is_none());
        }
        other => panic!("unexpected {:?}", other),
    }
    // player 1 holds hearts and must follow
    assert!(matches!(round.play_card(1), PlayResult::Refused(PlayVerdict::WrongSuit)));
    assert!(matches!(round.play_card(0), PlayResult::Played { .. }));
    // player 2 has no hearts and must trump
    assert!(matches!(round.play_card(0), PlayResult::Refused(PlayVerdict::MustTrump)));
    assert!(matches!(
        round.play_card(1),
        PlayResult::Played { verdict: Some(PlayVerdict::TrumpsInstead), .. }
    ));
    match round.play_card(0) {
        PlayResult::Played { trick: Some(end), .. } => {
            assert_eq!(end.winner, 2);
        }
        other => panic!("unexpected {:?}", other),
    }
    assert_eq!(round.win_hand_index, 2);
    assert_eq!(round.point_decks[0].len(), 4);
    assert!(round.point_decks[1].is_empty());
    assert!(round.cards_in_play.is_empty());
    assert_eq!(round.tricks_left, 1);
    assert!(!round.is_over());
}

#[test]
fn belot_is_announced_while_playing() {
    let hands = [
        vec![c(CardSuits::Hearts, CardValue::King), c(CardSuits::Hearts, CardValue::Queen)],
        vec![c(CardSuits::Hearts, CardValue::Ace), c(CardSuits::Clubs, CardValue::Seven)],
        vec![c(CardSuits::Clubs, CardValue::Eight), c(CardSuits::Spades, CardValue::Jack)],
        vec![c(CardSuits::Hearts, CardValue::Seven), c(CardSuits::Diamonds, CardValue::Nine)],
    ];
    let mut round = Round::new(hands, GameMode::OneTrump(CardSuits::Hearts), 0, [0, 0]);
    assert!(matches!(round.play_card(0), PlayResult::Played { belot: true, .. }));
    assert_eq!(round.points_from_announs, [20, 0]);
}

#[test]
fn game_totals_hanging_and_winner() {
    let mut game = Game::new();
    let level = RoundScore {
        counted: [81, 81],
        inside: false,
        checked: [81, 81],
        rounded: [81, 81],
        game_points: [8, 8],
        kapo: [false, false],
    };
    let end = game.finish_round(&level);
    assert_eq!(end.hanging, Hanging::Hangs(81));
    assert_eq!(end.outcome, GameOutcome::Continue);
    assert_eq!(game.points_total, [8, 8]);
    assert_eq!(game.init_hand_index, 1);
    let big = RoundScore {
        counted: [0, 262],
        inside: true,
        checked: [0, 262],
        rounded: [0, 262],
        game_points: [0, 150],
        kapo: [false, false],
    };
    let end = game.finish_round(&big);
    assert_eq!(end.hanging, Hanging::Paid { team: 1, amount: 81 });
    assert_eq!(game.hanging_points, 0);
    assert_eq!(game.points_total, [8, 158]);
    assert_eq!(end.outcome, GameOutcome::Winner(1));
    assert_eq!(game.init_hand_index, 1);
    game.passed_round();
    assert_eq!(game.init_hand_index, 2);
}

#[test]
fn equal_totals_above_151_play_on() {
    let mut game = Game { points_total: [150, 150], init_hand_index: 3, hanging_points: 0 };
    let score = RoundScore {
        counted: [10, 10],
        inside: false,
        checked: [10, 20],
        rounded: [10, 20],
        game_points: [1, 1],
        kapo: [false, false],
    };
    let end = game.finish_round(&score);
    assert_eq!(end.outcome, GameOutcome::TiedAbove);
    assert_eq!(end.hanging, Hanging::Nothing);
    assert_eq!(game.init_hand_index, 0);
}

#[test]
fn no_card_is_lost_while_playing() {
    let hands = [
        vec![c(CardSuits::Clubs, CardValue::Ace), c(CardSuits::Hearts, CardValue::Queen)],
        vec![c(CardSuits::Clubs, CardValue::Ten), c(CardSuits::Hearts, CardValue::Seven)],
        vec![c(CardSuits::Clubs, CardValue::King), c(CardSuits::Diamonds, CardValue::Jack)],
        vec![c(CardSuits::Spades, CardValue::Nine), c(CardSuits::Clubs, CardValue::Seven)],
    ];
    let mut all: Vec<Card> = hands.iter().flat_map(|h| h.iter().cloned()).collect();
    let mut round = Round::new(hands, GameMode::AllTrumps, 1, [0, 0]);
    while !round.is_over() {
        let p = round.current_player();
        let n = round.hands[p].len();
        let mut played = false;
        for choice in 0..n {
            if let PlayResult::Played { .. } = round.play_card(choice) {
                played = true;
                break;
            }
        }
        assert!(played);
    }
    assert!(round.hands.iter().all(|h| h.is_empty()));
    let mut taken: Vec<Card> = round.point_decks.iter().flat_map(|d| d.iter().cloned()).collect();
    let key = |x: &Card| format!("{:?}", x);
    all.sort_by_key(key);
    taken.sort_by_key(key);
    assert_eq!(all, taken);
    let score = score_round(&round.point_decks, &GameMode::AllTrumps, round.win_hand_index, &round.points_from_announs, 1);
    assert_eq!(score.checked[0] + score.checked[1], score.counted[0] + score.counted[1]);
}

#[test]
fn totals_grow_by_the_rounded_points_of_each_round() {
    let mut d0 = suit(CardSuits::Clubs);
    d0.extend(suit(CardSuits::Hearts));
    let mut d1 = suit(CardSuits::Diamonds);
    d1.extend(suit(CardSuits::Spades));
    let decks = [d0, d1];
    let mut game = Game { points_total: [40, 70], init_hand_index: 1, hanging_points: 0 };
    // team 0 bid: 80 against 102, so team 0 is inside and 182 go to team 1
    let score = score_round(&decks, &GameMode::OneTrump(CardSuits::Spades), 1, &[20, 0], 0);
    game.finish_round(&score);
    assert_eq!(game.points_total, [40, 70 + 18]);
    // team 1 bid: 80 against 102 stand; 80 and 102 round to 8 and 10
    let score = score_round(&decks, &GameMode::OneTrump(CardSuits::Spades), 1, &[20, 0], 1);
    assert_eq!(score.checked, [80, 102]);
    game.finish_round(&score);
    assert_eq!(game.points_total, [48, 98]);
    // all trumps: 124 + 10 + 4 against 124, so team 1 is inside and 262 go to team 0
    let score = score_round(&decks, &GameMode::AllTrumps, 0, &[4, 0], 1);
    assert_eq!(score.checked, [262, 0]);
    game.finish_round(&score);
    assert_eq!(game.points_total, [74, 98]);
    // 146 against 124 in all trumps: 6 and 4 units both reach the limit of 4
    let score = score_round(&decks, &GameMode::AllTrumps, 0, &[12, 0], 0);
    assert_eq!(score.checked, [146, 124]);
    assert_eq!(score.rounded, [156, 134]);
    game.finish_round(&score);
    assert_eq!(game.points_total, [74 + 15, 98 + 13]);
}
