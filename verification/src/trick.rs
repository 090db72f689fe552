//! One trick: which card takes it, which cards a player may play to it,
//! and the belot (king and queen of trump) announced while playing.
use vstd::prelude::*;
use crate::cards::{Card, CardSuits, CardValue, GameMode, no_trump_rank, trump_rank};

verus! {

/// Strength of a card within its suit under `mode`.
pub open spec fn card_strength(c: Card, mode: GameMode) -> nat {
    match mode {
        GameMode::AllTrumps => trump_rank(c.value),
        GameMode::OneTrump(t) => if c.suit == t {
            trump_rank(c.value)
        } else {
            no_trump_rank(c.value)
        },
        _ => no_trump_rank(c.value),
    }
}

/// Some card of the trick is a trump of a one-trump game.
pub open spec fn trump_in_trick(cards: Seq<Card>, mode: GameMode) -> bool {
    match mode {
        GameMode::OneTrump(t) => exists|i: int| 0 <= i < cards.len() && #[trigger] cards[i].suit == t,
        _ => false,
    }
}

/// The suit that takes the trick: trump if a trump was played, else the suit led.
pub open spec fn winning_suit(cards: Seq<Card>, mode: GameMode) -> CardSuits {
    if trump_in_trick(cards, mode) {
        mode->OneTrump_0
    } else {
        cards[0].suit
    }
}

/// Card `w` takes the trick: it is of the winning suit, no card of that suit
/// is stronger, and no earlier card of that suit is as strong.
pub open spec fn is_trick_winner(cards: Seq<Card>, mode: GameMode, w: int) -> bool {
    &&& 0 <= w < cards.len()
    &&& cards[w].suit == winning_suit(cards, mode)
    &&& forall|j: int|
        0 <= j < cards.len() && #[trigger] cards[j].suit == winning_suit(cards, mode) ==> card_strength(
            cards[j],
            mode,
        ) < card_strength(cards[w], mode) || (card_strength(cards[j], mode) == card_strength(
            cards[w],
            mode,
        ) && w <= j)
}

/// The winner of a trick is unique.
pub proof fn lemma_trick_winner_unique(cards: Seq<Card>, mode: GameMode, a: int, b: int)
    requires
        is_trick_winner(cards, mode, a),
        is_trick_winner(cards, mode, b),
    ensures
        a == b,
{
    assert(cards[a].suit == winning_suit(cards, mode));
    assert(cards[b].suit == winning_suit(cards, mode));
}

/// Of two cards of one suit, the one higher in the suit's order takes the
/// trick, whichever was led: 7 8 9 J Q K 10 A in a suit that is not trump,
/// 7 8 Q K 10 A 9 J in a trump suit (every suit in all trumps).
pub proof fn lemma_higher_card_takes_trick(mode: GameMode, s: CardSuits, i: int, j: int)
    requires
        !(mode is Pass),
        0 <= i < 8,
        0 <= j < 8,
        i != j,
    ensures
        ({
            let ladder = if mode is AllTrumps || mode == GameMode::OneTrump(s) {
                seq![
                    CardValue::Seven,
                    CardValue::Eight,
                    CardValue::Queen,
                    CardValue::King,
                    CardValue::Ten,
                    CardValue::Ace,
                    CardValue::Nine,
                    CardValue::Jack,
                ]
            } else {
                seq![
                    CardValue::Seven,
                    CardValue::Eight,
                    CardValue::Nine,
                    CardValue::Jack,
                    CardValue::Queen,
                    CardValue::King,
                    CardValue::Ten,
                    CardValue::Ace,
                ]
            };
            let a = Card { suit: s, value: ladder[i] };
            let b = Card { suit: s, value: ladder[j] };
            is_trick_winner(seq![a, b], mode, 1) <==> i < j
        }),
{
    let trump = mode is AllTrumps || mode == GameMode::OneTrump(s);
    let ladder = if trump {
        seq![
            CardValue::Seven,
            CardValue::Eight,
            CardValue::Queen,
            CardValue::King,
            CardValue::Ten,
            CardValue::Ace,
            CardValue::Nine,
            CardValue::Jack,
        ]
    } else {
        seq![
            CardValue::Seven,
            CardValue::Eight,
            CardValue::Nine,
            CardValue::Jack,
            CardValue::Queen,
            CardValue::King,
            CardValue::Ten,
            CardValue::Ace,
        ]
    };
    assert forall|k: int| 0 <= k < 8 implies card_strength(
        Card { suit: s, value: #[trigger] ladder[k] },
        mode,
    ) == k by {
        if k == 0 {
        } else if k == 1 {
        } else if k == 2 {
        } else if k == 3 {
        } else if k == 4 {
        } else if k == 5 {
        } else if k == 6 {
        } else {
        }
    }
    let a = Card { suit: s, value: ladder[i] };
    let b = Card { suit: s, value: ladder[j] };
    let cards = seq![a, b];
    assert(cards[0] == a && cards[1] == b);
    assert(card_strength(a, mode) == i);
    assert(card_strength(b, mode) == j);
    if trump_in_trick(cards, mode) {
        let k = choose|k: int| 0 <= k < cards.len() && #[trigger] cards[k].suit == mode->OneTrump_0;
        assert(cards[k].suit == s);
    }
    assert(winning_suit(cards, mode) == s);
}

fn strength(c: Card, mode: &GameMode) -> (s: usize)
    ensures
        s == card_strength(c, *mode),
        s < 8,
{
    let trump = match mode {
        GameMode::AllTrumps => true,
        GameMode::OneTrump(t) => c.suit == *t,
        _ => false,
    };
    if trump {
        match c.value {
            CardValue::Seven => 0,
            CardValue::Eight => 1,
            CardValue::Queen => 2,
            CardValue::King => 3,
            CardValue::Ten => 4,
            CardValue::Ace => 5,
            CardValue::Nine => 6,
            CardValue::Jack => 7,
        }
    } else {
        match c.value {
            CardValue::Seven => 0,
            CardValue::Eight => 1,
            CardValue::Nine => 2,
            CardValue::Jack => 3,
            CardValue::Queen => 4,
            CardValue::King => 5,
            CardValue::Ten => 6,
            CardValue::Ace => 7,
        }
    }
}

/// Index of the card that takes the trick so far.
pub fn cards_compare(cards_in_play: &Vec<Card>, game_mode: &GameMode) -> (w: usize)
    requires
        cards_in_play@.len() >= 1,
        !(*game_mode is Pass),
    ensures
        is_trick_winner(cards_in_play@, *game_mode, w as int),
{
    let ghost cards = cards_in_play@;
    let ghost mode = *game_mode;
    let (one_trump, trump_suit) = match game_mode {
        GameMode::OneTrump(t) => (true, *t),
        _ => (false, CardSuits::Clubs),
    };
    let n = cards_in_play.len();
    let mut strongest: usize = 0;
    let mut strongest_value = strength(cards_in_play[0], game_mode);
    let mut trump_played = false;
    let mut init_suit = cards_in_play[0].suit;
    let mut index: usize = 0;
    while index < n
        invariant
            n == cards.len(),
            cards == cards_in_play@,
            mode == *game_mode,
            one_trump == (mode is OneTrump),
            one_trump ==> trump_suit == mode->OneTrump_0,
            index <= n,
            strongest < n,
            strongest <= index || (index == 0 && strongest == 0),
            strongest_value == card_strength(cards[strongest as int], mode),
            cards[strongest as int].suit == init_suit,
            trump_played <==> (one_trump && exists|i: int|
                0 <= i < index && #[trigger] cards[i].suit == trump_suit),
            trump_played ==> init_suit == trump_suit,
            !trump_played ==> init_suit == cards[0].suit,
            forall|j: int|
                0 <= j < index && #[trigger] cards[j].suit == init_suit ==> card_strength(cards[j], mode)
                    < strongest_value || (card_strength(cards[j], mode) == strongest_value
                    && strongest <= j),
            index == 0 ==> strongest == 0,
        decreases n - index,
    {
        let card = cards_in_play[index];
        let s = strength(card, game_mode);
        if one_trump && !trump_played && card.suit == trump_suit {
            trump_played = true;
            strongest_value = s;
            strongest = index;
            init_suit = trump_suit;
            proof {
                assert forall|j: int|
                    0 <= j < index + 1 && #[trigger] cards[j].suit == init_suit implies card_strength(
                        cards[j],
                        mode,
                    ) < strongest_value || (card_strength(cards[j], mode) == strongest_value
                        && strongest <= j) by {
                    if j < index {
                        assert(!(cards[j].suit == trump_suit));
                    }
                }
            }
        } else if one_trump && trump_played && card.suit != trump_suit {
        } else if card.suit == init_suit {
            if strongest_value < s {
                strongest_value = s;
                strongest = index;
            }
        }
        index = index + 1;
    }
    proof {
        if one_trump {
            if trump_in_trick(cards, mode) {
                let i = choose|i: int| 0 <= i < cards.len() && #[trigger] cards[i].suit == mode->OneTrump_0;
                assert(cards[i].suit == trump_suit);
            }
        }
    }
    strongest
}

/// What happens when a player picks a card to follow a trick.
#[derive(Debug, Clone, Copy, PartialEq, Eq, Structural)]
pub enum PlayVerdict {
    /// Follows the suit; nothing more is asked.
    FollowsSuit,
    /// A trump higher than the strongest one on the table.
    BeatsTrump,
    /// Follows trump; the hand holds no higher trump.
    NoHigherTrump,
    /// Follows trump while the teammate holds the trick.
    TeammateHoldsTrick,
    /// Without the suit led, a trump is played.
    TrumpsInstead,
    /// Neither the suit led nor a trump in hand: any card goes.
    NoSuitNoTrump,
    /// Without the suit led: any card goes.
    NoSuit,
    /// Refused: the hand holds the suit led and this card is of another suit.
    WrongSuit,
    /// Refused: the hand must trump and this card is not a trump.
    MustTrump,
    /// Refused: the hand holds a higher trump and this card is not higher.
    MustBeat,
}

impl PlayVerdict {
    pub open spec fn spec_accepted(self) -> bool {
        !(self is WrongSuit || self is MustTrump || self is MustBeat)
    }

    /// The card may be played.
    pub fn accepted(&self) -> (ok: bool)
        ensures
            ok == self.spec_accepted(),
    {
        match self {
            PlayVerdict::WrongSuit => false,
            PlayVerdict::MustTrump => false,
            PlayVerdict::MustBeat => false,
            _ => true,
        }
    }
}

pub open spec fn has_suit(hand: Seq<Card>, s: CardSuits) -> bool {
    exists|i: int| 0 <= i < hand.len() && #[trigger] hand[i].suit == s
}

/// The hand holds a card of the suit of `init` ranked higher in trump order.
pub open spec fn has_higher_trump(hand: Seq<Card>, init: Card) -> bool {
    exists|i: int|
        0 <= i < hand.len() && #[trigger] hand[i].suit == init.suit && trump_rank(hand[i].value)
            > trump_rank(init.value)
}

/// The card on the table that holds the trick was played by the teammate of
/// the player now to play.
pub open spec fn teammate_holds(init: Card, cards_in_play: Seq<Card>) -> bool {
    (cards_in_play.len() == 2 && init == cards_in_play[0]) || (cards_in_play.len() == 3 && init
        == cards_in_play[1])
}

pub open spec fn trump_verdict(hand: Seq<Card>, init: Card, card: Card) -> PlayVerdict {
    if has_higher_trump(hand, init) {
        if trump_rank(card.value) > trump_rank(init.value) {
            PlayVerdict::BeatsTrump
        } else {
            PlayVerdict::MustBeat
        }
    } else {
        PlayVerdict::NoHigherTrump
    }
}

/// The verdict on playing `hand[choice]` while `init` holds the trick.
pub open spec fn play_verdict(
    hand: Seq<Card>,
    mode: GameMode,
    init: Card,
    cards_in_play: Seq<Card>,
    choice: int,
) -> PlayVerdict {
    let card = hand[choice];
    if has_suit(hand, init.suit) {
        if card.suit != init.suit {
            PlayVerdict::WrongSuit
        } else {
            match mode {
                GameMode::AllTrumps => trump_verdict(hand, init, card),
                GameMode::OneTrump(t) => if init.suit == t {
                    if teammate_holds(init, cards_in_play) {
                        PlayVerdict::TeammateHoldsTrick
                    } else {
                        trump_verdict(hand, init, card)
                    }
                } else {
                    PlayVerdict::FollowsSuit
                },
                _ => PlayVerdict::FollowsSuit,
            }
        }
    } else {
        match mode {
            GameMode::OneTrump(t) => if init.suit != t {
                if has_suit(hand, t) {
                    if card.suit == t {
                        PlayVerdict::TrumpsInstead
                    } else {
                        PlayVerdict::MustTrump
                    }
                } else {
                    PlayVerdict::NoSuitNoTrump
                }
            } else {
                PlayVerdict::NoSuit
            },
            _ => PlayVerdict::NoSuit,
        }
    }
}

/// With a trump led in a one-trump game and a trump chosen from a hand that
/// holds the suit: when the card that holds the trick is the teammate's (the
/// card two places before the player's own, so the first of two or the
/// second of three on the table), any trump of the suit is accepted;
/// otherwise the card is accepted exactly when it beats the card that holds
/// the trick or the hand has no trump that does.
pub proof fn lemma_teammate_trick(
    hand: Seq<Card>,
    t: CardSuits,
    init: Card,
    table: Seq<Card>,
    choice: int,
)
    requires
        0 <= choice < hand.len(),
        init.suit == t,
        hand[choice].suit == t,
        table.len() <= 3,
    ensures
        (2 <= table.len() && init == table[table.len() - 2]) ==> play_verdict(
            hand,
            GameMode::OneTrump(t),
            init,
            table,
            choice,
        ) == PlayVerdict::TeammateHoldsTrick,
        !(2 <= table.len() && init == table[table.len() - 2]) ==> (play_verdict(
            hand,
            GameMode::OneTrump(t),
            init,
            table,
            choice,
        ).spec_accepted() <==> (trump_rank(hand[choice].value) > trump_rank(init.value)
            || forall|k: int|
            0 <= k < hand.len() && #[trigger] hand[k].suit == t ==> trump_rank(hand[k].value)
                <= trump_rank(init.value))),
{
    assert(hand[choice].suit == init.suit);
    assert(has_suit(hand, init.suit));
    if !(2 <= table.len() && init == table[table.len() - 2]) {
        assert(!teammate_holds(init, table));
        if has_higher_trump(hand, init) {
            let k = choose|k: int|
                0 <= k < hand.len() && #[trigger] hand[k].suit == init.suit && trump_rank(
                    hand[k].value,
                ) > trump_rank(init.value);
            assert(hand[k].suit == t);
        }
    }
}

/// When a card is refused, with `init` the card that holds the trick: the
/// hand holds `init`'s suit and the card is of another suit; or the card
/// follows a trump suit (every suit in all trumps; the trump of a one-trump
/// game unless the teammate's card holds the trick), the hand holds a
/// higher trump of that suit, and the card is not higher than `init`; or,
/// in a one-trump game, `init` is not a trump, the hand lacks its suit but
/// holds a trump, and the card is not a trump. Every other card is accepted.
pub proof fn lemma_refused_cards(
    hand: Seq<Card>,
    mode: GameMode,
    init: Card,
    table: Seq<Card>,
    choice: int,
)
    requires
        0 <= choice < hand.len(),
        !(mode is Pass),
        table.len() <= 3,
    ensures
        ({
            let card = hand[choice];
            let holds_suit = exists|k: int| 0 <= k < hand.len() && #[trigger] hand[k].suit == init.suit;
            let trump_followed = mode is AllTrumps || (mode == GameMode::OneTrump(init.suit) && !(2
                <= table.len() && init == table[table.len() - 2]));
            let can_beat = exists|k: int|
                0 <= k < hand.len() && #[trigger] hand[k].suit == init.suit && trump_rank(
                    hand[k].value,
                ) > trump_rank(init.value);
            let must_trump = match mode {
                GameMode::OneTrump(t) => t != init.suit && !holds_suit && (exists|k: int|
                    0 <= k < hand.len() && #[trigger] hand[k].suit == t) && card.suit != t,
                _ => false,
            };
            !play_verdict(hand, mode, init, table, choice).spec_accepted() <==> ((holds_suit
                && card.suit != init.suit) || (holds_suit && card.suit == init.suit
                && trump_followed && can_beat && trump_rank(card.value) <= trump_rank(init.value))
                || must_trump)
        }),
{
}

fn trump_position(v: CardValue) -> (r: usize)
    ensures
        r == trump_rank(v),
{
    match v {
        CardValue::Seven => 0,
        CardValue::Eight => 1,
        CardValue::Queen => 2,
        CardValue::King => 3,
        CardValue::Ten => 4,
        CardValue::Ace => 5,
        CardValue::Nine => 6,
        CardValue::Jack => 7,
    }
}

fn hand_has_suit(hand: &Vec<Card>, s: CardSuits) -> (b: bool)
    ensures
        b == has_suit(hand@, s),
{
    let mut i: usize = 0;
    while i < hand.len()
        invariant
            i <= hand@.len(),
            forall|j: int| 0 <= j < i ==> #[trigger] hand@[j].suit != s,
        decreases hand@.len() - i,
    {
        if hand[i].suit == s {
            return true;
        }
        i = i + 1;
    }
    false
}

/// Judges `hand[choice]` as the next card of a trick that `init_card`
/// holds. An accepted card leaves the hand; a refused one stays.
pub fn card_validation(
    hand: &mut Vec<Card>,
    game_mode: &GameMode,
    init_card: Card,
    cards_in_play: &Vec<Card>,
    choice: usize,
) -> (verdict: PlayVerdict)
    requires
        choice < old(hand)@.len(),
        !(*game_mode is Pass && has_suit(old(hand)@, init_card.suit) && old(hand)@[choice as int].suit
            == init_card.suit),
    ensures
        verdict == play_verdict(old(hand)@, *game_mode, init_card, cards_in_play@, choice as int),
        verdict.spec_accepted() ==> final(hand)@ == old(hand)@.remove(choice as int),
        !verdict.spec_accepted() ==> *final(hand) == *old(hand),
{
    let ghost h = hand@;
    let init_card_val = trump_position(init_card.value);
    let mut has_init_suit = false;
    let mut has_higher_value = false;
    let mut i: usize = 0;
    while i < hand.len()
        invariant
            i <= hand@.len(),
            hand@ == h,
            init_card_val == trump_rank(init_card.value),
            has_init_suit == exists|j: int| 0 <= j < i && #[trigger] h[j].suit == init_card.suit,
            has_higher_value == exists|j: int|
                0 <= j < i && #[trigger] h[j].suit == init_card.suit && trump_rank(h[j].value)
                    > trump_rank(init_card.value),
        decreases hand@.len() - i,
    {
        let card = hand[i];
        if card.suit == init_card.suit {
            has_init_suit = true;
            if trump_position(card.value) > init_card_val {
                has_higher_value = true;
            }
        }
        i = i + 1;
    }
    let card_to_play = hand[choice];
    let card_to_play_val = trump_position(card_to_play.value);
    let verdict = if has_init_suit {
        if card_to_play.suit != init_card.suit {
            PlayVerdict::WrongSuit
        } else {
            let beat = if has_higher_value {
                if card_to_play_val > init_card_val {
                    PlayVerdict::BeatsTrump
                } else {
                    PlayVerdict::MustBeat
                }
            } else {
                PlayVerdict::NoHigherTrump
            };
            match game_mode {
                GameMode::AllTrumps => beat,
                GameMode::OneTrump(t) => {
                    if init_card.suit == *t {
                        let n = cards_in_play.len();
                        if (n == 2 && init_card == cards_in_play[0]) || (n == 3 && init_card
                            == cards_in_play[1]) {
                            PlayVerdict::TeammateHoldsTrick
                        } else {
                            beat
                        }
                    } else {
                        PlayVerdict::FollowsSuit
                    }
                },
                _ => PlayVerdict::FollowsSuit,
            }
        }
    } else {
        match game_mode {
            GameMode::OneTrump(t) => {
                if init_card.suit != *t {
                    if hand_has_suit(hand, *t) {
                        if card_to_play.suit == *t {
                            PlayVerdict::TrumpsInstead
                        } else {
                            PlayVerdict::MustTrump
                        }
                    } else {
                        PlayVerdict::NoSuitNoTrump
                    }
                } else {
                    PlayVerdict::NoSuit
                }
            },
            _ => PlayVerdict::NoSuit,
        }
    };
    if verdict.accepted() {
        hand.remove(choice);
    }
    verdict
}

/// A player who holds the suit led must follow it; in a one-trump game a
/// player without the suit led who holds a trump must play one.
pub proof fn lemma_follow_suit(
    hand: Seq<Card>,
    mode: GameMode,
    init: Card,
    cards_in_play: Seq<Card>,
    choice: int,
)
    requires
        0 <= choice < hand.len(),
        play_verdict(hand, mode, init, cards_in_play, choice).spec_accepted(),
    ensures
        has_suit(hand, init.suit) ==> hand[choice].suit == init.suit,
        (mode matches GameMode::OneTrump(t) && init.suit != t && !has_suit(hand, init.suit)
            && has_suit(hand, t)) ==> hand[choice].suit == mode->OneTrump_0,
{
}

/// The other card of a belot: the king for a queen, the queen for a king.
pub open spec fn belot_partner(v: CardValue) -> CardValue {
    if v == CardValue::King {
        CardValue::Queen
    } else {
        CardValue::King
    }
}

/// Playing `played_card` announces a belot: it is the king or queen of a
/// trump suit and `hand` still holds the other one.
pub open spec fn is_belot(hand: Seq<Card>, mode: GameMode, played: Card, init: Card) -> bool {
    &&& (played.value == CardValue::King || played.value == CardValue::Queen)
    &&& hand.contains(Card { suit: played.suit, value: belot_partner(played.value) })
    &&& match mode {
        GameMode::AllTrumps => played.suit == init.suit,
        GameMode::OneTrump(t) => played.suit == t,
        _ => false,
    }
}

/// A belot is the king and queen of one suit: playing either announces it
/// exactly when the hand still holds the other and the suit is trump (the
/// trump of a one-trump game, or in all trumps the suit of the card that
/// holds the trick); no other card announces one, and none does in no trumps.
pub proof fn lemma_belot_pair(hand: Seq<Card>, mode: GameMode, played: Card, init: Card)
    ensures
        ({
            let trump = match mode {
                GameMode::AllTrumps => played.suit == init.suit,
                GameMode::OneTrump(t) => played.suit == t,
                _ => false,
            };
            let king = Card { suit: played.suit, value: CardValue::King };
            let queen = Card { suit: played.suit, value: CardValue::Queen };
            &&& played.value == CardValue::King ==> (is_belot(hand, mode, played, init) <==> (trump
                && hand.contains(queen)))
            &&& played.value == CardValue::Queen ==> (is_belot(hand, mode, played, init) <==> (trump
                && hand.contains(king)))
            &&& played.value != CardValue::King && played.value != CardValue::Queen ==> !is_belot(
                hand,
                mode,
                played,
                init,
            )
            &&& mode is NoTrumps ==> !is_belot(hand, mode, played, init)
        }),
{
}

fn hand_contains(hand: &Vec<Card>, card: Card) -> (b: bool)
    ensures
        b == hand@.contains(card),
{
    let mut i: usize = 0;
    while i < hand.len()
        invariant
            i <= hand@.len(),
            forall|j: int| 0 <= j < i ==> hand@[j] != card,
        decreases hand@.len() - i,
    {
        if hand[i] == card {
            return true;
        }
        i = i + 1;
    }
    false
}

/// Whether playing `played_card` from what remains in `hand` is a belot.
pub fn belot_check(hand: &Vec<Card>, game_mode: &GameMode, played_card: Card, init_card: Card) -> (b:
    bool)
    requires
        !(*game_mode is Pass && (played_card.value == CardValue::King || played_card.value
            == CardValue::Queen)),
    ensures
        b == is_belot(hand@, *game_mode, played_card, init_card),
{
    if played_card.value == CardValue::King || played_card.value == CardValue::Queen {
        let second = if played_card.value == CardValue::King {
            CardValue::Queen
        } else {
            CardValue::King
        };
        match game_mode {
            GameMode::NoTrumps => false,
            GameMode::AllTrumps => played_card.suit == init_card.suit && hand_contains(
                hand,
                Card { suit: played_card.suit, value: second },
            ),
            GameMode::OneTrump(t) => played_card.suit == *t && hand_contains(
                hand,
                Card { suit: played_card.suit, value: second },
            ),
            GameMode::Pass => false,
        }
    } else {
        false
    }
}

} // verus!
