//! Counting the points a team took in a round, the bonuses at the end of a
//! round, rounding to game points, hanging rounds and the end of the game.
use vstd::prelude::*;
use crate::cards::{Card, CardSuits, CardValue, GameMode};
use crate::deal::{full_deck_seq, value_at};

verus! {

/// Points of a card counted by the table of a plain suit.
pub open spec fn plain_points(v: CardValue) -> nat {
    match v {
        CardValue::Seven => 0,
        CardValue::Eight => 0,
        CardValue::Nine => 0,
        CardValue::Jack => 2,
        CardValue::Queen => 3,
        CardValue::King => 4,
        CardValue::Ten => 10,
        CardValue::Ace => 11,
    }
}

/// Points of a card counted by the table of a trump suit.
pub open spec fn trump_points(v: CardValue) -> nat {
    match v {
        CardValue::Seven => 0,
        CardValue::Eight => 0,
        CardValue::Queen => 3,
        CardValue::King => 4,
        CardValue::Ten => 10,
        CardValue::Ace => 11,
        CardValue::Nine => 14,
        CardValue::Jack => 20,
    }
}

/// Points that a card taken in a trick is worth under `mode`.
pub open spec fn card_points(c: Card, mode: GameMode) -> nat {
    match mode {
        GameMode::AllTrumps => trump_points(c.value),
        GameMode::OneTrump(t) => if c.suit == t {
            trump_points(c.value)
        } else {
            plain_points(c.value)
        },
        _ => plain_points(c.value),
    }
}

pub open spec fn add_card_points(mode: GameMode) -> spec_fn(nat, Card) -> nat {
    |acc: nat, c: Card| acc + card_points(c, mode)
}

/// Sum of the points of the cards of `deck`.
pub open spec fn deck_points(deck: Seq<Card>, mode: GameMode) -> nat {
    deck.fold_left(0nat, add_card_points(mode))
}

/// Points a team's pile is worth: doubled in a no-trumps game.
pub open spec fn team_points(deck: Seq<Card>, mode: GameMode) -> nat {
    if mode is NoTrumps {
        2 * deck_points(deck, mode)
    } else {
        deck_points(deck, mode)
    }
}

proof fn lemma_deck_points_prefix(deck: Seq<Card>, mode: GameMode, i: int)
    requires
        0 <= i <= deck.len(),
    ensures
        deck_points(deck.take(i), mode) <= deck_points(deck, mode),
    decreases deck.len() - i,
{
    if i < deck.len() {
        lemma_deck_points_prefix(deck, mode, i + 1);
        assert(deck.take(i + 1).drop_last() =~= deck.take(i));
    } else {
        assert(deck.take(i) =~= deck);
    }
}

/// Each card taken adds its points to its team's pile, whatever else the
/// pile holds: in a suit that is not trump, ace 11, ten 10, king 4, queen 3,
/// jack 2, and nothing for nine, eight and seven; in a trump suit (every
/// suit in all trumps), jack 20, nine 14, ace 11, ten 10, king 4, queen 3,
/// and nothing for eight and seven; all doubled in no trumps.
pub proof fn lemma_card_adds_points(deck: Seq<Card>, c: Card, mode: GameMode)
    requires
        !(mode is Pass),
    ensures
        team_points(deck.push(c), mode) == team_points(deck, mode) + (if mode is NoTrumps {
            2nat
        } else {
            1nat
        }) * (if mode is AllTrumps || mode == GameMode::OneTrump(c.suit) {
            match c.value {
                CardValue::Jack => 20nat,
                CardValue::Nine => 14nat,
                CardValue::Ace => 11nat,
                CardValue::Ten => 10nat,
                CardValue::King => 4nat,
                CardValue::Queen => 3nat,
                _ => 0nat,
            }
        } else {
            match c.value {
                CardValue::Ace => 11nat,
                CardValue::Ten => 10nat,
                CardValue::King => 4nat,
                CardValue::Queen => 3nat,
                CardValue::Jack => 2nat,
                _ => 0nat,
            }
        }),
{
    assert(deck.push(c).drop_last() =~= deck);
    assert(deck_points(deck.push(c), mode) == deck_points(deck, mode) + card_points(c, mode));
}

fn card_point_value(c: Card, mode: &GameMode) -> (p: usize)
    ensures
        p == card_points(c, *mode),
        p <= 20,
{
    let trump = match mode {
        GameMode::AllTrumps => true,
        GameMode::OneTrump(t) => c.suit == *t,
        _ => false,
    };
    if trump {
        match c.value {
            CardValue::Seven => 0,
            CardValue::Eight => 0,
            CardValue::Queen => 3,
            CardValue::King => 4,
            CardValue::Ten => 10,
            CardValue::Ace => 11,
            CardValue::Nine => 14,
            CardValue::Jack => 20,
        }
    } else {
        match c.value {
            CardValue::Seven => 0,
            CardValue::Eight => 0,
            CardValue::Nine => 0,
            CardValue::Jack => 2,
            CardValue::Queen => 3,
            CardValue::King => 4,
            CardValue::Ten => 10,
            CardValue::Ace => 11,
        }
    }
}

fn deck_point_sum(deck: &Vec<Card>, mode: &GameMode) -> (p: usize)
    requires
        deck_points(deck@, *mode) <= usize::MAX,
    ensures
        p == deck_points(deck@, *mode),
{
    let mut p: usize = 0;
    let mut i: usize = 0;
    while i < deck.len()
        invariant
            i <= deck@.len(),
            p == deck_points(deck@.take(i as int), *mode),
            deck_points(deck@, *mode) <= usize::MAX,
        decreases deck@.len() - i,
    {
        proof {
            assert(deck@.take(i + 1).drop_last() =~= deck@.take(i as int));
            lemma_deck_points_prefix(deck@, *mode, i + 1);
        }
        p = p + card_point_value(deck[i], mode);
        i = i + 1;
    }
    proof {
        assert(deck@.take(i as int) =~= deck@);
    }
    p
}

/// Points from the two teams' piles of taken cards.
pub fn point_count(point_decks: &[Vec<Card>; 2], game_mode: &GameMode) -> (points: [usize; 2])
    requires
        !(*game_mode is Pass && (point_decks@[0]@.len() > 0 || point_decks@[1]@.len() > 0)),
        team_points(point_decks@[0]@, *game_mode) <= usize::MAX,
        team_points(point_decks@[1]@, *game_mode) <= usize::MAX,
    ensures
        points@[0] == team_points(point_decks@[0]@, *game_mode),
        points@[1] == team_points(point_decks@[1]@, *game_mode),
{
    let p0 = deck_point_sum(&point_decks[0], game_mode);
    let p1 = deck_point_sum(&point_decks[1], game_mode);
    match game_mode {
        GameMode::NoTrumps => [p0 * 2, p1 * 2],
        _ => [p0, p1],
    }
}

proof fn lemma_deck_points_concat(a: Seq<Card>, b: Seq<Card>, mode: GameMode)
    ensures
        deck_points(a + b, mode) == deck_points(a, mode) + deck_points(b, mode),
    decreases b.len(),
{
    if b.len() == 0 {
        assert(a + b =~= a);
    } else {
        lemma_deck_points_concat(a, b.drop_last(), mode);
        assert((a + b).drop_last() =~= a + b.drop_last());
        assert((a + b).last() == b.last());
    }
}

/// The eight cards of suit `s`.
pub open spec fn suit_block(s: CardSuits) -> Seq<Card> {
    Seq::new(8, |j: int| Card { value: value_at(j), suit: s })
}

proof fn lemma_suit_block_points(s: CardSuits, mode: GameMode)
    requires
        !(mode is Pass),
    ensures
        deck_points(suit_block(s), mode) == (if mode is AllTrumps || mode == GameMode::OneTrump(s) {
            62nat
        } else {
            30nat
        }),
{
    let b = suit_block(s);
    let f = add_card_points(mode);
    assert(b.take(0) =~= Seq::<Card>::empty());
    assert(b.take(1).drop_last() =~= b.take(0));
    assert(b.take(2).drop_last() =~= b.take(1));
    assert(b.take(3).drop_last() =~= b.take(2));
    assert(b.take(4).drop_last() =~= b.take(3));
    assert(b.take(5).drop_last() =~= b.take(4));
    assert(b.take(6).drop_last() =~= b.take(5));
    assert(b.take(7).drop_last() =~= b.take(6));
    assert(b.take(8).drop_last() =~= b.take(7));
    assert(b.take(0).fold_left(0nat, f) == 0);
    assert(b.take(1).last() == b[0]);
    assert(b.take(2).last() == b[1]);
    assert(b.take(3).last() == b[2]);
    assert(b.take(4).last() == b[3]);
    assert(b.take(5).last() == b[4]);
    assert(b.take(6).last() == b[5]);
    assert(b.take(7).last() == b[6]);
    assert(b.take(8).last() == b[7]);
    assert(b.take(1).fold_left(0nat, f) == card_points(b[0], mode));
    assert(b.take(2).fold_left(0nat, f) == b.take(1).fold_left(0nat, f) + card_points(b[1], mode));
    assert(b.take(3).fold_left(0nat, f) == b.take(2).fold_left(0nat, f) + card_points(b[2], mode));
    assert(b.take(4).fold_left(0nat, f) == b.take(3).fold_left(0nat, f) + card_points(b[3], mode));
    assert(b.take(5).fold_left(0nat, f) == b.take(4).fold_left(0nat, f) + card_points(b[4], mode));
    assert(b.take(6).fold_left(0nat, f) == b.take(5).fold_left(0nat, f) + card_points(b[5], mode));
    assert(b.take(7).fold_left(0nat, f) == b.take(6).fold_left(0nat, f) + card_points(b[6], mode));
    assert(b.take(8).fold_left(0nat, f) == b.take(7).fold_left(0nat, f) + card_points(b[7], mode));
    assert(b.take(8) =~= b);
}

/// Whatever the play, the two teams' piles from a full deck are worth 162
/// points in all in a one-trump game, 258 in all trumps and 260 in no
/// trumps, once the last trick's bonus is counted.
#[verifier::rlimit(30)]
pub proof fn lemma_round_points_total(d0: Seq<Card>, d1: Seq<Card>, mode: GameMode)
    requires
        (d0 + d1).to_multiset() == full_deck_seq().to_multiset(),
        !(mode is Pass),
    ensures
        team_points(d0, mode) + team_points(d1, mode) + last_trick_bonus(mode) == (match mode {
            GameMode::NoTrumps => 260nat,
            GameMode::AllTrumps => 258nat,
            _ => 162nat,
        }),
{
    let f = add_card_points(mode);
    assert(vstd::seq_lib::commutative_foldl(f));
    vstd::seq_lib::lemma_fold_left_permutation(d0 + d1, full_deck_seq(), f, 0nat);
    lemma_deck_points_concat(d0, d1, mode);
    let c = suit_block(CardSuits::Clubs);
    let d = suit_block(CardSuits::Diamonds);
    let h = suit_block(CardSuits::Hearts);
    let sp = suit_block(CardSuits::Spades);
    assert(full_deck_seq() =~= c + d + h + sp);
    lemma_deck_points_concat(c + d + h, sp, mode);
    lemma_deck_points_concat(c + d, h, mode);
    lemma_deck_points_concat(c, d, mode);
    lemma_suit_block_points(CardSuits::Clubs, mode);
    lemma_suit_block_points(CardSuits::Diamonds, mode);
    lemma_suit_block_points(CardSuits::Hearts, mode);
    lemma_suit_block_points(CardSuits::Spades, mode);
}

/// Team of player `player` (players 0 and 2 against 1 and 3).
pub open spec fn team_of(player: int) -> int {
    player % 2
}

/// Points for the last trick: 20 in a no-trumps game, 10 otherwise.
pub open spec fn last_trick_bonus(mode: GameMode) -> nat {
    if mode is NoTrumps {
        20
    } else {
        10
    }
}

/// A team's points at the end of a round, before the bidder's side is
/// checked: its cards, the last trick, its announcements (not in a no-trumps
/// game) and 90 if the other team took no trick.
pub open spec fn round_points(
    decks: Seq<Seq<Card>>,
    mode: GameMode,
    last_winner: int,
    announs: Seq<usize>,
    team: int,
) -> nat {
    team_points(decks[team], mode) + (if team_of(last_winner) == team {
        last_trick_bonus(mode)
    } else {
        0
    }) + (if mode is NoTrumps {
        0
    } else {
        announs[team] as nat
    }) + (if decks[1 - team].len() == 0 {
        90nat
    } else {
        0
    })
}

/// The bidder's team is "inside": the other team made more points.
pub open spec fn bidder_inside(p: Seq<nat>, bidder: int) -> bool {
    p[1 - team_of(bidder)] > p[team_of(bidder)]
}

/// A team's points once the bidder's side is checked: a bidder that is
/// inside loses its points to the other team.
pub open spec fn inside_points(p: Seq<nat>, bidder: int, team: int) -> nat {
    if bidder_inside(p, bidder) {
        if team == team_of(bidder) {
            0
        } else {
            p[0] + p[1]
        }
    } else {
        p[team]
    }
}

/// Being inside moves points from one team to the other; it neither makes
/// nor loses any.
pub proof fn lemma_inside_keeps_total(p: Seq<nat>, bidder: int)
    requires
        p.len() == 2,
    ensures
        inside_points(p, bidder, 0) + inside_points(p, bidder, 1) == p[0] + p[1],
{
}

/// Units from which a round's points round up: 6 in one trump, 4 in all
/// trumps, 5 in no trumps.
pub open spec fn round_limit(mode: GameMode) -> nat {
    match mode {
        GameMode::OneTrump(_) => 6,
        GameMode::AllTrumps => 4,
        _ => 5,
    }
}

/// Points rounded up to the next ten when the units reach the limit.
pub open spec fn rounded(p: nat, mode: GameMode) -> nat {
    if p % 10 >= round_limit(mode) {
        p + 10
    } else {
        p
    }
}

/// The points of a finished round, at each step of the count.
#[derive(Debug, Clone, Copy)]
pub struct RoundScore {
    /// Cards, last trick, announcements and kapo.
    pub counted: [usize; 2],
    /// Whether the bidder's team is inside.
    pub inside: bool,
    /// After the inside check.
    pub checked: [usize; 2],
    /// After rounding.
    pub rounded: [usize; 2],
    /// Game points this round adds to each team's total.
    pub game_points: [usize; 2],
    /// Teams that took no trick.
    pub kapo: [bool; 2],
}

/// Both teams' points at the end of a round, before the bidder's side is checked.
pub open spec fn round_counts(
    decks: Seq<Seq<Card>>,
    mode: GameMode,
    last_winner: int,
    announs: Seq<usize>,
) -> Seq<nat> {
    seq![
        round_points(decks, mode, last_winner, announs, 0),
        round_points(decks, mode, last_winner, announs, 1),
    ]
}

/// The game points a round is worth to `team`: its points once the
/// bidder's side is checked, rounded, over ten.
pub open spec fn round_game_points(
    decks: Seq<Seq<Card>>,
    mode: GameMode,
    last_winner: int,
    announs: Seq<usize>,
    bidder: int,
    team: int,
) -> nat {
    rounded(inside_points(round_counts(decks, mode, last_winner, announs), bidder, team), mode)
        / 10
}

/// `score` gives each team the game points of the round.
pub open spec fn scored(
    score: RoundScore,
    decks: Seq<Seq<Card>>,
    mode: GameMode,
    last_winner: int,
    announs: Seq<usize>,
    bidder: int,
) -> bool {
    &&& score.game_points@[0] == round_game_points(decks, mode, last_winner, announs, bidder, 0)
    &&& score.game_points@[1] == round_game_points(decks, mode, last_winner, announs, bidder, 1)
}

/// The two piles of taken cards, as sequences.
pub open spec fn piles(point_decks: [Vec<Card>; 2]) -> Seq<Seq<Card>> {
    seq![point_decks@[0]@, point_decks@[1]@]
}

pub open spec fn score_fits(decks: Seq<Seq<Card>>, mode: GameMode, announs: Seq<usize>) -> bool {
    team_points(decks[0], mode) + team_points(decks[1], mode) + announs[0] + announs[1] + 300
        <= usize::MAX
}

fn counted_points(
    point_decks: &[Vec<Card>; 2],
    game_mode: &GameMode,
    last_winner: usize,
    points_from_announs: &[usize; 2],
) -> (counted: [usize; 2])
    requires
        !(*game_mode is Pass),
        score_fits(piles(*point_decks), *game_mode, points_from_announs@),
    ensures
        counted@[0] == round_points(piles(*point_decks), *game_mode, last_winner as int, points_from_announs@, 0),
        counted@[1] == round_points(piles(*point_decks), *game_mode, last_winner as int, points_from_announs@, 1),
        counted@[0] + counted@[1] <= usize::MAX,
{
    let points = point_count(point_decks, game_mode);
    let mut p0 = points[0];
    let mut p1 = points[1];
    let bonus: usize = match game_mode {
        GameMode::NoTrumps => 20,
        _ => 10,
    };
    if last_winner % 2 == 0 {
        p0 = p0 + bonus;
    } else {
        p1 = p1 + bonus;
    }
    match game_mode {
        GameMode::NoTrumps => {},
        _ => {
            p0 = p0 + points_from_announs[0];
            p1 = p1 + points_from_announs[1];
        },
    }
    if point_decks[0].len() == 0 {
        p1 = p1 + 90;
    }
    if point_decks[1].len() == 0 {
        p0 = p0 + 90;
    }
    [p0, p1]
}

fn inside_check(counted: [usize; 2], bidder: usize) -> (res: (bool, [usize; 2]))
    requires
        counted@[0] + counted@[1] <= usize::MAX,
    ensures
        res.0 == bidder_inside(seq![counted@[0] as nat, counted@[1] as nat], bidder as int),
        res.1@[0] == inside_points(seq![counted@[0] as nat, counted@[1] as nat], bidder as int, 0),
        res.1@[1] == inside_points(seq![counted@[0] as nat, counted@[1] as nat], bidder as int, 1),
{
    let p0 = counted[0];
    let p1 = counted[1];
    if bidder % 2 == 0 {
        if p1 > p0 {
            (true, [0, p0 + p1])
        } else {
            (false, [p0, p1])
        }
    } else {
        if p0 > p1 {
            (true, [p0 + p1, 0])
        } else {
            (false, [p0, p1])
        }
    }
}

fn round_up(p: usize, game_mode: &GameMode) -> (r: usize)
    requires
        p + 10 <= usize::MAX,
    ensures
        r == rounded(p as nat, *game_mode),
{
    let limit: usize = match game_mode {
        GameMode::OneTrump(_) => 6,
        GameMode::AllTrumps => 4,
        _ => 5,
    };
    if p % 10 >= limit {
        p + 10
    } else {
        p
    }
}

/// The score of a finished round. `last_winner` took the last trick and
/// `bidder` made the last bid.
pub fn score_round(
    point_decks: &[Vec<Card>; 2],
    game_mode: &GameMode,
    last_winner: usize,
    points_from_announs: &[usize; 2],
    bidder: usize,
) -> (score: RoundScore)
    requires
        !(*game_mode is Pass),
        score_fits(piles(*point_decks), *game_mode, points_from_announs@),
    ensures
        ({
            let decks = piles(*point_decks);
            let counted = seq![
                round_points(decks, *game_mode, last_winner as int, points_from_announs@, 0),
                round_points(decks, *game_mode, last_winner as int, points_from_announs@, 1),
            ];
            &&& score.counted@[0] == counted[0]
            &&& score.counted@[1] == counted[1]
            &&& score.kapo@[0] == (decks[0].len() == 0)
            &&& score.kapo@[1] == (decks[1].len() == 0)
            &&& score.inside == bidder_inside(counted, bidder as int)
            &&& score.checked@[0] == inside_points(counted, bidder as int, 0)
            &&& score.checked@[1] == inside_points(counted, bidder as int, 1)
            &&& score.rounded@[0] == rounded(score.checked@[0] as nat, *game_mode)
            &&& score.rounded@[1] == rounded(score.checked@[1] as nat, *game_mode)
            &&& score.game_points@[0] == score.rounded@[0] / 10
            &&& score.game_points@[1] == score.rounded@[1] / 10
        }),
        scored(
            score,
            piles(*point_decks),
            *game_mode,
            last_winner as int,
            points_from_announs@,
            bidder as int,
        ),
{
    let counted = counted_points(point_decks, game_mode, last_winner, points_from_announs);
    let (inside, checked) = inside_check(counted, bidder);
    proof {
        assert(seq![counted@[0] as nat, counted@[1] as nat] =~= seq![
            round_points(piles(*point_decks), *game_mode, last_winner as int, points_from_announs@, 0),
            round_points(piles(*point_decks), *game_mode, last_winner as int, points_from_announs@, 1),
        ]);
    }
    let r0 = round_up(checked[0], game_mode);
    let r1 = round_up(checked[1], game_mode);
    RoundScore {
        counted,
        inside,
        checked,
        rounded: [r0, r1],
        game_points: [r0 / 10, r1 / 10],
        kapo: [point_decks[0].len() == 0, point_decks[1].len() == 0],
    }
}

} // verus!
