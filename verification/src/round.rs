//! Playing the tricks of a round, card by card.
use vstd::prelude::*;
use vstd::multiset::Multiset;
use crate::cards::{Card, GameMode};
use crate::trick::{
    PlayVerdict, belot_check, card_validation, cards_compare, is_belot, is_trick_winner,
    lemma_trick_winner_unique, play_verdict,
};

verus! {

broadcast use vstd::seq_lib::group_to_multiset_ensures, vstd::multiset::group_multiset_axioms;

/// The card that takes the trick `cards`.
pub open spec fn trick_winner(cards: Seq<Card>, mode: GameMode) -> int {
    choose|w: int| is_trick_winner(cards, mode, w)
}

/// A trick that was completed by a play.
#[derive(Debug, Clone, Copy, PartialEq, Eq, Structural)]
pub struct TrickEnd {
    /// The player who took the trick; they lead the next one.
    pub winner: usize,
    /// The card on the table at the winner's seat number, which is the one
    /// announced as the strongest.
    pub announced: Card,
}

/// What came of a player's choice of card.
#[derive(Debug, Clone, Copy)]
pub enum PlayResult {
    /// The card may not be played; nothing changed.
    Refused(PlayVerdict),
    /// The card was played.
    Played {
        card: Card,
        /// The verdict on a card that follows; none for the card that leads.
        verdict: Option<PlayVerdict>,
        /// The card announced a belot (20 points to the player's team).
        belot: bool,
        /// The trick, if this card completed it.
        trick: Option<TrickEnd>,
    },
}

/// The cards on the table and in the players' hands and piles during a round.
pub struct Round {
    pub hands: [Vec<Card>; 4],
    pub game_mode: GameMode,
    /// The player who leads the current trick.
    pub win_hand_index: usize,
    /// The cards of the current trick, in the order played.
    pub cards_in_play: Vec<Card>,
    /// The cards each team took.
    pub point_decks: [Vec<Card>; 2],
    pub points_from_announs: [usize; 2],
    /// Tricks still to be played.
    pub tricks_left: usize,
}

/// All the cards in a round, wherever they are.
pub open spec fn cards_in_round(
    hands: [Vec<Card>; 4],
    cards_in_play: Seq<Card>,
    point_decks: [Vec<Card>; 2],
) -> Multiset<Card> {
    hands@[0]@.to_multiset().add(hands@[1]@.to_multiset()).add(hands@[2]@.to_multiset()).add(
        hands@[3]@.to_multiset(),
    ).add(cards_in_play.to_multiset()).add(point_decks@[0]@.to_multiset()).add(
        point_decks@[1]@.to_multiset(),
    )
}

impl Round {
    pub open spec fn wf(self) -> bool {
        &&& !(self.game_mode is Pass)
        &&& self.win_hand_index < 4
        &&& self.cards_in_play@.len() < 4
    }

    /// The player whose turn it is.
    pub open spec fn spec_current_player(self) -> int {
        (self.win_hand_index + self.cards_in_play@.len()) % 4
    }

    /// Player `i` has already played to the current trick.
    pub open spec fn played_this_trick(self, i: int) -> bool {
        (i - self.win_hand_index + 4) % 4 < self.cards_in_play@.len()
    }

    /// Every player holds one card for each trick still to come, except for
    /// the one they already played to the current trick.
    pub open spec fn balanced(self) -> bool {
        forall|i: int|
            0 <= i < 4 ==> (#[trigger] self.hands@[i])@.len() + (if self.played_this_trick(i) {
                1int
            } else {
                0
            }) == self.tricks_left
    }

    pub open spec fn all_cards(self) -> Multiset<Card> {
        cards_in_round(self.hands, self.cards_in_play@, self.point_decks)
    }

    /// A round in `game_mode` whose first trick `leader` leads.
    pub fn new(
        hands: [Vec<Card>; 4],
        game_mode: GameMode,
        leader: usize,
        points_from_announs: [usize; 2],
    ) -> (r: Round)
        requires
            !(game_mode is Pass),
            leader < 4,
        ensures
            r.wf(),
            r.hands == hands,
            r.game_mode == game_mode,
            r.win_hand_index == leader,
            r.cards_in_play@.len() == 0,
            r.point_decks@[0]@.len() == 0,
            r.point_decks@[1]@.len() == 0,
            r.points_from_announs == points_from_announs,
            r.tricks_left == hands@[0]@.len(),
            (forall|i: int| 0 <= i < 4 ==> (#[trigger] hands@[i])@.len() == hands@[0]@.len())
                ==> r.balanced(),
    {
        let tricks_left = hands[0].len();
        Round {
            hands,
            game_mode,
            win_hand_index: leader,
            cards_in_play: Vec::new(),
            point_decks: [Vec::new(), Vec::new()],
            points_from_announs,
            tricks_left,
        }
    }

    pub fn current_player(&self) -> (p: usize)
        requires
            self.wf(),
        ensures
            p == self.spec_current_player(),
    {
        (self.win_hand_index + self.cards_in_play.len()) % 4
    }

    /// The round is over: every trick was played.
    pub fn is_over(&self) -> (b: bool)
        ensures
            b == (self.tricks_left == 0),
    {
        self.tricks_left == 0
    }

    /// The player to play picks `hand[choice]`. A refused card changes
    /// nothing; a played card goes to the table, a belot adds 20 points to
    /// the player's team, and the fourth card of a trick sends the trick to
    /// the pile of the team of the player who took it, who leads next.
    pub fn play_card(&mut self, choice: usize) -> (res: PlayResult)
        requires
            old(self).wf(),
            old(self).tricks_left > 0,
            choice < old(self).hands@[old(self).spec_current_player()]@.len(),
            old(self).points_from_announs@[0] <= usize::MAX - 20,
            old(self).points_from_announs@[1] <= usize::MAX - 20,
        ensures
            final(self).wf(),
            final(self).game_mode == old(self).game_mode,
            final(self).all_cards() == old(self).all_cards(),
            old(self).balanced() ==> final(self).balanced(),
            ({
                let p = old(self).spec_current_player();
                let mode = old(self).game_mode;
                let table = old(self).cards_in_play@;
                let hand = old(self).hands@[p]@;
                let card = hand[choice as int];
                let lead = table.len() == 0;
                let init = if lead {
                    card
                } else {
                    table[trick_winner(table, mode)]
                };
                let verdict = play_verdict(hand, mode, init, table, choice as int);
                if !lead && !verdict.spec_accepted() {
                    &&& res == PlayResult::Refused(verdict)
                    &&& final(self).hands == old(self).hands
                    &&& final(self).cards_in_play@ == table
                    &&& final(self).point_decks == old(self).point_decks
                    &&& final(self).points_from_announs == old(self).points_from_announs
                    &&& final(self).win_hand_index == old(self).win_hand_index
                    &&& final(self).tricks_left == old(self).tricks_left
                } else {
                    let rest = hand.remove(choice as int);
                    let trick = table.push(card);
                    let belot = is_belot(rest, mode, card, init);
                    &&& res matches PlayResult::Played { card: c, verdict: v, belot: b, trick: t }
                    &&& res->Played_card == card
                    &&& res->Played_verdict == (if lead {
                        None
                    } else {
                        Some(verdict)
                    })
                    &&& res->Played_belot == belot
                    &&& final(self).hands@[p]@ == rest
                    &&& forall|i: int|
                        0 <= i < 4 && i != p ==> #[trigger] final(self).hands@[i] == old(
                            self,
                        ).hands@[i]
                    &&& final(self).points_from_announs@[p % 2] == old(
                        self,
                    ).points_from_announs@[p % 2] + (if belot {
                        20int
                    } else {
                        0
                    })
                    &&& final(self).points_from_announs@[1 - p % 2] == old(
                        self,
                    ).points_from_announs@[1 - p % 2]
                    &&& if trick.len() < 4 {
                        &&& res->Played_trick == None::<TrickEnd>
                        &&& final(self).cards_in_play@ == trick
                        &&& final(self).point_decks == old(self).point_decks
                        &&& final(self).win_hand_index == old(self).win_hand_index
                        &&& final(self).tricks_left == old(self).tricks_left
                    } else {
                        let taker = (old(self).win_hand_index + trick_winner(trick, mode)) % 4;
                        let team = taker % 2;
                        &&& res->Played_trick == Some(
                            TrickEnd { winner: taker as usize, announced: trick[taker] },
                        )
                        &&& final(self).cards_in_play@.len() == 0
                        &&& final(self).point_decks@[team]@ == old(self).point_decks@[team]@
                            + trick
                        &&& final(self).point_decks@[1 - team] == old(self).point_decks@[1
                            - team]
                        &&& final(self).win_hand_index == taker
                        &&& final(self).tricks_left == old(self).tricks_left - 1
                    }
                }
            }),
    {
        let ghost before = *self;
        let p = (self.win_hand_index + self.cards_in_play.len()) % 4;
        let mut hand: Vec<Card> = Vec::new();
        std::mem::swap(&mut hand, &mut self.hands[p]);
        let ghost h = hand@;
        let card = hand[choice];
        let lead = self.cards_in_play.len() == 0;
        let (init_card, verdict) = if lead {
            hand.remove(choice);
            (card, None)
        } else {
            let w = cards_compare(&self.cards_in_play, &self.game_mode);
            proof {
                let cw = trick_winner(self.cards_in_play@, self.game_mode);
                assert(is_trick_winner(self.cards_in_play@, self.game_mode, w as int));
                lemma_trick_winner_unique(self.cards_in_play@, self.game_mode, w as int, cw);
            }
            let init = self.cards_in_play[w];
            let v = card_validation(&mut hand, &self.game_mode, init, &self.cards_in_play, choice);
            if !v.accepted() {
                self.hands[p] = hand;
                proof {
                    assert(self.hands@ =~= before.hands@);
                }
                return PlayResult::Refused(v);
            }
            (init, Some(v))
        };
        self.cards_in_play.push(card);
        let belot = belot_check(&hand, &self.game_mode, card, init_card);
        if belot {
            let team = p % 2;
            self.points_from_announs[team] = self.points_from_announs[team] + 20;
        }
        self.hands[p] = hand;
        proof {
            lemma_move_card(before.hands, self.hands, p as int, choice as int, before.cards_in_play@, self.cards_in_play@, before.point_decks);
        }
        let mut trick: Option<TrickEnd> = None;
        if self.cards_in_play.len() == 4 {
            let k = cards_compare(&self.cards_in_play, &self.game_mode);
            proof {
                let cw = trick_winner(self.cards_in_play@, self.game_mode);
                assert(is_trick_winner(self.cards_in_play@, self.game_mode, k as int));
                lemma_trick_winner_unique(self.cards_in_play@, self.game_mode, k as int, cw);
            }
            let taker = (self.win_hand_index + k) % 4;
            let announced = self.cards_in_play[taker];
            let ghost mid_hands = self.hands;
            let ghost mid_table = self.cards_in_play@;
            let ghost mid_decks = self.point_decks;
            let mut taken: Vec<Card> = Vec::new();
            std::mem::swap(&mut taken, &mut self.cards_in_play);
            let mut pile: Vec<Card> = Vec::new();
            std::mem::swap(&mut pile, &mut self.point_decks[taker % 2]);
            pile.append(&mut taken);
            self.point_decks[taker % 2] = pile;
            self.win_hand_index = taker;
            self.tricks_left = self.tricks_left - 1;
            trick = Some(TrickEnd { winner: taker, announced });
            proof {
                lemma_take_trick(mid_hands, mid_table, mid_decks, self.point_decks, (taker % 2) as int);
            }
        }
        proof {
            if before.balanced() {
                lemma_balanced_step(before, *self, p as int);
            }
        }
        PlayResult::Played { card, verdict, belot, trick }
    }
}

/// A balanced round that is over has no card left in any hand: every card
/// dealt was played.
pub proof fn lemma_round_over_hands_empty(r: Round)
    requires
        r.balanced(),
        r.tricks_left == 0,
    ensures
        forall|i: int| 0 <= i < 4 ==> (#[trigger] r.hands@[i])@.len() == 0,
{
    assert forall|i: int| 0 <= i < 4 implies (#[trigger] r.hands@[i])@.len() == 0 by {
        assert(r.hands@[i]@.len() + (if r.played_this_trick(i) {
            1int
        } else {
            0
        }) == r.tricks_left);
    }
}

proof fn lemma_balanced_step(before: Round, after: Round, p: int)
    requires
        before.balanced(),
        before.wf(),
        p == before.spec_current_player(),
        after.hands@[p]@.len() + 1 == before.hands@[p]@.len(),
        forall|i: int| 0 <= i < 4 && i != p ==> #[trigger] after.hands@[i] == before.hands@[i],
        before.cards_in_play@.len() + 1 < 4 ==> {
            &&& after.cards_in_play@.len() == before.cards_in_play@.len() + 1
            &&& after.win_hand_index == before.win_hand_index
            &&& after.tricks_left == before.tricks_left
        },
        before.cards_in_play@.len() + 1 == 4 ==> {
            &&& after.cards_in_play@.len() == 0
            &&& after.tricks_left + 1 == before.tricks_left
        },
    ensures
        after.balanced(),
{
    let n = before.cards_in_play@.len() as int;
    let w = before.win_hand_index as int;
    assert forall|i: int| 0 <= i < 4 implies (#[trigger] after.hands@[i])@.len() + (if after.played_this_trick(i) {
        1int
    } else {
        0
    }) == after.tricks_left by {
        assert(before.hands@[i]@.len() + (if before.played_this_trick(i) {
            1int
        } else {
            0
        }) == before.tricks_left);
        let d = (i - w + 4) % 4;
        assert(0 <= d < 4);
        if i == p {
            assert(d == n) by {
                assert(p == (w + n) % 4);
            }
        } else {
            assert(d != n) by {
                assert(p == (w + n) % 4);
            }
        }
        if n + 1 == 4 {
            assert(before.played_this_trick(i) || i == p);
        }
    }
}

proof fn lemma_move_card(
    hands: [Vec<Card>; 4],
    new_hands: [Vec<Card>; 4],
    p: int,
    choice: int,
    table: Seq<Card>,
    new_table: Seq<Card>,
    decks: [Vec<Card>; 2],
)
    requires
        0 <= p < 4,
        0 <= choice < hands@[p]@.len(),
        new_hands@[p]@ == hands@[p]@.remove(choice),
        forall|i: int| 0 <= i < 4 && i != p ==> #[trigger] new_hands@[i] == hands@[i],
        new_table == table.push(hands@[p]@[choice]),
    ensures
        cards_in_round(new_hands, new_table, decks) == cards_in_round(hands, table, decks),
{
    let c = hands@[p]@[choice];
    assert(hands@[p]@.remove(choice).to_multiset() == hands@[p]@.to_multiset().remove(c));
    assert(hands@[p]@.to_multiset().count(c) > 0);
    if p != 0 {
        assert(new_hands@[0] == hands@[0]);
    }
    if p != 1 {
        assert(new_hands@[1] == hands@[1]);
    }
    if p != 2 {
        assert(new_hands@[2] == hands@[2]);
    }
    if p != 3 {
        assert(new_hands@[3] == hands@[3]);
    }
    assert(cards_in_round(new_hands, new_table, decks) =~= cards_in_round(hands, table, decks));
}

proof fn lemma_take_trick(
    hands: [Vec<Card>; 4],
    table: Seq<Card>,
    decks: [Vec<Card>; 2],
    new_decks: [Vec<Card>; 2],
    team: int,
)
    requires
        0 <= team < 2,
        new_decks@[team]@ == decks@[team]@ + table,
        new_decks@[1 - team] == decks@[1 - team],
    ensures
        cards_in_round(hands, Seq::empty(), new_decks) == cards_in_round(hands, table, decks),
{
    vstd::seq_lib::lemma_multiset_commutative(decks@[team]@, table);
    assert(Seq::<Card>::empty().to_multiset() =~= Multiset::empty());
    assert(cards_in_round(hands, Seq::empty(), new_decks) =~= cards_in_round(hands, table, decks));
}

} // verus!
