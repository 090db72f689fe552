//! A whole game: rounds follow each other until a team reaches 151 game
//! points with more than the other team.
use vstd::prelude::*;
use crate::cards::{Card, GameMode};
use crate::scoring::{RoundScore, round_counts, inside_points, scored};

verus! {

/// Game points a team needs to win.
pub open spec fn winning_total() -> nat {
    151
}

/// How a game stands after a round.
#[derive(Debug, Clone, Copy, PartialEq, Eq, Structural)]
pub enum GameOutcome {
    /// Neither team has reached 151.
    Continue,
    /// Team `0` or `1` won.
    Winner(usize),
    /// Both teams reached 151 with equal totals: another round is played.
    TiedAbove,
}

/// What happened to the hanging points at the end of a round.
#[derive(Debug, Clone, Copy, PartialEq, Eq, Structural)]
pub enum Hanging {
    /// Both teams made the same points: they hang, and this many are hanging now.
    Hangs(usize),
    /// The points that hung went to team `team` (0 or 1).
    Paid { team: usize, amount: usize },
    /// Nothing was hanging.
    Nothing,
}

/// The end of a round, as the game records it.
#[derive(Debug, Clone, Copy, PartialEq, Eq, Structural)]
pub struct RoundEnd {
    pub hanging: Hanging,
    pub outcome: GameOutcome,
}

/// How totals `t0` and `t1` decide the game.
pub open spec fn spec_outcome(t0: nat, t1: nat) -> GameOutcome {
    if t0 >= winning_total() || t1 >= winning_total() {
        if t0 < winning_total() {
            GameOutcome::Winner(1)
        } else if t1 < winning_total() {
            GameOutcome::Winner(0)
        } else if t0 > t1 {
            GameOutcome::Winner(0)
        } else if t1 > t0 {
            GameOutcome::Winner(1)
        } else {
            GameOutcome::TiedAbove
        }
    } else {
        GameOutcome::Continue
    }
}

/// A declared winner has reached 151 and has more points than the other
/// team; a game goes on exactly when no team is in that position.
pub proof fn lemma_winner_leads(t0: nat, t1: nat)
    ensures
        spec_outcome(t0, t1) == GameOutcome::Winner(0) <==> (t0 >= 151 && t0 > t1),
        spec_outcome(t0, t1) == GameOutcome::Winner(1) <==> (t1 >= 151 && t1 > t0),
        spec_outcome(t0, t1) == GameOutcome::Continue <==> (t0 < 151 && t1 < 151),
        spec_outcome(t0, t1) == GameOutcome::TiedAbove <==> (t0 >= 151 && t0 == t1),
{
}

/// What carries over from round to round.
#[derive(Debug, Clone, Copy)]
pub struct Game {
    /// Game points of each team.
    pub points_total: [usize; 2],
    /// The player who bids first and leads the first trick.
    pub init_hand_index: usize,
    /// Points hanging from rounds that ended level.
    pub hanging_points: usize,
}

/// `new` has the totals of `old` plus the game points of `score`.
pub open spec fn totals_after(old: Game, new: Game, score: RoundScore) -> bool {
    &&& new.points_total@[0] == old.points_total@[0] + score.game_points@[0]
    &&& new.points_total@[1] == old.points_total@[1] + score.game_points@[1]
}

/// After a played round, each team's total grows by its points of the round
/// (once the bidder's side is checked), rounded up to the next ten when the
/// units reach 6 in one trump, 4 in all trumps or 5 in no trumps, over ten;
/// so no total ever decreases.
pub proof fn lemma_totals_follow_rounds(
    old: Game,
    new: Game,
    score: RoundScore,
    decks: Seq<Seq<Card>>,
    mode: GameMode,
    last_winner: int,
    announs: Seq<usize>,
    bidder: int,
)
    requires
        scored(score, decks, mode, last_winner, announs, bidder),
        totals_after(old, new, score),
    ensures
        forall|t: int|
            0 <= t < 2 ==> {
                let p = inside_points(round_counts(decks, mode, last_winner, announs), bidder, t);
                let limit: nat = match mode {
                    GameMode::OneTrump(_) => 6,
                    GameMode::AllTrumps => 4,
                    _ => 5,
                };
                &&& #[trigger] new.points_total@[t] == old.points_total@[t] + (p + (if p % 10
                    >= limit {
                    10nat
                } else {
                    0
                })) / 10
                &&& new.points_total@[t] >= old.points_total@[t]
            },
{
}

impl Game {
    pub open spec fn wf(self) -> bool {
        self.init_hand_index < 4
    }

    /// A game that has not started.
    pub fn new() -> (g: Game)
        ensures
            g.wf(),
            g.points_total@ == seq![0usize, 0usize],
            g.init_hand_index == 0,
            g.hanging_points == 0,
    {
        let g = Game { points_total: [0, 0], init_hand_index: 0, hanging_points: 0 };
        assert(g.points_total@ =~= seq![0usize, 0usize]);
        g
    }

    /// All four players passed: the next player opens the next round.
    pub fn passed_round(&mut self)
        requires
            old(self).wf(),
        ensures
            final(self).wf(),
            final(self).init_hand_index == (old(self).init_hand_index + 1) % 4,
            final(self).points_total == old(self).points_total,
            final(self).hanging_points == old(self).hanging_points,
    {
        self.init_hand_index = (self.init_hand_index + 1) % 4;
    }

    /// Adds a round's game points to the totals, settles the hanging points
    /// and says whether the game is over; if it is not, the next player
    /// opens the next round. Points that were hanging go to the team with
    /// more points in this round, after its game points were added to the
    /// totals, so they leave the totals as they were.
    pub fn finish_round(&mut self, score: &RoundScore) -> (end: RoundEnd)
        requires
            old(self).wf(),
            old(self).points_total@[0] + score.game_points@[0] <= usize::MAX,
            old(self).points_total@[1] + score.game_points@[1] <= usize::MAX,
            old(self).hanging_points + score.rounded@[0] <= usize::MAX,
        ensures
            final(self).wf(),
            final(self).points_total@[0] == old(self).points_total@[0] + score.game_points@[0],
            final(self).points_total@[1] == old(self).points_total@[1] + score.game_points@[1],
            totals_after(*old(self), *final(self), *score),
            score.rounded@[0] == score.rounded@[1] ==> {
                &&& final(self).hanging_points == old(self).hanging_points + score.rounded@[0]
                &&& end.hanging == Hanging::Hangs(final(self).hanging_points)
            },
            score.rounded@[0] != score.rounded@[1] ==> {
                &&& final(self).hanging_points == 0
                &&& old(self).hanging_points != 0 ==> end.hanging == (Hanging::Paid {
                    team: if score.rounded@[0] > score.rounded@[1] {
                        0
                    } else {
                        1
                    },
                    amount: old(self).hanging_points,
                })
                &&& old(self).hanging_points == 0 ==> end.hanging == Hanging::Nothing
            },
            end.outcome == spec_outcome(
                final(self).points_total@[0] as nat,
                final(self).points_total@[1] as nat,
            ),
            end.outcome is Winner ==> final(self).init_hand_index == old(self).init_hand_index,
            !(end.outcome is Winner) ==> final(self).init_hand_index == (old(self).init_hand_index
                + 1) % 4,
    {
        let t0 = self.points_total[0] + score.game_points[0];
        let t1 = self.points_total[1] + score.game_points[1];
        self.points_total = [t0, t1];
        let r0 = score.rounded[0];
        let r1 = score.rounded[1];
        let hanging = if r0 == r1 {
            self.hanging_points = self.hanging_points + r0;
            Hanging::Hangs(self.hanging_points)
        } else if self.hanging_points != 0 {
            let team: usize = if r0 > r1 {
                0
            } else {
                1
            };
            let amount = self.hanging_points;
            self.hanging_points = 0;
            Hanging::Paid { team, amount }
        } else {
            Hanging::Nothing
        };
        let outcome = if t0 >= 151 || t1 >= 151 {
            if t0 < 151 {
                GameOutcome::Winner(1)
            } else if t1 < 151 {
                GameOutcome::Winner(0)
            } else if t0 > t1 {
                GameOutcome::Winner(0)
            } else if t1 > t0 {
                GameOutcome::Winner(1)
            } else {
                GameOutcome::TiedAbove
            }
        } else {
            GameOutcome::Continue
        };
        match outcome {
            GameOutcome::Winner(_) => {},
            _ => {
                self.init_hand_index = (self.init_hand_index + 1) % 4;
            },
        }
        RoundEnd { hanging, outcome }
    }
}

} // verus!
