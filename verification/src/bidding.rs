//! The bidding: players in turn pass or name a higher contract, until three
//! players pass after a bid or all four pass without one.
use vstd::prelude::*;
use crate::cards::{CardSuits, GameMode, suit_index};

verus! {

/// The contract named by a bid: 1 all trumps, 2 no trumps, 3 spades,
/// 4 hearts, 5 diamonds, 6 clubs; 0 stands for no bid.
pub open spec fn spec_mode_of_bid(bid: usize) -> GameMode {
    if bid == 1 {
        GameMode::AllTrumps
    } else if bid == 2 {
        GameMode::NoTrumps
    } else if bid == 3 {
        GameMode::OneTrump(CardSuits::Spades)
    } else if bid == 4 {
        GameMode::OneTrump(CardSuits::Hearts)
    } else if bid == 5 {
        GameMode::OneTrump(CardSuits::Diamonds)
    } else if bid == 6 {
        GameMode::OneTrump(CardSuits::Clubs)
    } else {
        GameMode::Pass
    }
}

/// The contracts are numbered from the highest down: 1 all trumps, 2 no
/// trumps, then one trump from spades down to clubs, so that a suit's number
/// and its place among the suits (clubs, diamonds, hearts, spades) add up to
/// six. Each number names its own contract, and 0 names none.
pub proof fn lemma_bid_numbers(b: usize, c: usize)
    requires
        1 <= b <= 6,
        1 <= c <= 6,
    ensures
        spec_mode_of_bid(0) is Pass,
        !(spec_mode_of_bid(b) is Pass),
        spec_mode_of_bid(b) is AllTrumps <==> b == 1,
        spec_mode_of_bid(b) is NoTrumps <==> b == 2,
        spec_mode_of_bid(b) is OneTrump ==> b + suit_index(spec_mode_of_bid(b)->OneTrump_0) == 6,
        spec_mode_of_bid(b) == spec_mode_of_bid(c) ==> b == c,
{
}

pub fn mode_of_bid(bid: usize) -> (mode: GameMode)
    requires
        bid <= 6,
    ensures
        mode == spec_mode_of_bid(bid),
{
    match bid {
        0 => GameMode::Pass,
        1 => GameMode::AllTrumps,
        2 => GameMode::NoTrumps,
        3 => GameMode::OneTrump(CardSuits::Spades),
        4 => GameMode::OneTrump(CardSuits::Hearts),
        5 => GameMode::OneTrump(CardSuits::Diamonds),
        _ => GameMode::OneTrump(CardSuits::Clubs),
    }
}

/// The state of the bidding.
#[derive(Debug, Clone, Copy, PartialEq, Eq, Structural)]
pub struct BiddingState {
    /// The highest bid so far (0: none yet).
    pub last_game_mode_index: usize,
    /// The player asked next.
    pub current_player: usize,
    /// Passes since the last bid (or since the start).
    pub pass_counter: usize,
    /// The player who made the highest bid (4: none yet).
    pub last_player_who_bid: usize,
}

/// What a bid leads to.
#[derive(Debug, Clone, Copy, PartialEq, Eq, Structural)]
pub enum BidStep {
    /// The next player is asked.
    Continue,
    /// The bidding is over: the contract, and who bid it (4 if nobody did).
    Done(GameMode, usize),
}

impl BiddingState {
    pub open spec fn wf(self) -> bool {
        &&& self.last_game_mode_index <= 6
        &&& self.current_player < 4
        &&& self.last_player_who_bid <= 4
        &&& (self.last_game_mode_index == 0) == (self.last_player_who_bid == 4)
        &&& if self.last_game_mode_index == 0 {
            self.pass_counter < 4
        } else {
            self.pass_counter < 3
        }
    }

    /// How many answers the player is offered: pass, and every contract
    /// higher than the current one.
    pub open spec fn spec_menu_size(self) -> usize {
        if self.last_game_mode_index == 0 {
            7
        } else {
            self.last_game_mode_index
        }
    }

    /// Bids and passes that may still be made, at most: the bidding always ends.
    pub open spec fn remaining(self) -> int {
        if self.last_game_mode_index == 0 {
            32 - self.pass_counter
        } else {
            4 * self.last_game_mode_index + 3 - self.pass_counter
        }
    }

    /// The bidding of a round that `init_player` opens.
    pub fn new(init_player: usize) -> (b: BiddingState)
        requires
            init_player < 4,
        ensures
            b.wf(),
            b == (BiddingState {
                last_game_mode_index: 0,
                current_player: init_player,
                pass_counter: 0,
                last_player_who_bid: 4,
            }),
    {
        BiddingState {
            last_game_mode_index: 0,
            current_player: init_player,
            pass_counter: 0,
            last_player_who_bid: 4,
        }
    }

    pub fn menu_size(&self) -> (n: usize)
        ensures
            n == self.spec_menu_size(),
    {
        if self.last_game_mode_index == 0 {
            7
        } else {
            self.last_game_mode_index
        }
    }

    /// The current player answers `current_bid`: 0 passes, any other
    /// number names that contract.
    pub fn bid(&mut self, current_bid: usize) -> (step: BidStep)
        requires
            old(self).wf(),
            current_bid < old(self).spec_menu_size(),
        ensures
            current_bid != 0 ==> {
                &&& step == BidStep::Continue
                &&& final(self).last_game_mode_index == current_bid
                &&& final(self).last_player_who_bid == old(self).current_player
                &&& final(self).pass_counter == 0
                &&& final(self).current_player == (old(self).current_player + 1) % 4
            },
            current_bid == 0 ==> {
                let passes = old(self).pass_counter + 1;
                let over = (old(self).last_game_mode_index != 0 && passes == 3) || (
                old(self).last_game_mode_index == 0 && passes == 4);
                &&& final(self).last_game_mode_index == old(self).last_game_mode_index
                &&& final(self).last_player_who_bid == old(self).last_player_who_bid
                &&& final(self).pass_counter == passes
                &&& over ==> step == BidStep::Done(
                    spec_mode_of_bid(old(self).last_game_mode_index),
                    old(self).last_player_who_bid,
                )
                &&& over ==> final(self).current_player == old(self).current_player
                &&& !over ==> step == BidStep::Continue
                &&& !over ==> final(self).current_player == (old(self).current_player + 1) % 4
            },
            step == BidStep::Continue ==> final(self).wf() && final(self).remaining() < old(
                self,
            ).remaining() && final(self).remaining() >= 0,
            old(self).last_game_mode_index != 0 ==> final(self).last_game_mode_index
                <= old(self).last_game_mode_index,
    {
        if current_bid != 0 {
            self.last_game_mode_index = current_bid;
            self.last_player_who_bid = self.current_player;
            self.pass_counter = 0;
        } else {
            self.pass_counter = self.pass_counter + 1;
            if self.last_game_mode_index != 0 && self.pass_counter == 3 {
                return BidStep::Done(
                    mode_of_bid(self.last_game_mode_index),
                    self.last_player_who_bid,
                );
            }
            if self.last_game_mode_index == 0 && self.pass_counter == 4 {
                return BidStep::Done(GameMode::Pass, self.last_player_who_bid);
            }
        }
        self.current_player = (self.current_player + 1) % 4;
        BidStep::Continue
    }
}

} // verus!
