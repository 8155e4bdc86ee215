//! The turn driver: one society and a turn counter.

use vstd::prelude::*;

use crate::society::{Society, SocietyV, apply_all_issues};

verus! {

/// Mathematical image of a `Game`.
pub struct GameV {
    pub society: SocietyV,
    pub turn: int,
}

/// A running simulation: a society and the number of turns taken so far.
pub struct Game {
    pub society: Society,
    pub turn: u32,
}

impl View for Game {
    type V = GameV;

    open spec fn view(&self) -> GameV {
        GameV { society: self.society@, turn: self.turn as int }
    }
}

impl Game {
    /// Wraps the society with the turn counter at zero.
    pub fn new(society: Society) -> (r: Game)
        requires
            society@.wf(),
        ensures
            r@.society == society@,
            r@.turn == 0,
            r@.society.wf(),
    {
        Game { society, turn: 0 }
    }

    /// Advances the simulation one step: applies every standing issue once,
    /// then counts the turn. The counter saturates at `u32::MAX` instead of
    /// overflowing.
    pub fn next_turn(&mut self)
        requires
            old(self)@.society.wf(),
        ensures
            final(self)@.society.issues == old(self)@.society.issues,
            final(self)@.society.groups == apply_all_issues(
                old(self)@.society.groups,
                old(self)@.society.issues,
            ),
            final(self)@.society.wf(),
            final(self)@.turn == if old(self)@.turn < u32::MAX {
                old(self)@.turn + 1
            } else {
                old(self)@.turn
            },
    {
        self.society.apply_issues();
        if self.turn < u32::MAX {
            self.turn = self.turn + 1;
        }
    }
}

} // verus!
