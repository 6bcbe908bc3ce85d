//! The parkour tag minigame.

use crate::game::{Game, GameState, PlayerId};
use vstd::prelude::*;

verus! {

/// Parkour tag: two to eight players, with a lobby countdown of fifteen seconds.
#[derive(Clone, Copy, Debug)]
pub struct PTGame {}

impl Game for PTGame {
    open spec fn max_players_spec(&self) -> usize {
        8
    }

    open spec fn min_players_spec(&self) -> usize {
        2
    }

    open spec fn countdown_seconds_spec(&self) -> i32 {
        15
    }

    fn max_players(&self) -> (n: usize) {
        8
    }

    fn min_players(&self) -> (n: usize) {
        2
    }

    fn countdown_seconds(&self) -> (s: i32) {
        15
    }

    fn client_join(&self, player: PlayerId, world: usize, state: &GameState) {
    }

    fn client_leave(&self, player: PlayerId, world: usize, state: &GameState) {
    }
}

} // verus!
