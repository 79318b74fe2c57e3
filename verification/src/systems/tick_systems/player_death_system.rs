//! Stage: the game ends when the player's health is spent.

use crate::resources::{GameState, PlayerHealth};
use vstd::prelude::*;

verus! {

/// The stage: with no health left, the game's phase becomes `Died`.
pub fn player_death(player_health: &PlayerHealth, game_state: &mut GameState)
    ensures
        *final(game_state) == if player_health.health <= 0 {
            GameState::Died
        } else {
            *old(game_state)
        },
{
    if player_health.health <= 0 {
        *game_state = GameState::Died;
    }
}

} // verus!
