//! Round-flow constants the scripts may override.
use vstd::prelude::*;

verus! {

/// Round-flow constants.
#[derive(Debug, Clone, PartialEq, Eq)]
pub struct RoundConfig {
    /// `PreRound` warm-up duration before `Live`, in milliseconds.
    pub pre_round_ms: u32,
    /// How long a win/loss result is shown before restarting, in milliseconds.
    pub intermission_ms: u32,
    /// Player starting health.
    pub player_health: i32,
    /// Bot starting health.
    pub bot_health: i32,
}

impl Default for RoundConfig {
    /// One second of warm-up, three of intermission, 100 health each side.
    fn default() -> (c: Self)
        ensures
            c.pre_round_ms == 1000,
            c.intermission_ms == 3000,
            c.player_health == 100,
            c.bot_health == 100,
    {
        RoundConfig { pre_round_ms: 1000, intermission_ms: 3000, player_health: 100, bot_health: 100 }
    }
}

} // verus!
