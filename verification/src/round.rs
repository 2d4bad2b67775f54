//! The round rules of the sample shooter: the round state machine and the
//! magazine. The host advances timers and moves bodies; these functions make
//! the decisions from what it observed and say what to do next.
use vstd::prelude::*;
use crate::config::RoundConfig;
use crate::text::{decimal, usize_to_decimal};

verus! {

/// The phases of a round.
#[derive(Clone, Copy, PartialEq, Eq, Debug, Structural)]
pub enum RoundState {
    Loading,
    PreRound,
    Live,
    PlayerWon,
    PlayerLost,
    Intermission,
    Restarting,
}

/// What the round machine tells the rest of the game.
#[derive(Clone, Copy, PartialEq, Eq, Debug, Structural)]
pub enum RoundSignal {
    RoundStart { round: u32 },
    RoundEnd { round: u32, player_won: bool },
    PlayerKilled,
}

/// One decision of the round machine.
#[derive(Clone, Debug)]
pub struct RoundStep {
    /// The state after this tick.
    pub state: RoundState,
    /// The round number after this tick.
    pub round: u32,
    /// Whether a state was entered (the host then arms its timer).
    pub entered: bool,
    /// The timer to arm on entry, in milliseconds (0 for untimed states).
    pub timer_ms: u32,
    /// Signals raised this tick, in order.
    pub signals: Vec<RoundSignal>,
    /// Whether the host must reset the round (player, weapon, bots).
    pub reset: bool,
}

/// How long a state lasts once entered, in milliseconds.
pub open spec fn entry_timer_ms(cfg: RoundConfig, s: RoundState) -> u32 {
    match s {
        RoundState::PreRound => cfg.pre_round_ms,
        RoundState::PlayerWon | RoundState::PlayerLost => cfg.intermission_ms,
        _ => 0,
    }
}

/// The signal raised on entering a state during round `round`.
pub open spec fn entry_signals(s: RoundState, round: u32) -> Seq<RoundSignal> {
    match s {
        RoundState::Live => seq![RoundSignal::RoundStart { round }],
        RoundState::PlayerWon => seq![RoundSignal::RoundEnd { round, player_won: true }],
        RoundState::PlayerLost => seq![RoundSignal::RoundEnd { round, player_won: false }],
        _ => Seq::empty(),
    }
}

/// The state the machine moves to, if any: loading leads to the warm-up;
/// the warm-up goes live when its timer runs out; a live round is won when
/// no bot is left alive and lost when the player's health is gone; the
/// result shows until its timer runs out; intermission leads to a restart
/// and a restart to the next warm-up.
pub open spec fn next_state(
    s: RoundState,
    timer_expired: bool,
    alive_bots: usize,
    player_health: i32,
) -> Option<RoundState> {
    match s {
        RoundState::Loading => Some(RoundState::PreRound),
        RoundState::PreRound => if timer_expired {
            Some(RoundState::Live)
        } else {
            None
        },
        RoundState::Live => if alive_bots == 0 {
            Some(RoundState::PlayerWon)
        } else if player_health <= 0 {
            Some(RoundState::PlayerLost)
        } else {
            None
        },
        RoundState::PlayerWon | RoundState::PlayerLost => if timer_expired {
            Some(RoundState::Intermission)
        } else {
            None
        },
        RoundState::Intermission => Some(RoundState::Restarting),
        RoundState::Restarting => Some(RoundState::PreRound),
    }
}

/// The state to enter.
fn next_state_of(s: RoundState, timer_expired: bool, alive_bots: usize, player_health: i32) -> (r:
    Option<RoundState>)
    ensures
        r == next_state(s, timer_expired, alive_bots, player_health),
{
    match s {
        RoundState::Loading => Some(RoundState::PreRound),
        RoundState::PreRound => if timer_expired {
            Some(RoundState::Live)
        } else {
            None
        },
        RoundState::Live => if alive_bots == 0 {
            Some(RoundState::PlayerWon)
        } else if player_health <= 0 {
            Some(RoundState::PlayerLost)
        } else {
            None
        },
        RoundState::PlayerWon | RoundState::PlayerLost => if timer_expired {
            Some(RoundState::Intermission)
        } else {
            None
        },
        RoundState::Intermission => Some(RoundState::Restarting),
        RoundState::Restarting => Some(RoundState::PreRound),
    }
}

/// Decide one tick of the round machine in state `s` of round `round`, from
/// whether the state's timer has run out, how many bots are alive and the
/// player's health (as they stand after this tick's movement and shots).
pub fn round_step(
    cfg: &RoundConfig,
    s: RoundState,
    round: u32,
    timer_expired: bool,
    alive_bots: usize,
    player_health: i32,
) -> (r: RoundStep)
    requires
        s == RoundState::Restarting ==> round < u32::MAX,
    ensures
        match next_state(s, timer_expired, alive_bots, player_health) {
            None => {
                &&& r.state == s
                &&& r.round == round
                &&& !r.entered
                &&& r.signals@ == Seq::<RoundSignal>::empty()
                &&& !r.reset
            },
            Some(n) => {
                let restart = s == RoundState::Restarting;
                let killed = n == RoundState::PlayerLost;
                let new_round = if restart {
                    (round + 1) as u32
                } else {
                    round
                };
                &&& r.state == n
                &&& r.round == new_round
                &&& r.entered
                &&& r.timer_ms == entry_timer_ms(*cfg, n)
                &&& r.signals@ == (if killed {
                    seq![RoundSignal::PlayerKilled]
                } else {
                    Seq::empty()
                }) + entry_signals(n, new_round)
                &&& r.reset == restart
            },
        },
{
    match next_state_of(s, timer_expired, alive_bots, player_health) {
        None => RoundStep {
            state: s,
            round,
            entered: false,
            timer_ms: 0,
            signals: Vec::new(),
            reset: false,
        },
        Some(n) => {
            let restart = s == RoundState::Restarting;
            let new_round = if restart {
                round + 1
            } else {
                round
            };
            let mut signals: Vec<RoundSignal> = Vec::new();
            if n == RoundState::PlayerLost {
                signals.push(RoundSignal::PlayerKilled);
            }
            let timer_ms = match n {
                RoundState::PreRound => cfg.pre_round_ms,
                RoundState::PlayerWon | RoundState::PlayerLost => cfg.intermission_ms,
                _ => 0,
            };
            match n {
                RoundState::Live => signals.push(RoundSignal::RoundStart { round: new_round }),
                RoundState::PlayerWon => signals.push(
                    RoundSignal::RoundEnd { round: new_round, player_won: true },
                ),
                RoundState::PlayerLost => signals.push(
                    RoundSignal::RoundEnd { round: new_round, player_won: false },
                ),
                _ => {},
            }
            proof {
                let pre = if n == RoundState::PlayerLost {
                    seq![RoundSignal::PlayerKilled]
                } else {
                    Seq::<RoundSignal>::empty()
                };
                assert(signals@ =~= pre + entry_signals(n, new_round));
            }
            RoundStep { state: n, round: new_round, entered: true, timer_ms, signals, reset: restart }
        },
    }
}

/// The banner text of a state: the round number during the warm-up, the
/// result once the round is decided, nothing otherwise.
pub open spec fn spec_round_text(s: RoundState, round: u32) -> Option<Seq<char>> {
    match s {
        RoundState::PreRound => Some("Round "@ + decimal(round as nat)),
        RoundState::PlayerWon => Some("You win!"@),
        RoundState::PlayerLost => Some("You died"@),
        _ => None,
    }
}

/// The banner text of a state.
pub fn round_text(s: RoundState, round: u32) -> (r: Option<String>)
    ensures
        match (r, spec_round_text(s, round)) {
            (Some(t), Some(u)) => t@ == u,
            (None, None) => true,
            _ => false,
        },
{
    match s {
        RoundState::PreRound => {
            let mut t = String::from_str("Round ");
            t.append(usize_to_decimal(round as usize).as_str());
            Some(t)
        },
        RoundState::PlayerWon => Some("You win!".to_owned()),
        RoundState::PlayerLost => Some("You died".to_owned()),
        _ => None,
    }
}

/// The magazine after one shot: a positive count loses a round and an
/// emptied magazine starts a reload; a negative count is unlimited and stays
/// as it is. (A shot is only fired when the count is not zero.)
pub fn ammo_after_shot(ammo: i32) -> (r: (i32, bool))
    ensures
        ammo > 0 ==> r == (((ammo - 1) as i32), ammo == 1),
        ammo <= 0 ==> r == (ammo, false),
{
    if ammo > 0 {
        let left = ammo - 1;
        (left, left == 0)
    } else {
        (ammo, false)
    }
}

} // verus!
