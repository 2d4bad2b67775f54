use pocket3d::config::RoundConfig;
use pocket3d::gestures::{
    advance_scroll_orbit_ticks, orbit_gesture_active, register_screen_click, DOUBLE_CLICK_TICKS,
    SCROLL_LOD_SETTLE_TICKS,
};
use pocket3d::round::{ammo_after_shot, round_step, round_text, RoundSignal, RoundState};

#[test]
fn a_won_round_cycles_back_to_the_next_warm_up() {
    let cfg = RoundConfig::default();
    let s = round_step(&cfg, RoundState::Loading, 1, false, 2, 100);
    assert_eq!((s.state, s.round, s.entered, s.timer_ms), (RoundState::PreRound, 1, true, 1000));
    assert!(s.signals.is_empty() && !s.reset);

    let s = round_step(&cfg, RoundState::PreRound, 1, false, 2, 100);
    assert_eq!((s.state, s.entered), (RoundState::PreRound, false));

    let s = round_step(&cfg, RoundState::PreRound, 1, true, 2, 100);
    assert_eq!(s.state, RoundState::Live);
    assert_eq!(s.signals, vec![RoundSignal::RoundStart { round: 1 }]);

    let s = round_step(&cfg, RoundState::Live, 1, false, 1, 100);
    assert_eq!((s.state, s.entered), (RoundState::Live, false));

    let s = round_step(&cfg, RoundState::Live, 1, false, 0, 100);
    assert_eq!((s.state, s.timer_ms), (RoundState::PlayerWon, 3000));
    assert_eq!(s.signals, vec![RoundSignal::RoundEnd { round: 1, player_won: true }]);

    let s = round_step(&cfg, RoundState::PlayerWon, 1, true, 0, 100);
    assert_eq!(s.state, RoundState::Intermission);
    let s = round_step(&cfg, RoundState::Intermission, 1, false, 0, 100);
    assert_eq!(s.state, RoundState::Restarting);
    let s = round_step(&cfg, RoundState::Restarting, 1, false, 0, 100);
    assert_eq!((s.state, s.round, s.reset), (RoundState::PreRound, 2, true));
}

#[test]
fn a_dead_player_loses_the_round() {
    let cfg = RoundConfig::default();
    let s = round_step(&cfg, RoundState::Live, 4, false, 3, 0);
    assert_eq!(s.state, RoundState::PlayerLost);
    assert_eq!(
        s.signals,
        vec![RoundSignal::PlayerKilled, RoundSignal::RoundEnd { round: 4, player_won: false }]
    );
    let s = round_step(&cfg, RoundState::Live, 4, false, 0, -5);
    assert_eq!(s.state, RoundState::PlayerWon, "clearing the bots wins first");
}

#[test]
fn round_banners() {
    assert_eq!(round_text(RoundState::PreRound, 12).as_deref(), Some("Round 12"));
    assert_eq!(round_text(RoundState::PlayerWon, 1).as_deref(), Some("You win!"));
    assert_eq!(round_text(RoundState::PlayerLost, 1).as_deref(), Some("You died"));
    assert_eq!(round_text(RoundState::Live, 1), None);
}

#[test]
fn magazine_counts_down_and_reloads_when_empty() {
    assert_eq!(ammo_after_shot(30), (29, false));
    assert_eq!(ammo_after_shot(1), (0, true));
    assert_eq!(ammo_after_shot(-1), (-1, false), "unlimited ammo stays unlimited");
}

#[test]
fn recognized_double_clicks_are_consumed_in_non_overlapping_pairs() {
    let mut last = None;
    assert!(!register_screen_click(&mut last, 100));
    assert!(register_screen_click(&mut last, 110));
    assert_eq!(last, None);

    // This is a fresh first click, not an overlapping pair with tick 110.
    assert!(!register_screen_click(&mut last, 111));
    assert!(register_screen_click(&mut last, 120));
    assert_eq!(last, None);

    assert!(!register_screen_click(&mut last, 200));
    assert!(!register_screen_click(&mut last, 200 + DOUBLE_CLICK_TICKS + 1));
}

#[test]
fn scroll_and_drag_activity_hold_and_release_the_orbit_lod_lease() {
    let mut ticks = advance_scroll_orbit_ticks(0, true);
    assert_eq!(ticks, SCROLL_LOD_SETTLE_TICKS);
    assert!(orbit_gesture_active(false, ticks));

    // More deltas renew the full lease instead of shortening it.
    ticks = advance_scroll_orbit_ticks(ticks.saturating_sub(2), true);
    assert_eq!(ticks, SCROLL_LOD_SETTLE_TICKS);
    for quiet_tick in 1..=SCROLL_LOD_SETTLE_TICKS {
        ticks = advance_scroll_orbit_ticks(ticks, false);
        assert_eq!(orbit_gesture_active(false, ticks), quiet_tick < SCROLL_LOD_SETTLE_TICKS);
    }

    assert!(orbit_gesture_active(true, 0));
    assert!(!orbit_gesture_active(false, 0));
}
