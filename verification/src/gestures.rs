//! Pointer gesture bookkeeping of the desktop stage: double-click
//! recognition on the device screen and the short lease that keeps the
//! orbit level-of-detail active between scroll events.
use vstd::prelude::*;

verus! {

/// Two clicks at most this many ticks apart form a double click.
pub const DOUBLE_CLICK_TICKS: u64 = 21;

/// Ticks the orbit level-of-detail stays active after the last scroll delta.
pub const SCROLL_LOD_SETTLE_TICKS: u8 = 6;

/// Whether a click at `tick` completes a double click begun at `last`.
pub open spec fn completes_double(last: Option<u64>, tick: u64) -> bool {
    match last {
        Some(previous) => (if tick >= previous {
            tick - previous
        } else {
            0
        }) <= DOUBLE_CLICK_TICKS,
        None => false,
    }
}

/// The pending first click after a click at `tick`.
pub open spec fn click_state_after(last: Option<u64>, tick: u64) -> Option<u64> {
    if completes_double(last, tick) {
        None
    } else {
        Some(tick)
    }
}

/// Record a click on the screen at `tick`. Returns whether it completes a
/// double click; a completed pair is consumed, so the next click starts a new
/// one, while any other click becomes the first of a possible pair.
pub fn register_screen_click(last_click: &mut Option<u64>, tick: u64) -> (is_double: bool)
    ensures
        is_double == completes_double(*old(last_click), tick),
        *final(last_click) == click_state_after(*old(last_click), tick),
{
    let is_double = match *last_click {
        Some(previous) => tick.saturating_sub(previous) <= DOUBLE_CLICK_TICKS,
        None => false,
    };
    *last_click = if is_double {
        None
    } else {
        Some(tick)
    };
    is_double
}

/// Recognised double clicks never overlap: the click right after one that
/// completes a pair is never itself the second click of a pair.
pub proof fn lemma_double_clicks_do_not_overlap(last: Option<u64>, t1: u64, t2: u64)
    requires
        completes_double(last, t1),
    ensures
        !completes_double(click_state_after(last, t1), t2),
{
}

/// The scroll lease after one tick.
pub open spec fn lease_after(current: u8, saw_scroll_delta: bool) -> u8 {
    if saw_scroll_delta {
        SCROLL_LOD_SETTLE_TICKS
    } else if current > 0 {
        (current - 1) as u8
    } else {
        0
    }
}

/// The scroll lease after `k` ticks without scrolling.
pub open spec fn lease_after_quiet(current: u8, k: nat) -> u8
    decreases k,
{
    if k == 0 {
        current
    } else {
        lease_after(lease_after_quiet(current, (k - 1) as nat), false)
    }
}

/// The scroll lease after one tick: a scroll delta renews it in full,
/// otherwise it counts down to zero.
pub fn advance_scroll_orbit_ticks(current: u8, saw_scroll_delta: bool) -> (r: u8)
    ensures
        r == lease_after(current, saw_scroll_delta),
{
    if saw_scroll_delta {
        SCROLL_LOD_SETTLE_TICKS
    } else {
        current.saturating_sub(1)
    }
}

/// Whether an orbit gesture is in progress: a right drag, or a scroll lease
/// that has not run out.
pub fn orbit_gesture_active(right_drag_active: bool, scroll_orbit_ticks: u8) -> (r: bool)
    ensures
        r == (right_drag_active || scroll_orbit_ticks > 0),
{
    right_drag_active || scroll_orbit_ticks > 0
}

/// A scroll lease keeps the gesture active for exactly
/// `SCROLL_LOD_SETTLE_TICKS` quiet ticks after the last scroll delta,
/// whatever was left of it before.
pub proof fn lemma_scroll_lease_length(current: u8, k: nat)
    ensures
        lease_after_quiet(lease_after(current, true), k) > 0 <==> k < SCROLL_LOD_SETTLE_TICKS,
        lease_after_quiet(lease_after(current, true), k) == if k < SCROLL_LOD_SETTLE_TICKS {
            SCROLL_LOD_SETTLE_TICKS - k
        } else {
            0
        },
    decreases k,
{
    if k > 0 {
        lemma_scroll_lease_length(current, (k - 1) as nat);
    }
}

} // verus!
