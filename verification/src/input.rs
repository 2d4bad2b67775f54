//! Per-frame input snapshot: the runtime samples device state into it once
//! per frame and the simulation reads only the snapshot. The snapshot keeps
//! the current and previous pressed state, so presses are edges.
use vstd::prelude::*;

verus! {

/// Logical keyboard keys the game cares about. Kept small on purpose.
#[derive(Clone, Copy, PartialEq, Eq, Hash, Debug, Structural)]
pub enum Key {
    W,
    A,
    S,
    D,
    Space,
    Shift,
    Ctrl,
    R,
    Escape,
    F1,
    F3,
}

/// Mouse buttons.
#[derive(Clone, Copy, PartialEq, Eq, Hash, Debug, Structural)]
pub enum Button {
    Left,
    Right,
    Middle,
}

/// Number of tracked keys.
pub const KEY_COUNT: usize = 11;

/// Number of tracked buttons.
pub const BUTTON_COUNT: usize = 3;

/// The slot of each key.
pub open spec fn spec_key_index(k: Key) -> int {
    match k {
        Key::W => 0,
        Key::A => 1,
        Key::S => 2,
        Key::D => 3,
        Key::Space => 4,
        Key::Shift => 5,
        Key::Ctrl => 6,
        Key::R => 7,
        Key::Escape => 8,
        Key::F1 => 9,
        Key::F3 => 10,
    }
}

/// The slot of each button.
pub open spec fn spec_button_index(b: Button) -> int {
    match b {
        Button::Left => 0,
        Button::Right => 1,
        Button::Middle => 2,
    }
}

/// The slot of a key.
pub fn key_index(k: Key) -> (r: usize)
    ensures
        r == spec_key_index(k),
        r < KEY_COUNT,
{
    match k {
        Key::W => 0,
        Key::A => 1,
        Key::S => 2,
        Key::D => 3,
        Key::Space => 4,
        Key::Shift => 5,
        Key::Ctrl => 6,
        Key::R => 7,
        Key::Escape => 8,
        Key::F1 => 9,
        Key::F3 => 10,
    }
}

/// The slot of a button.
pub fn button_index(b: Button) -> (r: usize)
    ensures
        r == spec_button_index(b),
        r < BUTTON_COUNT,
{
    match b {
        Button::Left => 0,
        Button::Right => 1,
        Button::Middle => 2,
    }
}

/// Pressed state of all keys and buttons for one frame and the one before.
/// (Mouse motion is tracked by the runtime beside this snapshot.)
#[derive(Clone, Debug)]
pub struct InputSnapshot {
    keys_down: [bool; 11],
    keys_prev: [bool; 11],
    buttons_down: [bool; 3],
    buttons_prev: [bool; 3],
}

impl InputSnapshot {
    /// Whether `k` is held this frame.
    pub closed spec fn spec_key_down(&self, k: Key) -> bool {
        self.keys_down@[spec_key_index(k)]
    }

    /// Whether `k` was held the frame before.
    pub closed spec fn spec_key_was_down(&self, k: Key) -> bool {
        self.keys_prev@[spec_key_index(k)]
    }

    /// Whether `b` is held this frame.
    pub closed spec fn spec_button_down(&self, b: Button) -> bool {
        self.buttons_down@[spec_button_index(b)]
    }

    /// Whether `b` was held the frame before.
    pub closed spec fn spec_button_was_down(&self, b: Button) -> bool {
        self.buttons_prev@[spec_button_index(b)]
    }

    /// Nothing held, now or before.
    pub fn new() -> (s: Self)
        ensures
            forall|k: Key| !s.spec_key_down(k) && !s.spec_key_was_down(k),
            forall|b: Button| !s.spec_button_down(b) && !s.spec_button_was_down(b),
    {
        InputSnapshot {
            keys_down: [false;11],
            keys_prev: [false;11],
            buttons_down: [false;3],
            buttons_prev: [false;3],
        }
    }

    /// Start a frame: the current state becomes the previous one.
    pub fn begin_frame(&mut self)
        ensures
            forall|k: Key|
                final(self).spec_key_was_down(k) == old(self).spec_key_down(k) && final(self).spec_key_down(k) == old(self).spec_key_down(k),
            forall|b: Button|
                final(self).spec_button_was_down(b) == old(self).spec_button_down(b) && final(self).spec_button_down(b) == old(self).spec_button_down(b),
    {
        self.keys_prev = self.keys_down;
        self.buttons_prev = self.buttons_down;
    }

    /// Record whether `k` is held this frame.
    pub fn set_key(&mut self, k: Key, down: bool)
        ensures
            final(self).spec_key_down(k) == down,
            forall|j: Key| j != k ==> final(self).spec_key_down(j) == old(self).spec_key_down(j),
            forall|j: Key| final(self).spec_key_was_down(j) == old(self).spec_key_was_down(j),
            forall|b: Button|
                final(self).spec_button_down(b) == old(self).spec_button_down(b) && final(self).spec_button_was_down(b) == old(self).spec_button_was_down(b),
    {
        let i = key_index(k);
        self.keys_down[i] = down;
        assert forall|j: Key| j != k implies spec_key_index(j) != spec_key_index(k) by {}
    }

    /// Record whether `b` is held this frame.
    pub fn set_button(&mut self, b: Button, down: bool)
        ensures
            final(self).spec_button_down(b) == down,
            forall|j: Button| j != b ==> final(self).spec_button_down(j) == old(self).spec_button_down(
                j,
            ),
            forall|j: Button| final(self).spec_button_was_down(j) == old(self).spec_button_was_down(j),
            forall|k: Key|
                final(self).spec_key_down(k) == old(self).spec_key_down(k) && final(self).spec_key_was_down(k) == old(self).spec_key_was_down(k),
    {
        let i = button_index(b);
        self.buttons_down[i] = down;
    }

    /// Whether `k` is held this frame.
    pub fn key_down(&self, k: Key) -> (r: bool)
        ensures
            r == self.spec_key_down(k),
    {
        self.keys_down[key_index(k)]
    }

    /// Whether `k` went down this frame (held now, not the frame before).
    pub fn key_pressed(&self, k: Key) -> (r: bool)
        ensures
            r == (self.spec_key_down(k) && !self.spec_key_was_down(k)),
    {
        let i = key_index(k);
        self.keys_down[i] && !self.keys_prev[i]
    }

    /// Whether `b` is held this frame.
    pub fn button_down(&self, b: Button) -> (r: bool)
        ensures
            r == self.spec_button_down(b),
    {
        self.buttons_down[button_index(b)]
    }

    /// Whether `b` went down this frame (held now, not the frame before).
    pub fn button_pressed(&self, b: Button) -> (r: bool)
        ensures
            r == (self.spec_button_down(b) && !self.spec_button_was_down(b)),
    {
        let i = button_index(b);
        self.buttons_down[i] && !self.buttons_prev[i]
    }

    /// Movement axes derived from WASD as whole steps: `x` is right (+1) or
    /// left (-1), `y` forward (+1) or back (-1); opposite keys cancel. The
    /// camera uses them as `f32`s, unnormalised.
    pub fn move_axes(&self) -> (r: (i32, i32))
        ensures
            r.0 == (if self.spec_key_down(Key::D) { 1int } else { 0int }) - (if self.spec_key_down(
                Key::A,
            ) {
                1int
            } else {
                0int
            }),
            r.1 == (if self.spec_key_down(Key::W) { 1int } else { 0int }) - (if self.spec_key_down(
                Key::S,
            ) {
                1int
            } else {
                0int
            }),
    {
        let right: i32 = if self.key_down(Key::D) { 1 } else { 0 };
        let left: i32 = if self.key_down(Key::A) { 1 } else { 0 };
        let fwd: i32 = if self.key_down(Key::W) { 1 } else { 0 };
        let back: i32 = if self.key_down(Key::S) { 1 } else { 0 };
        (right - left, fwd - back)
    }
}

/// A key held across a frame boundary is not pressed again: after
/// `begin_frame`, a key that stays held reads as down but not pressed.
pub proof fn lemma_hold_is_not_a_press(before: InputSnapshot, after: InputSnapshot, k: Key)
    requires
        after.spec_key_was_down(k) == before.spec_key_down(k),
        after.spec_key_down(k) == before.spec_key_down(k),
        before.spec_key_down(k),
    ensures
        after.spec_key_down(k) && !(after.spec_key_down(k) && !after.spec_key_was_down(k)),
{
}

} // verus!
