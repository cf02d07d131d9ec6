use vstd::prelude::*;

verus! {

/// Hold time, in ms, beyond which a press counts as a long press.
pub const LONG_PRESS_MS: u64 = 1000;

/// The two buttons.
#[derive(Debug, Clone, Copy, PartialEq, Eq, Structural)]
pub enum Key {
    A,
    B,
}

/// A change of a button's state.
#[derive(Debug, Clone, Copy, PartialEq, Eq, Structural)]
pub enum KeyEvent {
    Pressed(Key),
    Released(Key),
}

/// The event, if any, for `key` between a poll that read `last` and one that read
/// `now` (`true` is held down).
pub fn key_edge(key: Key, last: bool, now: bool) -> (r: Option<KeyEvent>)
    ensures
        r == (if last == now {
            None
        } else if now {
            Some(KeyEvent::Pressed(key))
        } else {
            Some(KeyEvent::Released(key))
        }),
{
    if last == now {
        None
    } else if now {
        Some(KeyEvent::Pressed(key))
    } else {
        Some(KeyEvent::Released(key))
    }
}

/// Whether a press held for `held_ms` is a long press.
pub fn is_long_press(held_ms: u64) -> (r: bool)
    ensures
        r == (held_ms > LONG_PRESS_MS),
{
    held_ms > LONG_PRESS_MS
}

/// The brightness levels that the game page cycles through.
pub open spec fn game_brightnesses() -> Seq<u8> {
    seq![1u8, 4u8, 8u8, 15u8]
}

/// The game brightness at position `i` of the cycle.
pub fn game_brightness_at(i: usize) -> (r: u8)
    requires
        i < 4,
    ensures
        r == game_brightnesses()[i as int],
{
    if i == 0 {
        1
    } else if i == 1 {
        4
    } else if i == 2 {
        8
    } else {
        15
    }
}

/// The position of brightness `b` in the cycle; 0 for a level that is not in it.
pub fn game_brightness_index(b: u8) -> (r: usize)
    ensures
        r < 4,
        game_brightnesses().contains(b) ==> game_brightnesses()[r as int] == b,
        !game_brightnesses().contains(b) ==> r == 0,
{
    let mut i: usize = 0;
    while i < 4
        invariant
            i <= 4,
            forall|j: int| 0 <= j < i ==> game_brightnesses()[j] != b,
        decreases 4 - i,
    {
        if game_brightness_at(i) == b {
            return i;
        }
        i += 1;
    }
    proof {
        if game_brightnesses().contains(b) {
            let j = choose|j: int| 0 <= j < 4 && game_brightnesses()[j] == b;
        }
    }
    0
}

/// The position after `i` in the cycle.
pub fn next_game_brightness_index(i: usize) -> (r: usize)
    requires
        i < 4,
    ensures
        r == (i + 1) % 4,
{
    if i == 3 {
        0
    } else {
        i + 1
    }
}

/// The light page's brightness after one step of `d` from `cur`, kept in `1..=15`.
pub fn step_light_brightness(cur: u8, d: i8) -> (r: u8)
    ensures
        r == (if cur + d < 1 {
            1
        } else if cur + d > 15 {
            15
        } else {
            cur + d
        }),
{
    let v = cur as i16 + d as i16;
    if v < 1 {
        1
    } else if v > 15 {
        15
    } else {
        v as u8
    }
}

} // verus!
