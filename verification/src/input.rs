//! Input-side data types: mouse button states, key bindings, and the status a
//! round of event handling reports. Keys and modifiers are carried as the raw
//! integer codes the windowing layer exposes.

use vstd::prelude::*;

verus! {

/// The four states of a mouse button across frames.
#[derive(Clone, Copy, PartialEq, Eq, Structural, Debug)]
pub enum ButtonState {
    Pressed,
    Held,
    Released,
    Idle,
}

/// The state a button moves to when the device reports it down or up: a
/// fresh press becomes held on the next frame, a fresh release becomes idle.
pub open spec fn spec_next_button_state(state: ButtonState, down: bool) -> ButtonState {
    if down {
        match state {
            ButtonState::Pressed => ButtonState::Held,
            ButtonState::Held => ButtonState::Held,
            _ => ButtonState::Pressed,
        }
    } else {
        match state {
            ButtonState::Released => ButtonState::Idle,
            ButtonState::Idle => ButtonState::Idle,
            _ => ButtonState::Released,
        }
    }
}

impl ButtonState {
    /// Advances the button's state for one frame of device input.
    pub fn next(self, down: bool) -> (r: ButtonState)
        ensures
            r == spec_next_button_state(self, down),
    {
        if down {
            match self {
                ButtonState::Pressed | ButtonState::Held => ButtonState::Held,
                _ => ButtonState::Pressed,
            }
        } else {
            match self {
                ButtonState::Released | ButtonState::Idle => ButtonState::Idle,
                _ => ButtonState::Released,
            }
        }
    }
}

/// Mouse state: both buttons and the cursor position in window pixels.
pub struct Mouse {
    pub left: ButtonState,
    pub right: ButtonState,
    pub position: (u32, u32),
}

impl Mouse {
    /// A mouse with both buttons idle at the window origin.
    pub fn new() -> (r: Mouse)
        ensures
            r.left == ButtonState::Idle,
            r.right == ButtonState::Idle,
            r.position == (0u32, 0u32),
    {
        Mouse { left: ButtonState::Idle, right: ButtonState::Idle, position: (0, 0) }
    }
}

/// The result of handling one round of window events.
pub enum Status {
    Error(String, u8),
    Quit,
    Continue,
}

/// One bound input: a raw key code or a modifier bit pattern.
#[derive(Clone, Copy, PartialEq, Eq, Structural, Debug)]
pub enum KeyBind {
    Key(i32),
    Mod(u16),
}

/// The key bindings of the player actions.
pub struct KeyBindings {
    pub inventory: Vec<KeyBind>,
    pub left: Vec<KeyBind>,
    pub right: Vec<KeyBind>,
    pub jump: Vec<KeyBind>,
    pub down: Vec<KeyBind>,
}

/// Whether one binding matches the keys and modifiers currently down.
pub open spec fn spec_bind_matches(bind: KeyBind, raw_keys: Seq<i32>, key_mods: Seq<u16>) -> bool {
    match bind {
        KeyBind::Key(key) => raw_keys.contains(key),
        KeyBind::Mod(bits) => key_mods.contains(bits),
    }
}

impl KeyBindings {
    /// Whether any entry of `binding` matches a key in `raw_keys` or a
    /// modifier bit pattern in `key_mods`.
    pub fn check_true(binding: &Vec<KeyBind>, raw_keys: &Vec<i32>, key_mods: &Vec<u16>) -> (r:
        bool)
        ensures
            r == exists|i: int|
                0 <= i < binding@.len() && spec_bind_matches(binding@[i], raw_keys@, key_mods@),
    {
        let mut i: usize = 0;
        while i < binding.len()
            invariant
                i <= binding@.len(),
                forall|j: int|
                    0 <= j < i ==> !spec_bind_matches(binding@[j], raw_keys@, key_mods@),
            decreases binding@.len() - i,
        {
            let matched = match binding[i] {
                KeyBind::Key(key) => contains_i32(raw_keys, key),
                KeyBind::Mod(bits) => contains_u16(key_mods, bits),
            };
            if matched {
                return true;
            }
            i += 1;
        }
        false
    }
}

/// Whether `values` contains `target`.
pub fn contains_i32(values: &Vec<i32>, target: i32) -> (r: bool)
    ensures
        r == values@.contains(target),
{
    let mut i: usize = 0;
    while i < values.len()
        invariant
            i <= values@.len(),
            forall|j: int| 0 <= j < i ==> values@[j] != target,
        decreases values@.len() - i,
    {
        if values[i] == target {
            return true;
        }
        i += 1;
    }
    false
}

/// Whether `values` contains `target`.
pub fn contains_u16(values: &Vec<u16>, target: u16) -> (r: bool)
    ensures
        r == values@.contains(target),
{
    let mut i: usize = 0;
    while i < values.len()
        invariant
            i <= values@.len(),
            forall|j: int| 0 <= j < i ==> values@[j] != target,
        decreases values@.len() - i,
    {
        if values[i] == target {
            return true;
        }
        i += 1;
    }
    false
}

} // verus!
