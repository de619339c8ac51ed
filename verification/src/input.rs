//! Window events as the frame loop sees them, and the pending mouse state.
//!
//! Keyboard events and cursor positions are handed through as they come:
//! the type `K` of a keyboard event and the type `P` of a cursor position
//! are the caller's.

use vstd::prelude::*;

verus! {

/// A button of the mouse.
#[derive(Clone, Copy, Debug, PartialEq, Eq)]
pub enum MouseButton {
    Left,
    Right,
    Middle,
    Other(u8),
}

/// Whether a button went down or up.
#[derive(Clone, Copy, Debug, PartialEq, Eq)]
pub enum ElementState {
    Pressed,
    Released,
}

/// One event polled from the window.
#[derive(Debug, PartialEq, Eq)]
pub enum InputEvent<K, P> {
    /// The window was asked to close.
    CloseRequested,
    /// A key went down or up.
    KeyboardInput { input: K },
    /// The cursor is now at `position`.
    CursorMoved { position: P },
    /// A mouse button went down or up.
    MouseInput { state: ElementState, button: MouseButton },
    /// Anything else. It is ignored.
    Other,
}

/// Where the cursor is and which buttons are down.
#[derive(Debug, PartialEq, Eq)]
pub struct MouseState<P> {
    pub pos: P,
    /// Bit 0 is the left, bit 1 the middle, bit 2 the right button.
    pub button_mask: u32,
}

impl<P: Copy> Copy for MouseState<P> {}

impl<P: Copy> Clone for MouseState<P> {
    fn clone(&self) -> (copy: Self)
        ensures
            copy == *self,
    {
        *self
    }
}

/// The bit of the mask that stands for `button`. A button other than the
/// three named ones counts as the left one.
pub open spec fn button_id(button: MouseButton) -> u32 {
    match button {
        MouseButton::Left => 0,
        MouseButton::Middle => 1,
        MouseButton::Right => 2,
        MouseButton::Other(_) => 0,
    }
}

/// The mask after `button` went down or up: its bit is set or cleared, the
/// others stay.
pub open spec fn button_mask_after(mask: u32, state: ElementState, button: MouseButton) -> u32 {
    match state {
        ElementState::Pressed => mask | (1u32 << button_id(button)),
        ElementState::Released => mask & !(1u32 << button_id(button)),
    }
}

/// Whether the bit of `button` is set in `mask`.
pub open spec fn is_down(mask: u32, button: MouseButton) -> bool {
    mask & (1u32 << button_id(button)) != 0
}

/// Computes [`button_mask_after`].
pub fn update_button_mask(mask: u32, state: ElementState, button: MouseButton) -> (updated: u32)
    ensures
        updated == button_mask_after(mask, state, button),
{
    let button_id: u32 = match button {
        MouseButton::Left => 0,
        MouseButton::Middle => 1,
        MouseButton::Right => 2,
        MouseButton::Other(_) => 0,
    };
    match state {
        ElementState::Pressed => mask | (1u32 << button_id),
        ElementState::Released => mask & !(1u32 << button_id),
    }
}

/// A button is down after it was pressed and up after it was released,
/// and no event of one button changes whether another one is down.
pub proof fn lemma_button_mask(mask: u32, state: ElementState, button: MouseButton, other: MouseButton)
    ensures
        is_down(button_mask_after(mask, state, button), button) == (state is Pressed),
        button_id(other) != button_id(button) ==> is_down(
            button_mask_after(mask, state, button),
            other,
        ) == is_down(mask, other),
{
    let b = button_id(button);
    let o = button_id(other);
    assert(b < 3 && o < 3);
    assert((mask | (1u32 << b)) & (1u32 << b) != 0) by (bit_vector)
        requires
            b < 3,
    ;
    assert((mask & !(1u32 << b)) & (1u32 << b) == 0) by (bit_vector)
        requires
            b < 3,
    ;
    assert(o != b ==> (mask | (1u32 << b)) & (1u32 << o) == mask & (1u32 << o)) by (bit_vector)
        requires
            b < 3,
            o < 3,
    ;
    assert(o != b ==> (mask & !(1u32 << b)) & (1u32 << o) == mask & (1u32 << o)) by (bit_vector)
        requires
            b < 3,
            o < 3,
    ;
}

} // verus!
