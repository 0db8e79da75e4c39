//! What the loop does with the input of one tick.

use vstd::prelude::*;

verus! {

/// The key that ends the dashboard.
pub const QUIT_KEY: char = 'q';

/// A key event as the loop reads it: whether it is a press, and the
/// character of the key where it has one.
#[derive(Clone, Copy, Debug, PartialEq, Eq, Structural)]
pub struct KeyInput {
    pub pressed: bool,
    pub character: Option<char>,
}

/// What the loop does next.
#[derive(Clone, Copy, Debug, PartialEq, Eq, Structural)]
pub enum LoopAction {
    /// Stop the loop and shut down.
    Quit,
    /// Take a snapshot and draw it.
    Redraw,
}

/// The input is a press of the quit key.
pub open spec fn is_quit(input: Option<KeyInput>) -> bool {
    match input {
        Some(k) => k.pressed && k.character == Some(QUIT_KEY),
        None => false,
    }
}

/// Decides one tick: a press of the quit key ends the loop; any other
/// input, and no input at all, leads to a redraw.
pub fn on_tick(input: Option<KeyInput>) -> (action: LoopAction)
    ensures
        action == (if is_quit(input) {
            LoopAction::Quit
        } else {
            LoopAction::Redraw
        }),
{
    match input {
        Some(k) => {
            if !k.pressed {
                return LoopAction::Redraw;
            }
            match k.character {
                Some(c) => {
                    if c == QUIT_KEY {
                        LoopAction::Quit
                    } else {
                        LoopAction::Redraw
                    }
                },
                None => LoopAction::Redraw,
            }
        },
        None => LoopAction::Redraw,
    }
}

} // verus!
