//! The button styles of the trainer's window. The library names them; the
//! window code gives each its colours.

use vstd::prelude::*;

verus! {

/// Style of the button that quits the program.
#[derive(Debug, Clone, Copy, PartialEq, Eq)]
pub struct RedButtonStyleSheet;

/// Style of the buttons that move the exercise on: start, check, next, restart.
#[derive(Debug, Clone, Copy, PartialEq, Eq)]
pub struct BlueButtonStyleSheet;

/// Style of the button that closes a session: finish.
#[derive(Debug, Clone, Copy, PartialEq, Eq)]
pub struct GreenButtonStyleSheet;

/// Style of the fraction bar, drawn as a flat black button.
#[derive(Debug, Clone, Copy, PartialEq, Eq)]
pub struct LineFakeButton;

} // verus!
