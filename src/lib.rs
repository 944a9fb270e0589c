//! Drill trainer for proportions: two equivalent fractions with one value
//! hidden, a guess that is judged, and error statistics per factor.

pub mod entry;
pub mod random;
pub mod session;
pub mod styles;

pub use entry::parse_entry;

pub use session::{Draw, Message, Mode, Slot, State};
pub use styles::{BlueButtonStyleSheet, GreenButtonStyleSheet, LineFakeButton, RedButtonStyleSheet};
