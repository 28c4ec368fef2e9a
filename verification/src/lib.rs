//! Interactive selection of one entry out of a list on a terminal, with a
//! bounded history of the most recently used choices.
//!
//! * [`args`]: numbers given as text on the command line.
//! * [`key`]: the key events a menu understands.
//! * [`escape`]: the terminal control sequences a menu emits.
//! * [`history`]: the recency-ordered account list and the last role per account.
//! * [`term`]: menu items, the selection state machine and its rendering.
//! * [`select`]: the menus for accounts and roles, built from the history.
//! * [`text`]: small facts about text and sequences that the other modules share.

pub mod args;
pub mod escape;
pub mod history;
pub mod key;
pub mod select;
pub mod term;
pub mod text;
