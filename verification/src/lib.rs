//! A speedrun timer for the terminal.
//!
//! Two engines do the work. The layout engine measures a tree of styled text
//! blocks, paints it into a grid of cells and compares the grid with the last
//! frame, so that the terminal is sent only what has changed. The timing
//! engine is a state machine over the phases of a run, driven by the actions
//! that the keys ask for, with a summary that sets the run's splits against
//! the personal best and the best segments.
//!
//! The library decides and computes; it neither reads the clock nor touches
//! the terminal, the keyboard or the disk. A caller hands it the reading of a
//! monotonic clock, the keys held and the size of the terminal, and gets back
//! the commands to send to the terminal and whether to write out the ledger.

pub mod bigtext;
pub mod duration;
pub mod duration_format;
pub mod rotty;
pub mod settings;
pub mod split_file;
pub mod text;
pub mod timer;
pub mod timer_state;
pub mod utils;
pub mod view;
