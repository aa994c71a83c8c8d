//! A turtle interpreter for expanded L-system words.
//!
//! The library validates a word over the alphabet `F + - [ ]` and runs the
//! turtle over it symbolically: every turn becomes a node of a heading tree
//! and every `F` a segment that names where it starts, which heading it
//! follows and at what bracket depth it was drawn. Turning that trace into
//! coordinates is plain arithmetic on the caller's side.

pub mod symbol;
pub mod turtle;
pub mod laws;
