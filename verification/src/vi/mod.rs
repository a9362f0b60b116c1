//! Vi-style input: the motions within a line and the engine that turns key
//! sequences into commands.

pub mod vimotions;
pub mod vistate;
