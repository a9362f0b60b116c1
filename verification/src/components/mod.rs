//! The parts of the screen: the document viewer with its cursor, and what
//! it hands to whoever paints it.

pub mod log_popup;
pub mod query;
pub mod render;
pub mod viewer;
