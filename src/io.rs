//! Input events of the text-input front end.
pub mod event;
