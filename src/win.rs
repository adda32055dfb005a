//! Input events of the caps-lock front end.
pub mod event;
