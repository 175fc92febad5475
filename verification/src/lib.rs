//! In-memory model and transition logic of a terminal task-list application.
//!
//! The crate verifies the state that such an application keeps while it runs:
//! two ordered lists of task records (`active` and `history`) with
//! cursor-based selection, a modal two-field entry form, the controller that
//! routes logical key events to all of them, and the textual store format in
//! which both lists are persisted. Terminal rendering and file access stay
//! outside; they hand plain values to this crate and take plain values back.

pub mod app;
pub mod base;
pub mod event;
pub mod form;
pub mod list;
pub mod store;
mod text;
