//! A command-template parameter engine.
//!
//! A command template may contain parameter holes delimited by a
//! configurable start token and an optional end token.  A backslash in
//! front of a token keeps it literal.  This crate provides the
//! escape-aware scanning, counting, splitting and replacing operations
//! on such templates, a state machine that fills the holes one
//! user-supplied value at a time, and the span computation that
//! locates the next hole for display.

pub mod command;
pub mod escape;
pub mod fill;
pub mod highlight;
pub mod laws;
pub mod parameters;
pub mod replace;
pub mod scan;
pub mod split;
