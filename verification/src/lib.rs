//! Verified core of Glow: a Markdown reader for the terminal and the browser.

pub mod text;
pub mod calls;
pub mod paths;
pub mod document;
pub mod render;
pub mod tunnel;
pub mod order;
pub mod discover;
pub mod config;
pub mod cli;
pub mod tui;
pub mod web;
pub mod source;

use vstd::prelude::*;

verus! {

/// The version of this program.
pub const VERSION: &'static str = "0.1.0";

} // verus!
