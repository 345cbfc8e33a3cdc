//! A vertical tab bar for a terminal workspace: tmux-style format strings,
//! colours and styled text; the layout of the visible tab list with its fixed
//! section, archive and orderings; the per-tab state and attention marks read
//! from files the host polls; and the plugin's reactions to the host's events
//! and pipe messages, as new state plus the actions to ask the host for.
use vstd::prelude::*;

pub mod text;
pub mod width;
pub mod color;
pub mod style;
pub mod format;
pub mod layout;
pub mod config;
pub mod table;
pub mod model;
pub mod state;
pub mod label;
pub mod lines;
pub mod rows;
pub mod panel;
pub mod render;
pub mod commands;
pub mod clicks;
pub mod poll;
pub mod compare;
pub mod events;
pub mod plugin;
pub mod laws;

verus! {

} // verus!
