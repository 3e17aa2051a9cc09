//! Verified core logic of the Velotype Markdown editor.
use vstd::prelude::*;

pub mod text;
pub mod lines;
pub mod paste;
pub mod paths;
pub mod recent;
pub mod config;
pub mod export;
pub mod theme;
pub mod shortcuts;
pub mod json;
pub mod ime;
pub mod table;
pub mod selection;
