//! Core of a single-window plain-text editor: the line buffer and its edit
//! actions, the document lifecycle with dirty tracking, keyboard shortcut
//! routing, and the per-line syntax highlighting pipeline.
use vstd::prelude::*;

pub mod buffer;
pub mod document;
pub mod highlight;
pub mod shortcut;
pub mod text;

verus! {

} // verus!
