//! Input core of a modal, terminal-resident text editor: raw-mode control of
//! the terminal device, a canonical key-event model, the editor's modal state,
//! and per-mode prefix tries that resolve key sequences into actions.

pub mod bind;
pub mod event;
pub mod key;
pub mod modd;
pub mod state;
pub mod terminal;

use vstd::prelude::*;

verus! {

/// An opaque identifier for an editor action, meaningful to the application layer.
#[derive(Debug, Clone, Copy, PartialEq, Eq, Structural)]
pub struct Action {
    pub id: u64,
}

} // verus!
