//! The editor's base modes, their extensions, and pluggable extra modes.

use vstd::prelude::*;

verus! {

/// An extension of the Insert or Visual base mode. Normal and Command mode
/// carry no extension, which the `Mod` variants enforce by shape.
#[derive(Debug, Clone, Copy, PartialEq, Eq, Structural)]
pub enum ModExtension {
    Normal,
    Block,
    Column,
    MultiCursor,
}

/// The editor's base mode.
#[derive(Debug, Clone, Copy, PartialEq, Eq, Structural)]
pub enum Mod {
    Normal,
    Insert(ModExtension),
    Visual(ModExtension),
    Command,
}

/// A named, pluggable behavioral capability layered on top of the base mode,
/// such as a fuzzy-finder overlay. Implementors only expose their name.
pub trait ExtraMod {
    fn name(&self) -> &'static str;
}

/// A fuzzy-finder extra mode.
pub struct TelescopeMod {}

impl ExtraMod for TelescopeMod {
    fn name(&self) -> &'static str {
        "telescope"
    }
}

} // verus!
