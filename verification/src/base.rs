//! Core engine labels and simple components.

use vstd::prelude::*;

verus! {

/// The system sets that order the engine's work within a frame.
#[derive(Clone, Copy, Debug, PartialEq, Eq, Hash, Structural)]
pub enum NovaSystemSet {
    /// Input handling.
    Input,
    /// Game logic.
    Logic,
    /// Physics simulation.
    Physics,
    /// Animation update.
    Animation,
    /// Render preparation.
    PreRender,
    /// UI update.
    Ui,
}

/// An entity's display name.
#[derive(Clone, Debug)]
pub struct EntityName(pub String);

impl EntityName {
    /// A name with the given text.
    pub fn new(name: &str) -> (n: Self)
        ensures
            n.0@ == name@,
    {
        EntityName(name.to_owned())
    }
}

/// Whether an entity is shown.
#[derive(Clone, Copy, Debug, PartialEq, Eq, Structural)]
pub struct Visible(pub bool);

impl Visible {
    /// Visibility set to `visible`.
    pub fn new(visible: bool) -> (v: Self)
        ensures
            v.0 == visible,
    {
        Visible(visible)
    }
}

impl Default for Visible {
    fn default() -> (v: Self)
        ensures
            !v.0,
    {
        Visible(false)
    }
}

/// Marks an entity that never moves.
#[derive(Clone, Copy, Debug, PartialEq, Eq, Structural)]
pub struct Static;

} // verus!
