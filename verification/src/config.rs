//! What can be wrong with a configuration.

use vstd::prelude::*;

verus! {

/// A configuration that the simulation refuses to start with.
#[derive(Clone, Copy, Debug, PartialEq, Eq, Structural)]
pub enum ConfigError {
    /// An infection would be over the moment it starts.
    NonPositiveTimer,
    /// An infection would never end.
    NonPositiveDecayRate,
    /// A dying host would release nothing, while waves wait for hostiles to be
    /// gone: the game would no longer progress by infections.
    NoOffspring,
    /// There is no enemy spawner.
    MissingSpawner,
    /// There is more than one enemy spawner.
    DuplicateSpawner,
}

} // verus!
