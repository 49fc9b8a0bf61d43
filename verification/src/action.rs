use vstd::prelude::*;

verus! {

/// How often a registered actor is asked to act.
#[derive(PartialEq, Eq, Hash, Structural)]
pub enum ActionResolution {
    /// Sub-second.
    Fine,
    /// Approximately once per second.
    Coarse,
    /// As soon after midnight as is practical.
    Daily,
}

/// Something the game clock drives; implemented by gameplay code outside
/// this crate.
pub trait Actor {
    fn act(&self);

    fn is_finished(&self) -> bool;
}

} // verus!
