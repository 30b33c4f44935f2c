//! The interface every clocked component offers to the simulation
//! loop.

use vstd::prelude::*;

verus! {

/// Trait all components should implement to cause updates upon clock
/// cycles.
pub trait Component {
    /// Simulates one clock cycle.
    fn cycle(&mut self);
}

} // verus!
