//! Simulator components: the clocked-component interface and the
//! transaction queue engine with its two memory channels.

pub mod component;
pub mod laws;
pub mod memory;
