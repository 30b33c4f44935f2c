//! Memory/cache timing core and instruction decoder for a cycle-level
//! RISC-V processor simulator.
//!
//! The crate models how a load/store request travels through a
//! latency-bearing memory hierarchy (admission, queuing, fixed-cycle
//! access delay, block-granular completion) and how a raw 32-bit
//! instruction word is decoded into a typed operation.

pub mod components;
pub mod instructions;
pub mod memory;
pub mod storage;

use vstd::prelude::*;

verus! {

/// Size in bytes of one transfer block; also the address-alignment
/// granularity of the transaction queues.
pub const BLOCK_SIZE: u32 = 64;

/// Fixed per-block access latency, in simulated clock ticks.
pub const ACCESS_CYCLES: u32 = 50;

} // verus!
