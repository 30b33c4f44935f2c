//! Trait for memory and caches to implement load and store operations.
//!
//! Multi-byte operations are layered on byte operations at consecutive
//! addresses. Byte order is little-endian: the byte at `addr + k`
//! occupies bits `[8k, 8k + 8)` of the composed value, symmetrically
//! for loads and stores.

use vstd::prelude::*;

verus! {

/// Byte-addressable storage with little-endian half-word and word
/// access layered on top.
pub trait Storage {
    /// The implementor's internal invariant, preserved by every
    /// operation.
    spec fn inv(&self) -> bool;

    /// The byte the store holds at `addr`: the abstract contents that
    /// all operations are specified against.
    spec fn byte_at(&self, addr: u32) -> u8;

    /// Loads a byte from storage.
    fn load_b(&mut self, addr: u32) -> (r: u32)
        requires
            old(self).inv(),
        ensures
            final(self).inv(),
            forall|a: u32| final(self).byte_at(a) == old(self).byte_at(a),
            r == old(self).byte_at(addr) as u32;

    /// Loads a little-endian half-word from storage.
    fn load_h(&mut self, addr: u32) -> (r: u32)
        requires
            old(self).inv(),
            addr + 1 <= u32::MAX,
        ensures
            final(self).inv(),
            forall|a: u32| final(self).byte_at(a) == old(self).byte_at(a),
            r == (old(self).byte_at(addr) as u32) | ((old(self).byte_at((addr + 1) as u32) as u32)
                << 8);

    /// Loads a little-endian word from storage.
    fn load_w(&mut self, addr: u32) -> (r: u32)
        requires
            old(self).inv(),
            addr + 3 <= u32::MAX,
        ensures
            final(self).inv(),
            forall|a: u32| final(self).byte_at(a) == old(self).byte_at(a),
            r == (old(self).byte_at(addr) as u32) | ((old(self).byte_at((addr + 1) as u32) as u32)
                << 8) | ((old(self).byte_at((addr + 2) as u32) as u32) << 16) | ((old(
                self,
            ).byte_at((addr + 3) as u32) as u32) << 24);

    /// Stores the low byte of `val`.
    fn store_b(&mut self, addr: u32, val: u32)
        requires
            old(self).inv(),
        ensures
            final(self).inv(),
            final(self).byte_at(addr) == (val & 0xFF) as u8,
            forall|a: u32| a != addr ==> final(self).byte_at(a) == old(self).byte_at(a);

    /// Stores the low half-word of `val`, little-endian.
    fn store_h(&mut self, addr: u32, val: u32)
        requires
            old(self).inv(),
            addr + 1 <= u32::MAX,
        ensures
            final(self).inv(),
            final(self).byte_at(addr) == (val & 0xFF) as u8,
            final(self).byte_at((addr + 1) as u32) == ((val >> 8) & 0xFF) as u8,
            forall|a: u32|
                a != addr && a != (addr + 1) as u32 ==> final(self).byte_at(a) == old(
                    self,
                ).byte_at(a);

    /// Stores `val` as a little-endian word.
    fn store_w(&mut self, addr: u32, val: u32)
        requires
            old(self).inv(),
            addr + 3 <= u32::MAX,
        ensures
            final(self).inv(),
            final(self).byte_at(addr) == (val & 0xFF) as u8,
            final(self).byte_at((addr + 1) as u32) == ((val >> 8) & 0xFF) as u8,
            final(self).byte_at((addr + 2) as u32) == ((val >> 16) & 0xFF) as u8,
            final(self).byte_at((addr + 3) as u32) == ((val >> 24) & 0xFF) as u8,
            forall|a: u32|
                a != addr && a != (addr + 1) as u32 && a != (addr + 2) as u32 && a != (addr
                    + 3) as u32 ==> final(self).byte_at(a) == old(self).byte_at(a);
}

} // verus!
