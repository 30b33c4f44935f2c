//! Backing store: a byte-addressable memory image combining a fixed
//! loaded-binary region with a sparse overflow region.
//!
//! Every address is served by exactly one of the two regions, selected
//! solely by whether it lies below the image's length. An overflow
//! address that was never written reads as zero, so the store covers
//! the full 32-bit address space and no operation can fail.

use std::collections::HashMap;
use vstd::prelude::*;

use crate::storage::Storage;

verus! {

broadcast use vstd::std_specs::hash::group_hash_axioms;

/// The byte-addressable backing store.
pub struct Memory {
    /// Program counter: the entry address derived from the loaded
    /// binary (its text-section offset).
    pub pc: u32,
    /// Memory image copied in from the loaded binary, addresses
    /// `[0, elf_mem.len())`.
    elf_mem: Vec<u8>,
    /// Sparse region for addresses at or above the image's length
    /// (stack/heap); unwritten addresses default to zero.
    stack: HashMap<u32, u8>,
}

impl Memory {
    /// The image region never outgrows the 32-bit address space, so
    /// `addr < elf_mem.len()` decides the region for every `u32`.
    pub closed spec fn wf(self) -> bool {
        self.elf_mem@.len() <= u32::MAX
    }

    /// The program counter, for use in contracts.
    pub closed spec fn spec_pc(self) -> u32 {
        self.pc
    }

    /// The store's contents as a total map over the 32-bit address
    /// space: the image below its length, the sparse region above,
    /// zero where never written.
    pub closed spec fn contents(self) -> Map<u32, u8> {
        Map::new(
            |a: u32| true,
            |a: u32|
                if (a as int) < self.elf_mem@.len() {
                    self.elf_mem@[a as int]
                } else if self.stack@.contains_key(a) {
                    self.stack@[a]
                } else {
                    0u8
                },
        )
    }

    /// Every address has a value: the contents map is total.
    pub proof fn lemma_contents_total(self)
        ensures
            forall|a: u32| self.contents().dom().contains(a),
    {
    }

    /// Constructs the store from the image bytes a loader supplies and
    /// the entry address it found, with an empty overflow region.
    pub fn new(image: Vec<u8>, pc: u32) -> (r: Self)
        requires
            image@.len() <= u32::MAX,
        ensures
            r.wf(),
            r.spec_pc() == pc,
            forall|a: u32|
                r.contents()[a] == if (a as int) < image@.len() {
                    image@[a as int]
                } else {
                    0u8
                },
    {
        let r = Memory { pc, elf_mem: image, stack: HashMap::new() };
        proof {
            assert(vstd::std_specs::hash::obeys_key_model::<u32>());
            assert(vstd::std_specs::hash::builds_valid_hashers::<std::hash::RandomState>());
        }
        r
    }

    /// Reads one byte: the image's value below the image length, else
    /// the last value written, else zero.
    pub fn read_byte(&self, addr: u32) -> (r: u8)
        requires
            self.wf(),
        ensures
            r == self.contents()[addr],
    {
        if (addr as usize) < self.elf_mem.len() {
            self.elf_mem[addr as usize]
        } else {
            proof {
                assert(vstd::std_specs::hash::obeys_key_model::<u32>());
                assert(vstd::std_specs::hash::builds_valid_hashers::<std::hash::RandomState>());
            }
            match self.stack.get(&addr) {
                Some(b) => *b,
                None => 0,
            }
        }
    }

    /// Writes one byte; never fails. Below the image length the image
    /// is updated in place, above it the sparse entry is inserted or
    /// overwritten.
    pub fn write_byte(&mut self, addr: u32, val: u8)
        requires
            old(self).wf(),
        ensures
            final(self).wf(),
            final(self).spec_pc() == old(self).spec_pc(),
            final(self).contents() == old(self).contents().insert(addr, val),
    {
        proof {
            assert(vstd::std_specs::hash::obeys_key_model::<u32>());
            assert(vstd::std_specs::hash::builds_valid_hashers::<std::hash::RandomState>());
        }
        if (addr as usize) < self.elf_mem.len() {
            self.elf_mem.set(addr as usize, val);
        } else {
            self.stack.insert(addr, val);
        }
        proof {
            assert(self.contents() =~= old(self).contents().insert(addr, val));
        }
    }
}

impl Storage for Memory {
    open spec fn inv(&self) -> bool {
        self.wf()
    }

    open spec fn byte_at(&self, addr: u32) -> u8 {
        self.contents()[addr]
    }

    fn load_b(&mut self, addr: u32) -> (r: u32) {
        self.read_byte(addr) as u32
    }

    fn load_h(&mut self, addr: u32) -> (r: u32) {
        (self.read_byte(addr) as u32) | ((self.read_byte(addr + 1) as u32) << 8)
    }

    fn load_w(&mut self, addr: u32) -> (r: u32) {
        (self.read_byte(addr) as u32) | ((self.read_byte(addr + 1) as u32) << 8) | ((self.read_byte(
            addr + 2,
        ) as u32) << 16) | ((self.read_byte(addr + 3) as u32) << 24)
    }

    fn store_b(&mut self, addr: u32, val: u32) {
        self.write_byte(addr, (val & 0xFF) as u8);
    }

    fn store_h(&mut self, addr: u32, val: u32) {
        self.write_byte(addr, (val & 0xFF) as u8);
        self.write_byte(addr + 1, ((val >> 8) & 0xFF) as u8);
    }

    fn store_w(&mut self, addr: u32, val: u32) {
        self.write_byte(addr, (val & 0xFF) as u8);
        self.write_byte(addr + 1, ((val >> 8) & 0xFF) as u8);
        self.write_byte(addr + 2, ((val >> 16) & 0xFF) as u8);
        self.write_byte(addr + 3, ((val >> 24) & 0xFF) as u8);
    }
}

} // verus!
