//! Entity handles: an opaque 64-bit identifier split into a 32-bit index and
//! a 32-bit generation, with the top generation bit reserved as a flag.

use vstd::prelude::*;

verus! {

/// An opaque handle to an entity: a storage index plus a generation.
/// Two entities are equal iff both fields are equal; an index may be
/// reused after a free, but only with a strictly greater generation.
#[derive(Clone, Copy, PartialEq, Eq, Structural, Hash, Debug)]
pub struct Entity {
    pub index: u32,
    pub generation: u32,
}

/// The reserved flag part of a generation: its top bit, as a value.
pub open spec fn spec_generation_flag(generation: u32) -> int {
    if generation >= 0x8000_0000u32 {
        0x8000_0000
    } else {
        0
    }
}

/// The generation obtained by advancing `generation` by `by` steps: the flag
/// bit is preserved and the low 31 bits advance modulo 2^31.
pub open spec fn spec_inc_generation_by(generation: u32, by: u32) -> u32 {
    (spec_generation_flag(generation) + (generation % 0x8000_0000u32 + by) % 0x8000_0000) as u32
}

/// Advance a generation while preserving the reserved flag bit: the low 31
/// bits advance modulo 2^31, the top bit is kept as it was.
pub fn inc_generation_by(generation: u32, by: u32) -> (r: u32)
    ensures
        r == spec_inc_generation_by(generation, by),
{
    let flag: u32 = if generation >= 0x8000_0000u32 {
        0x8000_0000u32
    } else {
        0
    };
    let low: u32 = generation % 0x8000_0000u32;
    let advanced: u32 = (((low as u64) + (by as u64)) % 0x8000_0000u64) as u32;
    flag + advanced
}

impl Entity {
    /// The storage index of this entity.
    pub open spec fn spec_index(self) -> u32 {
        self.index
    }

    /// The generation of this entity.
    pub open spec fn spec_generation(self) -> u32 {
        self.generation
    }

    /// The 64-bit form: generation in the high 32 bits, index in the low 32.
    pub open spec fn spec_to_bits(self) -> u64 {
        (self.generation as int * 0x1_0000_0000 + self.index as int) as u64
    }

    /// The entity whose 64-bit form is `bits`.
    pub open spec fn spec_from_bits(bits: u64) -> Entity {
        Entity {
            index: (bits % 0x1_0000_0000u64) as u32,
            generation: (bits / 0x1_0000_0000u64) as u32,
        }
    }

    /// Build an entity from an index alone, at generation zero.
    pub fn from_raw(index: u32) -> (r: Entity)
        ensures
            r.spec_index() == index,
            r.spec_generation() == 0,
    {
        Entity { index, generation: 0 }
    }

    /// Build an entity from both fields.
    pub fn from_raw_and_generation(index: u32, generation: u32) -> (r: Entity)
        ensures
            r.spec_index() == index,
            r.spec_generation() == generation,
    {
        Entity { index, generation }
    }

    /// The storage index of this entity.
    pub fn index(&self) -> (r: u32)
        ensures
            r == self.spec_index(),
    {
        self.index
    }

    /// The generation of this entity.
    pub fn generation(&self) -> (r: u32)
        ensures
            r == self.spec_generation(),
    {
        self.generation
    }

    /// Pack the two fields into one 64-bit value.
    pub fn to_bits(&self) -> (r: u64)
        ensures
            r == self.spec_to_bits(),
    {
        (self.generation as u64) * 0x1_0000_0000u64 + (self.index as u64)
    }

    /// Unpack a 64-bit value into an entity.
    pub fn from_bits(bits: u64) -> (r: Entity)
        ensures
            r == Entity::spec_from_bits(bits),
    {
        Entity {
            index: (bits % 0x1_0000_0000u64) as u32,
            generation: (bits / 0x1_0000_0000u64) as u32,
        }
    }
}

/// Packing an entity into 64 bits and unpacking again yields the same entity.
pub proof fn lemma_bits_round_trip(e: Entity)
    ensures
        Entity::spec_from_bits(e.spec_to_bits()) == e,
{
    let bits = e.spec_to_bits();
    assert(bits % 0x1_0000_0000u64 == e.spec_index()) by (nonlinear_arith)
        requires
            bits == e.spec_generation() as int * 0x1_0000_0000 + e.spec_index() as int,
            e.spec_index() < 0x1_0000_0000,
    ;
    assert(bits / 0x1_0000_0000u64 == e.spec_generation()) by (nonlinear_arith)
        requires
            bits == e.spec_generation() as int * 0x1_0000_0000 + e.spec_index() as int,
            e.spec_index() < 0x1_0000_0000,
    ;
}

} // verus!
