//! Persistable handles: an engine handle is an (index, generation) pair.
use vstd::prelude::*;

verus! {

/// A rigid body of the physics world, named by its arena slot and the
/// generation of the slot's current occupant.
#[derive(Clone, Copy, Debug, PartialEq, Eq, Structural)]
pub struct BodyHandle {
    pub index: u32,
    pub generation: u32,
}

/// A collider of the physics world, named like a body.
#[derive(Clone, Copy, Debug, PartialEq, Eq, Structural)]
pub struct ColliderHandle {
    pub index: u32,
    pub generation: u32,
}

/// The single integer that keys a body handle in lookup tables:
/// the index in the high half, the generation in the low half.
pub open spec fn key_of(index: u32, generation: u32) -> int {
    index as int * 0x1_0000_0000 + generation as int
}

impl BodyHandle {
    pub open spec fn parts(self) -> (u32, u32) {
        (self.index, self.generation)
    }

    /// Encodes the handle as its (index, generation) pair.
    pub fn into_raw_parts(self) -> (r: (u32, u32))
        ensures
            r == self.parts(),
    {
        (self.index, self.generation)
    }

    /// Rebuilds a handle from an (index, generation) pair.
    /// Whether the handle names a live body is for the world to say.
    pub fn from_raw_parts(index: u32, generation: u32) -> (r: BodyHandle)
        ensures
            r.index == index,
            r.generation == generation,
    {
        BodyHandle { index, generation }
    }

    pub open spec fn spec_key(self) -> u64 {
        key_of(self.index, self.generation) as u64
    }

    /// The lookup key of this handle.
    pub fn key(self) -> (r: u64)
        ensures
            r == self.spec_key(),
            r as int == key_of(self.index, self.generation),
    {
        proof {
            lemma_key_bounds(self.index, self.generation);
        }
        self.index as u64 * 0x1_0000_0000u64 + self.generation as u64
    }
}

impl ColliderHandle {
    pub open spec fn parts(self) -> (u32, u32) {
        (self.index, self.generation)
    }

    /// Encodes the handle as its (index, generation) pair.
    pub fn into_raw_parts(self) -> (r: (u32, u32))
        ensures
            r == self.parts(),
    {
        (self.index, self.generation)
    }

    /// Rebuilds a handle from an (index, generation) pair.
    pub fn from_raw_parts(index: u32, generation: u32) -> (r: ColliderHandle)
        ensures
            r.index == index,
            r.generation == generation,
    {
        ColliderHandle { index, generation }
    }
}

proof fn lemma_key_bounds(index: u32, generation: u32)
    ensures
        0 <= key_of(index, generation) <= u64::MAX,
{
    assert(index as int * 0x1_0000_0000 <= 0xffff_ffff * 0x1_0000_0000) by (nonlinear_arith)
        requires
            index as int <= 0xffff_ffff,
    ;
}

/// Distinct body handles have distinct lookup keys.
pub proof fn lemma_key_injective(a: BodyHandle, b: BodyHandle)
    ensures
        a.spec_key() == b.spec_key() <==> a == b,
{
    lemma_key_bounds(a.index, a.generation);
    lemma_key_bounds(b.index, b.generation);
    if a.spec_key() == b.spec_key() {
        let (ia, ga, ib, gb) = (a.index as int, a.generation as int, b.index as int, b.generation as int);
        assert(ia == ib && ga == gb) by (nonlinear_arith)
            requires
                ia * 0x1_0000_0000 + ga == ib * 0x1_0000_0000 + gb,
                0 <= ga < 0x1_0000_0000,
                0 <= gb < 0x1_0000_0000,
                0 <= ia,
                0 <= ib,
        ;
    }
}

/// Decoding the encoding of a body handle gives the same handle back, and
/// encoding a decoded pair gives the same pair back.
pub proof fn lemma_body_round_trip(h: BodyHandle, index: u32, generation: u32)
    ensures
        ({
            let (i, g) = h.parts();
            BodyHandle { index: i, generation: g }
        }) == h,
        (BodyHandle { index, generation }).parts() == (index, generation),
{
}

/// Decoding the encoding of a collider handle gives the same handle back,
/// and encoding a decoded pair gives the same pair back.
pub proof fn lemma_collider_round_trip(h: ColliderHandle, index: u32, generation: u32)
    ensures
        ({
            let (i, g) = h.parts();
            ColliderHandle { index: i, generation: g }
        }) == h,
        (ColliderHandle { index, generation }).parts() == (index, generation),
{
}

} // verus!
