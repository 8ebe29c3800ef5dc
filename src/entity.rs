use vstd::prelude::*;

verus! {

/// A generation-tagged handle: a slot index and the version of that slot when
/// the handle was issued. Versions are always odd, as in slotmap's key layout.
#[derive(Clone, Copy, Debug, PartialEq, Eq, Structural, PartialOrd, Ord, Hash)]
pub struct Entity {
    index: u32,
    version: u32,
}

impl Entity {
    /// Every handle carries an odd version.
    #[verifier::type_invariant]
    pub open spec fn inv(self) -> bool {
        self.version_spec() % 2 == 1
    }

    pub closed spec fn index_spec(self) -> u32 {
        self.index
    }

    pub closed spec fn version_spec(self) -> u32 {
        self.version
    }

    /// The packed 64-bit form: version in the high half, index in the low half.
    pub open spec fn bits_spec(self) -> u64 {
        pack(self.index_spec(), self.version_spec())
    }

    /// Two handles are equal exactly when index and version agree.
    pub proof fn lemma_eq(self, other: Entity)
        ensures
            (self == other) <==> (self.index_spec() == other.index_spec()
                && self.version_spec() == other.version_spec()),
    {
    }

    /// The slot index of this handle.
    pub fn index(&self) -> (r: u32)
        ensures
            r == self.index_spec(),
    {
        self.index
    }

    /// The generation of this handle's slot when it was issued.
    pub fn version(&self) -> (r: u32)
        ensures
            r == self.version_spec(),
    {
        self.version
    }

    /// The packed 64-bit form of the handle.
    pub fn to_bits(&self) -> (r: u64)
        ensures
            r == self.bits_spec(),
            unpack_index(r) == self.index_spec(),
            unpack_version(r) == self.version_spec(),
    {
        proof {
            use_type_invariant(self);
            lemma_pack_unpack(self.index, self.version);
        }
        ((self.version as u64) << 32u64) | (self.index as u64)
    }

    /// Rebuilds a handle from packed bits; the version is forced odd, as
    /// slotmap does when reading such bits.
    pub fn from_bits(bits: u64) -> (r: Entity)
        ensures
            r.index_spec() == unpack_index(bits),
            r.version_spec() == unpack_version(bits),
    {
        let index = (bits & 0xffff_ffffu64) as u32;
        let version = ((bits >> 32u64) as u32) | 1u32;
        assert(version % 2 == 1) by (bit_vector)
            requires
                version == ((bits >> 32u64) as u32) | 1u32,
        ;
        Entity { index, version }
    }
}

impl Default for Entity {
    /// The null handle, which no registry ever issues (its index is `u32::MAX`).
    fn default() -> (r: Entity)
        ensures
            r.index_spec() == u32::MAX,
            r.version_spec() == 1,
    {
        Entity { index: u32::MAX, version: 1 }
    }
}

pub open spec fn pack(index: u32, version: u32) -> u64 {
    ((version as u64) << 32u64) | (index as u64)
}

/// The slot index that slotmap reads from packed bits.
pub open spec fn unpack_index(bits: u64) -> u32 {
    (bits & 0xffff_ffffu64) as u32
}

/// The version that slotmap reads from packed bits (always odd).
pub open spec fn unpack_version(bits: u64) -> u32 {
    ((bits >> 32u64) as u32) | 1u32
}

pub proof fn lemma_pack_unpack(index: u32, version: u32)
    requires
        version % 2 == 1,
    ensures
        unpack_index(pack(index, version)) == index,
        unpack_version(pack(index, version)) == version,
{
    assert(version % 2 == 1 ==> (version | 1u32) == version) by (bit_vector);
    assert((((((version as u64) << 32u64) | (index as u64)) & 0xffff_ffffu64) as u32) == index)
        by (bit_vector);
    assert((((((version as u64) << 32u64) | (index as u64)) >> 32u64) as u32) == version)
        by (bit_vector);
}

} // verus!
