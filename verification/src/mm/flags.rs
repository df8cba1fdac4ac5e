//! Permission bits of mapped regions and of page-table entries.
use vstd::prelude::*;

verus! {

/// Bit of a page-table entry that marks it as valid.
pub const PTE_V: u8 = 1;

/// Read permission bit.
pub const PERM_R: u8 = 2;

/// Write permission bit.
pub const PERM_W: u8 = 4;

/// Execute permission bit.
pub const PERM_X: u8 = 8;

/// User-accessible bit.
pub const PERM_U: u8 = 16;

/// All bits that a [`MapPermission`] may hold.
pub const PERM_ALL: u8 = 30;

/// Access rights of a mapped region: any combination of read, write,
/// execute and user-accessible.
#[derive(Clone, Copy, Debug, PartialEq, Eq, Structural)]
pub struct MapPermission {
    pub bits: u8,
}

impl MapPermission {
    /// No access at all.
    pub fn empty() -> (p: MapPermission)
        ensures
            p.bits == 0,
    {
        MapPermission { bits: 0 }
    }

    /// The permission whose bits are those of `bits` that name a right;
    /// every other bit is dropped.
    pub fn from_bits_truncate(bits: u8) -> (p: MapPermission)
        ensures
            p.bits == bits & PERM_ALL,
    {
        MapPermission { bits: bits & PERM_ALL }
    }

    /// The rights of `self` together with those of `other`.
    pub fn union(self, other: MapPermission) -> (p: MapPermission)
        ensures
            p.bits == self.bits | other.bits,
    {
        MapPermission { bits: self.bits | other.bits }
    }

    /// Whether every right of `other` is also a right of `self`.
    pub fn contains(self, other: MapPermission) -> (b: bool)
        ensures
            b == (self.bits & other.bits == other.bits),
    {
        self.bits & other.bits == other.bits
    }

    pub open spec fn readable(self) -> bool {
        self.bits & PERM_R != 0
    }

    pub open spec fn writable(self) -> bool {
        self.bits & PERM_W != 0
    }

    pub open spec fn executable(self) -> bool {
        self.bits & PERM_X != 0
    }

    pub open spec fn user(self) -> bool {
        self.bits & PERM_U != 0
    }

    /// The rights that a mapping request with protection bits `port` asks
    /// for: bit 0 of `port` is read, bit 1 write, bit 2 execute, and the
    /// result is always user-accessible.
    pub open spec fn spec_from_port(port: usize) -> MapPermission {
        MapPermission { bits: (((port << 1) as u8) & PERM_ALL) | PERM_U }
    }

    /// The rights that a mapping request with protection bits `port` asks
    /// for (see [`MapPermission::spec_from_port`]).
    pub fn from_port(port: usize) -> (p: MapPermission)
        requires
            port <= 7,
        ensures
            p == Self::spec_from_port(port),
    {
        assert(port << 1 <= 14) by (bit_vector)
            requires
                port <= 7,
        ;
        MapPermission::from_bits_truncate((port << 1) as u8).union(MapPermission { bits: PERM_U })
    }
}

/// What a lookup in a page table yields for a mapped page: the valid bit
/// and the access rights of the page.
#[derive(Clone, Copy, Debug, PartialEq, Eq, Structural)]
pub struct PageTableEntry {
    pub flags: u8,
}

impl PageTableEntry {
    /// The entry of a page that is mapped with the rights `perm`.
    pub open spec fn spec_for_perm(perm: MapPermission) -> PageTableEntry {
        PageTableEntry { flags: perm.bits | PTE_V }
    }

    /// The entry of a page that is mapped with the rights `perm`.
    pub fn for_perm(perm: MapPermission) -> (pte: PageTableEntry)
        ensures
            pte == Self::spec_for_perm(perm),
    {
        PageTableEntry { flags: perm.bits | PTE_V }
    }

    pub open spec fn spec_is_valid(&self) -> bool {
        self.flags & PTE_V != 0
    }

    pub open spec fn spec_readable(&self) -> bool {
        self.flags & PERM_R != 0
    }

    pub open spec fn spec_writable(&self) -> bool {
        self.flags & PERM_W != 0
    }

    pub open spec fn spec_executable(&self) -> bool {
        self.flags & PERM_X != 0
    }

    pub open spec fn spec_user(&self) -> bool {
        self.flags & PERM_U != 0
    }

    #[verifier::when_used_as_spec(spec_is_valid)]
    pub fn is_valid(&self) -> (b: bool)
        ensures
            b == self.spec_is_valid(),
    {
        self.flags & PTE_V != 0
    }

    #[verifier::when_used_as_spec(spec_readable)]
    pub fn readable(&self) -> (b: bool)
        ensures
            b == self.spec_readable(),
    {
        self.flags & PERM_R != 0
    }

    #[verifier::when_used_as_spec(spec_writable)]
    pub fn writable(&self) -> (b: bool)
        ensures
            b == self.spec_writable(),
    {
        self.flags & PERM_W != 0
    }

    #[verifier::when_used_as_spec(spec_executable)]
    pub fn executable(&self) -> (b: bool)
        ensures
            b == self.spec_executable(),
    {
        self.flags & PERM_X != 0
    }

    #[verifier::when_used_as_spec(spec_user)]
    pub fn user(&self) -> (b: bool)
        ensures
            b == self.spec_user(),
    {
        self.flags & PERM_U != 0
    }
}

/// A page-table entry built from a permission is valid and grants exactly
/// the rights of that permission.
pub proof fn lemma_entry_matches_permission(perm: MapPermission)
    ensures
        PageTableEntry::spec_for_perm(perm).is_valid(),
        PageTableEntry::spec_for_perm(perm).readable() == perm.readable(),
        PageTableEntry::spec_for_perm(perm).writable() == perm.writable(),
        PageTableEntry::spec_for_perm(perm).executable() == perm.executable(),
        PageTableEntry::spec_for_perm(perm).user() == perm.user(),
{
    let b = perm.bits;
    assert((b | 1u8) & 1u8 != 0) by (bit_vector);
    assert(((b | 1u8) & 2u8 != 0) == (b & 2u8 != 0)) by (bit_vector);
    assert(((b | 1u8) & 4u8 != 0) == (b & 4u8 != 0)) by (bit_vector);
    assert(((b | 1u8) & 8u8 != 0) == (b & 8u8 != 0)) by (bit_vector);
    assert(((b | 1u8) & 16u8 != 0) == (b & 16u8 != 0)) by (bit_vector);
}

/// The rights asked for by protection bits `port` in `1..=7`: read, write
/// and execute follow bits 0, 1 and 2 of `port`, and user access is granted.
pub proof fn lemma_port_permission(port: usize)
    requires
        1 <= port <= 7,
    ensures
        MapPermission::spec_from_port(port).readable() == (port & 1 != 0),
        MapPermission::spec_from_port(port).writable() == (port & 2 != 0),
        MapPermission::spec_from_port(port).executable() == (port & 4 != 0),
        MapPermission::spec_from_port(port).user(),
{
    assert((((((port << 1) as u8) & 30u8) | 16u8) & 2u8 != 0) == (port & 1 != 0)) by (bit_vector)
        requires
            1 <= port <= 7,
    ;
    assert((((((port << 1) as u8) & 30u8) | 16u8) & 4u8 != 0) == (port & 2 != 0)) by (bit_vector)
        requires
            1 <= port <= 7,
    ;
    assert((((((port << 1) as u8) & 30u8) | 16u8) & 8u8 != 0) == (port & 4 != 0)) by (bit_vector)
        requires
            1 <= port <= 7,
    ;
    assert(((((port << 1) as u8) & 30u8) | 16u8) & 16u8 != 0) by (bit_vector);
}

} // verus!
