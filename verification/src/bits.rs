//! Bit-level helpers: power-of-two rounding, resource bit masks, packing of
//! three resource counters into one `u64`, and alignment.

use vstd::prelude::*;
use vstd::std_specs::ops::BitOrSpec;

verus! {

/// `n` has exactly one bit set, i.e. `n == 2^k` for some `k < 64`.
pub open spec fn single_bit(n: u64) -> bool {
    exists|k: u64| k < 64 && n == (1u64 << k)
}

proof fn lemma_single_bit_test(n: u64)
    ensures
        single_bit(n) <==> (n > 0 && (n & ((n - 1) as u64)) == 0),
{
    if n > 0 && (n & ((n - 1) as u64)) == 0 {
        assert(n > 0 && (n & ((n - 1) as u64)) == 0 ==> (
            n == (1u64 << 0u64) || n == (1u64 << 1u64) || n == (1u64 << 2u64) || n == (1u64 << 3u64)
            || n == (1u64 << 4u64) || n == (1u64 << 5u64) || n == (1u64 << 6u64) || n == (1u64 << 7u64)
            || n == (1u64 << 8u64) || n == (1u64 << 9u64) || n == (1u64 << 10u64) || n == (1u64 << 11u64)
            || n == (1u64 << 12u64) || n == (1u64 << 13u64) || n == (1u64 << 14u64) || n == (1u64 << 15u64)
            || n == (1u64 << 16u64) || n == (1u64 << 17u64) || n == (1u64 << 18u64) || n == (1u64 << 19u64)
            || n == (1u64 << 20u64) || n == (1u64 << 21u64) || n == (1u64 << 22u64) || n == (1u64 << 23u64)
            || n == (1u64 << 24u64) || n == (1u64 << 25u64) || n == (1u64 << 26u64) || n == (1u64 << 27u64)
            || n == (1u64 << 28u64) || n == (1u64 << 29u64) || n == (1u64 << 30u64) || n == (1u64 << 31u64)
            || n == (1u64 << 32u64) || n == (1u64 << 33u64) || n == (1u64 << 34u64) || n == (1u64 << 35u64)
            || n == (1u64 << 36u64) || n == (1u64 << 37u64) || n == (1u64 << 38u64) || n == (1u64 << 39u64)
            || n == (1u64 << 40u64) || n == (1u64 << 41u64) || n == (1u64 << 42u64) || n == (1u64 << 43u64)
            || n == (1u64 << 44u64) || n == (1u64 << 45u64) || n == (1u64 << 46u64) || n == (1u64 << 47u64)
            || n == (1u64 << 48u64) || n == (1u64 << 49u64) || n == (1u64 << 50u64) || n == (1u64 << 51u64)
            || n == (1u64 << 52u64) || n == (1u64 << 53u64) || n == (1u64 << 54u64) || n == (1u64 << 55u64)
            || n == (1u64 << 56u64) || n == (1u64 << 57u64) || n == (1u64 << 58u64) || n == (1u64 << 59u64)
            || n == (1u64 << 60u64) || n == (1u64 << 61u64) || n == (1u64 << 62u64) || n == (1u64 << 63u64)
        )) by (bit_vector);
    }
    if single_bit(n) {
        let k = choose|k: u64| k < 64 && n == (1u64 << k);
        assert(k < 64 ==> ((1u64 << k) > 0 && ((1u64 << k) & (((1u64 << k) - 1) as u64)) == 0))
            by (bit_vector);
    }
}

/// Returns `true` when `n` is a power of two (including 1, but excluding 0).
pub fn is_power_of_two(n: u64) -> (r: bool)
    ensures
        r == single_bit(n),
{
    proof {
        lemma_single_bit_test(n);
    }
    n > 0 && (n & n.wrapping_sub(1)) == 0
}

/// Copies the highest set bit of `v` into every lower position.
pub open spec fn smear(v: u64) -> u64 {
    let v1 = v | (v >> 1u64);
    let v2 = v1 | (v1 >> 2u64);
    let v3 = v2 | (v2 >> 4u64);
    let v4 = v3 | (v3 >> 8u64);
    let v5 = v4 | (v4 >> 16u64);
    v5 | (v5 >> 32u64)
}

/// Returns the smallest power of two greater than or equal to `n`; `1` for
/// `n == 0`, and `0` (the wrapped `2^64`) when `n > 2^63`.
pub fn round_up_to_power_of_two(n: u64) -> (r: u64)
    ensures
        n == 0 ==> r == 1,
        0 < n <= 0x8000_0000_0000_0000 ==> single_bit(r) && n <= r && r / 2 < n,
        n > 0x8000_0000_0000_0000 ==> r == 0,
{
    if n == 0 {
        return 1;
    }
    let mut v = n.wrapping_sub(1);
    v |= v >> 1;
    v |= v >> 2;
    v |= v >> 4;
    v |= v >> 8;
    v |= v >> 16;
    v |= v >> 32;
    let r = v.wrapping_add(1);
    proof {
        assert(v == smear((n - 1) as u64));
        assert(n > 0 && n <= 0x8000_0000_0000_0000 ==> {
            let s = smear((n - 1) as u64);
            let p = (s + 1) as u64;
            s < 0x8000_0000_0000_0000 && p > 0 && (p & ((p - 1) as u64)) == 0 && n <= p && p / 2
                < n
        }) by (bit_vector);
        assert(n > 0x8000_0000_0000_0000 ==> smear((n - 1) as u64) == 0xFFFF_FFFF_FFFF_FFFF)
            by (bit_vector);
        lemma_single_bit_test(r);
    }
    r
}

/// Resource categories that can be measured during simulation, each one
/// owning one bit of a [`ResourceMask`].
#[derive(Debug, Clone, Copy, PartialEq, Eq)]
pub enum ResourceKind {
    CpuInstructions,
    ReadBytes,
    WriteBytes,
}

/// The flag bit of `kind`: `0b001`, `0b010` or `0b100`.
pub open spec fn kind_bit(kind: ResourceKind) -> u64 {
    match kind {
        ResourceKind::CpuInstructions => 1,
        ResourceKind::ReadBytes => 2,
        ResourceKind::WriteBytes => 4,
    }
}

/// The bits of every recognised resource kind.
pub const KNOWN_RESOURCE_BITS: u64 = 7;

impl ResourceKind {
    /// The flag bit of this kind.
    pub fn bits(self) -> (r: u64)
        ensures
            r == kind_bit(self),
    {
        match self {
            ResourceKind::CpuInstructions => 1,
            ResourceKind::ReadBytes => 2,
            ResourceKind::WriteBytes => 4,
        }
    }
}

/// A set of resource kinds, stored as a bitmask.
#[derive(Debug, Clone, Copy, PartialEq, Eq)]
pub struct ResourceMask(u64);

impl View for ResourceMask {
    type V = Set<ResourceKind>;

    /// The kinds whose bit is set.
    open spec fn view(&self) -> Set<ResourceKind> {
        Set::new(|k: ResourceKind| (self.raw() & kind_bit(k)) == kind_bit(k))
    }
}

proof fn lemma_bit_facts(x: u64)
    ensures
        (x | 1) & 1 == 1,
        (x | 2) & 2 == 2,
        (x | 4) & 4 == 4,
        ((x | 1) & 2 == 2) == (x & 2 == 2),
        ((x | 1) & 4 == 4) == (x & 4 == 4),
        ((x | 2) & 1 == 1) == (x & 1 == 1),
        ((x | 2) & 4 == 4) == (x & 4 == 4),
        ((x | 4) & 1 == 1) == (x & 1 == 1),
        ((x | 4) & 2 == 2) == (x & 2 == 2),
        (x & !1u64) & 1 == 0,
        (x & !2u64) & 2 == 0,
        (x & !4u64) & 4 == 0,
        ((x & !1u64) & 2 == 2) == (x & 2 == 2),
        ((x & !1u64) & 4 == 4) == (x & 4 == 4),
        ((x & !2u64) & 1 == 1) == (x & 1 == 1),
        ((x & !2u64) & 4 == 4) == (x & 4 == 4),
        ((x & !4u64) & 1 == 1) == (x & 1 == 1),
        ((x & !4u64) & 2 == 2) == (x & 2 == 2),
        ((x & 7) & 1 == 1) == (x & 1 == 1),
        ((x & 7) & 2 == 2) == (x & 2 == 2),
        ((x & 7) & 4 == 4) == (x & 4 == 4),
        (x & 7) & !7u64 == 0,
{
    assert((x | 1) & 1 == 1) by (bit_vector);
    assert((x | 2) & 2 == 2) by (bit_vector);
    assert((x | 4) & 4 == 4) by (bit_vector);
    assert(((x | 1) & 2 == 2) == (x & 2 == 2)) by (bit_vector);
    assert(((x | 1) & 4 == 4) == (x & 4 == 4)) by (bit_vector);
    assert(((x | 2) & 1 == 1) == (x & 1 == 1)) by (bit_vector);
    assert(((x | 2) & 4 == 4) == (x & 4 == 4)) by (bit_vector);
    assert(((x | 4) & 1 == 1) == (x & 1 == 1)) by (bit_vector);
    assert(((x | 4) & 2 == 2) == (x & 2 == 2)) by (bit_vector);
    assert((x & !1u64) & 1 == 0) by (bit_vector);
    assert((x & !2u64) & 2 == 0) by (bit_vector);
    assert((x & !4u64) & 4 == 0) by (bit_vector);
    assert(((x & !1u64) & 2 == 2) == (x & 2 == 2)) by (bit_vector);
    assert(((x & !1u64) & 4 == 4) == (x & 4 == 4)) by (bit_vector);
    assert(((x & !2u64) & 1 == 1) == (x & 1 == 1)) by (bit_vector);
    assert(((x & !2u64) & 4 == 4) == (x & 4 == 4)) by (bit_vector);
    assert(((x & !4u64) & 1 == 1) == (x & 1 == 1)) by (bit_vector);
    assert(((x & !4u64) & 2 == 2) == (x & 2 == 2)) by (bit_vector);
    assert(((x & 7) & 1 == 1) == (x & 1 == 1)) by (bit_vector);
    assert(((x & 7) & 2 == 2) == (x & 2 == 2)) by (bit_vector);
    assert(((x & 7) & 4 == 4) == (x & 4 == 4)) by (bit_vector);
    assert((x & 7) & !7u64 == 0) by (bit_vector);
}

impl ResourceMask {
    /// The empty resource set.
    pub fn none() -> (m: Self)
        ensures
            m.raw() == 0,
            m@ == Set::<ResourceKind>::empty(),
    {
        let m = ResourceMask(0);
        proof {
            assert(0u64 & 1 == 0 && 0u64 & 2 == 0 && 0u64 & 4 == 0) by (bit_vector);
            assert(m@ =~= Set::<ResourceKind>::empty());
        }
        m
    }

    /// The set of every resource kind.
    pub fn all() -> (m: Self)
        ensures
            m.raw() == KNOWN_RESOURCE_BITS,
            m@ == set![ResourceKind::CpuInstructions, ResourceKind::ReadBytes, ResourceKind::WriteBytes],
    {
        let m = ResourceMask(KNOWN_RESOURCE_BITS);
        proof {
            assert(7u64 & 1 == 1 && 7u64 & 2 == 2 && 7u64 & 4 == 4) by (bit_vector);
            assert(m@ =~= set![ResourceKind::CpuInstructions, ResourceKind::ReadBytes, ResourceKind::WriteBytes]);
        }
        m
    }

    /// The raw bitmask.
    pub closed spec fn raw(self) -> u64 {
        self.0
    }

    /// A mask containing only `kind`.
    pub fn from_kind(kind: ResourceKind) -> (m: Self)
        ensures
            m.raw() == kind_bit(kind),
            m@ == set![kind],
    {
        let m = ResourceMask(kind.bits());
        proof {
            assert(1u64 & 2 == 0 && 1u64 & 4 == 0 && 2u64 & 1 == 0 && 2u64 & 4 == 0 && 4u64 & 1
                == 0 && 4u64 & 2 == 0 && 1u64 & 1 == 1 && 2u64 & 2 == 2 && 4u64 & 4 == 4)
                by (bit_vector);
            assert(m@ =~= set![kind]);
        }
        m
    }

    /// Adds `kind` to the set, leaving the other bits unchanged.
    pub fn insert(&mut self, kind: ResourceKind)
        ensures
            final(self).raw() == old(self).raw() | kind_bit(kind),
            final(self)@ == old(self)@.insert(kind),
    {
        let ghost before = self.0;
        self.0 = self.0 | kind.bits();
        proof {
            lemma_bit_facts(before);
            assert(self@ =~= old(self)@.insert(kind));
        }
    }

    /// Removes `kind` from the set, leaving the other bits unchanged.
    pub fn remove(&mut self, kind: ResourceKind)
        ensures
            final(self).raw() == old(self).raw() & !kind_bit(kind),
            final(self)@ == old(self)@.remove(kind),
    {
        let ghost before = self.0;
        self.0 = self.0 & !kind.bits();
        proof {
            lemma_bit_facts(before);
            assert(self@ =~= old(self)@.remove(kind));
        }
    }

    /// Whether `kind`'s bit is set.
    pub fn contains(&self, kind: ResourceKind) -> (r: bool)
        ensures
            r == self@.contains(kind),
    {
        self.0 & kind.bits() == kind.bits()
    }

    /// The raw bitmask value.
    pub fn bits(&self) -> (r: u64)
        ensures
            r == self.raw(),
    {
        self.0
    }

    /// A mask from raw bits, with every bit that is not a known resource
    /// kind cleared.
    pub fn from_bits_truncate(raw: u64) -> (m: Self)
        ensures
            m.raw() == raw & KNOWN_RESOURCE_BITS,
            forall|k: ResourceKind| #[trigger] m@.contains(k) == ((raw & kind_bit(k)) == kind_bit(k)),
    {
        let m = ResourceMask(raw & KNOWN_RESOURCE_BITS);
        proof {
            lemma_bit_facts(raw);
        }
        m
    }
}

impl std::ops::BitOr for ResourceMask {
    type Output = ResourceMask;

    /// The union of two masks.
    fn bitor(self, rhs: ResourceMask) -> (r: ResourceMask) {
        ResourceMask(self.0 | rhs.0)
    }
}

impl vstd::std_specs::ops::BitOrSpecImpl for ResourceMask {
    open spec fn obeys_bitor_spec() -> bool {
        true
    }

    open spec fn bitor_req(self, rhs: ResourceMask) -> bool {
        true
    }

    closed spec fn bitor_spec(self, rhs: ResourceMask) -> ResourceMask {
        ResourceMask(self.0 | rhs.0)
    }
}

/// The mask `a | b` holds exactly the kinds of `a` and those of `b`.
pub proof fn law_mask_union(a: ResourceMask, b: ResourceMask)
    ensures
        a.bitor_spec(b).raw() == a.raw() | b.raw(),
        a.bitor_spec(b)@ == a@.union(b@),
{
    let x = a.0;
    let y = b.0;
    assert(((x | y) & 1 == 1) == ((x & 1 == 1) || (y & 1 == 1))) by (bit_vector);
    assert(((x | y) & 2 == 2) == ((x & 2 == 2) || (y & 2 == 2))) by (bit_vector);
    assert(((x | y) & 4 == 4) == ((x & 4 == 4) || (y & 4 == 4))) by (bit_vector);
    assert(a.bitor_spec(b)@ =~= a@.union(b@));
}

/// Lowest 21 bits.
pub const LOW_21: u64 = 0x1F_FFFF;

/// Lowest 22 bits.
pub const LOW_22: u64 = 0x3F_FFFF;

/// The packed layout: instructions in bits 0..21, read bytes in bits
/// 21..42 and write bytes in bits 42..64, each truncated to its width.
pub open spec fn packed_value(instructions: u32, read_bytes: u32, write_bytes: u32) -> u64 {
    ((instructions as u64) & LOW_21) | (((read_bytes as u64) & LOW_21) << 21u64) | (((
    write_bytes as u64) & LOW_22) << 42u64)
}

/// Packs three counters into one `u64`; each counter keeps only as many low
/// bits as its field holds (21, 21 and 22).
pub fn pack_resources(instructions: u32, read_bytes: u32, write_bytes: u32) -> (p: u64)
    ensures
        p == packed_value(instructions, read_bytes, write_bytes),
{
    ((instructions as u64) & LOW_21) | (((read_bytes as u64) & LOW_21) << 21) | (((
    write_bytes as u64) & LOW_22) << 42)
}

/// Splits a packed value back into its three fields.
pub fn unpack_resources(packed: u64) -> (r: (u32, u32, u32))
    ensures
        r.0 as u64 == packed & LOW_21,
        r.1 as u64 == (packed >> 21u64) & LOW_21,
        r.2 as u64 == (packed >> 42u64) & LOW_22,
{
    let i = packed & LOW_21;
    let rb = (packed >> 21) & LOW_21;
    let w = (packed >> 42) & LOW_22;
    proof {
        assert(packed & LOW_21 <= LOW_21) by (bit_vector);
        assert((packed >> 21u64) & LOW_21 <= LOW_21) by (bit_vector);
        assert((packed >> 42u64) & LOW_22 <= LOW_22) by (bit_vector);
    }
    (i as u32, rb as u32, w as u32)
}

/// Packing then unpacking gives back each counter truncated to its field
/// width; counters that fit their fields come back unchanged.
pub proof fn law_unpack_pack(instructions: u32, read_bytes: u32, write_bytes: u32)
    ensures
        ({
            let p = packed_value(instructions, read_bytes, write_bytes);
            &&& p & LOW_21 == (instructions as u64) & LOW_21
            &&& (p >> 21u64) & LOW_21 == (read_bytes as u64) & LOW_21
            &&& (p >> 42u64) & LOW_22 == (write_bytes as u64) & LOW_22
        }),
        instructions <= LOW_21 && read_bytes <= LOW_21 && write_bytes <= LOW_22 ==> ({
            let p = packed_value(instructions, read_bytes, write_bytes);
            &&& p & LOW_21 == instructions as u64
            &&& (p >> 21u64) & LOW_21 == read_bytes as u64
            &&& (p >> 42u64) & LOW_22 == write_bytes as u64
        }),
{
    let i = instructions as u64;
    let r = read_bytes as u64;
    let w = write_bytes as u64;
    assert(((i & 0x1F_FFFF) | ((r & 0x1F_FFFF) << 21u64) | ((w & 0x3F_FFFF) << 42u64)) & 0x1F_FFFF
        == i & 0x1F_FFFF) by (bit_vector);
    assert(((((i & 0x1F_FFFF) | ((r & 0x1F_FFFF) << 21u64) | ((w & 0x3F_FFFF) << 42u64)) >> 21u64)
        & 0x1F_FFFF) == r & 0x1F_FFFF) by (bit_vector);
    assert(((((i & 0x1F_FFFF) | ((r & 0x1F_FFFF) << 21u64) | ((w & 0x3F_FFFF) << 42u64)) >> 42u64)
        & 0x3F_FFFF) == w & 0x3F_FFFF) by (bit_vector);
    assert(i <= 0x1F_FFFF ==> i & 0x1F_FFFF == i) by (bit_vector);
    assert(r <= 0x1F_FFFF ==> r & 0x1F_FFFF == r) by (bit_vector);
    assert(w <= 0x3F_FFFF ==> w & 0x3F_FFFF == w) by (bit_vector);
}

/// Unpacking then packing gives back the packed value: the three fields
/// cover all 64 bits.
pub proof fn law_pack_unpack(packed: u64)
    ensures
        ({
            let i = (packed & LOW_21) as u32;
            let r = ((packed >> 21u64) & LOW_21) as u32;
            let w = ((packed >> 42u64) & LOW_22) as u32;
            packed_value(i, r, w) == packed
        }),
{
    assert(((((packed & 0x1F_FFFF) as u32) as u64) & 0x1F_FFFF) | ((((((packed >> 21u64)
        & 0x1F_FFFF) as u32) as u64) & 0x1F_FFFF) << 21u64) | ((((((packed >> 42u64) & 0x3F_FFFF)
        as u32) as u64) & 0x3F_FFFF) << 42u64) == packed) by (bit_vector);
}

/// Rounds `offset` up to the next multiple of `alignment` (a power of two).
/// When that multiple exceeds `u64::MAX` the result wraps to `0`.
pub fn align_up(offset: u64, alignment: u64) -> (r: u64)
    requires
        single_bit(alignment),
    ensures
        offset + alignment - 1 <= u64::MAX ==> {
            &&& r & ((alignment - 1) as u64) == 0
            &&& offset <= r
            &&& r - offset < alignment
        },
        offset + alignment - 1 > u64::MAX ==> r == 0,
{
    proof {
        lemma_single_bit_test(alignment);
    }
    let mask = alignment.wrapping_sub(1);
    let r = offset.wrapping_add(mask) & !mask;
    proof {
        assert(alignment > 0 && (alignment & ((alignment - 1) as u64)) == 0 ==> {
            let m = (alignment - 1) as u64;
            let q = ((offset + m) as u64) & !m;
            &&& (offset + m <= u64::MAX ==> (q & m == 0 && offset <= q && q - offset < alignment))
            &&& (offset + m > u64::MAX ==> ((offset + m - 0x1_0000_0000_0000_0000) as u64) & !m
                == 0)
        }) by (bit_vector);
    }
    r
}

} // verus!
