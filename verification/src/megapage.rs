//! Rounding addresses to page boundaries.

use vstd::arithmetic::power2::pow2;
use vstd::prelude::*;

verus! {

/// The page size in use: an Sv39 megapage, 2 MiB.
pub const MEGAPAGE_SIZE: u64 = 0x20_0000;

/// `a` rounded down to a megapage boundary.
pub open spec fn page_floor(a: int) -> int {
    a / (MEGAPAGE_SIZE as int) * (MEGAPAGE_SIZE as int)
}

/// `a` rounded up to a megapage boundary.
pub open spec fn page_ceil(a: int) -> int {
    (a + MEGAPAGE_SIZE - 1) / (MEGAPAGE_SIZE as int) * (MEGAPAGE_SIZE as int)
}

/// Clearing the low bits of an address subtracts its remainder.
proof fn lemma_mask(addr: u64, align: u64, n: nat)
    requires
        n < 64,
        align == pow2(n),
    ensures
        addr & !((align - 1) as u64) == addr - addr % align,
{
    vstd::arithmetic::power2::lemma_pow2_pos(n);
    let mask = (align - 1) as u64;
    vstd::bits::lemma_u64_low_bits_mask_is_mod(addr, n);
    assert(addr & !mask == addr - (addr & mask)) by (bit_vector);
}

/// The megapage size is a power of two.
proof fn lemma_megapage_is_pow2()
    ensures
        MEGAPAGE_SIZE == pow2(21),
{
    vstd::arithmetic::power2::lemma2_to64();
}

/// Clears the bits of `addr` below `align`: for a power of two, the nearest
/// multiple of it at or below `addr`.
pub fn round_down(addr: u64, align: u64) -> (rounded: u64)
    requires
        align > 0,
    ensures
        rounded == addr & !((align - 1) as u64),
        forall|n: nat| n < 64 && align == #[trigger] pow2(n) ==> rounded == addr - addr % align,
        align == MEGAPAGE_SIZE ==> rounded == page_floor(addr as int),
{
    proof {
        assert forall|n: nat| n < 64 && align == #[trigger] pow2(n) implies addr & !((align
            - 1) as u64) == addr - addr % align by {
            lemma_mask(addr, align, n);
        }
        lemma_megapage_is_pow2();
    }
    addr & !(align - 1)
}

/// The nearest multiple of a power of two at or above `addr`.
pub fn round_up(addr: u64, align: u64) -> (rounded: u64)
    requires
        align > 0,
        addr + align - 1 <= u64::MAX,
    ensures
        rounded == ((addr + align - 1) as u64) & !((align - 1) as u64),
        forall|n: nat|
            n < 64 && align == #[trigger] pow2(n) ==> rounded == (addr + align - 1) - (addr + align
                - 1) % (align as int),
        align == MEGAPAGE_SIZE ==> rounded == page_ceil(addr as int),
{
    let top: u64 = (addr + (align - 1)) as u64;
    proof {
        assert forall|n: nat| n < 64 && align == #[trigger] pow2(n) implies top & !((align
            - 1) as u64) == top - top % align by {
            lemma_mask(top, align, n);
        }
        lemma_megapage_is_pow2();
    }
    top & !(align - 1)
}

} // verus!
