//! Bit-level facts the rest of the crate relies on, each proved once by the
//! bit-vector solver and used by name.

use vstd::prelude::*;

verus! {

/// Shifts by a `u32` amount, and the low-bit masks they make.
pub proof fn lemma_shift_facts(x: u64, n: u32)
    by (bit_vector)
    requires
        n < 64,
    ensures
        x >> n == x >> (n as u64),
        (1u64 << n) == (1u64 << (n as u64)),
        (1u64 << n) >= 1,
        x & (((1u64 << n) - 1) as u64) < (1u64 << n),
        n <= 60 ==> (1u64 << n) <= 0x1000_0000_0000_0000u64,
        x >> 0u64 == x,
{
}

/// Powers of two grow with the exponent.
pub proof fn lemma_shift_monotone(a: u32, b: u32)
    by (bit_vector)
    requires
        a <= b,
        b < 64,
    ensures
        (1u64 << a) <= (1u64 << b),
{
}

/// The constants of the translation granules and of the 48-bit output
/// address space.
pub proof fn lemma_constants()
    by (bit_vector)
    ensures
        (1u64 << 48u64) == 0x1_0000_0000_0000u64,
        (1u64 << 48u32) == 0x1_0000_0000_0000u64,
        (1u64 << 60u32) == 0x1000_0000_0000_0000u64,
        (1u64 << 9u32) == 512,
        (1u64 << 11u32) == 2048,
        (1u64 << 13u32) == 8192,
        (1u64 << 12u32) == 4096,
        (1u64 << 14u32) == 16384,
        (1u64 << 16u32) == 65536,
        (1u64 << 21u32) == 0x20_0000,
        (1u64 << 25u32) == 0x200_0000,
        (1u64 << 29u32) == 0x2000_0000,
        (1usize << 9u32) == 512,
        (1usize << 11u32) == 2048,
        (1usize << 13u32) == 8192,
        ((1u64 << 48u64) - 1) as u64 & !(((1u64 << 12u32) - 1) as u64) == 0xFFFF_FFFF_F000u64,
        ((1u64 << 48u64) - 1) as u64 & !(((1u64 << 14u32) - 1) as u64) == 0xFFFF_FFFF_C000u64,
        ((1u64 << 48u64) - 1) as u64 & !(((1u64 << 16u32) - 1) as u64) == 0xFFFF_FFFF_0000u64,
        3u64 & 0xFFFF_FFFF_F000u64 == 0,
        3u64 & 0xFFFF_FFFF_C000u64 == 0,
        3u64 & 0xFFFF_FFFF_0000u64 == 0,
        0u64 & 3 == 0,
{
}

/// A value with no bits outside `m`, tagged with low bits that `m` does not
/// cover: the tag adds, masking recovers the value, and the low bits are the
/// tag.
pub proof fn lemma_tagged(a: u64, m: u64, low: u64)
    by (bit_vector)
    requires
        a & m == a,
        low <= 3,
        3u64 & m == 0,
    ensures
        a | low == a + low,
        (a | low) & m == a,
        (a | low) & 3 == low,
{
}

/// Below `2^48` and clear in `low`, `a` is kept by the 48-bit mask that
/// clears `low`.
pub proof fn lemma_under_mask(a: u64, low: u64)
    by (bit_vector)
    requires
        a < 0x1_0000_0000_0000u64,
        a & low == 0,
    ensures
        a & (0xFFFF_FFFF_FFFFu64 & !low) == a,
{
}

/// Equal above bit `s` and equal in the `s` bits below it is equal.
pub proof fn lemma_split_at(p: u64, q: u64, s: u32)
    by (bit_vector)
    requires
        s < 64,
    ensures
        ((p >> s) == (q >> s) && p & (((1u64 << s) - 1) as u64) == q & (((1u64 << s) - 1) as u64))
            == (p == q),
{
}

/// Below `2^input`, the bits above `shift` fit in `input - shift` bits.
pub proof fn lemma_high_bits_fit(u: u64, shift: u32, input: u32, width: u32)
    by (bit_vector)
    requires
        shift <= input <= 48,
        width == input - shift,
        u < (1u64 << input),
    ensures
        (u >> shift) & (((1u64 << width) - 1) as u64) == u >> shift,
{
}

/// A field masked out of a word is no larger than its mask.
pub proof fn lemma_and_bound(x: u64, m: u64)
    by (bit_vector)
    ensures
        x & m <= m,
        x & m <= x,
{
}

/// The kind bits of a leaf descriptor: the kind the builder writes, when the
/// attributes leave bits [1:0] clear.
pub proof fn lemma_leaf_kind(pa: u64, m: u64, attributes: u64)
    by (bit_vector)
    ensures
        attributes & 3 == 0 && 3u64 & m == 0 ==> ((pa & m) | attributes | 1u64) & 3 == 1,
        ((pa & m) | attributes | 3u64) & 3 == 3,
{
}

/// A remainder by a power of two is the low bits.
pub proof fn lemma_mod_is_mask(a: u64, n: u32)
    requires
        n < 64,
    ensures
        a % (1u64 << n) == a & (((1u64 << n) - 1) as u64),
{
    lemma_shift_facts(a, n);
    vstd::bits::lemma_u64_pow2_no_overflow(n as nat);
    vstd::bits::lemma_u64_shl_is_mul(1, n as u64);
    vstd::bits::lemma_u64_low_bits_mask_is_mod(a, n as nat);
}

/// The output address of a descriptor built from an address that fits the
/// mask, attributes clear of it, and a kind in bits [1:0].
pub proof fn lemma_descriptor_address(a: u64, attributes: u64, kind: u64, m: u64)
    by (bit_vector)
    requires
        a & m == a,
        attributes & m == 0,
        3u64 & m == 0,
        kind <= 3,
    ensures
        ((a & m) | attributes | kind) & m == a,
{
}

/// An address clear in its low `n` bits: an offset below `2^n` adds, and
/// clearing the low bits keeps it.
pub proof fn lemma_low_clear(a: u64, r: u64, n: u32)
    by (bit_vector)
    requires
        n < 64,
        a & (((1u64 << n) - 1) as u64) == 0,
        r < (1u64 << n),
    ensures
        a | r == a + r,
        a & !(((1u64 << n) - 1) as u64) == a,
{
}

/// A `u64` is determined by its eight bytes.
pub proof fn lemma_bytes_determine(a: u64, b: u64)
    by (bit_vector)
    requires
        (a & 0xFF) as u8 == (b & 0xFF) as u8,
        ((a >> 8) & 0xFF) as u8 == ((b >> 8) & 0xFF) as u8,
        ((a >> 16) & 0xFF) as u8 == ((b >> 16) & 0xFF) as u8,
        ((a >> 24) & 0xFF) as u8 == ((b >> 24) & 0xFF) as u8,
        ((a >> 32) & 0xFF) as u8 == ((b >> 32) & 0xFF) as u8,
        ((a >> 40) & 0xFF) as u8 == ((b >> 40) & 0xFF) as u8,
        ((a >> 48) & 0xFF) as u8 == ((b >> 48) & 0xFF) as u8,
        ((a >> 56) & 0xFF) as u8 == ((b >> 56) & 0xFF) as u8,
    ensures
        a == b,
{
}

} // verus!
