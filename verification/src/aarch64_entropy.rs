//! Where entropy comes from on a part that has no `RNDR`.
//!
//! iBoot leaves a fresh 64-byte seed in the device tree at
//! `/chosen/random-seed`. [`SeedQuality`] measures it, and [`derive`] runs it
//! through SHA-256 with a domain separator rather than slicing bytes out of
//! it, so that each consumer gets a value of its own and firmware bytes never
//! end up in a register as themselves.

use vstd::prelude::*;
use crate::bytes::{append_bytes, le_bytes, le_value, u64_from_le_bytes, u64_to_le_bytes};
use crate::digest::{sha256, sha256_digest};

verus! {

/// Bytes iBoot leaves at `/chosen/random-seed`.
pub const BOOT_SEED_BYTES: usize = 64;

/// Where the seed lies in the device tree: its offset from the tree's base,
/// and its length. `None` when the seed does not start inside the tree.
pub fn boot_seed_span(tree_base: usize, seed_start: usize, seed_len: usize) -> (span: Option<
    (usize, usize),
>)
    ensures
        span == (if seed_start >= tree_base {
            Some(((seed_start - tree_base) as usize, seed_len))
        } else {
            None::<(usize, usize)>
        }),
{
    match seed_start.checked_sub(tree_base) {
        Some(offset) => Some((offset, seed_len)),
        None => None,
    }
}

/// Number of non-zero bytes.
pub open spec fn nonzero_count(bytes: Seq<u8>) -> nat
    decreases bytes.len(),
{
    if bytes.len() == 0 {
        0
    } else {
        nonzero_count(bytes.drop_last()) + if bytes.last() != 0 {
            1nat
        } else {
            0nat
        }
    }
}

/// Number of byte values below `bound` that occur in `bytes`.
pub open spec fn present_below(bytes: Seq<u8>, bound: nat) -> nat
    decreases bound,
{
    if bound == 0 {
        0
    } else {
        present_below(bytes, (bound - 1) as nat) + if bytes.contains((bound - 1) as u8) {
            1nat
        } else {
            0nat
        }
    }
}

/// Number of distinct byte values in `bytes`.
pub open spec fn distinct_count(bytes: Seq<u8>) -> nat {
    present_below(bytes, 256)
}

proof fn lemma_present_push(bytes: Seq<u8>, byte: u8, bound: nat)
    requires
        bound <= 256,
    ensures
        present_below(bytes.push(byte), bound) == present_below(bytes, bound) + if byte < bound
            && !bytes.contains(byte) {
            1nat
        } else {
            0nat
        },
    decreases bound,
{
    if bound > 0 {
        lemma_present_push(bytes, byte, (bound - 1) as nat);
        let value = (bound - 1) as u8;
        assert(bytes.push(byte).contains(value) == (bytes.contains(value) || value == byte)) by {
            if bytes.push(byte).contains(value) {
                let k = choose|k: int| 0 <= k < bytes.push(byte).len() && bytes.push(byte)[k] == value;
                if k < bytes.len() {
                    assert(bytes[k] == value);
                }
            }
            if bytes.contains(value) {
                let k = choose|k: int| 0 <= k < bytes.len() && bytes[k] == value;
                assert(bytes.push(byte)[k] == value);
            }
            if value == byte {
                assert(bytes.push(byte)[bytes.len() as int] == byte);
            }
        }
    }
}

proof fn lemma_present_empty(bound: nat)
    ensures
        present_below(Seq::<u8>::empty(), bound) == 0,
    decreases bound,
{
    if bound > 0 {
        lemma_present_empty((bound - 1) as nat);
    }
}

proof fn lemma_present_bound(bytes: Seq<u8>, bound: nat)
    ensures
        present_below(bytes, bound) <= bound,
    decreases bound,
{
    if bound > 0 {
        lemma_present_bound(bytes, (bound - 1) as nat);
    }
}

/// Law: the measures of a seed count as it grows byte by byte: none of
/// either in no bytes; one more byte adds one non-zero byte exactly when
/// it is not zero, and one distinct value exactly when it has not occurred
/// before. So a seed has at most as many non-zero bytes as bytes, and at
/// most 256 distinct values.
pub proof fn lemma_seed_measures_count_bytes(bytes: Seq<u8>, byte: u8)
    ensures
        nonzero_count(Seq::<u8>::empty()) == 0,
        distinct_count(Seq::<u8>::empty()) == 0,
        nonzero_count(bytes.push(byte)) == nonzero_count(bytes) + if byte != 0 {
            1nat
        } else {
            0nat
        },
        distinct_count(bytes.push(byte)) == distinct_count(bytes) + if bytes.contains(byte) {
            0nat
        } else {
            1nat
        },
        nonzero_count(bytes) <= bytes.len(),
        distinct_count(bytes) <= 256,
{
    lemma_present_empty(256);
    lemma_present_push(bytes, byte, 256);
    lemma_present_bound(bytes, 256);
    assert(bytes.push(byte).drop_last() =~= bytes);
    lemma_nonzero_bound(bytes);
}

proof fn lemma_nonzero_bound(bytes: Seq<u8>)
    ensures
        nonzero_count(bytes) <= bytes.len(),
    decreases bytes.len(),
{
    if bytes.len() > 0 {
        lemma_nonzero_bound(bytes.drop_last());
    }
}

/// What the seed looks like, measured rather than trusted.
#[derive(Debug, Clone, Copy, PartialEq, Eq)]
pub struct SeedQuality {
    /// Length in bytes.
    pub len: usize,
    /// Bytes that are not zero.
    pub nonzero: usize,
    /// Distinct byte values.
    pub distinct: usize,
}

impl SeedQuality {
    /// Measure `seed`.
    pub fn of(seed: &[u8]) -> (quality: Self)
        ensures
            quality.len == seed@.len(),
            quality.nonzero == nonzero_count(seed@),
            quality.distinct == distinct_count(seed@),
    {
        let mut seen: Vec<bool> = Vec::new();
        let mut fill: usize = 0;
        while fill < 256
            invariant
                fill <= 256,
                seen@.len() == fill,
                forall|b: int| 0 <= b < fill ==> !seen@[b],
            decreases 256 - fill,
        {
            seen.push(false);
            fill = fill + 1;
        }
        let mut nonzero: usize = 0;
        let mut distinct: usize = 0;
        let mut index: usize = 0;
        proof {
            lemma_present_empty(256);
            assert(seed@.subrange(0, 0) =~= Seq::<u8>::empty());
        }
        while index < seed.len()
            invariant
                index <= seed@.len(),
                seen@.len() == 256,
                forall|b: int|
                    0 <= b < 256 ==> #[trigger] seen@[b] == seed@.subrange(0, index as int).contains(
                        b as u8,
                    ),
                nonzero == nonzero_count(seed@.subrange(0, index as int)),
                distinct == distinct_count(seed@.subrange(0, index as int)),
                nonzero <= index,
                distinct <= 256,
            decreases seed@.len() - index,
        {
            let byte = seed[index];
            let ghost before = seed@.subrange(0, index as int);
            let ghost after = seed@.subrange(0, index + 1);
            proof {
                assert(after =~= before.push(byte));
                assert(after.drop_last() =~= before);
                lemma_present_push(before, byte, 256);
                lemma_present_bound(after, 256);
                assert forall|b: int| 0 <= b < 256 implies #[trigger] after.contains(b as u8) == (
                before.contains(b as u8) || b as u8 == byte) by {
                    if after.contains(b as u8) {
                        let k = choose|k: int| 0 <= k < after.len() && after[k] == b as u8;
                        if k < before.len() {
                            assert(before[k] == b as u8);
                        }
                    }
                    if before.contains(b as u8) {
                        let k = choose|k: int| 0 <= k < before.len() && before[k] == b as u8;
                        assert(after[k] == b as u8);
                    }
                    if b as u8 == byte {
                        assert(after[before.len() as int] == byte);
                    }
                }
            }
            if byte != 0 {
                nonzero = nonzero + 1;
            }
            let slot = byte as usize;
            if !seen[slot] {
                seen.set(slot, true);
                distinct = distinct + 1;
            }
            index = index + 1;
        }
        assert(seed@.subrange(0, seed@.len() as int) =~= seed@);
        Self { len: seed.len(), nonzero, distinct }
    }

    /// Whether the seed is worth deriving keys from: at least 32 bytes, at
    /// least half of them non-zero, and at least 16 distinct values.
    pub fn usable(&self) -> (usable: bool)
        ensures
            usable == (self.len >= 32 && self.nonzero >= self.len / 2 && self.distinct >= 16),
    {
        self.len >= 32 && self.nonzero >= self.len / 2 && self.distinct >= 16
    }
}

/// The domain separator `BraiNIX/entropy/v1`.
pub open spec fn entropy_label() -> Seq<u8> {
    seq![66u8, 114, 97, 105, 78, 73, 88, 47, 101, 110, 116, 114, 111, 112, 121, 47, 118, 49]
}

/// What [`derive`] hashes: the label, then the domain and the seed, each
/// preceded by its length as eight little-endian bytes.
pub open spec fn derive_message(seed: Seq<u8>, domain: Seq<u8>) -> Seq<u8> {
    entropy_label() + le_bytes(domain.len() as u64) + domain + le_bytes(seed.len() as u64) + seed
}

/// 32 bytes for `domain`, derived from `seed` through SHA-256.
pub fn derive(seed: &[u8], domain: &[u8]) -> (key: [u8; 32])
    ensures
        key@ == sha256(derive_message(seed@, domain@)),
{
    let label = [66u8, 114, 97, 105, 78, 73, 88, 47, 101, 110, 116, 114, 111, 112, 121, 47, 118, 49];
    let mut message: Vec<u8> = Vec::new();
    append_bytes(&mut message, label.as_slice());
    let domain_len = u64_to_le_bytes(domain.len() as u64);
    append_bytes(&mut message, domain_len.as_slice());
    append_bytes(&mut message, domain);
    let seed_len = u64_to_le_bytes(seed.len() as u64);
    append_bytes(&mut message, seed_len.as_slice());
    append_bytes(&mut message, seed);
    assert(label@ =~= entropy_label());
    assert(message@ =~= derive_message(seed@, domain@));
    sha256_digest(message.as_slice())
}

/// Two `u64` keys for `domain`: the first sixteen bytes of [`derive`], each
/// half read little-endian.
pub fn derive_pair(seed: &[u8], domain: &[u8]) -> (pair: (u64, u64))
    ensures
        pair.0 == le_value(sha256(derive_message(seed@, domain@)).subrange(0, 8)),
        pair.1 == le_value(sha256(derive_message(seed@, domain@)).subrange(8, 16)),
{
    let bytes = derive(seed, domain);
    let low = u64_from_le_bytes(bytes.as_slice(), 0);
    let high = u64_from_le_bytes(bytes.as_slice(), 8);
    (low, high)
}

/// Law: what is hashed determines the seed and the domain it was derived
/// for, so two consumers with different domains never hash the same bytes.
pub proof fn lemma_derive_message_injective(
    seed: Seq<u8>,
    domain: Seq<u8>,
    other_seed: Seq<u8>,
    other_domain: Seq<u8>,
)
    requires
        seed.len() <= u64::MAX,
        domain.len() <= u64::MAX,
        other_seed.len() <= u64::MAX,
        other_domain.len() <= u64::MAX,
        derive_message(seed, domain) == derive_message(other_seed, other_domain),
    ensures
        seed == other_seed,
        domain == other_domain,
{
    let m = derive_message(seed, domain);
    let dl = domain.len() as u64;
    let odl = other_domain.len() as u64;
    assert(m.subrange(18, 26) =~= le_bytes(dl));
    assert(derive_message(other_seed, other_domain).subrange(18, 26) =~= le_bytes(odl));
    lemma_le_bytes_injective(dl, odl);
    let d = domain.len() as int;
    assert(m.subrange(26, 26 + d) =~= domain);
    assert(derive_message(other_seed, other_domain).subrange(26, 26 + d) =~= other_domain);
    let sl = seed.len() as u64;
    let osl = other_seed.len() as u64;
    assert(m.subrange(26 + d, 34 + d) =~= le_bytes(sl));
    assert(derive_message(other_seed, other_domain).subrange(26 + d, 34 + d) =~= le_bytes(osl));
    lemma_le_bytes_injective(sl, osl);
    assert(m.subrange(34 + d, m.len() as int) =~= seed);
    assert(derive_message(other_seed, other_domain).subrange(34 + d, m.len() as int)
        =~= other_seed);
}

/// Different values have different little-endian bytes.
proof fn lemma_le_bytes_injective(a: u64, b: u64)
    requires
        le_bytes(a) == le_bytes(b),
    ensures
        a == b,
{
    assert(le_bytes(a)[0] == le_bytes(b)[0]);
    assert(le_bytes(a)[1] == le_bytes(b)[1]);
    assert(le_bytes(a)[2] == le_bytes(b)[2]);
    assert(le_bytes(a)[3] == le_bytes(b)[3]);
    assert(le_bytes(a)[4] == le_bytes(b)[4]);
    assert(le_bytes(a)[5] == le_bytes(b)[5]);
    assert(le_bytes(a)[6] == le_bytes(b)[6]);
    assert(le_bytes(a)[7] == le_bytes(b)[7]);
    crate::bits::lemma_bytes_determine(a, b);
}

/// What was found at `/chosen/random-seed`, and whether it was erased.
#[derive(Debug, Clone, Copy, PartialEq, Eq)]
pub struct SeedReport {
    /// Whether a seed was found at all.
    pub present: bool,
    /// Its length.
    pub len: usize,
    /// Non-zero bytes in it.
    pub nonzero: usize,
    /// Distinct byte values in it.
    pub distinct: usize,
    /// Whether [`SeedQuality::usable`] accepted it.
    pub usable: bool,
    /// Its first eight bytes, big-endian, zero-padded, for the log.
    pub first_eight: u64,
    /// Whether it has been overwritten since.
    pub erased: bool,
}

/// The first eight bytes of `bytes`, zero-padded, read big-endian.
pub open spec fn first_eight_be(bytes: Seq<u8>) -> int {
    be_prefix(bytes, 8)
}

/// The first `count` bytes of `bytes`, zero-padded, read big-endian.
pub open spec fn be_prefix(bytes: Seq<u8>, count: nat) -> int
    decreases count,
{
    if count == 0 {
        0
    } else {
        let byte = if count - 1 < bytes.len() {
            bytes[count - 1] as int
        } else {
            0int
        };
        be_prefix(bytes, (count - 1) as nat) * 256 + byte
    }
}

/// `256^count`.
pub open spec fn power256(count: nat) -> nat
    decreases count,
{
    if count == 0 {
        1
    } else {
        256 * power256((count - 1) as nat)
    }
}

proof fn lemma_be_prefix_bound(bytes: Seq<u8>, count: nat)
    ensures
        0 <= be_prefix(bytes, count) < power256(count),
    decreases count,
{
    if count > 0 {
        lemma_be_prefix_bound(bytes, (count - 1) as nat);
        let p = power256((count - 1) as nat);
        let v = be_prefix(bytes, (count - 1) as nat);
        let byte = be_prefix(bytes, count) - v * 256;
        assert(0 <= byte < 256);
        assert(v * 256 + byte < 256 * p) by (nonlinear_arith)
            requires
                0 <= v < p,
                0 <= byte < 256,
        ;
        assert(0 <= v * 256) by (nonlinear_arith)
            requires
                0 <= v,
        ;
    }
}

/// Byte `i` of `bytes`, or zero past its end.
pub open spec fn byte_or_zero(bytes: Seq<u8>, i: int) -> int {
    if 0 <= i < bytes.len() {
        bytes[i] as int
    } else {
        0
    }
}

proof fn lemma_be_prefix_digits(bytes: Seq<u8>, count: nat, i: int)
    requires
        0 <= i < count,
    ensures
        be_prefix(bytes, count) / (power256((count - 1 - i) as nat) as int) % 256 == byte_or_zero(
            bytes,
            i,
        ),
    decreases count,
{
    let previous = be_prefix(bytes, (count - 1) as nat);
    let last = byte_or_zero(bytes, count - 1);
    lemma_be_prefix_bound(bytes, (count - 1) as nat);
    assert(be_prefix(bytes, count) == previous * 256 + last);
    assert(0 <= last < 256);
    vstd::arithmetic::div_mod::lemma_fundamental_div_mod_converse(
        previous * 256 + last,
        256,
        previous,
        last,
    );
    let value = previous * 256 + last;
    assert(value / 256 == previous && value % 256 == last);
    if i == count - 1 {
        assert(power256(0) == 1);
        assert(value / 1 == value);
    } else {
        let rest = (count - 2 - i) as nat;
        assert(power256((count - 1 - i) as nat) == 256 * power256(rest));
        lemma_power256_positive(rest);
        vstd::arithmetic::div_mod::lemma_div_denominator(value, 256, power256(rest) as int);
        assert(value / (power256((count - 1 - i) as nat) as int) == previous / (power256(rest) as int));
        lemma_be_prefix_digits(bytes, (count - 1) as nat, i);
        assert((count - 1 - 1 - i) as nat == rest);
    }
}

proof fn lemma_power256_positive(count: nat)
    ensures
        power256(count) > 0,
    decreases count,
{
    if count > 0 {
        lemma_power256_positive((count - 1) as nat);
    }
}

/// Law: the logged value of a seed is its first eight bytes read
/// big-endian, zero-padded: byte `i` of the seed (or zero past its end) is
/// digit `7 - i` of the value in base 256, so the first byte is the most
/// significant and the value fits in 64 bits.
pub proof fn lemma_first_eight_reads_big_endian(bytes: Seq<u8>, i: int)
    requires
        0 <= i < 8,
    ensures
        0 <= first_eight_be(bytes) < 0x1_0000_0000_0000_0000,
        first_eight_be(bytes) / (power256((7 - i) as nat) as int) % 256 == byte_or_zero(bytes, i),
{
    lemma_be_prefix_bound(bytes, 8);
    reveal_with_fuel(power256, 9);
    assert(power256(8) == 0x1_0000_0000_0000_0000);
    lemma_be_prefix_digits(bytes, 8, i);
}

proof fn lemma_power256_grows(small: nat, big: nat)
    requires
        small <= big,
    ensures
        power256(small) <= power256(big),
    decreases big,
{
    if small < big {
        lemma_power256_grows(small, (big - 1) as nat);
    }
}

impl SeedReport {
    /// The report when no seed was found.
    pub fn absent() -> (report: Self)
        ensures
            !report.present && report.len == 0 && report.nonzero == 0 && report.distinct == 0
                && !report.usable && report.first_eight == 0 && !report.erased,
    {
        SeedReport {
            present: false,
            len: 0,
            nonzero: 0,
            distinct: 0,
            usable: false,
            first_eight: 0,
            erased: false,
        }
    }

    /// The report for a seed that was found and not yet erased.
    pub fn of_seed(seed: &[u8]) -> (report: Self)
        ensures
            report.present,
            report.len == seed@.len(),
            report.nonzero == nonzero_count(seed@),
            report.distinct == distinct_count(seed@),
            report.usable == (seed@.len() >= 32 && nonzero_count(seed@) >= seed@.len() / 2
                && distinct_count(seed@) >= 16),
            report.first_eight == first_eight_be(seed@),
            !report.erased,
    {
        let quality = SeedQuality::of(seed);
        let mut first: u64 = 0;
        let mut count: usize = 0;
        while count < 8
            invariant
                count <= 8,
                first == be_prefix(seed@, count as nat),
            decreases 8 - count,
        {
            let byte: u64 = if count < seed.len() {
                seed[count] as u64
            } else {
                0
            };
            proof {
                lemma_be_prefix_bound(seed@, count as nat);
                lemma_power256_grows(count as nat, 7);
                assert(power256(7) == 0x100_0000_0000_0000) by {
                    reveal_with_fuel(power256, 8);
                }
            }
            first = first * 256 + byte;
            count = count + 1;
        }
        SeedReport {
            present: true,
            len: quality.len,
            nonzero: quality.nonzero,
            distinct: quality.distinct,
            usable: quality.usable(),
            first_eight: first,
            erased: false,
        }
    }
}

} // verus!
