//! Byte-string helpers shared by the modules that build and compare messages.

use vstd::prelude::*;

verus! {

/// Append `bytes` to `out`.
pub fn append_bytes(out: &mut Vec<u8>, bytes: &[u8])
    ensures
        final(out)@ == old(out)@ + bytes@,
{
    let ghost start = out@;
    let mut index: usize = 0;
    while index < bytes.len()
        invariant
            index <= bytes@.len(),
            out@ == start + bytes@.subrange(0, index as int),
        decreases bytes@.len() - index,
    {
        out.push(bytes[index]);
        index = index + 1;
        assert(out@ =~= start + bytes@.subrange(0, index as int));
    }
    assert(bytes@.subrange(0, bytes@.len() as int) =~= bytes@);
}

/// Whether two byte strings are equal, stopping at the first difference.
pub fn same_bytes(left: &[u8], right: &[u8]) -> (equal: bool)
    ensures
        equal == (left@ == right@),
{
    if left.len() != right.len() {
        return false;
    }
    let mut index: usize = 0;
    while index < left.len()
        invariant
            left@.len() == right@.len(),
            index <= left@.len(),
            forall|i: int| 0 <= i < index ==> left@[i] == right@[i],
        decreases left@.len() - index,
    {
        if left[index] != right[index] {
            return false;
        }
        index = index + 1;
    }
    assert(left@ =~= right@);
    true
}

/// The eight little-endian bytes of `value`.
pub open spec fn le_bytes(value: u64) -> Seq<u8> {
    seq![
        (value & 0xFF) as u8,
        ((value >> 8) & 0xFF) as u8,
        ((value >> 16) & 0xFF) as u8,
        ((value >> 24) & 0xFF) as u8,
        ((value >> 32) & 0xFF) as u8,
        ((value >> 40) & 0xFF) as u8,
        ((value >> 48) & 0xFF) as u8,
        ((value >> 56) & 0xFF) as u8,
    ]
}

/// The eight little-endian bytes of `value`.
pub fn u64_to_le_bytes(value: u64) -> (bytes: [u8; 8])
    ensures
        bytes@ == le_bytes(value),
{
    let bytes = [
        (value & 0xFF) as u8,
        ((value >> 8) & 0xFF) as u8,
        ((value >> 16) & 0xFF) as u8,
        ((value >> 24) & 0xFF) as u8,
        ((value >> 32) & 0xFF) as u8,
        ((value >> 40) & 0xFF) as u8,
        ((value >> 48) & 0xFF) as u8,
        ((value >> 56) & 0xFF) as u8,
    ];
    assert(bytes@ =~= le_bytes(value));
    bytes
}

/// The value of eight little-endian bytes.
pub open spec fn le_value(bytes: Seq<u8>) -> u64 {
    (bytes[0] as u64) | ((bytes[1] as u64) << 8) | ((bytes[2] as u64) << 16) | ((bytes[3] as u64)
        << 24) | ((bytes[4] as u64) << 32) | ((bytes[5] as u64) << 40) | ((bytes[6] as u64) << 48)
        | ((bytes[7] as u64) << 56)
}

/// The `u64` held little-endian in `bytes[start..start + 8]`.
pub fn u64_from_le_bytes(bytes: &[u8], start: usize) -> (value: u64)
    requires
        start + 8 <= bytes@.len(),
    ensures
        value == le_value(bytes@.subrange(start as int, start + 8)),
{
    (bytes[start] as u64) | ((bytes[start + 1] as u64) << 8) | ((bytes[start + 2] as u64) << 16)
        | ((bytes[start + 3] as u64) << 24) | ((bytes[start + 4] as u64) << 32) | ((bytes[start
        + 5] as u64) << 40) | ((bytes[start + 6] as u64) << 48) | ((bytes[start + 7] as u64)
        << 56)
}

/// Law: writing a `u64` as eight little-endian bytes and reading them back
/// gives the same value, and the bytes run from least to most significant:
/// byte `i` is `value / 256^i mod 256`.
pub proof fn lemma_le_bytes_round_trip(value: u64)
    ensures
        le_value(le_bytes(value)) == value,
        le_bytes(value).len() == 8,
        le_bytes(value)[0] as int == value % 256,
        le_bytes(value)[1] as int == value / 0x100 % 256,
        le_bytes(value)[2] as int == value / 0x1_0000 % 256,
        le_bytes(value)[3] as int == value / 0x100_0000 % 256,
        le_bytes(value)[4] as int == value / 0x1_0000_0000 % 256,
        le_bytes(value)[5] as int == value / 0x100_0000_0000 % 256,
        le_bytes(value)[6] as int == value / 0x1_0000_0000_0000 % 256,
        le_bytes(value)[7] as int == value / 0x100_0000_0000_0000 % 256,
{
    let b = le_bytes(value);
    let (b0, b1, b2, b3, b4, b5, b6, b7) = (b[0], b[1], b[2], b[3], b[4], b[5], b[6], b[7]);
    assert(((b0 as u64) | ((b1 as u64) << 8) | ((b2 as u64) << 16) | ((b3 as u64) << 24) | ((b4
        as u64) << 32) | ((b5 as u64) << 40) | ((b6 as u64) << 48) | ((b7 as u64) << 56)) == value)
        by (bit_vector)
        requires
            b0 == (value & 0xFF) as u8,
            b1 == ((value >> 8) & 0xFF) as u8,
            b2 == ((value >> 16) & 0xFF) as u8,
            b3 == ((value >> 24) & 0xFF) as u8,
            b4 == ((value >> 32) & 0xFF) as u8,
            b5 == ((value >> 40) & 0xFF) as u8,
            b6 == ((value >> 48) & 0xFF) as u8,
            b7 == ((value >> 56) & 0xFF) as u8,
    ;
    assert({
        &&& (value & 0xFF) == value % 256
        &&& ((value >> 8) & 0xFF) == value / 0x100 % 256
        &&& ((value >> 16) & 0xFF) == value / 0x1_0000 % 256
        &&& ((value >> 24) & 0xFF) == value / 0x100_0000 % 256
        &&& ((value >> 32) & 0xFF) == value / 0x1_0000_0000 % 256
        &&& ((value >> 40) & 0xFF) == value / 0x100_0000_0000 % 256
        &&& ((value >> 48) & 0xFF) == value / 0x1_0000_0000_0000 % 256
        &&& ((value >> 56) & 0xFF) == value / 0x100_0000_0000_0000 % 256
    }) by (bit_vector);
}

/// Law: reading eight bytes as a little-endian `u64` and writing it back
/// gives the same bytes.
pub proof fn lemma_le_value_round_trip(bytes: Seq<u8>)
    requires
        bytes.len() == 8,
    ensures
        le_bytes(le_value(bytes)) == bytes,
{
    let v = le_value(bytes);
    let (b0, b1, b2, b3, b4, b5, b6, b7) = (
        bytes[0],
        bytes[1],
        bytes[2],
        bytes[3],
        bytes[4],
        bytes[5],
        bytes[6],
        bytes[7],
    );
    assert({
        &&& (v & 0xFF) as u8 == b0
        &&& ((v >> 8) & 0xFF) as u8 == b1
        &&& ((v >> 16) & 0xFF) as u8 == b2
        &&& ((v >> 24) & 0xFF) as u8 == b3
        &&& ((v >> 32) & 0xFF) as u8 == b4
        &&& ((v >> 40) & 0xFF) as u8 == b5
        &&& ((v >> 48) & 0xFF) as u8 == b6
        &&& ((v >> 56) & 0xFF) as u8 == b7
    }) by (bit_vector)
        requires
            v == (b0 as u64) | ((b1 as u64) << 8) | ((b2 as u64) << 16) | ((b3 as u64) << 24) | ((
            b4 as u64) << 32) | ((b5 as u64) << 40) | ((b6 as u64) << 48) | ((b7 as u64) << 56),
    ;
    assert(le_bytes(v) =~= bytes);
}

} // verus!
