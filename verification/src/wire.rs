//! Little-endian fields of SMB2 messages.

use vstd::prelude::*;

verus! {

/// The 16-bit field at `at`.
pub open spec fn u16_at(bytes: Seq<u8>, at: int) -> int {
    bytes[at] + 256 * bytes[at + 1]
}

/// The 32-bit field at `at`.
pub open spec fn u32_at(bytes: Seq<u8>, at: int) -> int {
    u16_at(bytes, at) + 65536 * u16_at(bytes, at + 2)
}

/// A number as `len` little-endian bytes.
pub open spec fn le_bytes(value: nat, len: nat) -> Seq<u8>
    decreases len,
{
    if len == 0 {
        Seq::empty()
    } else {
        seq![(value % 256) as u8] + le_bytes(value / 256, (len - 1) as nat)
    }
}

/// That many zero bytes.
pub open spec fn zeros(len: nat) -> Seq<u8> {
    Seq::new(len, |i: int| 0u8)
}

/// A number has as many bytes as it was given.
pub proof fn lemma_le_bytes_len(value: nat, len: nat)
    ensures
        le_bytes(value, len).len() == len,
    decreases len,
{
    if len > 0 {
        lemma_le_bytes_len(value / 256, (len - 1) as nat);
    }
}

/// Two bytes hold any 16-bit number.
pub proof fn lemma_le_u16(value: nat)
    requires
        value <= u16::MAX,
    ensures
        le_bytes(value, 2).len() == 2,
        u16_at(le_bytes(value, 2), 0) == value,
{
    reveal_with_fuel(le_bytes, 3);
}

/// Four bytes hold any 32-bit number.
pub proof fn lemma_le_u32(value: nat)
    requires
        value <= u32::MAX,
    ensures
        le_bytes(value, 4).len() == 4,
        u32_at(le_bytes(value, 4), 0) == value,
{
    reveal_with_fuel(le_bytes, 5);
    let b = le_bytes(value, 4);
    assert(b[0] == value % 256);
    assert(b[1] == (value / 256) % 256);
    assert(b[2] == (value / 256 / 256) % 256);
    assert(b[3] == (value / 256 / 256 / 256) % 256);
}

/// The bytes of zero are zeros.
pub proof fn lemma_le_zero(len: nat)
    ensures
        le_bytes(0, len) == zeros(len),
    decreases len,
{
    if len > 0 {
        lemma_le_zero((len - 1) as nat);
    }
    assert(le_bytes(0, len) =~= zeros(len));
}

/// A field reads the same wherever the bytes around it come from.
pub proof fn lemma_u16_at_part(whole: Seq<u8>, part: Seq<u8>, start: int, at: int)
    requires
        0 <= start,
        0 <= at,
        at + 2 <= part.len(),
        start + part.len() <= whole.len(),
        whole.subrange(start, start + part.len()) == part,
    ensures
        u16_at(whole, start + at) == u16_at(part, at),
{
    assert(part[at] == whole[start + at]);
    assert(part[at + 1] == whole[start + at + 1]);
}

/// Reads a 16-bit field.
pub(crate) fn read_u16(bytes: &[u8], at: usize) -> (value: u16)
    requires
        at + 2 <= bytes@.len(),
    ensures
        value == u16_at(bytes@, at as int),
{
    bytes[at] as u16 + 256 * (bytes[at + 1] as u16)
}

/// Reads a 32-bit field.
pub(crate) fn read_u32(bytes: &[u8], at: usize) -> (value: u32)
    requires
        at + 4 <= bytes@.len(),
    ensures
        value == u32_at(bytes@, at as int),
{
    assert(bytes@.len() == bytes.len());
    read_u16(bytes, at) as u32 + 65536 * (read_u16(bytes, at + 2) as u32)
}

/// Copies out `len` bytes.
pub(crate) fn read_bytes(bytes: &[u8], at: usize, len: usize) -> (copy: Vec<u8>)
    requires
        at + len <= bytes@.len(),
    ensures
        copy@ == bytes@.subrange(at as int, at + len),
{
    assert(bytes@.len() == bytes.len());
    let mut copy: Vec<u8> = Vec::new();
    let mut i: usize = 0;
    while i < len
        invariant
            i <= len,
            at + len <= bytes@.len() <= usize::MAX,
            copy@ == bytes@.subrange(at as int, at + i),
        decreases len - i,
    {
        copy.push(bytes[at + i]);
        i = i + 1;
    }
    copy
}

/// Appends the `len` little-endian bytes of a number.
pub(crate) fn write_le(out: &mut Vec<u8>, value: u64, len: usize)
    ensures
        final(out)@ == old(out)@ + le_bytes(value as nat, len as nat),
{
    let mut rest: u64 = value;
    let mut left: usize = len;
    let ghost start = out@;
    while left > 0
        invariant
            left <= len,
            start + le_bytes(value as nat, len as nat) == out@ + le_bytes(rest as nat, left as nat),
        decreases left,
    {
        let ghost before = out@;
        let ghost whole = le_bytes(rest as nat, left as nat);
        out.push((rest % 256) as u8);
        rest = rest / 256;
        left = left - 1;
        proof {
            assert(before + whole =~= out@ + le_bytes(rest as nat, left as nat));
        }
    }
    proof {
        assert(out@ + le_bytes(rest as nat, 0) =~= out@);
    }
}

/// Appends bytes as they are.
pub(crate) fn write_bytes(out: &mut Vec<u8>, bytes: &[u8])
    ensures
        final(out)@ == old(out)@ + bytes@,
{
    let ghost start = out@;
    let mut i: usize = 0;
    while i < bytes.len()
        invariant
            i <= bytes@.len(),
            out@ == start + bytes@.take(i as int),
        decreases bytes@.len() - i,
    {
        out.push(bytes[i]);
        i = i + 1;
        proof {
            assert(out@ =~= start + bytes@.take(i as int));
        }
    }
    proof {
        assert(bytes@.take(i as int) =~= bytes@);
    }
}

/// Appends zero bytes.
pub(crate) fn write_zeros(out: &mut Vec<u8>, len: usize)
    ensures
        final(out)@ == old(out)@ + zeros(len as nat),
{
    let ghost start = out@;
    let mut i: usize = 0;
    while i < len
        invariant
            i <= len,
            out@ == start + zeros(i as nat),
        decreases len - i,
    {
        out.push(0);
        i = i + 1;
        proof {
            assert(out@ =~= start + zeros(i as nat));
        }
    }
}

} // verus!
