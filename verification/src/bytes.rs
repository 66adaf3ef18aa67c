//! Little-endian integers inside byte strings.

use vstd::prelude::*;

verus! {

/// The two bytes of `x`, least significant first.
pub open spec fn le16(x: u16) -> Seq<u8> {
    seq![(x % 256) as u8, (x / 256) as u8]
}

/// The four bytes of `x`, least significant first.
pub open spec fn le32(x: u32) -> Seq<u8> {
    seq![
        (x % 256) as u8,
        (x / 256 % 256) as u8,
        (x / 65536 % 256) as u8,
        (x / 16777216) as u8,
    ]
}

/// The eight bytes of `x`, least significant first.
pub open spec fn le64(x: u64) -> Seq<u8> {
    le32((x % 4294967296) as u32) + le32((x / 4294967296) as u32)
}

/// The number that the two bytes of `s` from index `at` on stand for.
pub open spec fn at16(s: Seq<u8>, at: int) -> u16 {
    (s[at] + 256 * s[at + 1]) as u16
}

/// The number that the four bytes of `s` from index `at` on stand for.
pub open spec fn at32(s: Seq<u8>, at: int) -> u32 {
    (s[at] + 256 * s[at + 1] + 65536 * s[at + 2] + 16777216 * s[at + 3]) as u32
}

/// The number that the eight bytes of `s` from index `at` on stand for.
pub open spec fn at64(s: Seq<u8>, at: int) -> u64 {
    (at32(s, at) + 4294967296 * at32(s, at + 4)) as u64
}

/// Reading two bytes gives back the number that was written there.
pub proof fn law_read_written_16(before: Seq<u8>, x: u16, after: Seq<u8>)
    ensures
        at16(before + le16(x) + after, before.len() as int) == x,
{
}

/// Reading four bytes gives back the number that was written there.
pub proof fn law_read_written_32(before: Seq<u8>, x: u32, after: Seq<u8>)
    ensures
        at32(before + le32(x) + after, before.len() as int) == x,
{
    let s = before + le32(x) + after;
    let n = before.len() as int;
    assert(s[n] == x % 256);
    assert(s[n + 1] == x / 256 % 256);
    assert(s[n + 2] == x / 65536 % 256);
    assert(s[n + 3] == x / 16777216);
}

/// Reading eight bytes gives back the number that was written there.
pub proof fn law_read_written_64(before: Seq<u8>, x: u64, after: Seq<u8>)
    ensures
        at64(before + le64(x) + after, before.len() as int) == x,
{
    let low = (x % 4294967296) as u32;
    let high = (x / 4294967296) as u32;
    let s = before + le64(x) + after;
    law_read_written_32(before, low, le32(high) + after);
    assert(before + le32(low) + (le32(high) + after) =~= s);
    law_read_written_32(before + le32(low), high, after);
    assert(before + le32(low) + le32(high) + after =~= s);
}

/// Appends the two bytes of `x`.
pub fn push16(out: &mut Vec<u8>, x: u16)
    ensures
        final(out)@ == old(out)@ + le16(x),
{
    out.push((x % 256) as u8);
    out.push((x / 256) as u8);
}

/// Appends the four bytes of `x`.
pub fn push32(out: &mut Vec<u8>, x: u32)
    ensures
        final(out)@ == old(out)@ + le32(x),
{
    out.push((x % 256) as u8);
    out.push((x / 256 % 256) as u8);
    out.push((x / 65536 % 256) as u8);
    out.push((x / 16777216) as u8);
}

/// Appends the eight bytes of `x`.
pub fn push64(out: &mut Vec<u8>, x: u64)
    ensures
        final(out)@ == old(out)@ + le64(x),
{
    push32(out, (x % 4294967296) as u32);
    push32(out, (x / 4294967296) as u32);
}

/// Reads two bytes of `data` from index `at` on.
pub fn read16(data: &[u8], at: usize) -> (x: u16)
    requires
        at + 2 <= data@.len(),
    ensures
        x == at16(data@, at as int),
{
    data[at] as u16 + 256 * data[at + 1] as u16
}

/// Reads four bytes of `data` from index `at` on.
pub fn read32(data: &[u8], at: usize) -> (x: u32)
    requires
        at + 4 <= data@.len(),
    ensures
        x == at32(data@, at as int),
{
    data[at] as u32 + 256 * data[at + 1] as u32 + 65536 * data[at + 2] as u32 + 16777216
        * data[at + 3] as u32
}

/// Reads eight bytes of `data` from index `at` on.
pub fn read64(data: &[u8], at: usize) -> (x: u64)
    requires
        at + 8 <= data@.len(),
    ensures
        x == at64(data@, at as int),
{
    assert(at + 8 <= data.len());
    let low: u32 = read32(data, at);
    let high: u32 = read32(data, at + 4);
    low as u64 + 4294967296 * high as u64
}

/// Copies the bytes of `data` in `from..to`.
pub fn copy_range(data: &[u8], from: usize, to: usize) -> (copy: Vec<u8>)
    requires
        from <= to <= data@.len(),
    ensures
        copy@ == data@.subrange(from as int, to as int),
{
    let mut copy: Vec<u8> = Vec::new();
    let mut i: usize = from;
    while i < to
        invariant
            from <= i <= to <= data@.len(),
            copy@ == data@.subrange(from as int, i as int),
        decreases to - i,
    {
        copy.push(data[i]);
        i += 1;
    }
    copy
}

/// Appends all bytes of `data`.
pub fn push_all(out: &mut Vec<u8>, data: &[u8])
    ensures
        final(out)@ == old(out)@ + data@,
{
    let mut i: usize = 0;
    while i < data.len()
        invariant
            i <= data@.len(),
            out@ == old(out)@ + data@.subrange(0, i as int),
        decreases data@.len() - i,
    {
        out.push(data[i]);
        i += 1;
    }
    assert(data@.subrange(0, data@.len() as int) =~= data@);
}

/// The least significant byte comes first: two bytes are worth the first and 256 times the second,
/// and so on for four and for eight.
pub proof fn law_least_significant_byte_is_first(a: u16, b: u32, c: u64)
    ensures
        le16(a).len() == 2,
        le16(a)[0] + 256 * le16(a)[1] == a,
        le32(b).len() == 4,
        le32(b)[0] + 256 * le32(b)[1] + 65536 * le32(b)[2] + 16777216 * le32(b)[3] == b,
        le64(c).len() == 8,
        le64(c)[0] == c % 256,
        le64(c)[7] == c / 0x100_0000_0000_0000,
{
}

} // verus!
