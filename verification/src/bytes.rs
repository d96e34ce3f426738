//! Little-endian byte layouts, stated arithmetically.

use vstd::prelude::*;

verus! {

/// The two bytes of `x`, low byte first.
pub open spec fn le16(x: u16) -> Seq<u8> {
    seq![(x % 256) as u8, (x / 256) as u8]
}

/// The four bytes of `x`, low byte first.
pub open spec fn le32(x: u32) -> Seq<u8> {
    seq![
        (x % 256) as u8,
        (x / 256 % 256) as u8,
        (x / 0x1_0000 % 256) as u8,
        (x / 0x100_0000) as u8,
    ]
}

/// The eight bytes of `x`, low byte first.
pub open spec fn le64(x: u64) -> Seq<u8> {
    le32((x % 0x1_0000_0000) as u32) + le32((x / 0x1_0000_0000) as u32)
}

/// The 16-bit value whose low byte is `s[at]`.
pub open spec fn from_le16(s: Seq<u8>, at: int) -> u16 {
    (s[at] + 256 * s[at + 1]) as u16
}

/// The 32-bit value whose low byte is `s[at]`.
pub open spec fn from_le32(s: Seq<u8>, at: int) -> u32 {
    (s[at] + 256 * s[at + 1] + 0x1_0000 * s[at + 2] + 0x100_0000 * s[at + 3]) as u32
}

/// The 64-bit value whose low byte is `s[at]`.
pub open spec fn from_le64(s: Seq<u8>, at: int) -> u64 {
    (from_le32(s, at) + 0x1_0000_0000 * from_le32(s, at + 4)) as u64
}

/// Two's complement reading of a displacement: the bits that a signed 32-bit
/// field holding `d` is made of.
pub open spec fn bits32(d: int) -> u32 {
    (d % 0x1_0000_0000) as u32
}

/// Append the bytes of `x`.
pub fn push_le16(out: &mut Vec<u8>, x: u16)
    ensures
        final(out)@ == old(out)@ + le16(x),
{
    out.push((x % 256) as u8);
    out.push((x / 256) as u8);
    assert(out@ =~= old(out)@ + le16(x));
}

/// Append the bytes of `x`.
pub fn push_le32(out: &mut Vec<u8>, x: u32)
    ensures
        final(out)@ == old(out)@ + le32(x),
{
    out.push((x % 256) as u8);
    out.push((x / 256 % 256) as u8);
    out.push((x / 0x1_0000 % 256) as u8);
    out.push((x / 0x100_0000) as u8);
    assert(out@ =~= old(out)@ + le32(x));
}

/// Append the bytes of `x`.
pub fn push_le64(out: &mut Vec<u8>, x: u64)
    ensures
        final(out)@ == old(out)@ + le64(x),
{
    push_le32(out, (x % 0x1_0000_0000) as u32);
    push_le32(out, (x / 0x1_0000_0000) as u32);
    assert(out@ =~= old(out)@ + le64(x));
}

/// Overwrite the four bytes at `at` with those of `x`.
pub fn put_le32(out: &mut Vec<u8>, at: usize, x: u32)
    requires
        at + 4 <= old(out).len(),
    ensures
        final(out)@ == splice(old(out)@, at as int, le32(x)),
{
    out[at] = (x % 256) as u8;
    out[at + 1] = (x / 256 % 256) as u8;
    out[at + 2] = (x / 0x1_0000 % 256) as u8;
    out[at + 3] = (x / 0x100_0000) as u8;
    assert(out@ =~= splice(old(out)@, at as int, le32(x)));
}

/// Append a slice of bytes.
pub fn push_all(out: &mut Vec<u8>, bytes: &[u8])
    ensures
        final(out)@ == old(out)@ + bytes@,
{
    out.extend_from_slice(bytes);
    assert(out@ =~= old(out)@ + bytes@);
}

/// Read the 16-bit value at `at`.
pub fn get_le16(s: &[u8], at: usize) -> (x: u16)
    requires
        at + 2 <= s.len(),
    ensures
        x == from_le16(s@, at as int),
{
    s[at] as u16 + 256 * (s[at + 1] as u16)
}

/// Read the 32-bit value at `at`.
pub fn get_le32(s: &[u8], at: usize) -> (x: u32)
    requires
        at + 4 <= s.len(),
    ensures
        x == from_le32(s@, at as int),
{
    s[at] as u32 + 256 * (s[at + 1] as u32) + 0x1_0000 * (s[at + 2] as u32) + 0x100_0000 * (s[at
        + 3] as u32)
}

/// Read the 64-bit value at `at`.
pub fn get_le64(s: &[u8], at: usize) -> (x: u64)
    requires
        at + 8 <= s.len(),
    ensures
        x == from_le64(s@, at as int),
{
    get_le32(s, at) as u64 + 0x1_0000_0000 * (get_le32(s, at + 4) as u64)
}

/// `s` with the bytes from `at` on replaced by `with`; the length stays.
pub open spec fn splice(s: Seq<u8>, at: int, with: Seq<u8>) -> Seq<u8> {
    s.subrange(0, at) + with + s.subrange(at + with.len(), s.len() as int)
}

/// Reading a 32-bit value and writing it back gives the bytes.
pub proof fn lemma_le32_reads_back(s: Seq<u8>, at: int)
    requires
        0 <= at,
        at + 4 <= s.len(),
    ensures
        le32(from_le32(s, at)) == s.subrange(at, at + 4),
{
    let (a, b, c, d) = (s[at] as int, s[at + 1] as int, s[at + 2] as int, s[at + 3] as int);
    let x = from_le32(s, at);
    assert(x == a + 256 * (b + 256 * (c + 256 * d)));
    assert(x / 256 == b + 256 * (c + 256 * d));
    assert(x / 0x1_0000 == c + 256 * d);
    assert(x / 0x100_0000 == d);
    assert(le32(x)[0] == a);
    assert(le32(x)[1] == b);
    assert(le32(x)[2] == c);
    assert(le32(x)[3] == d);
    assert(le32(x) =~= s.subrange(at, at + 4));
}

/// Writing a 16-bit value and reading it back gives the value.
pub proof fn lemma_le16_round_trip(s: Seq<u8>, at: int, x: u16)
    requires
        0 <= at,
        at + 2 <= s.len(),
        s.subrange(at, at + 2) == le16(x),
    ensures
        from_le16(s, at) == x,
{
    let w = s.subrange(at, at + 2);
    assert(w[0] == s[at]);
    assert(w[1] == s[at + 1]);
}

/// Writing a 32-bit value and reading it back gives the value.
pub proof fn lemma_le32_round_trip(s: Seq<u8>, at: int, x: u32)
    requires
        0 <= at,
        at + 4 <= s.len(),
        s.subrange(at, at + 4) == le32(x),
    ensures
        from_le32(s, at) == x,
{
    let w = s.subrange(at, at + 4);
    assert(w[0] == s[at]);
    assert(w[1] == s[at + 1]);
    assert(w[2] == s[at + 2]);
    assert(w[3] == s[at + 3]);
    assert(x / 0x100_0000 == x / 256 / 256 / 256);
    assert(x / 0x1_0000 == x / 256 / 256);
}

/// Writing a 64-bit value and reading it back gives the value.
pub proof fn lemma_le64_round_trip(s: Seq<u8>, at: int, x: u64)
    requires
        0 <= at,
        at + 8 <= s.len(),
        s.subrange(at, at + 8) == le64(x),
    ensures
        from_le64(s, at) == x,
{
    let w = s.subrange(at, at + 8);
    let lo = (x % 0x1_0000_0000) as u32;
    let hi = (x / 0x1_0000_0000) as u32;
    assert(s.subrange(at, at + 4) =~= w.subrange(0, 4));
    assert(s.subrange(at + 4, at + 8) =~= w.subrange(4, 8));
    assert(w.subrange(0, 4) =~= le32(lo));
    assert(w.subrange(4, 8) =~= le32(hi));
    lemma_le32_round_trip(s, at, lo);
    lemma_le32_round_trip(s, at + 4, hi);
}

} // verus!
