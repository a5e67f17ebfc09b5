//! Big-endian integers in byte sequences.
use vstd::prelude::*;

verus! {

/// The two bytes of `v`, most significant first.
pub open spec fn be16(v: u16) -> Seq<u8> {
    seq![(v / 0x100) as u8, (v % 0x100) as u8]
}

/// The four bytes of `v`, most significant first.
pub open spec fn be32(v: u32) -> Seq<u8> {
    seq![
        (v / 0x100_0000) as u8,
        (v / 0x1_0000 % 0x100) as u8,
        (v / 0x100 % 0x100) as u8,
        (v % 0x100) as u8,
    ]
}

/// The eight bytes of `v`, most significant first.
pub open spec fn be64(v: u64) -> Seq<u8> {
    be32((v / 0x1_0000_0000) as u32) + be32((v % 0x1_0000_0000) as u32)
}

/// The integer whose big-endian bytes stand at `s[at..at + 2]`.
pub open spec fn be16_at(s: Seq<u8>, at: int) -> u16 {
    (s[at] * 0x100 + s[at + 1]) as u16
}

/// The integer whose big-endian bytes stand at `s[at..at + 4]`.
pub open spec fn be32_at(s: Seq<u8>, at: int) -> u32 {
    (s[at] * 0x100_0000 + s[at + 1] * 0x1_0000 + s[at + 2] * 0x100 + s[at + 3]) as u32
}

/// The integer whose big-endian bytes stand at `s[at..at + 8]`.
pub open spec fn be64_at(s: Seq<u8>, at: int) -> u64 {
    (be32_at(s, at) * 0x1_0000_0000 + be32_at(s, at + 4)) as u64
}

/// Reading back a written 16-bit integer gives the integer.
pub proof fn be16_round_trip(s: Seq<u8>, at: int, v: u16)
    requires
        0 <= at,
        at + 2 <= s.len(),
        s.subrange(at, at + 2) == be16(v),
    ensures
        be16_at(s, at) == v,
{
    let t = s.subrange(at, at + 2);
    assert(t[0] == s[at] && t[1] == s[at + 1]);
}

/// Reading back a written 32-bit integer gives the integer.
pub proof fn be32_round_trip(s: Seq<u8>, at: int, v: u32)
    requires
        0 <= at,
        at + 4 <= s.len(),
        s.subrange(at, at + 4) == be32(v),
    ensures
        be32_at(s, at) == v,
{
    let t = s.subrange(at, at + 4);
    assert(t[0] == s[at] && t[1] == s[at + 1] && t[2] == s[at + 2] && t[3] == s[at + 3]);
}

/// Reading back a written 64-bit integer gives the integer.
pub proof fn be64_round_trip(s: Seq<u8>, at: int, v: u64)
    requires
        0 <= at,
        at + 8 <= s.len(),
        s.subrange(at, at + 8) == be64(v),
    ensures
        be64_at(s, at) == v,
{
    let t = s.subrange(at, at + 8);
    assert(s.subrange(at, at + 4) =~= t.subrange(0, 4));
    assert(s.subrange(at + 4, at + 8) =~= t.subrange(4, 8));
    assert(t.subrange(0, 4) =~= be32((v / 0x1_0000_0000) as u32));
    assert(t.subrange(4, 8) =~= be32((v % 0x1_0000_0000) as u32));
    be32_round_trip(s, at, (v / 0x1_0000_0000) as u32);
    be32_round_trip(s, at + 4, (v % 0x1_0000_0000) as u32);
}

/// Integers are written with the most significant byte first.
pub proof fn written_integers_are_big_endian(a: u16, b: u32, c: u64)
    ensures
        be16(a).len() == 2,
        be16(a)[0] * 256 + be16(a)[1] == a,
        be32(b).len() == 4,
        ((be32(b)[0] * 256 + be32(b)[1]) * 256 + be32(b)[2]) * 256 + be32(b)[3] == b,
        be64(c).len() == 8,
        (((((((be64(c)[0] * 256 + be64(c)[1]) * 256 + be64(c)[2]) * 256 + be64(c)[3]) * 256 + be64(
            c,
        )[4]) * 256 + be64(c)[5]) * 256 + be64(c)[6]) * 256) + be64(c)[7] == c,
{
}

/// Integers are read with the most significant byte first.
pub proof fn read_integers_are_big_endian(s: Seq<u8>, at: int)
    requires
        0 <= at,
    ensures
        at + 2 <= s.len() ==> be16_at(s, at) == s[at] * 256 + s[at + 1],
        at + 4 <= s.len() ==> be32_at(s, at) == ((s[at] * 256 + s[at + 1]) * 256 + s[at + 2]) * 256
            + s[at + 3],
        at + 8 <= s.len() ==> be64_at(s, at) == be32_at(s, at) * 4294967296 + be32_at(s, at + 4),
{
}

/// Append the big-endian bytes of a 16-bit integer.
pub fn push_be16(out: &mut Vec<u8>, v: u16)
    ensures
        final(out)@ == old(out)@ + be16(v),
{
    out.push((v / 0x100) as u8);
    out.push((v % 0x100) as u8);
    assert(out@ =~= old(out)@ + be16(v));
}

/// Append the big-endian bytes of a 32-bit integer.
pub fn push_be32(out: &mut Vec<u8>, v: u32)
    ensures
        final(out)@ == old(out)@ + be32(v),
{
    out.push((v / 0x100_0000) as u8);
    out.push((v / 0x1_0000 % 0x100) as u8);
    out.push((v / 0x100 % 0x100) as u8);
    out.push((v % 0x100) as u8);
    assert(out@ =~= old(out)@ + be32(v));
}

/// Append the big-endian bytes of a 64-bit integer.
pub fn push_be64(out: &mut Vec<u8>, v: u64)
    ensures
        final(out)@ == old(out)@ + be64(v),
{
    push_be32(out, (v / 0x1_0000_0000) as u32);
    push_be32(out, (v % 0x1_0000_0000) as u32);
    assert(out@ =~= old(out)@ + be64(v));
}

/// Read the 16-bit integer at `at`.
pub fn read_be16(s: &[u8], at: usize) -> (v: u16)
    requires
        at + 2 <= s@.len(),
    ensures
        v == be16_at(s@, at as int),
{
    s[at] as u16 * 0x100 + s[at + 1] as u16
}

/// Read the 32-bit integer at `at`.
pub fn read_be32(s: &[u8], at: usize) -> (v: u32)
    requires
        at + 4 <= s@.len(),
    ensures
        v == be32_at(s@, at as int),
{
    s[at] as u32 * 0x100_0000 + s[at + 1] as u32 * 0x1_0000 + s[at + 2] as u32 * 0x100 + s[at
        + 3] as u32
}

/// Read the 64-bit integer at `at`.
pub fn read_be64(s: &[u8], at: usize) -> (v: u64)
    requires
        at + 8 <= s@.len(),
    ensures
        v == be64_at(s@, at as int),
{
    let end: usize = s.len();
    assert(at + 8 <= end);
    read_be32(s, at) as u64 * 0x1_0000_0000 + read_be32(s, at + 4) as u64
}

/// Append every byte of `more`.
pub fn push_all(out: &mut Vec<u8>, more: &[u8])
    ensures
        final(out)@ == old(out)@ + more@,
{
    let mut i: usize = 0;
    while i < more.len()
        invariant
            i <= more@.len(),
            out@ == old(out)@ + more@.subrange(0, i as int),
        decreases more@.len() - i,
    {
        out.push(more[i]);
        assert(more@.subrange(0, i + 1) =~= more@.subrange(0, i as int).push(more@[i as int]));
        i += 1;
    }
    assert(more@.subrange(0, i as int) =~= more@);
}

/// A vector with the bytes `s[from..to]`.
pub fn copy_range(s: &[u8], from: usize, to: usize) -> (v: Vec<u8>)
    requires
        from <= to <= s@.len(),
    ensures
        v@ == s@.subrange(from as int, to as int),
{
    let mut v: Vec<u8> = Vec::new();
    let mut i: usize = from;
    while i < to
        invariant
            from <= i <= to <= s@.len(),
            v@ == s@.subrange(from as int, i as int),
        decreases to - i,
    {
        v.push(s[i]);
        assert(s@.subrange(from as int, i + 1) =~= s@.subrange(from as int, i as int).push(
            s@[i as int],
        ));
        i += 1;
    }
    v
}

/// Whether the two byte strings are equal.
pub fn bytes_eq(a: &[u8], b: &[u8]) -> (r: bool)
    ensures
        r == (a@ == b@),
{
    if a.len() != b.len() {
        return false;
    }
    let mut i: usize = 0;
    while i < a.len()
        invariant
            i <= a@.len(),
            a@.len() == b@.len(),
            a@.subrange(0, i as int) == b@.subrange(0, i as int),
        decreases a@.len() - i,
    {
        if a[i] != b[i] {
            assert(a@[i as int] != b@[i as int]);
            return false;
        }
        assert(a@.subrange(0, i + 1) =~= a@.subrange(0, i as int).push(a@[i as int]));
        assert(b@.subrange(0, i + 1) =~= b@.subrange(0, i as int).push(b@[i as int]));
        i += 1;
    }
    assert(a@.subrange(0, i as int) =~= a@);
    assert(b@.subrange(0, i as int) =~= b@);
    true
}

} // verus!
