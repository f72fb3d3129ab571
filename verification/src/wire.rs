use vstd::prelude::*;

verus! {

/// The value of the four bytes `b0 b1 b2 b3` read as a big-endian unsigned integer.
pub open spec fn u32_from_be(b0: u8, b1: u8, b2: u8, b3: u8) -> u32 {
    (b0 as u32) << 24u32 | (b1 as u32) << 16u32 | (b2 as u32) << 8u32 | (b3 as u32)
}

/// The big-endian integer that starts at `pos` in `s`.
pub open spec fn be_u32_at(s: Seq<u8>, pos: int) -> u32 {
    u32_from_be(s[pos], s[pos + 1], s[pos + 2], s[pos + 3])
}

/// The four big-endian bytes of `x`.
pub open spec fn u32_be_bytes(x: u32) -> Seq<u8> {
    seq![(x >> 24u32) as u8, ((x >> 16u32) & 0xff) as u8, ((x >> 8u32) & 0xff) as u8, (x & 0xff) as u8]
}

/// The bytes of `buf` from `start` up to `end`, as a new vector.
pub fn copy_range(buf: &[u8], start: usize, end: usize) -> (bytes: Vec<u8>)
    requires
        start <= end <= buf@.len(),
    ensures
        bytes@ == buf@.subrange(start as int, end as int),
{
    let mut bytes: Vec<u8> = Vec::new();
    let mut i: usize = start;
    while i < end
        invariant
            start <= i <= end,
            end <= buf@.len(),
            bytes@ == buf@.subrange(start as int, i as int),
        decreases end - i,
    {
        bytes.push(buf[i]);
        i += 1;
        assert(bytes@ =~= buf@.subrange(start as int, i as int));
    }
    bytes
}

/// Reads the big-endian integer that starts at `pos` in `buf`.
pub fn read_u32_be(buf: &[u8], pos: usize) -> (x: u32)
    requires
        pos + 4 <= buf@.len(),
    ensures
        x == be_u32_at(buf@, pos as int),
        x == buf@[pos as int] * 0x100_0000 + buf@[pos + 1] * 0x1_0000 + buf@[pos + 2] * 0x100
            + buf@[pos + 3],
{
    proof {
        lemma_be_u32_at_value(buf@, pos as int);
    }
    let b0 = buf[pos];
    let b1 = buf[pos + 1];
    let b2 = buf[pos + 2];
    let b3 = buf[pos + 3];
    (b0 as u32) << 24u32 | (b1 as u32) << 16u32 | (b2 as u32) << 8u32 | (b3 as u32)
}

/// Appends the four big-endian bytes of `x` to `out`.
pub fn push_u32_be(out: &mut Vec<u8>, x: u32)
    ensures
        final(out)@ == old(out)@ + u32_be_bytes(x),
        final(out)@ == old(out)@ + seq![
            (x / 0x100_0000) as u8,
            ((x / 0x1_0000) % 0x100) as u8,
            ((x / 0x100) % 0x100) as u8,
            (x % 0x100) as u8,
        ],
{
    proof {
        lemma_u32_be_bytes_value(x);
    }
    out.push((x >> 24u32) as u8);
    out.push(((x >> 16u32) & 0xff) as u8);
    out.push(((x >> 8u32) & 0xff) as u8);
    out.push((x & 0xff) as u8);
    assert(out@ =~= old(out)@ + u32_be_bytes(x));
}

/// Reading back the four bytes that `u32_be_bytes` writes gives the number written.
pub proof fn lemma_u32_be_roundtrip(x: u32)
    ensures
        be_u32_at(u32_be_bytes(x), 0) == x,
{
    let b = u32_be_bytes(x);
    assert(u32_from_be(
        (x >> 24u32) as u8,
        ((x >> 16u32) & 0xff) as u8,
        ((x >> 8u32) & 0xff) as u8,
        (x & 0xff) as u8,
    ) == x) by (bit_vector);
}

/// Four bytes read as a big-endian integer have the value of base-256 digits, the
/// first byte the most significant: `[0, 0, 1, 0x29]` is 297.
pub proof fn lemma_u32_from_be_value(b0: u8, b1: u8, b2: u8, b3: u8)
    ensures
        u32_from_be(b0, b1, b2, b3) == b0 * 0x100_0000 + b1 * 0x1_0000 + b2 * 0x100 + b3,
{
    assert(u32_from_be(b0, b1, b2, b3) == b0 * 0x100_0000 + b1 * 0x1_0000 + b2 * 0x100 + b3)
        by (bit_vector);
}

/// The big-endian integer at `pos` is the base-256 value of the four bytes there.
pub proof fn lemma_be_u32_at_value(s: Seq<u8>, pos: int)
    requires
        0 <= pos,
        pos + 4 <= s.len(),
    ensures
        be_u32_at(s, pos) == s[pos] * 0x100_0000 + s[pos + 1] * 0x1_0000 + s[pos + 2] * 0x100
            + s[pos + 3],
{
    lemma_u32_from_be_value(s[pos], s[pos + 1], s[pos + 2], s[pos + 3]);
}

/// The four bytes written for `x` are its base-256 digits, most significant first:
/// 297 is written `[0, 0, 1, 0x29]`.
pub proof fn lemma_u32_be_bytes_value(x: u32)
    ensures
        u32_be_bytes(x) == seq![
            (x / 0x100_0000) as u8,
            ((x / 0x1_0000) % 0x100) as u8,
            ((x / 0x100) % 0x100) as u8,
            (x % 0x100) as u8,
        ],
{
    assert((x >> 24u32) as u8 == (x / 0x100_0000) as u8) by (bit_vector);
    assert(((x >> 16u32) & 0xff) as u8 == ((x / 0x1_0000) % 0x100) as u8) by (bit_vector);
    assert(((x >> 8u32) & 0xff) as u8 == ((x / 0x100) % 0x100) as u8) by (bit_vector);
    assert((x & 0xff) as u8 == (x % 0x100) as u8) by (bit_vector);
    assert(u32_be_bytes(x) =~= seq![
        (x / 0x100_0000) as u8,
        ((x / 0x1_0000) % 0x100) as u8,
        ((x / 0x100) % 0x100) as u8,
        (x % 0x100) as u8,
    ]);
}

} // verus!
