use vstd::prelude::*;

verus! {

/// A 32-bit word in network byte order.
pub open spec fn be32(x: u32) -> Seq<u8> {
    seq![(x >> 24u32) as u8, (x >> 16u32) as u8, (x >> 8u32) as u8, x as u8]
}

/// The low three octets of a 32-bit word in network byte order.
pub open spec fn be24(x: u32) -> Seq<u8> {
    seq![(x >> 16u32) as u8, (x >> 8u32) as u8, x as u8]
}

/// A 64-bit word in network byte order.
pub open spec fn be64(x: u64) -> Seq<u8> {
    be32((x >> 32u64) as u32) + be32(x as u32)
}

/// The 32-bit word held in network byte order at `b[i..i + 4]`.
pub open spec fn u32_at(b: Seq<u8>, i: int) -> u32 {
    ((b[i] as u32) << 24u32) | ((b[i + 1] as u32) << 16u32) | ((b[i + 2] as u32) << 8u32) | (
    b[i + 3] as u32)
}

/// The 24-bit word held in network byte order at `b[i..i + 3]`.
pub open spec fn u24_at(b: Seq<u8>, i: int) -> u32 {
    ((b[i] as u32) << 16u32) | ((b[i + 1] as u32) << 8u32) | (b[i + 2] as u32)
}

/// The 64-bit word held in network byte order at `b[i..i + 8]`.
pub open spec fn u64_at(b: Seq<u8>, i: int) -> u64 {
    ((u32_at(b, i) as u64) << 32u64) | (u32_at(b, i + 4) as u64)
}

/// Number of zero octets that bring `len` up to a multiple of four.
pub open spec fn padding_for(len: int) -> int {
    (4 - len % 4) % 4
}

pub open spec fn zeros(n: int) -> Seq<u8> {
    Seq::new(n as nat, |i: int| 0u8)
}

proof fn lemma_bytes_u32(a: u8, b: u8, c: u8, d: u8, x: u32)
    requires
        x == ((a as u32) << 24u32) | ((b as u32) << 16u32) | ((c as u32) << 8u32) | (d as u32),
    ensures
        (x >> 24u32) as u8 == a,
        (x >> 16u32) as u8 == b,
        (x >> 8u32) as u8 == c,
        x as u8 == d,
{
    assert((x >> 24u32) as u8 == a && (x >> 16u32) as u8 == b && (x >> 8u32) as u8 == c && x as u8
        == d) by (bit_vector)
        requires
            x == ((a as u32) << 24u32) | ((b as u32) << 16u32) | ((c as u32) << 8u32) | (d as u32),
    ;
}

/// Reading back a written word gives the word.
pub proof fn lemma_u32_round_trip(x: u32)
    ensures
        u32_at(be32(x), 0) == x,
{
    let b = be32(x);
    assert(((((x >> 24u32) as u8) as u32) << 24u32) | ((((x >> 16u32) as u8) as u32) << 16u32) | ((
    ((x >> 8u32) as u8) as u32) << 8u32) | ((x as u8) as u32) == x) by (bit_vector);
}

/// Writing a word read from four octets gives those octets back.
pub proof fn lemma_u32_bytes(b: Seq<u8>, i: int)
    requires
        0 <= i && i + 4 <= b.len(),
    ensures
        be32(u32_at(b, i)) == b.subrange(i, i + 4),
{
    lemma_bytes_u32(b[i], b[i + 1], b[i + 2], b[i + 3], u32_at(b, i));
    assert(be32(u32_at(b, i)) =~= b.subrange(i, i + 4));
}

/// Appends `x` in network byte order.
pub fn push_u32(buf: &mut Vec<u8>, x: u32)
    ensures
        final(buf)@ == old(buf)@ + be32(x),
{
    buf.push((x >> 24u32) as u8);
    buf.push((x >> 16u32) as u8);
    buf.push((x >> 8u32) as u8);
    buf.push(x as u8);
    assert(final(buf)@ =~= old(buf)@ + be32(x));
}

/// Reads the word held in network byte order at `b[i..i + 4]`.
pub fn read_u32(b: &[u8], i: usize) -> (r: u32)
    requires
        i + 4 <= b@.len(),
    ensures
        r == u32_at(b@, i as int),
{
    ((b[i] as u32) << 24u32) | ((b[i + 1] as u32) << 16u32) | ((b[i + 2] as u32) << 8u32) | (b[i
        + 3] as u32)
}


proof fn lemma_bytes_u24(a: u8, b: u8, c: u8, x: u32)
    requires
        x == ((a as u32) << 16u32) | ((b as u32) << 8u32) | (c as u32),
    ensures
        (x >> 16u32) as u8 == a,
        (x >> 8u32) as u8 == b,
        x as u8 == c,
        x < 0x100_0000,
{
    assert((x >> 16u32) as u8 == a && (x >> 8u32) as u8 == b && x as u8 == c && x < 0x100_0000)
        by (bit_vector)
        requires
            x == ((a as u32) << 16u32) | ((b as u32) << 8u32) | (c as u32),
    ;
}

/// A 24-bit word read back from its three octets.
pub proof fn lemma_u24_round_trip(x: u32)
    requires
        x < 0x100_0000,
    ensures
        u24_at(be24(x), 0) == x,
{
    assert(((((x >> 16u32) as u8) as u32) << 16u32) | ((((x >> 8u32) as u8) as u32) << 8u32) | ((
    x as u8) as u32) == x) by (bit_vector)
        requires
            x < 0x100_0000,
    ;
}

/// Three octets written back from the 24-bit word they hold.
pub proof fn lemma_u24_bytes(b: Seq<u8>, i: int)
    requires
        0 <= i && i + 3 <= b.len(),
    ensures
        be24(u24_at(b, i)) == b.subrange(i, i + 3),
        u24_at(b, i) < 0x100_0000,
{
    lemma_bytes_u24(b[i], b[i + 1], b[i + 2], u24_at(b, i));
    assert(be24(u24_at(b, i)) =~= b.subrange(i, i + 3));
}

proof fn lemma_u64_split(x: u64)
    ensures
        ((((x >> 32u64) as u32) as u64) << 32u64) | ((x as u32) as u64) == x,
{
    assert(((((x >> 32u64) as u32) as u64) << 32u64) | ((x as u32) as u64) == x) by (bit_vector);
}

proof fn lemma_u64_join(hi: u32, lo: u32)
    ensures
        ((((hi as u64) << 32u64) | (lo as u64)) >> 32u64) as u32 == hi,
        ((((hi as u64) << 32u64) | (lo as u64)) as u32) == lo,
{
    assert(((((hi as u64) << 32u64) | (lo as u64)) >> 32u64) as u32 == hi && ((((hi as u64)
        << 32u64) | (lo as u64)) as u32) == lo) by (bit_vector);
}

/// A 64-bit word read back from its eight octets.
pub proof fn lemma_u64_round_trip(x: u64)
    ensures
        u64_at(be64(x), 0) == x,
{
    let b = be64(x);
    lemma_u32_round_trip((x >> 32u64) as u32);
    lemma_u32_round_trip(x as u32);
    assert(b.subrange(0, 4) =~= be32((x >> 32u64) as u32));
    assert(b.subrange(4, 8) =~= be32(x as u32));
    assert(u32_at(b, 0) == u32_at(be32((x >> 32u64) as u32), 0));
    assert(u32_at(b, 4) == u32_at(be32(x as u32), 0));
    lemma_u64_split(x);
}

/// Eight octets written back from the 64-bit word they hold.
pub proof fn lemma_u64_bytes(b: Seq<u8>, i: int)
    requires
        0 <= i && i + 8 <= b.len(),
    ensures
        be64(u64_at(b, i)) == b.subrange(i, i + 8),
{
    lemma_u32_bytes(b, i);
    lemma_u32_bytes(b, i + 4);
    lemma_u64_join(u32_at(b, i), u32_at(b, i + 4));
    assert(be64(u64_at(b, i)) =~= b.subrange(i, i + 8));
}

/// Equal words have equal octets, and conversely.
pub proof fn lemma_be32_injective(x: u32, y: u32)
    requires
        be32(x) == be32(y),
    ensures
        x == y,
{
    lemma_u32_round_trip(x);
    lemma_u32_round_trip(y);
}

pub proof fn lemma_be64_injective(x: u64, y: u64)
    requires
        be64(x) == be64(y),
    ensures
        x == y,
{
    lemma_u64_round_trip(x);
    lemma_u64_round_trip(y);
}

/// Appends the low three octets of `x` in network byte order.
pub fn push_u24(buf: &mut Vec<u8>, x: u32)
    ensures
        final(buf)@ == old(buf)@ + be24(x),
{
    buf.push((x >> 16u32) as u8);
    buf.push((x >> 8u32) as u8);
    buf.push(x as u8);
    assert(buf@ =~= old(buf)@ + be24(x));
}

/// Appends `x` in network byte order.
pub fn push_u64(buf: &mut Vec<u8>, x: u64)
    ensures
        final(buf)@ == old(buf)@ + be64(x),
{
    push_u32(buf, (x >> 32u64) as u32);
    push_u32(buf, x as u32);
    assert(buf@ =~= old(buf)@ + be64(x));
}

/// Appends the octets of `src`.
pub fn push_bytes(buf: &mut Vec<u8>, src: &[u8])
    ensures
        final(buf)@ == old(buf)@ + src@,
{
    let mut i: usize = 0;
    while i < src.len()
        invariant
            i <= src@.len(),
            buf@ == old(buf)@ + src@.subrange(0, i as int),
        decreases src@.len() - i,
    {
        buf.push(src[i]);
        i = i + 1;
        assert(buf@ =~= old(buf)@ + src@.subrange(0, i as int));
    }
    assert(src@.subrange(0, i as int) =~= src@);
}

/// Appends `n` zero octets.
pub fn push_zeros(buf: &mut Vec<u8>, n: u32)
    ensures
        final(buf)@ == old(buf)@ + zeros(n as int),
{
    let mut i: u32 = 0;
    while i < n
        invariant
            i <= n,
            buf@ == old(buf)@ + zeros(i as int),
        decreases n - i,
    {
        buf.push(0u8);
        i = i + 1;
        assert(buf@ =~= old(buf)@ + zeros(i as int));
    }
}

/// The length of a slice fits in a `usize`.
pub fn slice_len_fits(b: &[u8])
    ensures
        b@.len() <= usize::MAX,
{
    let _ = b.len();
}

/// Reads the 24-bit word held in network byte order at `b[i..i + 3]`.
pub fn read_u24(b: &[u8], i: usize) -> (r: u32)
    requires
        i + 3 <= b@.len(),
    ensures
        r == u24_at(b@, i as int),
{
    ((b[i] as u32) << 16u32) | ((b[i + 1] as u32) << 8u32) | (b[i + 2] as u32)
}

/// Reads the 64-bit word held in network byte order at `b[i..i + 8]`.
pub fn read_u64(b: &[u8], i: usize) -> (r: u64)
    requires
        i + 8 <= b@.len(),
    ensures
        r == u64_at(b@, i as int),
{
    slice_len_fits(b);
    let hi = read_u32(b, i);
    let lo = read_u32(b, i + 4);
    ((hi as u64) << 32u64) | (lo as u64)
}

/// A copy of `b[start..start + len]`.
pub fn copy_range(b: &[u8], start: usize, len: usize) -> (r: Vec<u8>)
    requires
        start + len <= b@.len(),
    ensures
        r@ == b@.subrange(start as int, start + len),
{
    slice_len_fits(b);
    let mut v: Vec<u8> = Vec::new();
    let mut i: usize = 0;
    while i < len
        invariant
            i <= len,
            start + len <= b@.len() <= usize::MAX,
            v@ == b@.subrange(start as int, start + i),
        decreases len - i,
    {
        v.push(b[start + i]);
        i = i + 1;
        assert(v@ =~= b@.subrange(start as int, start + i));
    }
    v
}

/// Whether `b[start..start + len]` holds only zero octets.
pub fn all_zero(b: &[u8], start: usize, len: usize) -> (r: bool)
    requires
        start + len <= b@.len(),
    ensures
        r == (b@.subrange(start as int, start + len) == zeros(len as int)),
{
    slice_len_fits(b);
    let mut i: usize = 0;
    while i < len
        invariant
            i <= len,
            start + len <= b@.len() <= usize::MAX,
            b@.subrange(start as int, start + i) == zeros(i as int),
        decreases len - i,
    {
        if b[start + i] != 0 {
            assert(b@.subrange(start as int, start + len)[i as int] != zeros(len as int)[i as int]);
            return false;
        }
        i = i + 1;
        assert(b@.subrange(start as int, start + i) =~= zeros(i as int));
    }
    assert(b@.subrange(start as int, start + len) =~= zeros(len as int));
    true
}

/// Casting between a signed word and the unsigned word of the same width loses nothing.
pub proof fn lemma_i32_u32(x: i32, u: u32)
    ensures
        ((u as i32) as u32) == u,
        ((x as u32) as i32) == x,
{
    assert(((u as i32) as u32) == u) by (bit_vector);
    assert(((x as u32) as i32) == x) by (bit_vector);
}

pub proof fn lemma_i64_u64(x: i64, u: u64)
    ensures
        ((u as i64) as u64) == u,
        ((x as u64) as i64) == x,
{
    assert(((u as i64) as u64) == u) by (bit_vector);
    assert(((x as u64) as i64) == x) by (bit_vector);
}

} // verus!
