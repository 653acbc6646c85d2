//! Fixed-width integers as byte sequences, and small helpers on byte buffers.

use vstd::prelude::*;

verus! {

/// The 16-bit big-endian integer at offset `i`.
pub open spec fn be16(s: Seq<u8>, i: int) -> u16 {
    (s[i] * 256 + s[i + 1]) as u16
}

/// The 32-bit big-endian integer at offset `i`.
pub open spec fn be32(s: Seq<u8>, i: int) -> u32 {
    (s[i] * 0x100_0000 + s[i + 1] * 0x1_0000 + s[i + 2] * 0x100 + s[i + 3]) as u32
}

/// The two big-endian bytes of `x`.
pub open spec fn be16_bytes(x: u16) -> Seq<u8> {
    seq![(x / 256) as u8, (x % 256) as u8]
}

/// The four big-endian bytes of `x`.
pub open spec fn be32_bytes(x: u32) -> Seq<u8> {
    seq![
        (x / 0x100_0000) as u8,
        (x / 0x1_0000 % 256) as u8,
        (x / 0x100 % 256) as u8,
        (x % 256) as u8,
    ]
}

/// The 16-bit little-endian integer at offset `i`.
pub open spec fn le16(s: Seq<u8>, i: int) -> u16 {
    (s[i] + s[i + 1] * 256) as u16
}

/// The 32-bit little-endian integer at offset `i`.
pub open spec fn le32(s: Seq<u8>, i: int) -> u32 {
    (s[i] + s[i + 1] * 0x100 + s[i + 2] * 0x1_0000 + s[i + 3] * 0x100_0000) as u32
}

/// The 64-bit little-endian integer at offset `i`.
pub open spec fn le64(s: Seq<u8>, i: int) -> u64 {
    (le32(s, i) + le32(s, i + 4) * 0x1_0000_0000) as u64
}

/// The two little-endian bytes of `x`.
pub open spec fn le16_bytes(x: u16) -> Seq<u8> {
    seq![(x % 256) as u8, (x / 256) as u8]
}

/// The four little-endian bytes of `x`.
pub open spec fn le32_bytes(x: u32) -> Seq<u8> {
    seq![
        (x % 256) as u8,
        (x / 0x100 % 256) as u8,
        (x / 0x1_0000 % 256) as u8,
        (x / 0x100_0000) as u8,
    ]
}

/// The eight little-endian bytes of `x`.
pub open spec fn le64_bytes(x: u64) -> Seq<u8> {
    le32_bytes((x % 0x1_0000_0000) as u32) + le32_bytes((x / 0x1_0000_0000) as u32)
}

/// The UTF-8 bytes of `s`.
pub open spec fn str_bytes(s: &str) -> Seq<u8> {
    vstd::utf8::encode_utf8(s@)
}

/// `n` zero bytes.
pub open spec fn zeros(n: nat) -> Seq<u8> {
    Seq::new(n, |i: int| 0u8)
}

/// Writing a 16-bit integer big-endian and reading it back gives the same integer.
pub proof fn be16_round_trip(x: u16)
    ensures
        be16(be16_bytes(x), 0) == x,
{
}

/// Writing a 32-bit integer big-endian and reading it back gives the same integer.
pub proof fn be32_round_trip(x: u32)
    ensures
        be32(be32_bytes(x), 0) == x,
{
}

/// Reading four bytes big-endian and writing the integer back gives the same bytes.
pub proof fn be32_unique(s: Seq<u8>)
    requires
        s.len() == 4,
    ensures
        be32_bytes(be32(s, 0)) == s,
{
    let x = s[0] * 0x100_0000 + s[1] * 0x1_0000 + s[2] * 0x100 + s[3];
    assert(x / 0x100_0000 == s[0] && x / 0x1_0000 == s[0] * 256 + s[1] && x / 0x100 == s[0]
        * 0x1_0000 + s[1] * 256 + s[2]);
    assert(be32(s, 0) == x);
    assert(be32_bytes(be32(s, 0)) =~= s);
}

/// Writing a 64-bit integer little-endian and reading it back gives the same integer.
pub proof fn le64_round_trip(x: u64)
    ensures
        le64(le64_bytes(x), 0) == x,
{
}

/// Reads the 16-bit big-endian integer at `i`.
pub fn read_be16(buf: &[u8], i: usize) -> (x: u16)
    requires
        i + 2 <= buf@.len(),
    ensures
        x == be16(buf@, i as int),
{
    buf[i] as u16 * 256 + buf[i + 1] as u16
}

/// Reads the 32-bit big-endian integer at `i`.
pub fn read_be32(buf: &[u8], i: usize) -> (x: u32)
    requires
        i + 4 <= buf@.len(),
    ensures
        x == be32(buf@, i as int),
{
    buf[i] as u32 * 0x100_0000 + buf[i + 1] as u32 * 0x1_0000 + buf[i + 2] as u32 * 0x100
        + buf[i + 3] as u32
}

/// Reads the 16-bit little-endian integer at `i`.
pub fn read_le16(buf: &[u8], i: usize) -> (x: u16)
    requires
        i + 2 <= buf@.len(),
    ensures
        x == le16(buf@, i as int),
{
    buf[i] as u16 + buf[i + 1] as u16 * 256
}

/// Reads the 32-bit little-endian integer at `i`.
pub fn read_le32(buf: &[u8], i: usize) -> (x: u32)
    requires
        i + 4 <= buf@.len(),
    ensures
        x == le32(buf@, i as int),
{
    buf[i] as u32 + buf[i + 1] as u32 * 0x100 + buf[i + 2] as u32 * 0x1_0000 + buf[i + 3] as u32
        * 0x100_0000
}

/// Reads the 64-bit little-endian integer at `i`.
pub fn read_le64(buf: &[u8], i: usize) -> (x: u64)
    requires
        i + 8 <= buf@.len(),
    ensures
        x == le64(buf@, i as int),
{
    assert(i + 8 <= buf.len());
    read_le32(buf, i) as u64 + read_le32(buf, i + 4) as u64 * 0x1_0000_0000
}

/// Appends `data` to `out`.
pub fn append(out: &mut Vec<u8>, data: &[u8])
    ensures
        final(out)@ == old(out)@ + data@,
{
    out.extend_from_slice(data);
    assert(out@ =~= old(out)@ + data@);
}

/// Appends the two big-endian bytes of `x`.
pub fn append_be16(out: &mut Vec<u8>, x: u16)
    ensures
        final(out)@ == old(out)@ + be16_bytes(x),
{
    out.push((x / 256) as u8);
    out.push((x % 256) as u8);
    assert(out@ =~= old(out)@ + be16_bytes(x));
}

/// Appends the four big-endian bytes of `x`.
pub fn append_be32(out: &mut Vec<u8>, x: u32)
    ensures
        final(out)@ == old(out)@ + be32_bytes(x),
{
    out.push((x / 0x100_0000) as u8);
    out.push((x / 0x1_0000 % 256) as u8);
    out.push((x / 0x100 % 256) as u8);
    out.push((x % 256) as u8);
    assert(out@ =~= old(out)@ + be32_bytes(x));
}

/// Appends the two little-endian bytes of `x`.
pub fn append_le16(out: &mut Vec<u8>, x: u16)
    ensures
        final(out)@ == old(out)@ + le16_bytes(x),
{
    out.push((x % 256) as u8);
    out.push((x / 256) as u8);
    assert(out@ =~= old(out)@ + le16_bytes(x));
}

/// Appends the four little-endian bytes of `x`.
pub fn append_le32(out: &mut Vec<u8>, x: u32)
    ensures
        final(out)@ == old(out)@ + le32_bytes(x),
{
    out.push((x % 256) as u8);
    out.push((x / 0x100 % 256) as u8);
    out.push((x / 0x1_0000 % 256) as u8);
    out.push((x / 0x100_0000) as u8);
    assert(out@ =~= old(out)@ + le32_bytes(x));
}

/// Appends the eight little-endian bytes of `x`.
pub fn append_le64(out: &mut Vec<u8>, x: u64)
    ensures
        final(out)@ == old(out)@ + le64_bytes(x),
{
    append_le32(out, (x % 0x1_0000_0000) as u32);
    append_le32(out, (x / 0x1_0000_0000) as u32);
    assert(out@ =~= old(out)@ + le64_bytes(x));
}

/// Appends `n` zero bytes.
pub fn append_zeros(out: &mut Vec<u8>, n: usize)
    ensures
        final(out)@ == old(out)@ + zeros(n as nat),
{
    let mut i: usize = 0;
    while i < n
        invariant
            i <= n,
            out@ == old(out)@ + zeros(i as nat),
        decreases n - i,
    {
        out.push(0);
        i = i + 1;
        assert(out@ =~= old(out)@ + zeros(i as nat));
    }
}

/// A copy of `data` in a vector.
pub fn to_vec(data: &[u8]) -> (out: Vec<u8>)
    ensures
        out@ == data@,
{
    let mut out: Vec<u8> = Vec::new();
    append(&mut out, data);
    assert(out@ =~= data@);
    out
}

/// The first four bytes from offset `i`.
pub fn read_array4(buf: &[u8], i: usize) -> (out: [u8; 4])
    requires
        i + 4 <= buf@.len(),
    ensures
        out@ == buf@.subrange(i as int, i + 4),
{
    let out: [u8; 4] = [buf[i], buf[i + 1], buf[i + 2], buf[i + 3]];
    assert(out@ =~= buf@.subrange(i as int, i + 4));
    out
}

/// The first six bytes from offset `i`.
pub fn read_array6(buf: &[u8], i: usize) -> (out: [u8; 6])
    requires
        i + 6 <= buf@.len(),
    ensures
        out@ == buf@.subrange(i as int, i + 6),
{
    let out: [u8; 6] = [buf[i], buf[i + 1], buf[i + 2], buf[i + 3], buf[i + 4], buf[i + 5]];
    assert(out@ =~= buf@.subrange(i as int, i + 6));
    out
}

/// Whether two byte slices hold the same bytes.
pub fn same_bytes(a: &[u8], b: &[u8]) -> (same: bool)
    ensures
        same == (a@ == b@),
{
    if a.len() != b.len() {
        return false;
    }
    let mut i: usize = 0;
    while i < a.len()
        invariant
            i <= a@.len(),
            a@.len() == b@.len(),
            forall|j: int| 0 <= j < i ==> a@[j] == b@[j],
        decreases a@.len() - i,
    {
        if a[i] != b[i] {
            return false;
        }
        i = i + 1;
    }
    assert(a@ =~= b@);
    true
}

/// Whether two IPv4 addresses are the same.
pub fn same_ip(a: [u8; 4], b: [u8; 4]) -> (same: bool)
    ensures
        same == (a@ == b@),
{
    let same: bool = a[0] == b[0] && a[1] == b[1] && a[2] == b[2] && a[3] == b[3];
    assert(same == (a@ =~= b@));
    same
}

} // verus!
