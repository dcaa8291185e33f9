//! Big-endian integers and the `bytes` buffers that carry them.
use bytes::{Buf, BufMut, Bytes, BytesMut};
use vstd::prelude::*;

verus! {

/// The two bytes of `n`, most significant first.
pub open spec fn u16_be(n: u16) -> Seq<u8> {
    seq![(n / 0x100) as u8, (n % 0x100) as u8]
}

/// The four bytes of `n`, most significant first.
pub open spec fn u32_be(n: u32) -> Seq<u8> {
    seq![
        (n / 0x100_0000) as u8,
        (n / 0x1_0000 % 0x100) as u8,
        (n / 0x100 % 0x100) as u8,
        (n % 0x100) as u8,
    ]
}

/// The number that the first two bytes of `s` spell, most significant first.
pub open spec fn be_u16(s: Seq<u8>) -> int {
    s[0] * 0x100 + s[1]
}

/// The number that the first four bytes of `s` spell, most significant first.
pub open spec fn be_u32(s: Seq<u8>) -> int {
    s[0] * 0x100_0000 + s[1] * 0x1_0000 + s[2] * 0x100 + s[3]
}

/// Reading back a 16-bit number gives the number that was written, whatever follows it.
pub proof fn u16_round_trip(n: u16, rest: Seq<u8>)
    ensures
        be_u16(u16_be(n) + rest) == n,
{
}

/// Reading back a 32-bit number gives the number that was written, whatever follows it.
pub proof fn u32_round_trip(n: u32, rest: Seq<u8>)
    ensures
        be_u32(u32_be(n) + rest) == n,
{
}

/// Two bytes spell a 16-bit number whose encoding is those two bytes.
pub proof fn u16_bytes_round_trip(n: u16, s: Seq<u8>)
    requires
        s.len() >= 2,
        be_u16(s) == n,
    ensures
        u16_be(n) == s.take(2),
{
    assert(u16_be(n) =~= s.take(2));
}

/// Four bytes spell a 32-bit number whose encoding is those four bytes.
pub proof fn u32_bytes_round_trip(n: u32, s: Seq<u8>)
    requires
        s.len() >= 4,
        be_u32(s) == n,
    ensures
        u32_be(n) == s.take(4),
{
    let (a, b, c, d) = (s[0], s[1], s[2], s[3]);
    assert(n / 0x1_0000 == a * 0x100 + b && n / 0x100 == a * 0x1_0000 + b * 0x100 + c);
    assert(n / 0x100_0000 == a && n / 0x1_0000 % 0x100 == b && n / 0x100 % 0x100 == c && n % 0x100
        == d);
    assert(u32_be(n) =~= s.take(4));
}

/// The number that two bytes spell, most significant first.
pub fn u16_from_be(high: u8, low: u8) -> (n: u16)
    ensures
        n == high * 0x100 + low,
{
    (high as u16) * 0x100 + (low as u16)
}

/// `bytes::Bytes`, an immutable shared byte string.
#[verifier::external_type_specification]
#[verifier::external_body]
pub struct ExBytes(Bytes);

/// `bytes::BytesMut`, a growable byte buffer.
#[verifier::external_type_specification]
#[verifier::external_body]
pub struct ExBytesMut(BytesMut);

/// The bytes that a `Bytes` holds.
pub uninterp spec fn content(b: Bytes) -> Seq<u8>;

/// The bytes that a `BytesMut` holds.
pub uninterp spec fn buffered(b: BytesMut) -> Seq<u8>;

/// `Bytes::new`: an empty byte string.
#[verifier::external_body]
pub(crate) fn bytes_new() -> (b: Bytes)
    ensures
        content(b) == Seq::<u8>::empty(),
{
    Bytes::new()
}

/// `Bytes::copy_from_slice`: a byte string with the bytes of `data`.
#[verifier::external_body]
pub(crate) fn bytes_copy_from_slice(data: &[u8]) -> (b: Bytes)
    ensures
        content(b) == data@,
{
    Bytes::copy_from_slice(data)
}

/// `Bytes::from` for a `Vec<u8>`: a byte string with the bytes of `data`.
#[verifier::external_body]
pub(crate) fn bytes_from_vec(data: Vec<u8>) -> (b: Bytes)
    ensures
        content(b) == data@,
{
    Bytes::from(data)
}

/// `Bytes::as_ref`: the held bytes as a slice.
#[verifier::external_body]
pub(crate) fn bytes_as_slice(b: &Bytes) -> (data: &[u8])
    ensures
        data@ == content(*b),
{
    b.as_ref()
}

/// `Bytes::clone`: another handle to the same bytes.
#[verifier::external_body]
pub(crate) fn bytes_clone(b: &Bytes) -> (r: Bytes)
    ensures
        content(r) == content(*b),
{
    b.clone()
}

/// `BytesMut::with_capacity`: an empty buffer.
#[verifier::external_body]
pub(crate) fn buffer_with_capacity(capacity: usize) -> (b: BytesMut)
    ensures
        buffered(b) == Seq::<u8>::empty(),
{
    BytesMut::with_capacity(capacity)
}

/// `BufMut::put_u8`: appends one byte.
#[verifier::external_body]
pub(crate) fn put_u8(b: &mut BytesMut, n: u8)
    ensures
        buffered(*final(b)) == buffered(*old(b)).push(n),
{
    b.put_u8(n)
}

/// `BufMut::put_u16`: appends the two bytes of `n`, most significant first.
#[verifier::external_body]
pub(crate) fn put_u16(b: &mut BytesMut, n: u16)
    ensures
        buffered(*final(b)) == buffered(*old(b)) + u16_be(n),
{
    b.put_u16(n)
}

/// `BufMut::put_u32`: appends the four bytes of `n`, most significant first.
#[verifier::external_body]
pub(crate) fn put_u32(b: &mut BytesMut, n: u32)
    ensures
        buffered(*final(b)) == buffered(*old(b)) + u32_be(n),
{
    b.put_u32(n)
}

/// `BufMut::put_slice`: appends all of `data`.
#[verifier::external_body]
pub(crate) fn put_slice(b: &mut BytesMut, data: &[u8])
    ensures
        buffered(*final(b)) == buffered(*old(b)) + data@,
{
    b.put_slice(data)
}

/// `BytesMut::freeze`: the buffered bytes as an immutable byte string.
#[verifier::external_body]
pub(crate) fn freeze(b: BytesMut) -> (r: Bytes)
    ensures
        content(r) == buffered(b),
{
    b.freeze()
}

/// `Buf::get_u8` on a slice: takes the first byte off the front.
#[verifier::external_body]
pub(crate) fn get_u8(data: &mut &[u8]) -> (n: u8)
    requires
        old(data)@.len() >= 1,
    ensures
        n == old(data)@[0],
        final(data)@ == old(data)@.skip(1),
{
    data.get_u8()
}

/// `Buf::get_u16` on a slice: takes a big-endian number of two bytes off the front.
#[verifier::external_body]
pub(crate) fn get_u16(data: &mut &[u8]) -> (n: u16)
    requires
        old(data)@.len() >= 2,
    ensures
        n == be_u16(old(data)@),
        final(data)@ == old(data)@.skip(2),
{
    data.get_u16()
}

/// `Buf::get_u32` on a slice: takes a big-endian number of four bytes off the front.
#[verifier::external_body]
pub(crate) fn get_u32(data: &mut &[u8]) -> (n: u32)
    requires
        old(data)@.len() >= 4,
    ensures
        n == be_u32(old(data)@),
        final(data)@ == old(data)@.skip(4),
{
    data.get_u32()
}

} // verus!
