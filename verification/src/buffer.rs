use tokio_util::bytes::{Buf, BytesMut};
use vstd::arithmetic::power2::pow2;
use vstd::prelude::*;

verus! {

/// The byte buffer that decoders read from (the `BytesMut` of the `bytes`
/// crate, as re-exported by `tokio_util`).
#[verifier::external_type_specification]
#[verifier::external_body]
pub struct ExBytesMut(BytesMut);

/// The bytes that a buffer holds, front first.
pub uninterp spec fn buffer_bytes(buf: BytesMut) -> Seq<u8>;

/// The natural number that a sequence of bytes denotes in big-endian order.
pub open spec fn be_nat(s: Seq<u8>) -> nat
    decreases s.len(),
{
    if s.len() == 0 {
        0
    } else {
        be_nat(s.drop_last()) * 256 + s.last() as nat
    }
}

/// One byte, read as a number, is that byte.
pub proof fn lemma_be_nat_one(s: Seq<u8>)
    requires
        s.len() >= 1,
    ensures
        be_nat(s.take(1)) == s[0],
{
    assert(s.take(1).drop_last() =~= Seq::<u8>::empty());
    assert(be_nat(Seq::<u8>::empty()) == 0);
    assert(s.take(1).last() == s[0]);
}

/// The two's complement reading of an unsigned value of `width` bytes.
pub open spec fn twos_complement(value: nat, width: nat) -> int {
    if width > 0 && value >= pow2((8 * width - 1) as nat) {
        value - pow2(8 * width)
    } else {
        value as int
    }
}

/// What a big-endian read of `width` bytes does to a buffer holding `before`:
/// either too few bytes are there and nothing changes, or the first `width`
/// bytes are taken.
pub open spec fn took_front(before: Seq<u8>, after: Seq<u8>, width: nat, read: bool) -> bool {
    if before.len() < width {
        !read && after == before
    } else {
        read && after == before.skip(width as int)
    }
}

/// `BytesMut::len`: the number of bytes the buffer holds.
#[verifier::external_body]
pub(crate) fn buffer_len(buf: &BytesMut) -> (n: usize)
    ensures
        n == buffer_bytes(*buf).len(),
{
    buf.len()
}

/// `Buf::try_get_u8`: takes the first byte, if there is one; otherwise the
/// buffer is left as it was.
#[verifier::external_body]
pub(crate) fn buffer_try_get_u8(buf: &mut BytesMut) -> (r: Option<u8>)
    ensures
        took_front(buffer_bytes(*old(buf)), buffer_bytes(*final(buf)), 1, r is Some),
        r matches Some(v) ==> v == buffer_bytes(*old(buf))[0],
{
    buf.try_get_u8().ok()
}

/// `Buf::try_get_u16`: takes two bytes read in big-endian order, if there
/// are that many; otherwise the buffer is left as it was.
#[verifier::external_body]
pub(crate) fn buffer_try_get_u16(buf: &mut BytesMut) -> (r: Option<u16>)
    ensures
        took_front(buffer_bytes(*old(buf)), buffer_bytes(*final(buf)), 2, r is Some),
        r matches Some(v) ==> v as nat == be_nat(buffer_bytes(*old(buf)).take(2)),
{
    buf.try_get_u16().ok()
}

/// `Buf::try_get_u32`: as `buffer_try_get_u16`, for four bytes.
#[verifier::external_body]
pub(crate) fn buffer_try_get_u32(buf: &mut BytesMut) -> (r: Option<u32>)
    ensures
        took_front(buffer_bytes(*old(buf)), buffer_bytes(*final(buf)), 4, r is Some),
        r matches Some(v) ==> v as nat == be_nat(buffer_bytes(*old(buf)).take(4)),
{
    buf.try_get_u32().ok()
}

/// `Buf::try_get_u64`: as `buffer_try_get_u16`, for eight bytes.
#[verifier::external_body]
pub(crate) fn buffer_try_get_u64(buf: &mut BytesMut) -> (r: Option<u64>)
    ensures
        took_front(buffer_bytes(*old(buf)), buffer_bytes(*final(buf)), 8, r is Some),
        r matches Some(v) ==> v as nat == be_nat(buffer_bytes(*old(buf)).take(8)),
{
    buf.try_get_u64().ok()
}

/// `Buf::try_get_u128`: as `buffer_try_get_u16`, for sixteen bytes.
#[verifier::external_body]
pub(crate) fn buffer_try_get_u128(buf: &mut BytesMut) -> (r: Option<u128>)
    ensures
        took_front(buffer_bytes(*old(buf)), buffer_bytes(*final(buf)), 16, r is Some),
        r matches Some(v) ==> v as nat == be_nat(buffer_bytes(*old(buf)).take(16)),
{
    buf.try_get_u128().ok()
}

/// `Buf::try_get_i8`: takes one byte read as two's complement.
#[verifier::external_body]
pub(crate) fn buffer_try_get_i8(buf: &mut BytesMut) -> (r: Option<i8>)
    ensures
        took_front(buffer_bytes(*old(buf)), buffer_bytes(*final(buf)), 1, r is Some),
        r matches Some(v) ==> v as int == twos_complement(be_nat(buffer_bytes(*old(buf)).take(1)), 1),
{
    buf.try_get_i8().ok()
}

/// `Buf::try_get_i16`: takes two bytes read in big-endian two's complement.
#[verifier::external_body]
pub(crate) fn buffer_try_get_i16(buf: &mut BytesMut) -> (r: Option<i16>)
    ensures
        took_front(buffer_bytes(*old(buf)), buffer_bytes(*final(buf)), 2, r is Some),
        r matches Some(v) ==> v as int == twos_complement(be_nat(buffer_bytes(*old(buf)).take(2)), 2),
{
    buf.try_get_i16().ok()
}

/// `Buf::try_get_i32`: as `buffer_try_get_i16`, for four bytes.
#[verifier::external_body]
pub(crate) fn buffer_try_get_i32(buf: &mut BytesMut) -> (r: Option<i32>)
    ensures
        took_front(buffer_bytes(*old(buf)), buffer_bytes(*final(buf)), 4, r is Some),
        r matches Some(v) ==> v as int == twos_complement(be_nat(buffer_bytes(*old(buf)).take(4)), 4),
{
    buf.try_get_i32().ok()
}

/// `Buf::try_get_i64`: as `buffer_try_get_i16`, for eight bytes.
#[verifier::external_body]
pub(crate) fn buffer_try_get_i64(buf: &mut BytesMut) -> (r: Option<i64>)
    ensures
        took_front(buffer_bytes(*old(buf)), buffer_bytes(*final(buf)), 8, r is Some),
        r matches Some(v) ==> v as int == twos_complement(be_nat(buffer_bytes(*old(buf)).take(8)), 8),
{
    buf.try_get_i64().ok()
}

/// `Buf::try_get_i128`: as `buffer_try_get_i16`, for sixteen bytes.
#[verifier::external_body]
pub(crate) fn buffer_try_get_i128(buf: &mut BytesMut) -> (r: Option<i128>)
    ensures
        took_front(buffer_bytes(*old(buf)), buffer_bytes(*final(buf)), 16, r is Some),
        r matches Some(v) ==> v as int == twos_complement(
            be_nat(buffer_bytes(*old(buf)).take(16)),
            16,
        ),
{
    buf.try_get_i128().ok()
}

/// `BytesMut::split_to`: takes the first `n` bytes out of the buffer; they
/// are handed back as a vector.
#[verifier::external_body]
pub(crate) fn buffer_split_to(buf: &mut BytesMut, n: usize) -> (taken: Vec<u8>)
    requires
        n <= buffer_bytes(*old(buf)).len(),
    ensures
        taken@ == buffer_bytes(*old(buf)).take(n as int),
        buffer_bytes(*final(buf)) == buffer_bytes(*old(buf)).skip(n as int),
{
    buf.split_to(n).to_vec()
}

} // verus!
