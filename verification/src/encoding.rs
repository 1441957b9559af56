//! Fixed-width integers as little- and big-endian bytes, read and written
//! through the `byteorder` crate.
use byteorder::{BigEndian, ByteOrder, LittleEndian};
use vstd::bytes::*;
use vstd::prelude::*;
use vstd::string::*;
use vstd::utf8::*;

verus! {

/// `std::str::from_utf8`: the string slice whose UTF-8 bytes are `bytes`,
/// present exactly when `bytes` is valid UTF-8.
#[verifier::external_body]
pub(crate) fn str_from_utf8(bytes: &[u8]) -> (r: Option<&str>)
    ensures
        r is Some <==> valid_utf8(bytes@),
        r matches Some(s) ==> s.spec_bytes() == bytes@,
{
    std::str::from_utf8(bytes).ok()
}

/// The decimal digits of `n`, most significant first, with no leading zeros.
pub open spec fn decimal(n: nat) -> Seq<char>
    decreases n,
{
    if n < 10 {
        seq![(48 + n) as char]
    } else {
        decimal(n / 10).push((48 + n % 10) as char)
    }
}

/// `u32::to_string` (through `Display`): the decimal digits of `n`.
#[verifier::external_body]
pub(crate) fn u32_decimal(n: u32) -> (r: String)
    ensures
        r@ == decimal(n as nat),
{
    n.to_string()
}

/// The characters of a string slice are the UTF-8 decoding of its bytes.
pub proof fn lemma_str_chars_from_bytes(s: &str)
    ensures
        s@ == decode_utf8(s.spec_bytes()),
        valid_utf8(s.spec_bytes()),
{
    encode_utf8_decode_utf8(s@);
    encode_utf8_valid_utf8(s@);
}

/// The big-endian bytes of `x`: its little-endian bytes in reverse order.
pub open spec fn u32_be_bytes(x: u32) -> Seq<u8> {
    spec_u32_to_le_bytes(x).reverse()
}

/// The big-endian bytes of `x`: its little-endian bytes in reverse order.
pub open spec fn u64_be_bytes(x: u64) -> Seq<u8> {
    spec_u64_to_le_bytes(x).reverse()
}

/// `byteorder::LittleEndian::read_u16`: the number whose little-endian bytes
/// are the first two bytes of the buffer.
#[verifier::external_body]
pub(crate) fn read_u16_le(buf: &[u8]) -> (r: u16)
    requires
        buf@.len() == 2,
    ensures
        r == spec_u16_from_le_bytes(buf@),
{
    LittleEndian::read_u16(buf)
}

/// `byteorder::LittleEndian::read_u32`: the number whose little-endian bytes
/// are the first four bytes of the buffer.
#[verifier::external_body]
pub(crate) fn read_u32_le(buf: &[u8]) -> (r: u32)
    requires
        buf@.len() == 4,
    ensures
        r == spec_u32_from_le_bytes(buf@),
{
    LittleEndian::read_u32(buf)
}

/// `byteorder::LittleEndian::read_u64`: the number whose little-endian bytes
/// are the first eight bytes of the buffer.
#[verifier::external_body]
pub(crate) fn read_u64_le(buf: &[u8]) -> (r: u64)
    requires
        buf@.len() == 8,
    ensures
        r == spec_u64_from_le_bytes(buf@),
{
    LittleEndian::read_u64(buf)
}

/// `byteorder::LittleEndian::read_i64`: the unsigned little-endian reading
/// of the first eight bytes, taken as two's complement.
#[verifier::external_body]
pub(crate) fn read_i64_le(buf: &[u8]) -> (r: i64)
    requires
        buf@.len() == 8,
    ensures
        r == spec_u64_from_le_bytes(buf@) as i64,
{
    LittleEndian::read_i64(buf)
}

/// `byteorder::LittleEndian::write_u16` into a fresh two-byte buffer.
#[verifier::external_body]
pub(crate) fn u16_le_bytes(n: u16) -> (r: Vec<u8>)
    ensures
        r@ == spec_u16_to_le_bytes(n),
{
    let mut buf = vec![0u8; 2];
    LittleEndian::write_u16(&mut buf, n);
    buf
}

/// `byteorder::LittleEndian::write_u32` into a fresh four-byte buffer.
#[verifier::external_body]
pub(crate) fn u32_le_bytes(n: u32) -> (r: Vec<u8>)
    ensures
        r@ == spec_u32_to_le_bytes(n),
{
    let mut buf = vec![0u8; 4];
    LittleEndian::write_u32(&mut buf, n);
    buf
}

/// `byteorder::LittleEndian::write_u64` into a fresh eight-byte buffer.
#[verifier::external_body]
pub(crate) fn u64_le_bytes(n: u64) -> (r: Vec<u8>)
    ensures
        r@ == spec_u64_to_le_bytes(n),
{
    let mut buf = vec![0u8; 8];
    LittleEndian::write_u64(&mut buf, n);
    buf
}

/// `byteorder::LittleEndian::write_i64` into a fresh eight-byte buffer:
/// the little-endian bytes of the two's complement bits of `n`.
#[verifier::external_body]
pub(crate) fn i64_le_bytes(n: i64) -> (r: Vec<u8>)
    ensures
        r@ == spec_u64_to_le_bytes(n as u64),
{
    let mut buf = vec![0u8; 8];
    LittleEndian::write_i64(&mut buf, n);
    buf
}

/// `byteorder::BigEndian::write_u32` into a fresh four-byte buffer.
#[verifier::external_body]
pub(crate) fn u32_be_bytes_exec(n: u32) -> (r: Vec<u8>)
    ensures
        r@ == u32_be_bytes(n),
{
    let mut buf = vec![0u8; 4];
    BigEndian::write_u32(&mut buf, n);
    buf
}

/// `byteorder::BigEndian::write_u64` into a fresh eight-byte buffer.
#[verifier::external_body]
pub(crate) fn u64_be_bytes_exec(n: u64) -> (r: Vec<u8>)
    ensures
        r@ == u64_be_bytes(n),
{
    let mut buf = vec![0u8; 8];
    BigEndian::write_u64(&mut buf, n);
    buf
}

/// Writing a `u32` as little-endian bytes and reading them back gives it again.
pub proof fn lemma_u32_le_roundtrip(x: u32)
    ensures
        spec_u32_to_le_bytes(x).len() == 4,
        spec_u32_from_le_bytes(spec_u32_to_le_bytes(x)) == x,
{
    lemma_auto_spec_u32_to_from_le_bytes();
    assert(spec_u32_to_le_bytes(x).len() == 4);
}

/// Writing a `u64` as little-endian bytes and reading them back gives it again.
pub proof fn lemma_u64_le_roundtrip(x: u64)
    ensures
        spec_u64_to_le_bytes(x).len() == 8,
        spec_u64_from_le_bytes(spec_u64_to_le_bytes(x)) == x,
{
    lemma_auto_spec_u64_to_from_le_bytes();
}

/// Writing a `u16` as little-endian bytes and reading them back gives it again.
pub proof fn lemma_u16_le_roundtrip(x: u16)
    ensures
        spec_u16_to_le_bytes(x).len() == 2,
        spec_u16_from_le_bytes(spec_u16_to_le_bytes(x)) == x,
{
    lemma_auto_spec_u16_to_from_le_bytes();
    assert(spec_u16_to_le_bytes(x).len() == 2);
}

/// Reading four bytes as a little-endian `u32` and writing it back gives the same bytes.
pub proof fn lemma_u32_le_bytes_roundtrip(s: Seq<u8>)
    requires
        s.len() == 4,
    ensures
        spec_u32_to_le_bytes(spec_u32_from_le_bytes(s)) == s,
{
    lemma_auto_spec_u32_to_from_le_bytes();
}

/// Reading eight bytes as a little-endian `u64` and writing it back gives the same bytes.
pub proof fn lemma_u64_le_bytes_roundtrip(s: Seq<u8>)
    requires
        s.len() == 8,
    ensures
        spec_u64_to_le_bytes(spec_u64_from_le_bytes(s)) == s,
{
    lemma_auto_spec_u64_to_from_le_bytes();
}

/// An `i64` taken as `u64` bits and back is unchanged.
pub proof fn lemma_i64_bits_roundtrip(x: i64)
    ensures
        ((x as u64) as i64) == x,
{
    assert(((x as u64) as i64) == x) by (bit_vector);
}

} // verus!
