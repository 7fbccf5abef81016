//! What the wire is made of: big-endian numbers, two's complement and
//! modified UTF-8. The conversions themselves are those of the `byteorder` and
//! `cesu8` crates; this module states what they compute.

use byteorder::{BigEndian, ByteOrder};
use vstd::prelude::*;

verus! {

/// The number that bytes stand for, most significant byte first.
pub open spec fn be_value(bytes: Seq<u8>) -> nat
    decreases bytes.len(),
{
    if bytes.len() == 0 {
        0
    } else {
        be_value(bytes.drop_last()) * 256 + bytes.last() as nat
    }
}

/// The `width` bytes that stand for a number, most significant byte first.
pub open spec fn be_bytes(value: nat, width: nat) -> Seq<u8>
    decreases width,
{
    if width == 0 {
        Seq::empty()
    } else {
        be_bytes(value / 256, (width - 1) as nat).push((value % 256) as u8)
    }
}

/// The signed number that an unsigned one stands for in two's complement,
/// where `modulus` is two to the number of bits.
pub open spec fn signed_of(value: nat, modulus: int) -> int {
    if 2 * value >= modulus {
        value - modulus
    } else {
        value as int
    }
}

/// The unsigned number that stands for a signed one in two's complement.
pub open spec fn unsigned_of(value: int, modulus: int) -> nat {
    if value < 0 {
        (value + modulus) as nat
    } else {
        value as nat
    }
}

/// Two to the 8.
pub open spec fn modulus_8() -> int {
    0x100
}

/// Two to the 16.
pub open spec fn modulus_16() -> int {
    0x1_0000
}

/// Two to the 32.
pub open spec fn modulus_32() -> int {
    0x1_0000_0000
}

/// Two to the 64.
pub open spec fn modulus_64() -> int {
    0x1_0000_0000_0000_0000
}

/// The number that one byte stands for is the byte.
pub proof fn lemma_be_value_single(bytes: Seq<u8>)
    requires
        bytes.len() == 1,
    ensures
        be_value(bytes) == bytes[0],
{
    reveal_with_fuel(be_value, 2);
}

/// The last byte of a number's bytes is its remainder by 256; the bytes before
/// it are those of the quotient.
pub proof fn lemma_be_step(value: nat, width: nat)
    requires
        width > 0,
    ensures
        be_bytes(value, width).len() == be_bytes(value / 256, (width - 1) as nat).len() + 1,
        be_value(be_bytes(value, width)) == be_value(
            be_bytes(value / 256, (width - 1) as nat),
        ) * 256 + value % 256,
{
    let front = be_bytes(value / 256, (width - 1) as nat);
    assert(be_bytes(value, width).drop_last() =~= front);
}

/// A number that fits in `width` bytes is found again from its bytes.
pub proof fn lemma_be_value_of_bytes(value: nat, width: nat)
    ensures
        be_bytes(value, width).len() == width,
        width == 1 && value < modulus_8() ==> be_value(be_bytes(value, width)) == value,
        width == 2 && value < modulus_16() ==> be_value(be_bytes(value, width)) == value,
        width == 4 && value < modulus_32() ==> be_value(be_bytes(value, width)) == value,
        width == 8 && value < modulus_64() ==> be_value(be_bytes(value, width)) == value,
{
    lemma_be_len(value, width);
    if width == 1 || width == 2 || width == 4 || width == 8 {
        let v1 = value / 256;
        let v2 = v1 / 256;
        let v3 = v2 / 256;
        let v4 = v3 / 256;
        let v5 = v4 / 256;
        let v6 = v5 / 256;
        let v7 = v6 / 256;
        lemma_be_step(value, width);
        if width >= 2 {
            lemma_be_step(v1, (width - 1) as nat);
        }
        if width >= 4 {
            lemma_be_step(v2, (width - 2) as nat);
            lemma_be_step(v3, (width - 3) as nat);
        }
        if width >= 8 {
            lemma_be_step(v4, (width - 4) as nat);
            lemma_be_step(v5, (width - 5) as nat);
            lemma_be_step(v6, (width - 6) as nat);
            lemma_be_step(v7, (width - 7) as nat);
        }
    }
}

/// A number has as many bytes as were asked for.
pub proof fn lemma_be_len(value: nat, width: nat)
    ensures
        be_bytes(value, width).len() == width,
    decreases width,
{
    if width > 0 {
        lemma_be_len(value / 256, (width - 1) as nat);
    }
}

/// A signed number is found again from the unsigned one that stands for it.
pub proof fn lemma_signed_of_unsigned(value: int, modulus: int)
    requires
        modulus > 0,
        modulus % 2 == 0,
        -(modulus / 2) <= value < modulus / 2,
    ensures
        signed_of(unsigned_of(value, modulus), modulus) == value,
        unsigned_of(value, modulus) < modulus,
{
}

/// An unsigned number is found again from the signed one of the same bits.
pub proof fn lemma_unsigned_of_signed(value: nat, modulus: int)
    requires
        modulus > 0,
        modulus % 2 == 0,
        value < modulus,
    ensures
        unsigned_of(signed_of(value, modulus), modulus) == value,
        -(modulus / 2) <= signed_of(value, modulus) < modulus / 2,
{
}

/// `byteorder::BigEndian::read_u16`: the number that the first two bytes stand
/// for, most significant byte first. It panics on fewer bytes.
#[verifier::external_body]
pub(crate) fn be_read_u16(buf: &[u8]) -> (r: u16)
    requires
        buf@.len() >= 2,
    ensures
        r == be_value(buf@.subrange(0, 2)),
{
    BigEndian::read_u16(buf)
}

/// `byteorder::BigEndian::read_i16`: the first two bytes as a number, most
/// significant byte first, read in two's complement. It panics on fewer bytes.
#[verifier::external_body]
pub(crate) fn be_read_i16(buf: &[u8]) -> (r: i16)
    requires
        buf@.len() >= 2,
    ensures
        r == signed_of(be_value(buf@.subrange(0, 2)), modulus_16()),
{
    BigEndian::read_i16(buf)
}

/// `byteorder::BigEndian::read_u32`: the number that the first four bytes stand
/// for, most significant byte first. It panics on fewer bytes.
#[verifier::external_body]
pub(crate) fn be_read_u32(buf: &[u8]) -> (r: u32)
    requires
        buf@.len() >= 4,
    ensures
        r == be_value(buf@.subrange(0, 4)),
{
    BigEndian::read_u32(buf)
}

/// `byteorder::BigEndian::read_i32`: the first four bytes as a number, most
/// significant byte first, read in two's complement. It panics on fewer bytes.
#[verifier::external_body]
pub(crate) fn be_read_i32(buf: &[u8]) -> (r: i32)
    requires
        buf@.len() >= 4,
    ensures
        r == signed_of(be_value(buf@.subrange(0, 4)), modulus_32()),
{
    BigEndian::read_i32(buf)
}

/// `byteorder::BigEndian::read_u64`: the number that the first eight bytes
/// stand for, most significant byte first. It panics on fewer bytes.
#[verifier::external_body]
pub(crate) fn be_read_u64(buf: &[u8]) -> (r: u64)
    requires
        buf@.len() >= 8,
    ensures
        r == be_value(buf@.subrange(0, 8)),
{
    BigEndian::read_u64(buf)
}

/// `byteorder::BigEndian::read_i64`: the first eight bytes as a number, most
/// significant byte first, read in two's complement. It panics on fewer bytes.
#[verifier::external_body]
pub(crate) fn be_read_i64(buf: &[u8]) -> (r: i64)
    requires
        buf@.len() >= 8,
    ensures
        r == signed_of(be_value(buf@.subrange(0, 8)), modulus_64()),
{
    BigEndian::read_i64(buf)
}

/// `byteorder::BigEndian::write_u16`, on a buffer of two bytes: the two bytes
/// that stand for the number, most significant byte first.
#[verifier::external_body]
pub(crate) fn be_write_u16(n: u16) -> (r: [u8; 2])
    ensures
        r@ == be_bytes(n as nat, 2),
{
    let mut buf = [0u8; 2];
    BigEndian::write_u16(&mut buf, n);
    buf
}

/// `byteorder::BigEndian::write_i16`, on a buffer of two bytes: the two bytes
/// that stand for the number in two's complement, most significant byte first.
#[verifier::external_body]
pub(crate) fn be_write_i16(n: i16) -> (r: [u8; 2])
    ensures
        r@ == be_bytes(unsigned_of(n as int, modulus_16()), 2),
{
    let mut buf = [0u8; 2];
    BigEndian::write_i16(&mut buf, n);
    buf
}

/// `byteorder::BigEndian::write_u32`, on a buffer of four bytes: the four bytes
/// that stand for the number, most significant byte first.
#[verifier::external_body]
pub(crate) fn be_write_u32(n: u32) -> (r: [u8; 4])
    ensures
        r@ == be_bytes(n as nat, 4),
{
    let mut buf = [0u8; 4];
    BigEndian::write_u32(&mut buf, n);
    buf
}

/// `byteorder::BigEndian::write_i32`, on a buffer of four bytes: the four bytes
/// that stand for the number in two's complement, most significant byte first.
#[verifier::external_body]
pub(crate) fn be_write_i32(n: i32) -> (r: [u8; 4])
    ensures
        r@ == be_bytes(unsigned_of(n as int, modulus_32()), 4),
{
    let mut buf = [0u8; 4];
    BigEndian::write_i32(&mut buf, n);
    buf
}

/// `byteorder::BigEndian::write_u64`, on a buffer of eight bytes: the eight
/// bytes that stand for the number, most significant byte first.
#[verifier::external_body]
pub(crate) fn be_write_u64(n: u64) -> (r: [u8; 8])
    ensures
        r@ == be_bytes(n as nat, 8),
{
    let mut buf = [0u8; 8];
    BigEndian::write_u64(&mut buf, n);
    buf
}

/// `byteorder::BigEndian::write_i64`, on a buffer of eight bytes: the eight
/// bytes that stand for the number in two's complement, most significant byte
/// first.
#[verifier::external_body]
pub(crate) fn be_write_i64(n: i64) -> (r: [u8; 8])
    ensures
        r@ == be_bytes(unsigned_of(n as int, modulus_64()), 8),
{
    let mut buf = [0u8; 8];
    BigEndian::write_i64(&mut buf, n);
    buf
}

/// `cesu8::Cesu8DecodingError`: bytes that are no modified UTF-8.
#[verifier::external_type_specification]
#[verifier::external_body]
pub struct ExCesu8DecodingError(cesu8::Cesu8DecodingError);

/// The modified UTF-8 bytes of a text, as `cesu8::to_java_cesu8` gives them:
/// U+0000 as `C0 80`, a character beyond U+FFFF as a surrogate pair of three
/// bytes each, every other character as in UTF-8.
pub uninterp spec fn java_cesu8_bytes(text: Seq<char>) -> Seq<u8>;

/// The text that `cesu8::from_java_cesu8` reads from bytes, where it reads
/// one: from UTF-8 the text itself, from other modified UTF-8 the text it
/// stands for.
pub uninterp spec fn java_cesu8_text(bytes: Seq<u8>) -> Option<Seq<char>>;

/// `cesu8::to_java_cesu8`: the modified UTF-8 bytes of a text. The text is read
/// back from them by `cesu8::from_java_cesu8`: what the one writes for U+0000
/// and for a character beyond U+FFFF is what the other takes for them, and all
/// else is UTF-8, which it returns as it is.
#[verifier::external_body]
pub(crate) fn to_java_cesu8(text: &str) -> (bytes: Vec<u8>)
    ensures
        bytes@ == java_cesu8_bytes(text@),
        java_cesu8_text(bytes@) == Some(text@),
{
    cesu8::to_java_cesu8(text).into_owned()
}

/// `cesu8::from_java_cesu8`: the text that modified UTF-8 bytes stand for, or
/// its error where they stand for none.
#[verifier::external_body]
pub(crate) fn from_java_cesu8(bytes: &[u8]) -> (r: Result<String, cesu8::Cesu8DecodingError>)
    ensures
        match r {
            Ok(text) => java_cesu8_text(bytes@) == Some(text@),
            Err(_) => java_cesu8_text(bytes@) is None,
        },
{
    match cesu8::from_java_cesu8(bytes) {
        Ok(text) => Ok(text.into_owned()),
        Err(e) => Err(e),
    }
}

/// `std::io::Error::from` on `ErrorKind::UnexpectedEof`: the fault of a source
/// whose bytes ran out.
#[verifier::external_body]
pub(crate) fn unexpected_eof() -> std::io::Error {
    std::io::Error::from(std::io::ErrorKind::UnexpectedEof)
}

/// `char::to_string` of std: the string of one character.
#[verifier::external_body]
pub(crate) fn char_to_string(c: char) -> (r: String)
    ensures
        r@ == seq![c],
{
    c.to_string()
}

/// The `Debug` form of a `std::io::Error`, through `format!`. Nothing is
/// stated of the text.
#[verifier::external_body]
pub(crate) fn io_error_debug(error: &std::io::Error) -> String {
    format!("{:?}", error)
}

/// Appends bytes to a buffer.
pub fn append_bytes(out: &mut Vec<u8>, bytes: &[u8])
    ensures
        final(out)@ == old(out)@ + bytes@,
{
    let mut i: usize = 0;
    while i < bytes.len()
        invariant
            i <= bytes.len(),
            out@ == old(out)@ + bytes@.subrange(0, i as int),
        decreases bytes.len() - i,
    {
        out.push(bytes[i]);
        i += 1;
        assert(bytes@.subrange(0, i as int) =~= bytes@.subrange(0, i - 1).push(bytes@[i - 1]));
    }
    assert(bytes@.subrange(0, i as int) =~= bytes@);
}

} // verus!
