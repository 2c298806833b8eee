//! Little-endian integers and UTF-8 text as they lie in the byte streams.

use byteorder::{LittleEndian, WriteBytesExt};
use vstd::prelude::*;
use vstd::slice::slice_subrange;
use vstd::utf8::{decode_utf8, valid_utf8};

verus! {

/// The 16-bit value whose little-endian encoding starts `b`.
pub open spec fn spec_le_u16(b: Seq<u8>) -> u16
    recommends
        b.len() >= 2,
{
    (b[0] as int + 256 * (b[1] as int)) as u16
}

/// The 32-bit value whose little-endian encoding starts `b`.
pub open spec fn spec_le_u32(b: Seq<u8>) -> u32
    recommends
        b.len() >= 4,
{
    (b[0] as int + 256 * (b[1] as int) + 65536 * (b[2] as int) + 16777216 * (b[3] as int)) as u32
}

/// The two bytes that encode `v`, least significant first.
pub open spec fn le_bytes_u16(v: u16) -> Seq<u8> {
    seq![(v % 256) as u8, (v / 256) as u8]
}

/// The four bytes that encode `v`, least significant first.
pub open spec fn le_bytes_u32(v: u32) -> Seq<u8> {
    seq![
        (v % 256) as u8,
        ((v / 256) % 256) as u8,
        ((v / 65536) % 256) as u8,
        (v / 16777216) as u8,
    ]
}

/// Decoding undoes encoding, whatever follows the encoded bytes.
pub proof fn lemma_le_u16_of_bytes(v: u16, tail: Seq<u8>)
    ensures
        spec_le_u16(le_bytes_u16(v) + tail) == v,
        le_bytes_u16(v).len() == 2,
{
    let b = le_bytes_u16(v) + tail;
    let d0 = (v % 256) as u8;
    let d1 = (v / 256) as u8;
    assert(b[0] == d0);
    assert(b[1] == d1);
    assert(v % 256 + 256 * (v / 256) == v) by (bit_vector);
}

/// Decoding undoes encoding, whatever follows the encoded bytes.
pub proof fn lemma_le_u32_of_bytes(v: u32, tail: Seq<u8>)
    ensures
        spec_le_u32(le_bytes_u32(v) + tail) == v,
        le_bytes_u32(v).len() == 4,
{
    let b = le_bytes_u32(v) + tail;
    let d0 = (v % 256) as u8;
    let d1 = ((v / 256) % 256) as u8;
    let d2 = ((v / 65536) % 256) as u8;
    let d3 = (v / 16777216) as u8;
    assert(b[0] == d0);
    assert(b[1] == d1);
    assert(b[2] == d2);
    assert(b[3] == d3);
    assert(v % 256 + 256 * ((v / 256) % 256) + 65536 * ((v / 65536) % 256) + 16777216 * (v
        / 16777216) == v) by (bit_vector);
    assert(d0 == v % 256);
    assert(d1 == (v / 256) % 256);
    assert(d2 == (v / 65536) % 256);
    assert(d3 == v / 16777216);
}

/// Calls `nom::le_u16`, which yields `Incomplete` on fewer than two bytes and
/// otherwise the value `(input[1] << 8) + input[0]` with the rest of the
/// input. Only the value is kept.
#[verifier::external_body]
fn nom_le_u16(input: &[u8]) -> (r: Option<u16>)
    ensures
        input@.len() < 2 ==> r is None,
        input@.len() >= 2 ==> r == Some(spec_le_u16(input@)),
{
    match nom::le_u16(input) {
        nom::IResult::Done(_, v) => Some(v),
        nom::IResult::Error(_) => None,
        nom::IResult::Incomplete(_) => None,
    }
}

/// Calls `nom::le_u32`, which yields `Incomplete` on fewer than four bytes
/// and otherwise the value
/// `(input[3] << 24) + (input[2] << 16) + (input[1] << 8) + input[0]` with
/// the rest of the input. Only the value is kept.
#[verifier::external_body]
fn nom_le_u32(input: &[u8]) -> (r: Option<u32>)
    ensures
        input@.len() < 4 ==> r is None,
        input@.len() >= 4 ==> r == Some(spec_le_u32(input@)),
{
    match nom::le_u32(input) {
        nom::IResult::Done(_, v) => Some(v),
        nom::IResult::Error(_) => None,
        nom::IResult::Incomplete(_) => None,
    }
}

/// Calls `byteorder::WriteBytesExt::write_u16::<LittleEndian>` on the
/// vector, which appends `n.to_le_bytes()`. Writing into a `Vec<u8>` cannot
/// fail, so the `io::Result` carries no information.
#[verifier::external_body]
fn byteorder_write_u16(dst: &mut Vec<u8>, n: u16)
    ensures
        final(dst)@ == old(dst)@ + le_bytes_u16(n),
{
    let _ = dst.write_u16::<LittleEndian>(n);
}

/// Calls `byteorder::WriteBytesExt::write_u32::<LittleEndian>` on the
/// vector, which appends `n.to_le_bytes()`. Writing into a `Vec<u8>` cannot
/// fail, so the `io::Result` carries no information.
#[verifier::external_body]
fn byteorder_write_u32(dst: &mut Vec<u8>, n: u32)
    ensures
        final(dst)@ == old(dst)@ + le_bytes_u32(n),
{
    let _ = dst.write_u32::<LittleEndian>(n);
}

/// The text that `String::from_utf8_lossy` makes of bytes that are not valid
/// UTF-8, where it puts U+FFFD in place of each part that cannot be read.
pub uninterp spec fn utf8_lossy_text(bytes: Seq<u8>) -> Seq<char>;

/// The text that bytes are read as when nothing may be refused: what they
/// encode where they are valid UTF-8, and the repaired text otherwise.
pub open spec fn lossy_text(bytes: Seq<u8>) -> Seq<char> {
    if valid_utf8(bytes) {
        decode_utf8(bytes)
    } else {
        utf8_lossy_text(bytes)
    }
}

/// Calls `String::from_utf8_lossy`. Valid UTF-8 comes back as the string it
/// encodes; for anything else the result is only named.
#[verifier::external_body]
fn std_from_utf8_lossy(bytes: &[u8]) -> (s: String)
    ensures
        valid_utf8(bytes@) ==> s@ == decode_utf8(bytes@),
        !valid_utf8(bytes@) ==> s@ == utf8_lossy_text(bytes@),
{
    String::from_utf8_lossy(bytes).into_owned()
}

/// Calls `std::str::from_utf8`, which accepts exactly the valid UTF-8
/// sequences and hands back the same bytes as a string slice.
#[verifier::external_body]
fn std_from_utf8(bytes: &[u8]) -> (r: Option<&str>)
    ensures
        r is Some <==> valid_utf8(bytes@),
        r matches Some(s) ==> s@ == decode_utf8(bytes@),
{
    match std::str::from_utf8(bytes) {
        Ok(s) => Some(s),
        Err(_) => None,
    }
}

/// Reads bytes as text, repairing what is not valid UTF-8.
pub fn text_lossy(bytes: &[u8]) -> (s: String)
    ensures
        s@ == lossy_text(bytes@),
{
    std_from_utf8_lossy(bytes)
}

/// Reads bytes as text, or `None` when they are not valid UTF-8.
pub fn text_strict(bytes: &[u8]) -> (r: Option<String>)
    ensures
        r is Some <==> valid_utf8(bytes@),
        r matches Some(s) ==> s@ == decode_utf8(bytes@),
{
    match std_from_utf8(bytes) {
        Some(s) => Some(s.to_owned()),
        None => None,
    }
}

/// Calls `str::eq`: two string slices are equal when they hold the same
/// characters.
#[verifier::external_body]
pub(crate) fn str_eq(a: &str, b: &str) -> (r: bool)
    ensures
        r == (a@ == b@),
{
    a.eq(b)
}

/// Calls `String::push`, which appends one character.
#[verifier::external_body]
pub(crate) fn push_char(s: &mut String, c: char)
    ensures
        final(s)@ == old(s)@.push(c),
{
    s.push(c)
}

/// Reads a little-endian `u16` at `pos`, or `None` when fewer than two bytes
/// are left there.
pub fn read_u16_le(input: &[u8], pos: usize) -> (r: Option<u16>)
    ensures
        r == (if pos + 2 <= input@.len() {
            Some(spec_le_u16(input@.skip(pos as int)))
        } else {
            None
        }),
{
    if pos > input.len() {
        return None;
    }
    let rest = slice_subrange(input, pos, input.len());
    assert(rest@ == input@.skip(pos as int));
    nom_le_u16(rest)
}

/// Reads a little-endian `u32` at `pos`, or `None` when fewer than four bytes
/// are left there.
pub fn read_u32_le(input: &[u8], pos: usize) -> (r: Option<u32>)
    ensures
        r == (if pos + 4 <= input@.len() {
            Some(spec_le_u32(input@.skip(pos as int)))
        } else {
            None
        }),
{
    if pos > input.len() {
        return None;
    }
    let rest = slice_subrange(input, pos, input.len());
    assert(rest@ == input@.skip(pos as int));
    nom_le_u32(rest)
}

/// Appends the little-endian encoding of `n`.
pub fn write_u16_le(dst: &mut Vec<u8>, n: u16)
    ensures
        final(dst)@ == old(dst)@ + le_bytes_u16(n),
{
    byteorder_write_u16(dst, n);
}

/// Appends the little-endian encoding of `n`.
pub fn write_u32_le(dst: &mut Vec<u8>, n: u32)
    ensures
        final(dst)@ == old(dst)@ + le_bytes_u32(n),
{
    byteorder_write_u32(dst, n);
}

} // verus!
