//! The combined shader blob that an archive stores as one entry: a name, a
//! vertex shader and a fragment shader, each as UTF-8 text, behind three
//! 32-bit lengths.

use crate::error::DDError;
use crate::wire::{
    le_bytes_u32, lemma_le_u32_of_bytes, read_u32_le, spec_le_u32, text_strict, write_u32_le,
};
use vstd::prelude::*;
use vstd::slice::slice_subrange;
use vstd::utf8::{
    decode_utf8, encode_utf8, encode_utf8_decode_utf8, encode_utf8_valid_utf8, valid_utf8,
};

verus! {

#[derive(Debug, PartialEq, Eq, Clone)]
pub struct GlslPair {
    /// Name of the shader, as a rule the filename of its entry
    pub name: String,
    /// Source text of the vertex shader
    pub vertex_source: String,
    /// Source text of the fragment shader
    pub fragment_source: String,
}

/// What a shader pair says, each text as a sequence of characters.
pub struct GlslPairView {
    pub name: Seq<char>,
    pub vertex_source: Seq<char>,
    pub fragment_source: Seq<char>,
}

impl View for GlslPair {
    type V = GlslPairView;

    open spec fn view(&self) -> GlslPairView {
        GlslPairView {
            name: self.name@,
            vertex_source: self.vertex_source@,
            fragment_source: self.fragment_source@,
        }
    }
}

/// The text of `len` bytes that starts at `start`.
pub open spec fn spec_take_text(b: Seq<u8>, start: int, len: int) -> Result<Seq<char>, DDError> {
    if b.len() < start + len {
        Err(DDError::TruncatedRecord)
    } else if !valid_utf8(b.subrange(start, start + len)) {
        Err(DDError::InvalidText)
    } else {
        Ok(decode_utf8(b.subrange(start, start + len)))
    }
}

/// The shader pair that starts `b`, with the number of bytes it takes:
/// three lengths, then name, vertex source and fragment source in exactly
/// those lengths. The first text that is cut short or is not UTF-8 decides
/// the error.
pub open spec fn spec_glsl_file(b: Seq<u8>) -> Result<(GlslPairView, int), DDError> {
    if b.len() < 12 {
        Err(DDError::TruncatedRecord)
    } else {
        let name_len = spec_le_u32(b) as int;
        let vert_len = spec_le_u32(b.skip(4)) as int;
        let frag_len = spec_le_u32(b.skip(8)) as int;
        match spec_take_text(b, 12, name_len) {
            Err(e) => Err(e),
            Ok(name) => match spec_take_text(b, 12 + name_len, vert_len) {
                Err(e) => Err(e),
                Ok(vertex_source) => match spec_take_text(
                    b,
                    12 + name_len + vert_len,
                    frag_len,
                ) {
                    Err(e) => Err(e),
                    Ok(fragment_source) => Ok(
                        (
                            GlslPairView { name, vertex_source, fragment_source },
                            12 + name_len + vert_len + frag_len,
                        ),
                    ),
                },
            },
        }
    }
}

/// The start of a shader blob: its name and the lengths of the two sources,
/// without the sources themselves.
pub open spec fn spec_glsl_file_header(b: Seq<u8>) -> Result<(Seq<char>, u32, u32), DDError> {
    if b.len() < 12 {
        Err(DDError::TruncatedRecord)
    } else {
        match spec_take_text(b, 12, spec_le_u32(b) as int) {
            Err(e) => Err(e),
            Ok(name) => Ok((name, spec_le_u32(b.skip(4)), spec_le_u32(b.skip(8)))),
        }
    }
}

/// The bytes of a shader blob.
pub open spec fn glsl_bytes(p: GlslPairView) -> Seq<u8> {
    le_bytes_u32(encode_utf8(p.name).len() as u32) + le_bytes_u32(
        encode_utf8(p.vertex_source).len() as u32,
    ) + le_bytes_u32(encode_utf8(p.fragment_source).len() as u32) + encode_utf8(p.name)
        + encode_utf8(p.vertex_source) + encode_utf8(p.fragment_source)
}

/// Each text is short enough for its 32-bit length.
pub open spec fn glsl_fits(p: GlslPairView) -> bool {
    &&& encode_utf8(p.name).len() <= u32::MAX
    &&& encode_utf8(p.vertex_source).len() <= u32::MAX
    &&& encode_utf8(p.fragment_source).len() <= u32::MAX
}

/// Reads the text of `len` bytes that starts at `start`.
fn take_text(input: &[u8], start: usize, len: u32) -> (r: Result<String, DDError>)
    requires
        start <= input@.len(),
    ensures
        match r {
            Ok(s) => spec_take_text(input@, start as int, len as int) == Ok::<Seq<char>, DDError>(
                s@,
            ) && start + len <= input@.len(),
            Err(e) => spec_take_text(input@, start as int, len as int) == Err::<
                Seq<char>,
                DDError,
            >(e),
        },
{
    if input.len() - start < len as usize {
        return Err(DDError::TruncatedRecord);
    }
    let bytes = slice_subrange(input, start, start + len as usize);
    match text_strict(bytes) {
        Some(s) => Ok(s),
        None => Err(DDError::InvalidText),
    }
}

/// Reads a shader pair from the start of `input`. On success the second
/// value is the number of bytes that the pair takes.
pub fn glsl_file(input: &[u8]) -> (r: Result<(GlslPair, usize), DDError>)
    ensures
        match r {
            Ok((pair, used)) => spec_glsl_file(input@) == Ok::<(GlslPairView, int), DDError>(
                (pair@, used as int),
            ) && used <= input@.len(),
            Err(e) => spec_glsl_file(input@) == Err::<(GlslPairView, int), DDError>(e),
        },
{
    if input.len() < 12 {
        return Err(DDError::TruncatedRecord);
    }
    let name_len = match read_u32_le(input, 0) {
        Some(v) => v,
        None => { return Err(DDError::TruncatedRecord); },
    };
    let vert_len = match read_u32_le(input, 4) {
        Some(v) => v,
        None => { return Err(DDError::TruncatedRecord); },
    };
    let frag_len = match read_u32_le(input, 8) {
        Some(v) => v,
        None => { return Err(DDError::TruncatedRecord); },
    };
    assert(input@.skip(0) == input@);
    let name = match take_text(input, 12, name_len) {
        Ok(s) => s,
        Err(e) => { return Err(e); },
    };
    let vert_start = 12 + name_len as usize;
    let vertex_source = match take_text(input, vert_start, vert_len) {
        Ok(s) => s,
        Err(e) => { return Err(e); },
    };
    let frag_start = vert_start + vert_len as usize;
    let fragment_source = match take_text(input, frag_start, frag_len) {
        Ok(s) => s,
        Err(e) => { return Err(e); },
    };
    Ok((GlslPair { name, vertex_source, fragment_source }, frag_start + frag_len as usize))
}

/// Reads the name of a shader pair and the lengths of its two sources from
/// the start of `input`, which need not hold the sources.
pub fn glsl_file_header(input: &[u8]) -> (r: Result<(String, u32, u32), DDError>)
    ensures
        match r {
            Ok((name, vert_len, frag_len)) => spec_glsl_file_header(input@) == Ok::<
                (Seq<char>, u32, u32),
                DDError,
            >((name@, vert_len, frag_len)),
            Err(e) => spec_glsl_file_header(input@) == Err::<(Seq<char>, u32, u32), DDError>(e),
        },
{
    if input.len() < 12 {
        return Err(DDError::TruncatedRecord);
    }
    let name_len = match read_u32_le(input, 0) {
        Some(v) => v,
        None => { return Err(DDError::TruncatedRecord); },
    };
    let vert_len = match read_u32_le(input, 4) {
        Some(v) => v,
        None => { return Err(DDError::TruncatedRecord); },
    };
    let frag_len = match read_u32_le(input, 8) {
        Some(v) => v,
        None => { return Err(DDError::TruncatedRecord); },
    };
    assert(input@.skip(0) == input@);
    match take_text(input, 12, name_len) {
        Ok(name) => Ok((name, vert_len, frag_len)),
        Err(e) => Err(e),
    }
}

impl GlslPair {
    /// Appends the blob of this pair: the three lengths, then the three
    /// texts. Nothing is appended when a text is too long for its length
    /// field.
    pub fn write(&self, dst: &mut Vec<u8>) -> (r: Result<(), DDError>)
        ensures
            match r {
                Ok(_) => glsl_fits(self@) && final(dst)@ == old(dst)@ + glsl_bytes(self@),
                Err(e) => e == DDError::LengthOverflow && !glsl_fits(self@) && final(dst)@ == old(
                    dst,
                )@,
            },
    {
        let name = self.name.as_str().as_bytes();
        let vert = self.vertex_source.as_str().as_bytes();
        let frag = self.fragment_source.as_str().as_bytes();
        if name.len() > 0xFFFF_FFFF || vert.len() > 0xFFFF_FFFF || frag.len() > 0xFFFF_FFFF {
            return Err(DDError::LengthOverflow);
        }
        write_u32_le(dst, name.len() as u32);
        write_u32_le(dst, vert.len() as u32);
        write_u32_le(dst, frag.len() as u32);
        dst.extend_from_slice(name);
        dst.extend_from_slice(vert);
        dst.extend_from_slice(frag);
        assert(dst@ =~= old(dst)@ + glsl_bytes(self@));
        Ok(())
    }
}

/// A text is read back from its own bytes where they stand in a sequence.
proof fn lemma_take_text_of(b: Seq<u8>, start: int, text: Seq<char>)
    requires
        0 <= start,
        start + encode_utf8(text).len() <= b.len(),
        b.subrange(start, start + encode_utf8(text).len()) == encode_utf8(text),
    ensures
        spec_take_text(b, start, encode_utf8(text).len() as int) == Ok::<Seq<char>, DDError>(
            text,
        ),
{
    encode_utf8_valid_utf8(text);
    encode_utf8_decode_utf8(text);
}

/// The bytes of a blob followed by `tail`, put together from the right.
proof fn lemma_glsl_bytes_then(p: GlslPairView, tail: Seq<u8>)
    ensures
        glsl_bytes(p) + tail == le_bytes_u32(encode_utf8(p.name).len() as u32) + (le_bytes_u32(
            encode_utf8(p.vertex_source).len() as u32,
        ) + (le_bytes_u32(encode_utf8(p.fragment_source).len() as u32) + (encode_utf8(p.name)
            + (encode_utf8(p.vertex_source) + (encode_utf8(p.fragment_source) + tail))))),
{
    let a = le_bytes_u32(encode_utf8(p.name).len() as u32);
    let b = le_bytes_u32(encode_utf8(p.vertex_source).len() as u32);
    let c = le_bytes_u32(encode_utf8(p.fragment_source).len() as u32);
    let d = encode_utf8(p.name);
    let f = encode_utf8(p.vertex_source);
    let g = encode_utf8(p.fragment_source);
    let r5 = g + tail;
    let r4 = f + r5;
    let r3 = d + r4;
    let r2 = c + r3;
    let r1 = b + r2;
    assert((a + b + c + d + f + g) + tail =~= (a + b + c + d + f) + r5);
    assert((a + b + c + d + f) + r5 =~= (a + b + c + d) + r4);
    assert((a + b + c + d) + r4 =~= (a + b + c) + r3);
    assert((a + b + c) + r3 =~= (a + b) + r2);
    assert((a + b) + r2 =~= a + r1);
}

/// Three texts that stand one behind the other are found again at their
/// places.
proof fn lemma_three_parts(head: Seq<u8>, n: Seq<u8>, v: Seq<u8>, f: Seq<u8>, tail: Seq<u8>)
    ensures
        (head + (n + (v + (f + tail)))).len() == head.len() + n.len() + v.len() + f.len()
            + tail.len(),
        (head + (n + (v + (f + tail)))).subrange(
            head.len() as int,
            head.len() as int + n.len() as int,
        ) == n,
        (head + (n + (v + (f + tail)))).subrange(
            head.len() as int + n.len() as int,
            head.len() as int + n.len() as int + v.len() as int,
        ) == v,
        (head + (n + (v + (f + tail)))).subrange(
            head.len() as int + n.len() as int + v.len() as int,
            head.len() as int + n.len() as int + v.len() as int + f.len() as int,
        ) == f,
{
    let b = head + (n + (v + (f + tail)));
    let h = head.len() as int;
    let a1 = h + n.len() as int;
    let a2 = a1 + v.len() as int;
    let a3 = a2 + f.len() as int;
    assert(b.subrange(h, a1) =~= n);
    assert(b.subrange(a1, a2) =~= v);
    assert(b.subrange(a2, a3) =~= f);
}

/// Three lengths are read back from the twelve bytes that hold them.
proof fn lemma_three_lengths(x: u32, y: u32, z: u32, rest: Seq<u8>)
    ensures
        spec_le_u32(le_bytes_u32(x) + (le_bytes_u32(y) + (le_bytes_u32(z) + rest))) == x,
        spec_le_u32((le_bytes_u32(x) + (le_bytes_u32(y) + (le_bytes_u32(z) + rest))).skip(4))
            == y,
        spec_le_u32((le_bytes_u32(x) + (le_bytes_u32(y) + (le_bytes_u32(z) + rest))).skip(8))
            == z,
        le_bytes_u32(x) + (le_bytes_u32(y) + (le_bytes_u32(z) + rest)) == (le_bytes_u32(x)
            + le_bytes_u32(y) + le_bytes_u32(z)) + rest,
        (le_bytes_u32(x) + le_bytes_u32(y) + le_bytes_u32(z)).len() == 12,
{
    let r2 = le_bytes_u32(z) + rest;
    let r1 = le_bytes_u32(y) + r2;
    let r0 = le_bytes_u32(x) + r1;
    lemma_le_u32_of_bytes(x, r1);
    lemma_le_u32_of_bytes(y, r2);
    lemma_le_u32_of_bytes(z, rest);
    assert(r0.skip(4) =~= r1);
    assert(r0.skip(8) =~= r2);
    assert(r0 =~= (le_bytes_u32(x) + le_bytes_u32(y) + le_bytes_u32(z)) + rest);
}

/// Reading what was written gives back what was written: a shader pair is
/// read back from its blob, whatever follows the blob.
pub proof fn lemma_glsl_roundtrip(p: GlslPairView, tail: Seq<u8>)
    requires
        glsl_fits(p),
    ensures
        spec_glsl_file(glsl_bytes(p) + tail) == Ok::<(GlslPairView, int), DDError>(
            (p, glsl_bytes(p).len() as int),
        ),
{
    let n = encode_utf8(p.name);
    let v = encode_utf8(p.vertex_source);
    let f = encode_utf8(p.fragment_source);
    let nl = n.len() as u32;
    let vl = v.len() as u32;
    let fl = f.len() as u32;
    let b = glsl_bytes(p) + tail;
    let texts = n + (v + (f + tail));
    let head = le_bytes_u32(nl) + le_bytes_u32(vl) + le_bytes_u32(fl);
    let a1 = 12 + n.len() as int;
    let a2 = a1 + v.len() as int;
    let a3 = a2 + f.len() as int;
    lemma_glsl_bytes_then(p, tail);
    lemma_three_lengths(nl, vl, fl, texts);
    assert(b == head + texts);
    lemma_three_parts(head, n, v, f, tail);
    assert(b.len() == a3 + tail.len());
    assert(glsl_bytes(p).len() == a3) by {
        assert(glsl_bytes(p).len() + tail.len() == b.len());
    }
    assert(spec_take_text(b, 12, nl as int) == Ok::<Seq<char>, DDError>(p.name)) by {
        lemma_take_text_of(b, 12, p.name);
    }
    assert(spec_take_text(b, a1, vl as int) == Ok::<Seq<char>, DDError>(p.vertex_source)) by {
        lemma_take_text_of(b, a1, p.vertex_source);
    }
    assert(spec_take_text(b, a2, fl as int) == Ok::<Seq<char>, DDError>(p.fragment_source)) by {
        lemma_take_text_of(b, a2, p.fragment_source);
    }
}

} // verus!
