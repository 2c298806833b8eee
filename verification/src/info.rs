//! Telling what kind of file some bytes are the start of, and summing up
//! what an archive holds.

use crate::glsl::{glsl_file_header, spec_glsl_file_header};
use crate::pack::{lemma_payload_size_grows, payload_size};
use crate::parser::{mainheader, spec_mainheader};
use crate::tex2::{spec_tex2_header, tex2_header};
use crate::types::{toc_view, DDMainHeader, DDSubFileHeader, SubFileHeaderView};
use vstd::prelude::*;

verus! {

/// The kinds of file that can be told apart by their first bytes.
#[derive(Debug, PartialEq, Eq, Clone, Copy, Structural)]
pub enum GuessedFormat {
    DDArchive,
    Texture2,
    GLSLShader,
    /// A head-related transfer function table of OpenAL
    HRTF,
    Unknown,
}

/// Number of bytes from the start of a file that are enough to guess its
/// format.
pub const PROBE_LEN: usize = 40;

/// The signature `MinPHR01` of an OpenAL HRTF table.
pub open spec fn hrtf_magic() -> Seq<u8> {
    seq![0x4Du8, 0x69u8, 0x6Eu8, 0x50u8, 0x48u8, 0x52u8, 0x30u8, 0x31u8]
}

/// The format that bytes are the start of. The formats are tried in a fixed
/// order, and the first one whose header can be read is the answer: an
/// archive, a texture, a shader blob, an HRTF table.
pub open spec fn spec_guess_format(b: Seq<u8>) -> GuessedFormat {
    if spec_mainheader(b) is Ok {
        GuessedFormat::DDArchive
    } else if spec_tex2_header(b) is Ok {
        GuessedFormat::Texture2
    } else if spec_glsl_file_header(b) is Ok {
        GuessedFormat::GLSLShader
    } else if b.len() >= 8 && b.subrange(0, 8) == hrtf_magic() {
        GuessedFormat::HRTF
    } else {
        GuessedFormat::Unknown
    }
}

/// Tells whether `input` starts with the signature of an HRTF table.
fn has_hrtf_magic(input: &[u8]) -> (r: bool)
    ensures
        r == (input@.len() >= 8 && input@.subrange(0, 8) == hrtf_magic()),
{
    if input.len() < 8 {
        return false;
    }
    let ok = input[0] == 0x4D && input[1] == 0x69 && input[2] == 0x6E && input[3] == 0x50
        && input[4] == 0x48 && input[5] == 0x52 && input[6] == 0x30 && input[7] == 0x31;
    proof {
        let m = input@.subrange(0, 8);
        if ok {
            assert(m =~= hrtf_magic());
        } else {
            if m == hrtf_magic() {
                assert(m[0] == 0x4D && m[1] == 0x69 && m[2] == 0x6E && m[3] == 0x50);
                assert(m[4] == 0x48 && m[5] == 0x52 && m[6] == 0x30 && m[7] == 0x31);
            }
        }
    }
    ok
}

/// Guesses the format of a file from its first bytes.
pub fn guess_format(buf: &[u8]) -> (r: GuessedFormat)
    ensures
        r == spec_guess_format(buf@),
{
    if mainheader(buf).is_ok() {
        return GuessedFormat::DDArchive;
    }
    if tex2_header(buf).is_ok() {
        return GuessedFormat::Texture2;
    }
    if glsl_file_header(buf).is_ok() {
        return GuessedFormat::GLSLShader;
    }
    if has_hrtf_magic(buf) {
        return GuessedFormat::HRTF;
    }
    GuessedFormat::Unknown
}

/// What an archive holds, in three numbers.
#[derive(Debug, PartialEq, Eq, Clone, Copy)]
pub struct ArchiveSummary {
    /// Bytes before the first payload: main header and table of contents
    pub header_bytes: u64,
    /// Number of entries
    pub file_count: usize,
    /// Bytes of all payloads together
    pub total_size: u128,
}

/// Sums up an archive from its main header and its entries.
pub fn summarize(header: &DDMainHeader, entries: &Vec<DDSubFileHeader>) -> (r: ArchiveSummary)
    ensures
        r.header_bytes == header.header_length + 12,
        r.file_count == entries@.len(),
        r.total_size == payload_size(toc_view(entries@)),
{
    let ghost all = toc_view(entries@);
    let mut total: u128 = 0;
    let mut i: usize = 0;
    assert(all.take(0) == Seq::<SubFileHeaderView>::empty());
    while i < entries.len()
        invariant
            i <= entries@.len(),
            all == toc_view(entries@),
            total == payload_size(all.take(i as int)),
            total <= i * 0xFFFF_FFFF,
        decreases entries@.len() - i,
    {
        proof {
            lemma_payload_size_grows(all, i as int);
            assert(all[i as int].size == entries@[i as int].size);
        }
        total = total + entries[i].size as u128;
        i += 1;
    }
    assert(all.take(i as int) == all);
    ArchiveSummary {
        header_bytes: header.header_length as u64 + 12,
        file_count: entries.len(),
        total_size: total,
    }
}

} // verus!
