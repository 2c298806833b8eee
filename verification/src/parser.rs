//! The archive's main header and table of contents, read from bytes and
//! written back to them.
//!
//! An archive starts with twelve bytes of main header, followed by the table
//! of contents: one record per payload and two zero bytes that close the
//! table. All integers are little-endian.

use crate::error::DDError;
use crate::types::{
    magic_bytes, toc_view, DDFiletype, DDMainHeader, DDSubFileHeader, MainHeaderView,
    SubFileHeaderView,
};
use crate::wire::{
    le_bytes_u16, le_bytes_u32, lemma_le_u16_of_bytes, lemma_le_u32_of_bytes, lossy_text,
    read_u16_le, read_u32_le, spec_le_u16, spec_le_u32, text_lossy, write_u16_le, write_u32_le,
};
use vstd::prelude::*;
use vstd::slice::slice_subrange;
use vstd::utf8::*;

verus! {

/// `p` is the place of the first zero byte of `b`.
pub open spec fn is_first_nul(b: Seq<u8>, p: int) -> bool {
    &&& 0 <= p < b.len()
    &&& b[p] == 0
    &&& forall|i: int| 0 <= i < p ==> b[i] != 0
}

/// `b` holds a zero byte.
pub open spec fn has_nul(b: Seq<u8>) -> bool {
    exists|p: int| is_first_nul(b, p)
}

/// The place of the first zero byte of `b`, where it has one.
pub open spec fn first_nul(b: Seq<u8>) -> int {
    choose|p: int| is_first_nul(b, p)
}

/// There is only one first zero byte.
proof fn lemma_first_nul_unique(b: Seq<u8>, p: int)
    requires
        is_first_nul(b, p),
    ensures
        has_nul(b),
        first_nul(b) == p,
{
    let q = first_nul(b);
    assert(is_first_nul(b, q));
    if q < p {
        assert(b[q] != 0);
    }
    if p < q {
        assert(b[p] != 0);
    }
}

/// A sequence without a zero byte has no first one.
proof fn lemma_no_nul(b: Seq<u8>)
    requires
        forall|i: int| 0 <= i < b.len() ==> b[i] != 0,
    ensures
        !has_nul(b),
{
    if has_nul(b) {
        let q = first_nul(b);
        assert(is_first_nul(b, q));
        assert(b[q] != 0);
    }
}

/// The record that starts `b`, with the number of bytes it takes: a 16-bit
/// type code, the filename up to its closing zero byte, then offset, size
/// and timestamp. `None` when `b` ends before the record does.
pub open spec fn spec_subheader(b: Seq<u8>) -> Option<(SubFileHeaderView, int)> {
    if b.len() < 2 || !has_nul(b.skip(2)) {
        None
    } else {
        let n = first_nul(b.skip(2));
        if b.len() < n + 15 {
            None
        } else {
            Some(
                (
                    SubFileHeaderView {
                        file_type: DDFiletype::spec_new(spec_le_u16(b)),
                        filename: lossy_text(b.subrange(2, 2 + n)),
                        offset: spec_le_u32(b.skip(n + 3)),
                        size: spec_le_u32(b.skip(n + 7)),
                        timestamp: spec_le_u32(b.skip(n + 11)),
                    },
                    n + 15,
                ),
            )
        }
    }
}

/// The place of the first zero byte at or after `start`.
fn find_nul(input: &[u8], start: usize) -> (r: Option<usize>)
    requires
        start <= input@.len(),
    ensures
        match r {
            Some(i) => start <= i < input@.len() && is_first_nul(
                input@.skip(start as int),
                i - start,
            ),
            None => !has_nul(input@.skip(start as int)),
        },
{
    let mut i: usize = start;
    while i < input.len()
        invariant
            start <= i <= input@.len(),
            forall|j: int| start <= j < i ==> input@[j] != 0,
        decreases input@.len() - i,
    {
        if input[i] == 0 {
            return Some(i);
        }
        i += 1;
    }
    proof {
        lemma_no_nul(input@.skip(start as int));
    }
    None
}

/// Reads the record that starts at `pos`. On success the second value is the
/// number of bytes that the record takes.
pub fn subheader(input: &[u8], pos: usize) -> (r: Option<(DDSubFileHeader, usize)>)
    ensures
        match r {
            Some((e, n)) => spec_subheader(input@.skip(pos as int)) == Some((e@, n as int))
                && pos + n <= input@.len() && n >= 15,
            None => pos > input@.len() || spec_subheader(input@.skip(pos as int)) is None,
        },
{
    let ghost b = input@.skip(pos as int);
    let len = input.len();
    if pos > len || len - pos < 2 {
        return None;
    }
    let code = match read_u16_le(input, pos) {
        Some(c) => c,
        None => { return None; },
    };
    let end = match find_nul(input, pos + 2) {
        Some(i) => i,
        None => {
            assert(input@.skip(pos + 2) == b.skip(2));
            return None;
        },
    };
    let ghost n = end - pos - 2;
    proof {
        assert(input@.skip(pos + 2) == b.skip(2));
        lemma_first_nul_unique(b.skip(2), n);
    }
    if len - end < 13 {
        return None;
    }
    let name_bytes = slice_subrange(input, pos + 2, end);
    assert(name_bytes@ == b.subrange(2, 2 + n));
    let filename = text_lossy(name_bytes);
    let offset = match read_u32_le(input, end + 1) {
        Some(v) => v,
        None => { return None; },
    };
    let size = match read_u32_le(input, end + 5) {
        Some(v) => v,
        None => { return None; },
    };
    let timestamp = match read_u32_le(input, end + 9) {
        Some(v) => v,
        None => { return None; },
    };
    proof {
        assert(input@.skip(end + 1) == b.skip(n + 3));
        assert(input@.skip(end + 5) == b.skip(n + 7));
        assert(input@.skip(end + 9) == b.skip(n + 11));
    }
    let entry = DDSubFileHeader {
        file_type: DDFiletype::new(code),
        filename,
        offset,
        size,
        timestamp,
    };
    Some((entry, end - pos + 13))
}

/// `rest` with `acc` in front of it, where there is a `rest`.
pub open spec fn prepend(
    acc: Seq<SubFileHeaderView>,
    rest: Option<Seq<SubFileHeaderView>>,
) -> Option<Seq<SubFileHeaderView>> {
    match rest {
        Some(r) => Some(acc + r),
        None => None,
    }
}

/// The records of a table of contents that starts `b`: record after record
/// until two zero bytes stand where the next record would start. What
/// follows those two bytes is not looked at. `None` when `b` ends before
/// the closing zero bytes are met.
pub open spec fn spec_toc(b: Seq<u8>) -> Option<Seq<SubFileHeaderView>>
    decreases b.len(),
{
    if b.len() < 2 {
        None
    } else if b[0] == 0 && b[1] == 0 {
        Some(Seq::empty())
    } else {
        match spec_subheader(b) {
            None => None,
            Some((e, n)) => if 15 <= n <= b.len() {
                prepend(seq![e], spec_toc(b.skip(n)))
            } else {
                None
            },
        }
    }
}

/// Reads the table of contents that `window` holds.
pub fn parse_toc(window: &[u8]) -> (r: Result<Vec<DDSubFileHeader>, DDError>)
    ensures
        match r {
            Ok(entries) => spec_toc(window@) == Some(toc_view(entries@)),
            Err(e) => spec_toc(window@) is None && e == DDError::TruncatedRecord,
        },
{
    let mut entries: Vec<DDSubFileHeader> = Vec::new();
    let mut pos: usize = 0;
    let len = window.len();
    assert(toc_view(entries@) + Seq::<SubFileHeaderView>::empty() == Seq::<
        SubFileHeaderView,
    >::empty());
    assert(window@.skip(0) == window@);
    loop
        invariant
            len == window@.len(),
            pos <= len,
            spec_toc(window@) == prepend(toc_view(entries@), spec_toc(window@.skip(pos as int))),
        decreases len - pos,
    {
        let ghost b = window@.skip(pos as int);
        if len - pos < 2 {
            return Err(DDError::TruncatedRecord);
        }
        if window[pos] == 0 && window[pos + 1] == 0 {
            assert(b[0] == 0 && b[1] == 0);
            assert(toc_view(entries@) + Seq::<SubFileHeaderView>::empty() == toc_view(entries@));
            return Ok(entries);
        }
        assert(!(b[0] == 0 && b[1] == 0));
        match subheader(window, pos) {
            None => {
                return Err(DDError::TruncatedRecord);
            },
            Some((entry, n)) => {
                let ghost before = toc_view(entries@);
                let ghost e = entry@;
                entries.push(entry);
                proof {
                    assert(b.skip(n as int) == window@.skip(pos + n));
                    assert(toc_view(entries@) == before + seq![e]);
                    let rest = spec_toc(b.skip(n as int));
                    if rest is Some {
                        assert(before + (seq![e] + rest->0) == (before + seq![e]) + rest->0);
                    }
                }
                pos = pos + n;
            },
        }
    }
}

/// The main header that starts `b`. The signature is checked as soon as its
/// eight bytes are there, before the length is asked for.
pub open spec fn spec_mainheader(b: Seq<u8>) -> Result<MainHeaderView, DDError> {
    if b.len() < 8 {
        Err(DDError::IncompleteInput)
    } else if b.subrange(0, 8) != magic_bytes() {
        Err(DDError::MalformedMagic)
    } else if b.len() < 12 {
        Err(DDError::IncompleteInput)
    } else {
        Ok(MainHeaderView { magic_number: magic_bytes(), header_length: spec_le_u32(b.skip(8)) })
    }
}

/// Tells whether `input` starts with the archive signature.
pub fn has_magic(input: &[u8]) -> (r: bool)
    ensures
        r == (input@.len() >= 8 && input@.subrange(0, 8) == magic_bytes()),
{
    if input.len() < 8 {
        return false;
    }
    let ok = input[0] == 0x3A && input[1] == 0x68 && input[2] == 0x78 && input[3] == 0x3A
        && input[4] == 0x72 && input[5] == 0x67 && input[6] == 0x3A && input[7] == 0x01;
    proof {
        let m = input@.subrange(0, 8);
        if ok {
            assert(m =~= magic_bytes());
        } else {
            if m == magic_bytes() {
                assert(m[0] == 0x3A && m[1] == 0x68 && m[2] == 0x78 && m[3] == 0x3A);
                assert(m[4] == 0x72 && m[5] == 0x67 && m[6] == 0x3A && m[7] == 0x01);
            }
        }
    }
    ok
}

/// The signature as a vector of its own.
pub fn magic() -> (r: Vec<u8>)
    ensures
        r@ == magic_bytes(),
{
    let mut v: Vec<u8> = Vec::new();
    v.push(0x3A);
    v.push(0x68);
    v.push(0x78);
    v.push(0x3A);
    v.push(0x72);
    v.push(0x67);
    v.push(0x3A);
    v.push(0x01);
    assert(v@ =~= magic_bytes());
    v
}

/// Reads the main header from the first twelve bytes of `input`.
pub fn mainheader(input: &[u8]) -> (r: Result<DDMainHeader, DDError>)
    ensures
        match r {
            Ok(h) => spec_mainheader(input@) == Ok::<MainHeaderView, DDError>(h@),
            Err(e) => spec_mainheader(input@) == Err::<MainHeaderView, DDError>(e),
        },
{
    if input.len() < 8 {
        return Err(DDError::IncompleteInput);
    }
    if !has_magic(input) {
        return Err(DDError::MalformedMagic);
    }
    match read_u32_le(input, 8) {
        None => Err(DDError::IncompleteInput),
        Some(header_length) => Ok(DDMainHeader { magic_number: magic(), header_length }),
    }
}

/// The main header and the table of contents that start `b`. The table is
/// read from the window of `header_length` bytes that follows the main
/// header, and from nothing after it.
pub open spec fn spec_header_section(b: Seq<u8>) -> Result<
    (MainHeaderView, Seq<SubFileHeaderView>),
    DDError,
> {
    match spec_mainheader(b) {
        Err(e) => Err(e),
        Ok(h) => if b.len() < 12 + h.header_length {
            Err(DDError::IncompleteInput)
        } else {
            match spec_toc(b.subrange(12, 12 + h.header_length)) {
                None => Err(DDError::TruncatedRecord),
                Some(t) => Ok((h, t)),
            }
        },
    }
}

/// Reads the main header and the whole table of contents from the start of
/// an archive.
pub fn header_section_bound(input: &[u8]) -> (r: Result<
    (DDMainHeader, Vec<DDSubFileHeader>),
    DDError,
>)
    ensures
        match r {
            Ok((h, entries)) => spec_header_section(input@) == Ok::<
                (MainHeaderView, Seq<SubFileHeaderView>),
                DDError,
            >((h@, toc_view(entries@))),
            Err(e) => spec_header_section(input@) == Err::<
                (MainHeaderView, Seq<SubFileHeaderView>),
                DDError,
            >(e),
        },
{
    let main = match mainheader(input) {
        Ok(h) => h,
        Err(e) => { return Err(e); },
    };
    let toc_len = main.header_length as usize;
    if input.len() - 12 < toc_len {
        return Err(DDError::IncompleteInput);
    }
    let window = slice_subrange(input, 12, 12 + toc_len);
    match parse_toc(window) {
        Ok(entries) => Ok((main, entries)),
        Err(e) => Err(e),
    }
}

/// What the two reads of an archive's start amount to: `first` must be the
/// twelve bytes of the main header and `rest` the table of contents in the
/// length that the main header declares, no more and no less.
pub open spec fn spec_read_header(first: Seq<u8>, rest: Seq<u8>) -> Result<
    (MainHeaderView, Seq<SubFileHeaderView>),
    DDError,
> {
    if first.len() != 12 {
        Err(DDError::IncompleteInput)
    } else {
        match spec_mainheader(first) {
            Err(e) => Err(e),
            Ok(h) => if rest.len() != h.header_length {
                Err(DDError::IncompleteInput)
            } else {
                spec_header_section(first + rest)
            },
        }
    }
}

/// First step of reading an archive from a stream: from the twelve bytes
/// that were read first, the number of bytes to read next.
pub fn toc_bytes_wanted(first: &[u8]) -> (r: Result<usize, DDError>)
    ensures
        match r {
            Ok(n) => first@.len() == 12 && spec_mainheader(first@) is Ok && n
                == spec_mainheader(first@)->Ok_0.header_length,
            Err(e) => if first@.len() != 12 {
                e == DDError::IncompleteInput
            } else {
                spec_mainheader(first@) == Err::<MainHeaderView, DDError>(e)
            },
        },
{
    if first.len() != 12 {
        return Err(DDError::IncompleteInput);
    }
    match mainheader(first) {
        Ok(h) => Ok(h.header_length as usize),
        Err(e) => Err(e),
    }
}

/// Second step: the twelve bytes read first and the bytes read next are put
/// together and read as main header and table of contents.
pub fn read_header(first: &[u8], rest: &[u8]) -> (r: Result<
    (DDMainHeader, Vec<DDSubFileHeader>),
    DDError,
>)
    ensures
        match r {
            Ok((h, entries)) => spec_read_header(first@, rest@) == Ok::<
                (MainHeaderView, Seq<SubFileHeaderView>),
                DDError,
            >((h@, toc_view(entries@))),
            Err(e) => spec_read_header(first@, rest@) == Err::<
                (MainHeaderView, Seq<SubFileHeaderView>),
                DDError,
            >(e),
        },
{
    let wanted = match toc_bytes_wanted(first) {
        Ok(n) => n,
        Err(e) => { return Err(e); },
    };
    if rest.len() != wanted {
        return Err(DDError::IncompleteInput);
    }
    let mut whole: Vec<u8> = Vec::new();
    whole.extend_from_slice(first);
    whole.extend_from_slice(rest);
    assert(whole@ =~= first@ + rest@);
    header_section_bound(whole.as_slice())
}

/// The bytes of one record: type code, filename, a zero byte, then offset,
/// size and timestamp.
pub open spec fn entry_bytes(e: SubFileHeaderView) -> Seq<u8> {
    le_bytes_u16(e.file_type.code()) + encode_utf8(e.filename) + seq![0u8] + le_bytes_u32(
        e.offset,
    ) + le_bytes_u32(e.size) + le_bytes_u32(e.timestamp)
}

/// Number of bytes of one record.
pub open spec fn entry_len(e: SubFileHeaderView) -> nat {
    2 + encode_utf8(e.filename).len() + 1 + 4 + 4 + 4
}

/// The bytes of the records, one after the other.
pub open spec fn entries_bytes(entries: Seq<SubFileHeaderView>) -> Seq<u8>
    decreases entries.len(),
{
    if entries.len() == 0 {
        Seq::empty()
    } else {
        entries_bytes(entries.drop_last()) + entry_bytes(entries.last())
    }
}

/// The bytes of a table of contents: its records and the two zero bytes
/// that close it.
pub open spec fn toc_bytes(entries: Seq<SubFileHeaderView>) -> Seq<u8> {
    entries_bytes(entries) + seq![0u8, 0u8]
}

/// The length that the main header declares for a table of contents: two,
/// and for each record the length of its name and fifteen more.
pub open spec fn toc_length(entries: Seq<SubFileHeaderView>) -> nat
    decreases entries.len(),
{
    if entries.len() == 0 {
        2
    } else {
        toc_length(entries.drop_last()) + entry_len(entries.last())
    }
}

/// The bytes from the start of an archive up to its first payload.
pub open spec fn header_section_bytes(entries: Seq<SubFileHeaderView>) -> Seq<u8> {
    magic_bytes() + le_bytes_u32(toc_length(entries) as u32) + toc_bytes(entries)
}

/// An entry that reading gives back as it was written: its type is the one
/// that its code stands for, the code is not zero, which would read as the
/// end of the table, and the name holds no zero byte.
pub open spec fn valid_entry(e: SubFileHeaderView) -> bool {
    &&& e.file_type.is_canonical()
    &&& e.file_type.code() != 0
    &&& forall|i: int| 0 <= i < encode_utf8(e.filename).len() ==> encode_utf8(e.filename)[i] != 0
}

/// Each entry of the table is valid.
pub open spec fn valid_toc(entries: Seq<SubFileHeaderView>) -> bool {
    forall|i: int| 0 <= i < entries.len() ==> valid_entry(#[trigger] entries[i])
}

/// A record has the length that `entry_len` gives.
pub proof fn lemma_entry_bytes_len(e: SubFileHeaderView)
    ensures
        entry_bytes(e).len() == entry_len(e),
{
}

/// The declared length of a table is the number of its bytes.
pub proof fn lemma_toc_bytes_len(entries: Seq<SubFileHeaderView>)
    ensures
        toc_bytes(entries).len() == toc_length(entries),
        entries_bytes(entries).len() + 2 == toc_length(entries),
    decreases entries.len(),
{
    if entries.len() > 0 {
        lemma_toc_bytes_len(entries.drop_last());
        lemma_entry_bytes_len(entries.last());
    }
}

/// A table grows with each record: no part of it is longer than the whole.
proof fn lemma_toc_length_grows(entries: Seq<SubFileHeaderView>, k: int)
    requires
        0 <= k <= entries.len(),
    ensures
        toc_length(entries.take(k)) <= toc_length(entries),
    decreases entries.len(),
{
    if k == entries.len() {
        assert(entries.take(k) == entries);
    } else {
        lemma_toc_length_grows(entries.drop_last(), k);
        assert(entries.drop_last().take(k) == entries.take(k));
    }
}

/// The bytes of a table start with the bytes of its first record.
proof fn lemma_entries_bytes_head(e: SubFileHeaderView, rest: Seq<SubFileHeaderView>)
    ensures
        entries_bytes(seq![e] + rest) == entry_bytes(e) + entries_bytes(rest),
    decreases rest.len(),
{
    let all = seq![e] + rest;
    if rest.len() == 0 {
        assert(all.drop_last() == Seq::<SubFileHeaderView>::empty());
        assert(entries_bytes(all.drop_last()) == Seq::<u8>::empty());
        assert(entries_bytes(all) == entry_bytes(e));
        assert(entry_bytes(e) + entries_bytes(rest) == entry_bytes(e));
    } else {
        lemma_entries_bytes_head(e, rest.drop_last());
        assert(all.drop_last() == seq![e] + rest.drop_last());
        assert(all.last() == rest.last());
        assert(entries_bytes(all) == (entry_bytes(e) + entries_bytes(rest.drop_last()))
            + entry_bytes(rest.last()));
        assert(entries_bytes(all) == entry_bytes(e) + entries_bytes(rest));
    }
}

/// The bytes of a record followed by `tail`, put together from the right.
spec fn record_then(e: SubFileHeaderView, tail: Seq<u8>) -> Seq<u8> {
    le_bytes_u16(e.file_type.code()) + (encode_utf8(e.filename) + (seq![0u8] + (le_bytes_u32(
        e.offset,
    ) + (le_bytes_u32(e.size) + (le_bytes_u32(e.timestamp) + tail)))))
}

/// Putting the bytes together from the right or from the left is the same.
proof fn lemma_record_then(e: SubFileHeaderView, tail: Seq<u8>)
    ensures
        entry_bytes(e) + tail == record_then(e, tail),
{
    let a = le_bytes_u16(e.file_type.code());
    let b = encode_utf8(e.filename);
    let c = seq![0u8];
    let d = le_bytes_u32(e.offset);
    let f = le_bytes_u32(e.size);
    let g = le_bytes_u32(e.timestamp);
    let r5 = g + tail;
    let r4 = f + r5;
    let r3 = d + r4;
    let r2 = c + r3;
    let r1 = b + r2;
    assert((a + b + c + d + f + g) + tail =~= (a + b + c + d + f) + r5);
    assert((a + b + c + d + f) + r5 =~= (a + b + c + d) + r4);
    assert((a + b + c + d) + r4 =~= (a + b + c) + r3);
    assert((a + b + c) + r3 =~= (a + b) + r2);
    assert((a + b) + r2 =~= a + r1);
}

/// What follows the first part of a sequence is its second part.
proof fn lemma_skip_first_part(a: Seq<u8>, b: Seq<u8>)
    ensures
        (a + b).skip(a.len() as int) == b,
        (a + b).subrange(0, a.len() as int) == a,
{
    assert((a + b).skip(a.len() as int) =~= b);
    assert((a + b).subrange(0, a.len() as int) =~= a);
}

/// The name of a record and what stands behind it, found by looking for
/// the first zero byte.
proof fn lemma_name_then(name: Seq<u8>, rest: Seq<u8>)
    requires
        forall|i: int| 0 <= i < name.len() ==> name[i] != 0,
    ensures
        has_nul(name + (seq![0u8] + rest)),
        first_nul(name + (seq![0u8] + rest)) == name.len(),
        (name + (seq![0u8] + rest)).subrange(0, name.len() as int) == name,
        (name + (seq![0u8] + rest)).skip(name.len() as int + 1) == rest,
{
    let s = name + (seq![0u8] + rest);
    let n = name.len() as int;
    assert(s[n] == 0);
    assert forall|i: int| 0 <= i < n implies s[i] != 0 by {
        assert(s[i] == name[i]);
    }
    assert(is_first_nul(s, n));
    lemma_first_nul_unique(s, n);
    assert(s.subrange(0, n) =~= name);
    assert(s.skip(n + 1) =~= rest);
}

/// Three 32-bit fields are read back from their bytes.
proof fn lemma_three_fields(x: u32, y: u32, z: u32, tail: Seq<u8>)
    ensures
        spec_le_u32(le_bytes_u32(x) + (le_bytes_u32(y) + (le_bytes_u32(z) + tail))) == x,
        spec_le_u32((le_bytes_u32(x) + (le_bytes_u32(y) + (le_bytes_u32(z) + tail))).skip(4))
            == y,
        spec_le_u32((le_bytes_u32(x) + (le_bytes_u32(y) + (le_bytes_u32(z) + tail))).skip(8))
            == z,
        (le_bytes_u32(x) + (le_bytes_u32(y) + (le_bytes_u32(z) + tail))).len() == 12 + tail.len(),
{
    let r2 = le_bytes_u32(z) + tail;
    let r1 = le_bytes_u32(y) + r2;
    let r0 = le_bytes_u32(x) + r1;
    lemma_le_u32_of_bytes(x, r1);
    lemma_le_u32_of_bytes(y, r2);
    lemma_le_u32_of_bytes(z, tail);
    lemma_skip_first_part(le_bytes_u32(x), r1);
    assert(r0.skip(4) == r1);
    lemma_skip_first_part(le_bytes_u32(y), r2);
    assert(r0.skip(8) =~= r1.skip(4));
}

/// What a record is read as, once the end of its name is known.
proof fn lemma_subheader_at(b: Seq<u8>, n: int)
    requires
        b.len() >= n + 15,
        is_first_nul(b.skip(2), n),
    ensures
        spec_subheader(b) == Some(
            (
                SubFileHeaderView {
                    file_type: DDFiletype::spec_new(spec_le_u16(b)),
                    filename: lossy_text(b.subrange(2, 2 + n)),
                    offset: spec_le_u32(b.skip(n + 3)),
                    size: spec_le_u32(b.skip(n + 7)),
                    timestamp: spec_le_u32(b.skip(n + 11)),
                },
                n + 15,
            ),
        ),
{
    lemma_first_nul_unique(b.skip(2), n);
}

/// A valid entry is read back from its own bytes, whatever follows them.
pub proof fn lemma_subheader_of_entry(e: SubFileHeaderView, tail: Seq<u8>)
    requires
        valid_entry(e),
    ensures
        spec_subheader(entry_bytes(e) + tail) == Some((e, entry_len(e) as int)),
{
    let name = encode_utf8(e.filename);
    let n = name.len() as int;
    let code = e.file_type.code();
    let fields = le_bytes_u32(e.offset) + (le_bytes_u32(e.size) + (le_bytes_u32(e.timestamp)
        + tail));
    let named = name + (seq![0u8] + fields);
    let b = le_bytes_u16(code) + named;
    assert(entry_bytes(e) + tail == b) by {
        lemma_record_then(e, tail);
    }
    assert(spec_le_u16(b) == code) by {
        lemma_le_u16_of_bytes(code, named);
    }
    assert(b.skip(2) == named) by {
        lemma_skip_first_part(le_bytes_u16(code), named);
    }
    lemma_name_then(name, fields);
    lemma_three_fields(e.offset, e.size, e.timestamp, tail);
    assert(is_first_nul(b.skip(2), n)) by {
        assert(has_nul(named));
        let q = first_nul(named);
        assert(is_first_nul(named, q));
    }
    assert(b.subrange(2, 2 + n) == name) by {
        assert(b.subrange(2, 2 + n) =~= named.subrange(0, n));
    }
    assert(b.skip(n + 3) == fields) by {
        assert(b.skip(n + 3) =~= named.skip(n + 1));
    }
    assert(b.skip(n + 7) == fields.skip(4)) by {
        assert(b.skip(n + 7) =~= fields.skip(4));
    }
    assert(b.skip(n + 11) == fields.skip(8)) by {
        assert(b.skip(n + 11) =~= fields.skip(8));
    }
    assert(lossy_text(name) == e.filename) by {
        encode_utf8_valid_utf8(e.filename);
        encode_utf8_decode_utf8(e.filename);
    }
    assert(b.len() == n + 15 + tail.len());
    lemma_subheader_at(b, n);
    assert(DDFiletype::spec_new(code) == e.file_type);
}

/// The first two bytes of a record are its type code.
proof fn lemma_record_starts_with_code(e: SubFileHeaderView, tail: Seq<u8>)
    ensures
        (entry_bytes(e) + tail).len() >= 2,
        (entry_bytes(e) + tail)[0] == (e.file_type.code() % 256) as u8,
        (entry_bytes(e) + tail)[1] == (e.file_type.code() / 256) as u8,
{
    lemma_record_then(e, tail);
    let code = e.file_type.code();
    let b = record_then(e, tail);
    assert(b[0] == le_bytes_u16(code)[0]);
    assert(b[1] == le_bytes_u16(code)[1]);
}

/// Reading what was written gives back what was written: a table of valid
/// entries is read back from its bytes, and what follows its two closing
/// zero bytes plays no part.
pub proof fn lemma_toc_roundtrip(entries: Seq<SubFileHeaderView>, tail: Seq<u8>)
    requires
        valid_toc(entries),
    ensures
        spec_toc(toc_bytes(entries) + tail) == Some(entries),
    decreases entries.len(),
{
    let b = toc_bytes(entries) + tail;
    if entries.len() == 0 {
        assert(b[0] == 0 && b[1] == 0);
        assert(entries == Seq::<SubFileHeaderView>::empty());
    } else {
        let e = entries[0];
        let rest = entries.drop_first();
        assert(entries == seq![e] + rest);
        lemma_entries_bytes_head(e, rest);
        let t = toc_bytes(rest) + tail;
        assert(b == entry_bytes(e) + t) by {
            assert(toc_bytes(entries) == (entry_bytes(e) + entries_bytes(rest)) + seq![0u8, 0u8]);
            assert(((entry_bytes(e) + entries_bytes(rest)) + seq![0u8, 0u8]) + tail =~= entry_bytes(
                e,
            ) + ((entries_bytes(rest) + seq![0u8, 0u8]) + tail));
        }
        assert(valid_entry(e));
        assert(valid_toc(rest)) by {
            assert forall|i: int| 0 <= i < rest.len() implies valid_entry(
                #[trigger] rest[i],
            ) by {
                assert(rest[i] == entries[i + 1]);
            }
        }
        lemma_record_starts_with_code(e, t);
        let code = e.file_type.code();
        assert(!(b[0] == 0 && b[1] == 0)) by {
            assert(b[0] == (code % 256) as u8);
            assert(b[1] == (code / 256) as u8);
        }
        lemma_subheader_of_entry(e, t);
        lemma_entry_bytes_len(e);
        assert(b.skip(entry_len(e) as int) == t) by {
            lemma_skip_first_part(entry_bytes(e), t);
        }
        lemma_toc_roundtrip(rest, tail);
    }
}

/// Reading what was written gives back what was written, for the whole
/// start of an archive: the main header carries the length of the table,
/// and the table is read back entry for entry. Payload bytes may follow.
pub proof fn lemma_header_section_roundtrip(entries: Seq<SubFileHeaderView>, payload: Seq<u8>)
    requires
        valid_toc(entries),
        toc_length(entries) <= u32::MAX,
    ensures
        spec_header_section(header_section_bytes(entries) + payload) == Ok::<
            (MainHeaderView, Seq<SubFileHeaderView>),
            DDError,
        >(
            (
                MainHeaderView {
                    magic_number: magic_bytes(),
                    header_length: toc_length(entries) as u32,
                },
                entries,
            ),
        ),
{
    let len = toc_length(entries) as u32;
    let b = header_section_bytes(entries) + payload;
    let after_len = toc_bytes(entries) + payload;
    lemma_toc_bytes_len(entries);
    assert(b.subrange(0, 8) == magic_bytes());
    assert(b.skip(8) == le_bytes_u32(len) + after_len);
    lemma_le_u32_of_bytes(len, after_len);
    assert(b.subrange(12, 12 + len) == toc_bytes(entries));
    assert(toc_bytes(entries) + Seq::<u8>::empty() == toc_bytes(entries));
    lemma_toc_roundtrip(entries, Seq::empty());
}

impl DDSubFileHeader {
    /// Appends the record of this entry.
    pub fn write(&self, dst: &mut Vec<u8>)
        ensures
            final(dst)@ == old(dst)@ + entry_bytes(self@),
    {
        write_u16_le(dst, self.file_type.to_u16());
        dst.extend_from_slice(self.filename.as_str().as_bytes());
        dst.push(0);
        write_u32_le(dst, self.offset);
        write_u32_le(dst, self.size);
        write_u32_le(dst, self.timestamp);
        assert(dst@ =~= old(dst)@ + entry_bytes(self@));
    }

    /// Number of bytes of the record of this entry, where that fits 32 bits.
    pub fn record_len(&self) -> (r: Option<u32>)
        ensures
            r == (if entry_len(self@) <= u32::MAX {
                Some(entry_len(self@) as u32)
            } else {
                None
            }),
    {
        let n = self.filename.as_str().as_bytes().len();
        if n > 0xFFFF_FFF0 {
            None
        } else {
            Some((n + 15) as u32)
        }
    }
}

impl DDMainHeader {
    /// The main header of an archive whose table of contents has this length.
    pub fn new(header_length: u32) -> (r: Self)
        ensures
            r@ == (MainHeaderView { magic_number: magic_bytes(), header_length }),
    {
        DDMainHeader { magic_number: magic(), header_length }
    }

    /// Appends the signature and the length as the header holds them.
    pub fn write(&self, dst: &mut Vec<u8>)
        ensures
            final(dst)@ == old(dst)@ + self.magic_number@ + le_bytes_u32(self.header_length),
    {
        dst.extend_from_slice(self.magic_number.as_slice());
        write_u32_le(dst, self.header_length);
        assert(dst@ =~= old(dst)@ + self.magic_number@ + le_bytes_u32(self.header_length));
    }
}

/// The length to declare for a table with these entries, or
/// `LengthOverflow` when it does not fit the 32-bit field.
pub fn table_length(entries: &Vec<DDSubFileHeader>) -> (r: Result<u32, DDError>)
    ensures
        match r {
            Ok(n) => n == toc_length(toc_view(entries@)),
            Err(e) => e == DDError::LengthOverflow && toc_length(toc_view(entries@)) > u32::MAX,
        },
{
    let ghost all = toc_view(entries@);
    let mut total: u32 = 2;
    let mut i: usize = 0;
    assert(all.take(0) == Seq::<SubFileHeaderView>::empty());
    while i < entries.len()
        invariant
            i <= entries@.len(),
            all == toc_view(entries@),
            total == toc_length(all.take(i as int)),
        decreases entries@.len() - i,
    {
        proof {
            assert(all.take(i + 1).drop_last() == all.take(i as int));
            assert(all.take(i + 1).last() == entries@[i as int]@);
            lemma_toc_length_grows(all, i + 1);
        }
        let n = match entries[i].record_len() {
            Some(n) => n,
            None => { return Err(DDError::LengthOverflow); },
        };
        if n > u32::MAX - total {
            return Err(DDError::LengthOverflow);
        }
        total = total + n;
        i += 1;
    }
    assert(all.take(i as int) == all);
    Ok(total)
}

/// Appends the start of an archive: signature, length of the table, the
/// records in order and the two closing zero bytes. Nothing is appended
/// when the table is too long for its length field.
pub fn write_header_section(entries: &Vec<DDSubFileHeader>, dst: &mut Vec<u8>) -> (r: Result<
    (),
    DDError,
>)
    ensures
        match r {
            Ok(_) => toc_length(toc_view(entries@)) <= u32::MAX && final(dst)@ == old(dst)@
                + header_section_bytes(toc_view(entries@)),
            Err(e) => e == DDError::LengthOverflow && toc_length(toc_view(entries@)) > u32::MAX
                && final(dst)@ == old(dst)@,
        },
{
    let ghost all = toc_view(entries@);
    let length = match table_length(entries) {
        Ok(n) => n,
        Err(e) => { return Err(e); },
    };
    DDMainHeader::new(length).write(dst);
    let ghost start = dst@;
    assert(start == old(dst)@ + magic_bytes() + le_bytes_u32(length));
    let mut i: usize = 0;
    assert(all.take(0) == Seq::<SubFileHeaderView>::empty());
    assert(dst@ == start + entries_bytes(all.take(0)));
    while i < entries.len()
        invariant
            i <= entries@.len(),
            all == toc_view(entries@),
            dst@ == start + entries_bytes(all.take(i as int)),
        decreases entries@.len() - i,
    {
        proof {
            assert(all.take(i + 1).drop_last() == all.take(i as int));
            assert(all.take(i + 1).last() == entries@[i as int]@);
        }
        entries[i].write(dst);
        i += 1;
    }
    assert(all.take(i as int) == all);
    dst.push(0);
    dst.push(0);
    assert(dst@ =~= old(dst)@ + header_section_bytes(all));
    Ok(())
}

} // verus!
