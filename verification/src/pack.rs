//! Planning an archive from a list of source files: which type each file
//! has, in which order the entries stand, and where each payload goes.
//!
//! Entries are sorted by filename, so that the archive does not depend on
//! the order in which a directory happens to be listed. Payloads follow the
//! table of contents without gaps, in the order of their entries.

use crate::error::DDError;
use crate::order::{bytes_before, lemma_lex_lt_asymmetric, lemma_lex_lt_then_not_after, lex_lt};
use crate::parser::{entry_len, table_length, toc_length, valid_entry, valid_toc};
use crate::types::{
    magic_bytes, toc_view, DDFiletype, DDMainHeader, DDSubFileHeader, MainHeaderView,
    SubFileHeaderView,
};
use vstd::prelude::*;
use vstd::utf8::encode_utf8;

verus! {

/// One source file as it was listed.
#[derive(Debug, PartialEq, Eq, Clone)]
pub struct PackInput {
    /// Name under which the file is stored: its file name without extension
    pub filename: String,
    /// Extension of the file, without the dot; `None` where it has none
    pub extension: Option<String>,
    /// Time of the last modification as Unix time, or zero
    pub timestamp: u32,
    /// Length of the file in bytes
    pub size: u64,
}

/// What is written and in which order.
#[derive(Debug, PartialEq, Eq, Clone)]
pub struct PackPlan {
    /// The main header, with the length of the table of contents
    pub header: DDMainHeader,
    /// The entries in the order of the table, each with its final offset
    pub entries: Vec<DDSubFileHeader>,
    /// For each entry, the place of its source file in the list that was
    /// planned from
    pub sources: Vec<usize>,
}

impl PackInput {
    /// The bytes by which the file is sorted: those of its filename.
    pub open spec fn key(&self) -> Seq<u8> {
        encode_utf8(self.filename@)
    }

    /// The type that the extension stands for, if it stands for one.
    pub open spec fn spec_file_type(&self) -> Option<DDFiletype> {
        match self.extension {
            Some(e) => DDFiletype::spec_from_extension(e@),
            None => None,
        }
    }

    /// The entry for this file once its payload has a place.
    pub open spec fn entry_at(&self, offset: u32) -> SubFileHeaderView {
        SubFileHeaderView {
            file_type: self.spec_file_type().unwrap(),
            filename: self.filename@,
            offset,
            size: self.size as u32,
            timestamp: self.timestamp,
        }
    }

    /// The type of the file, inferred from its extension.
    pub fn file_type(&self) -> (r: Option<DDFiletype>)
        ensures
            r == self.spec_file_type(),
    {
        match &self.extension {
            Some(e) => DDFiletype::from_extension(e.as_str()),
            None => None,
        }
    }
}

/// Every file has an extension that stands for a type.
pub open spec fn all_resolved(inputs: Seq<PackInput>) -> bool {
    forall|i: int| 0 <= i < inputs.len() ==> (#[trigger] inputs[i]).spec_file_type() is Some
}

/// Number of bytes that the records of these files take in the table.
pub open spec fn names_total(inputs: Seq<PackInput>) -> nat
    decreases inputs.len(),
{
    if inputs.len() == 0 {
        0
    } else {
        names_total(inputs.drop_last()) + 15 + inputs.last().key().len()
    }
}

/// Number of bytes of all payloads together.
pub open spec fn payload_total(inputs: Seq<PackInput>) -> nat
    decreases inputs.len(),
{
    if inputs.len() == 0 {
        0
    } else {
        payload_total(inputs.drop_last()) + inputs.last().size as nat
    }
}

/// Length of the archive that holds these files: main header, table of
/// contents with its two closing bytes, and the payloads.
pub open spec fn archive_len(inputs: Seq<PackInput>) -> nat {
    12 + 2 + names_total(inputs) + payload_total(inputs)
}

/// `order` lists the places of all files, each once, sorted by filename;
/// files of the same name stay in the order in which they were listed.
pub open spec fn is_stable_order(inputs: Seq<PackInput>, order: Seq<usize>) -> bool {
    &&& order.len() == inputs.len()
    &&& forall|i: int| 0 <= i < order.len() ==> (#[trigger] order[i]) < inputs.len()
    &&& forall|i: int, j: int|
        0 <= i < j < order.len() ==> {
            &&& #[trigger] order[i] != #[trigger] order[j]
            &&& !lex_lt(inputs[order[j] as int].key(), inputs[order[i] as int].key())
            &&& (inputs[order[i] as int].key() == inputs[order[j] as int].key() ==> order[i]
                < order[j])
        }
}

/// Each payload starts where the one before it ends, and the first one
/// right after the table of contents: twelve bytes of main header and the
/// declared length of the table from the start of the archive.
pub open spec fn offsets_chained(entries: Seq<SubFileHeaderView>, header_length: u32) -> bool {
    forall|i: int|
        0 <= i < entries.len() ==> (#[trigger] entries[i]).offset == (if i == 0 {
            12 + header_length
        } else {
            entries[i - 1].offset + entries[i - 1].size
        })
}

/// Number of bytes of the payloads of these entries together.
pub open spec fn payload_size(entries: Seq<SubFileHeaderView>) -> nat
    decreases entries.len(),
{
    if entries.len() == 0 {
        0
    } else {
        payload_size(entries.drop_last()) + entries.last().size as nat
    }
}

/// The plan is the one for these files: the entries are the files in
/// sorted order, the header declares the length of their table, and the
/// offsets follow from it.
pub open spec fn plan_matches(inputs: Seq<PackInput>, plan: PackPlan) -> bool {
    let entries = toc_view(plan.entries@);
    &&& is_stable_order(inputs, plan.sources@)
    &&& entries.len() == inputs.len()
    &&& forall|i: int|
        0 <= i < entries.len() ==> {
            let source = inputs[plan.sources@[i] as int];
            #[trigger] entries[i] == source.entry_at(entries[i].offset)
        }
    &&& toc_length(entries) <= u32::MAX
    &&& plan.header@ == (MainHeaderView {
        magic_number: magic_bytes(),
        header_length: toc_length(entries) as u32,
    })
    &&& offsets_chained(entries, plan.header.header_length)
}

/// No part of a list needs more room in the table than the whole list.
proof fn lemma_totals_grow(inputs: Seq<PackInput>, k: int)
    requires
        0 <= k <= inputs.len(),
    ensures
        names_total(inputs.take(k)) <= names_total(inputs),
        payload_total(inputs.take(k)) <= payload_total(inputs),
    decreases inputs.len(),
{
    if k == inputs.len() {
        assert(inputs.take(k) == inputs);
    } else {
        lemma_totals_grow(inputs.drop_last(), k);
        assert(inputs.drop_last().take(k) == inputs.take(k));
    }
}

/// One more file adds its record and its payload.
proof fn lemma_totals_step(inputs: Seq<PackInput>, k: int)
    requires
        0 <= k < inputs.len(),
    ensures
        names_total(inputs.take(k + 1)) == names_total(inputs.take(k)) + 15 + inputs[k].key().len(),
        payload_total(inputs.take(k + 1)) == payload_total(inputs.take(k)) + inputs[k].size,
{
    assert(inputs.take(k + 1).drop_last() == inputs.take(k));
    assert(inputs.take(k + 1).last() == inputs[k]);
}

/// An entry put anywhere into a table adds its record and its payload.
proof fn lemma_insert_adds(entries: Seq<SubFileHeaderView>, pos: int, e: SubFileHeaderView)
    requires
        0 <= pos <= entries.len(),
    ensures
        toc_length(entries.insert(pos, e)) == toc_length(entries) + entry_len(e),
        payload_size(entries.insert(pos, e)) == payload_size(entries) + e.size,
    decreases entries.len(),
{
    let after = entries.insert(pos, e);
    if pos == entries.len() {
        assert(after.drop_last() == entries);
        assert(after.last() == e);
    } else {
        lemma_insert_adds(entries.drop_last(), pos, e);
        assert(after.drop_last() == entries.drop_last().insert(pos, e));
        assert(after.last() == entries.last());
    }
}

/// The payloads of the first entries take no more than those of all.
pub(crate) proof fn lemma_payload_size_grows(entries: Seq<SubFileHeaderView>, k: int)
    requires
        0 <= k <= entries.len(),
    ensures
        payload_size(entries.take(k)) <= payload_size(entries),
        k < entries.len() ==> payload_size(entries.take(k + 1)) == payload_size(entries.take(k))
            + entries[k].size,
    decreases entries.len(),
{
    if k == entries.len() {
        assert(entries.take(k) == entries);
    } else {
        lemma_payload_size_grows(entries.drop_last(), k);
        assert(entries.drop_last().take(k) == entries.take(k));
        assert(entries.take(k + 1).drop_last() == entries.take(k));
        assert(entries.take(k + 1).last() == entries[k]);
    }
}

/// The length of a table depends on the filenames alone.
proof fn lemma_toc_length_by_names(a: Seq<SubFileHeaderView>, b: Seq<SubFileHeaderView>)
    requires
        a.len() == b.len(),
        forall|i: int| 0 <= i < a.len() ==> a[i].filename == b[i].filename,
    ensures
        toc_length(a) == toc_length(b),
    decreases a.len(),
{
    if a.len() > 0 {
        lemma_toc_length_by_names(a.drop_last(), b.drop_last());
    }
}

/// In a plan that matches, each payload starts where the one before it
/// ends, and the first one at twelve plus the length of the table.
pub proof fn lemma_plan_offsets(inputs: Seq<PackInput>, plan: PackPlan, i: int)
    requires
        plan_matches(inputs, plan),
        0 <= i < plan.entries@.len(),
    ensures
        i == 0 ==> plan.entries@[0].offset == 12 + plan.header.header_length,
        i > 0 ==> plan.entries@[i].offset == plan.entries@[i - 1].offset + plan.entries@[i
            - 1].size,
        plan.header.header_length == toc_length(toc_view(plan.entries@)),
{
    let entries = toc_view(plan.entries@);
    assert(entries[i].offset == plan.entries@[i].offset);
    if i > 0 {
        assert(entries[i - 1].offset == plan.entries@[i - 1].offset);
    }
}

/// A type that an extension stands for is written and read back as itself,
/// and is not taken for the end of the table.
pub proof fn lemma_inferred_type_is_valid(ext: Seq<char>)
    requires
        DDFiletype::spec_from_extension(ext) is Some,
    ensures
        DDFiletype::spec_from_extension(ext).unwrap().is_canonical(),
        DDFiletype::spec_from_extension(ext).unwrap().code() != 0,
{
}

/// The table of a plan is read back as it is written, provided that no
/// filename holds a zero byte: every entry of the plan is then valid.
pub proof fn lemma_plan_is_valid(inputs: Seq<PackInput>, plan: PackPlan)
    requires
        all_resolved(inputs),
        plan_matches(inputs, plan),
        forall|i: int, j: int|
            0 <= i < inputs.len() && 0 <= j < inputs[i].key().len() ==> inputs[i].key()[j] != 0,
    ensures
        valid_toc(toc_view(plan.entries@)),
{
    let entries = toc_view(plan.entries@);
    assert forall|i: int| 0 <= i < entries.len() implies valid_entry(#[trigger] entries[i]) by {
        let k = plan.sources@[i] as int;
        let input = inputs[k];
        assert(entries[i] == input.entry_at(entries[i].offset));
        assert(input.spec_file_type() is Some);
        lemma_inferred_type_is_valid(input.extension.unwrap()@);
        assert forall|j: int| 0 <= j < encode_utf8(entries[i].filename).len() implies encode_utf8(
            entries[i].filename,
        )[j] != 0 by {
            assert(inputs[k].key()[j] != 0);
        }
    }
}

/// The type of each file, or the place of the first file that has none.
pub fn resolve_types(inputs: &Vec<PackInput>) -> (r: Result<Vec<DDFiletype>, DDError>)
    ensures
        match r {
            Ok(types) => {
                &&& all_resolved(inputs@)
                &&& types@.len() == inputs@.len()
                &&& forall|i: int|
                    0 <= i < types@.len() ==> inputs@[i].spec_file_type() == Some(
                        #[trigger] types@[i],
                    )
            },
            Err(DDError::UnresolvedFileType(i)) => {
                &&& i < inputs@.len()
                &&& inputs@[i as int].spec_file_type() is None
                &&& forall|j: int| 0 <= j < i ==> (#[trigger] inputs@[j]).spec_file_type() is Some
            },
            Err(_) => false,
        },
{
    let mut types: Vec<DDFiletype> = Vec::new();
    let mut i: usize = 0;
    while i < inputs.len()
        invariant
            i <= inputs@.len(),
            types@.len() == i,
            forall|j: int| 0 <= j < i ==> inputs@[j].spec_file_type() == Some(#[trigger] types@[j]),
            forall|j: int| 0 <= j < i ==> (#[trigger] inputs@[j]).spec_file_type() is Some,
        decreases inputs@.len() - i,
    {
        match inputs[i].file_type() {
            Some(t) => {
                types.push(t);
            },
            None => {
                assert(inputs@[i as int].spec_file_type() is None);
                return Err(DDError::UnresolvedFileType(i));
            },
        }
        i += 1;
    }
    Ok(types)
}

/// The length of the archive that holds these files, where it fits 32
/// bits.
pub fn measure(inputs: &Vec<PackInput>) -> (r: Result<u32, DDError>)
    ensures
        match r {
            Ok(total) => total == archive_len(inputs@),
            Err(e) => e == DDError::LengthOverflow && archive_len(inputs@) > u32::MAX,
        },
{
    let mut total: u32 = 14;
    let mut i: usize = 0;
    assert(inputs@.take(0) == Seq::<PackInput>::empty());
    while i < inputs.len()
        invariant
            i <= inputs@.len(),
            total == archive_len(inputs@.take(i as int)),
        decreases inputs@.len() - i,
    {
        proof {
            lemma_totals_step(inputs@, i as int);
            lemma_totals_grow(inputs@, i + 1);
        }
        let name_len = inputs[i].filename.as_str().as_bytes().len();
        let room = u32::MAX - total;
        if name_len > room as usize || room - (name_len as u32) < 15 {
            return Err(DDError::LengthOverflow);
        }
        let room = room - name_len as u32 - 15;
        let size = inputs[i].size;
        if size > room as u64 {
            return Err(DDError::LengthOverflow);
        }
        total = total + name_len as u32 + 15 + size as u32;
        i += 1;
    }
    assert(inputs@.take(i as int) == inputs@);
    Ok(total)
}

/// The entries for these files in sorted order, each with offset zero, and
/// for each entry the place of its file in the list.
fn sort_by_name(inputs: &Vec<PackInput>, types: &Vec<DDFiletype>) -> (r: (
    Vec<DDSubFileHeader>,
    Vec<usize>,
))
    requires
        types@.len() == inputs@.len(),
        forall|i: int|
            0 <= i < inputs@.len() ==> (#[trigger] inputs@[i]).spec_file_type() == Some(types@[i]),
        archive_len(inputs@) <= u32::MAX,
    ensures
        is_stable_order(inputs@, r.1@),
        r.0@.len() == inputs@.len(),
        forall|i: int|
            0 <= i < r.0@.len() ==> (#[trigger] r.0@[i])@ == inputs@[r.1@[i] as int].entry_at(0),
        toc_length(toc_view(r.0@)) == 2 + names_total(inputs@),
        payload_size(toc_view(r.0@)) == payload_total(inputs@),
{
    let mut entries: Vec<DDSubFileHeader> = Vec::new();
    let mut sources: Vec<usize> = Vec::new();
    let mut k: usize = 0;
    assert(inputs@.take(0) == Seq::<PackInput>::empty());
    assert(toc_view(entries@) == Seq::<SubFileHeaderView>::empty());
    while k < inputs.len()
        invariant
            k <= inputs@.len(),
            types@.len() == inputs@.len(),
            forall|i: int|
                0 <= i < inputs@.len() ==> (#[trigger] inputs@[i]).spec_file_type() == Some(
                    types@[i],
                ),
            archive_len(inputs@) <= u32::MAX,
            entries@.len() == k,
            sources@.len() == k,
            forall|i: int| 0 <= i < k ==> (#[trigger] sources@[i]) < k,
            forall|i: int, j: int|
                0 <= i < j < k ==> {
                    &&& #[trigger] sources@[i] != #[trigger] sources@[j]
                    &&& !lex_lt(
                        inputs@[sources@[j] as int].key(),
                        inputs@[sources@[i] as int].key(),
                    )
                    &&& (inputs@[sources@[i] as int].key() == inputs@[sources@[j] as int].key()
                        ==> sources@[i] < sources@[j])
                },
            forall|i: int|
                0 <= i < k ==> (#[trigger] entries@[i])@ == inputs@[sources@[i] as int].entry_at(0),
            toc_length(toc_view(entries@)) == 2 + names_total(inputs@.take(k as int)),
            payload_size(toc_view(entries@)) == payload_total(inputs@.take(k as int)),
        decreases inputs@.len() - k,
    {
        let input = &inputs[k];
        let key = input.filename.as_str().as_bytes();
        let mut pos: usize = 0;
        while pos < entries.len() && !bytes_before(
            key,
            entries[pos].filename.as_str().as_bytes(),
        )
            invariant
                pos <= entries@.len(),
                entries@.len() == k,
                key@ == inputs@[k as int].key(),
                forall|i: int|
                    0 <= i < pos ==> !lex_lt(key@, encode_utf8((#[trigger] entries@[i]).filename@)),
            decreases entries@.len() - pos,
        {
            pos += 1;
        }
        proof {
            lemma_totals_step(inputs@, k as int);
            lemma_totals_grow(inputs@, k + 1);
        }
        let entry = DDSubFileHeader {
            file_type: types[k],
            filename: input.filename.clone(),
            offset: 0,
            size: input.size as u32,
            timestamp: input.timestamp,
        };
        let ghost old_entries = entries@;
        let ghost old_sources = sources@;
        let ghost e = entry@;
        assert(e == inputs@[k as int].entry_at(0));
        entries.insert(pos, entry);
        sources.insert(pos, k);
        proof {
            let new_sources = sources@;
            let new_entries = entries@;
            assert(toc_view(new_entries) == toc_view(old_entries).insert(pos as int, e));
            lemma_insert_adds(toc_view(old_entries), pos as int, e);
            assert forall|i: int| 0 <= i < k + 1 implies (#[trigger] new_sources[i]) < k + 1 by {
                if i < pos {
                    assert(new_sources[i] == old_sources[i]);
                } else if i > pos {
                    assert(new_sources[i] == old_sources[i - 1]);
                }
            }
            assert forall|i: int| 0 <= i < k + 1 implies (#[trigger] new_entries[i])@
                == inputs@[new_sources[i] as int].entry_at(0) by {
                if i < pos {
                    assert(new_entries[i] == old_entries[i]);
                    assert(new_sources[i] == old_sources[i]);
                } else if i > pos {
                    assert(new_entries[i] == old_entries[i - 1]);
                    assert(new_sources[i] == old_sources[i - 1]);
                }
            }
            assert forall|i: int, j: int| 0 <= i < j < k + 1 implies {
                &&& #[trigger] new_sources[i] != #[trigger] new_sources[j]
                &&& !lex_lt(
                    inputs@[new_sources[j] as int].key(),
                    inputs@[new_sources[i] as int].key(),
                )
                &&& (inputs@[new_sources[i] as int].key() == inputs@[new_sources[j] as int].key()
                    ==> new_sources[i] < new_sources[j])
            } by {
                let i0 = if i < pos {
                    i
                } else {
                    i - 1
                };
                let j0 = if j < pos {
                    j
                } else {
                    j - 1
                };
                if i != pos {
                    assert(new_sources[i] == old_sources[i0]);
                }
                if j != pos {
                    assert(new_sources[j] == old_sources[j0]);
                }
                if i == pos {
                    let at = inputs@[old_sources[pos as int] as int].key();
                    let kj = inputs@[old_sources[j0] as int].key();
                    let found = inputs@[old_sources[pos as int] as int];
                    assert(old_entries[pos as int]@ == found.entry_at(0));
                    assert(lex_lt(key@, at));
                    if j0 > pos {
                        assert(old_sources[pos as int] != old_sources[j0]);
                    } else {
                        if lex_lt(kj, at) {
                            lemma_lex_lt_asymmetric(kj, at);
                        }
                    }
                    lemma_lex_lt_then_not_after(key@, at, kj);
                    lemma_lex_lt_asymmetric(key@, kj);
                } else if j == pos {
                    assert(old_entries[i0]@ == inputs@[old_sources[i0] as int].entry_at(0));
                } else {
                    assert(old_sources[i0] != old_sources[j0]);
                }
            }
        }
        k += 1;
    }
    assert(inputs@.take(k as int) == inputs@);
    (entries, sources)
}

/// The same entries with their final offsets: the first payload at `first`,
/// each other one where the payload before it ends.
fn assign_offsets(sorted: &Vec<DDSubFileHeader>, first: u32) -> (r: Vec<DDSubFileHeader>)
    requires
        first + payload_size(toc_view(sorted@)) <= u32::MAX,
    ensures
        r@.len() == sorted@.len(),
        forall|i: int|
            0 <= i < r@.len() ==> {
                &&& (#[trigger] r@[i]).file_type == sorted@[i].file_type
                &&& r@[i].filename@ == sorted@[i].filename@
                &&& r@[i].size == sorted@[i].size
                &&& r@[i].timestamp == sorted@[i].timestamp
                &&& r@[i].offset == first + payload_size(toc_view(sorted@).take(i))
            },
{
    let ghost all = toc_view(sorted@);
    let mut out: Vec<DDSubFileHeader> = Vec::new();
    let mut next: u32 = first;
    let mut i: usize = 0;
    assert(all.take(0) == Seq::<SubFileHeaderView>::empty());
    while i < sorted.len()
        invariant
            i <= sorted@.len(),
            all == toc_view(sorted@),
            first + payload_size(all) <= u32::MAX,
            out@.len() == i,
            next == first + payload_size(all.take(i as int)),
            forall|j: int|
                0 <= j < i ==> {
                    &&& (#[trigger] out@[j]).file_type == sorted@[j].file_type
                    &&& out@[j].filename@ == sorted@[j].filename@
                    &&& out@[j].size == sorted@[j].size
                    &&& out@[j].timestamp == sorted@[j].timestamp
                    &&& out@[j].offset == first + payload_size(all.take(j))
                },
        decreases sorted@.len() - i,
    {
        proof {
            lemma_payload_size_grows(all, i as int);
            lemma_payload_size_grows(all, i + 1);
            assert(all[i as int].size == sorted@[i as int].size);
        }
        let entry = &sorted[i];
        out.push(
            DDSubFileHeader {
                file_type: entry.file_type,
                filename: entry.filename.clone(),
                offset: next,
                size: entry.size,
                timestamp: entry.timestamp,
            },
        );
        next = next + entry.size;
        i += 1;
    }
    out
}

/// Plans the archive for these files. The entries come out sorted by
/// filename, and each payload is placed right behind the one before it.
/// Planning fails for a file without a known type, named by its place in
/// the list, and for a list whose archive would not fit 32-bit offsets.
pub fn plan_archive(inputs: &Vec<PackInput>) -> (r: Result<PackPlan, DDError>)
    ensures
        match r {
            Ok(plan) => all_resolved(inputs@) && archive_len(inputs@) <= u32::MAX && plan_matches(
                inputs@,
                plan,
            ),
            Err(DDError::UnresolvedFileType(i)) => {
                &&& i < inputs@.len()
                &&& inputs@[i as int].spec_file_type() is None
                &&& forall|j: int| 0 <= j < i ==> (#[trigger] inputs@[j]).spec_file_type() is Some
            },
            Err(DDError::LengthOverflow) => all_resolved(inputs@) && archive_len(inputs@)
                > u32::MAX,
            Err(_) => false,
        },
{
    let types = match resolve_types(inputs) {
        Ok(t) => t,
        Err(e) => { return Err(e); },
    };
    let total = match measure(inputs) {
        Ok(t) => t,
        Err(e) => { return Err(e); },
    };
    let (sorted, sources) = sort_by_name(inputs, &types);
    let header_length = match table_length(&sorted) {
        Ok(n) => n,
        Err(e) => { return Err(e); },
    };
    let entries = assign_offsets(&sorted, 12 + header_length);
    let plan = PackPlan { header: DDMainHeader::new(header_length), entries, sources };
    proof {
        let a = toc_view(plan.entries@);
        let b = toc_view(sorted@);
        lemma_toc_length_by_names(a, b);
        assert forall|i: int| 0 <= i < a.len() implies {
            let source = inputs@[plan.sources@[i] as int];
            #[trigger] a[i] == source.entry_at(a[i].offset)
        } by {
            assert(sorted@[i]@ == inputs@[plan.sources@[i] as int].entry_at(0));
        }
        assert forall|i: int| 0 <= i < a.len() implies (#[trigger] a[i]).offset == (if i == 0 {
            12 + header_length
        } else {
            a[i - 1].offset + a[i - 1].size
        }) by {
            lemma_payload_size_grows(b, i);
            if i == 0 {
                assert(b.take(0) == Seq::<SubFileHeaderView>::empty());
            } else {
                lemma_payload_size_grows(b, i - 1);
                assert(b[i - 1].size == a[i - 1].size);
            }
        }
    }
    Ok(plan)
}

/// Holds the number of bytes that a source file gave when it was read for
/// writing against the size that was listed for it.
pub fn check_payload_size(entry: &DDSubFileHeader, bytes_read: u64) -> (r: Result<(), DDError>)
    ensures
        match r {
            Ok(_) => bytes_read == entry.size,
            Err(e) => e == DDError::SizeRaceDetected && bytes_read != entry.size,
        },
{
    if bytes_read == entry.size as u64 {
        Ok(())
    } else {
        Err(DDError::SizeRaceDetected)
    }
}

} // verus!
