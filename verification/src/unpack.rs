//! Extracting an archive: what is to be done for each entry of the table of
//! contents, and where its payload goes.
//!
//! Folder markers in the table say into which folder the entries after them
//! belong. The table is as a rule walked from its end, so that each marker
//! is met before the entries of its folder. This module only decides; the
//! caller reads the payloads and writes the files.

use crate::glsl::{glsl_file, spec_glsl_file, GlslPairView};
use crate::types::{toc_view, DDFiletype, DDSubFileHeader, SubFileHeaderView};
use crate::wire::push_char;
use vstd::prelude::*;
use vstd::string::StringExecFns;

verus! {

/// What is done with folder markers.
#[derive(Debug, PartialEq, Eq, Clone, Copy, Structural)]
pub enum FolderPolicy {
    /// A marker opens its folder: entries after it are written into it
    Nest,
    /// Markers are passed over, and all files land in one folder
    Flatten,
    /// A marker is written as an empty file of its own
    Preserve,
}

/// How an archive is extracted.
#[derive(Debug, PartialEq, Eq, Clone, Copy, Structural)]
pub struct ExtractOptions {
    pub policy: FolderPolicy,
    /// Walk the table from its last entry to its first
    pub reversed: bool,
    /// Write shader blobs as they are, without splitting them
    pub preserve_glsl: bool,
    /// Give each written file the modification time of its entry
    pub set_times: bool,
}

/// Where the walk through the table stands.
#[derive(Debug, PartialEq, Eq, Clone)]
pub struct ExtractState {
    /// The folder that files are written into, as names below the output
    /// folder, outermost first
    pub dir: Vec<String>,
    /// No folder marker has opened a folder yet
    pub first_folder: bool,
}

/// What the caller does for one entry.
#[derive(Debug, PartialEq, Eq, Clone)]
pub enum ExtractAction {
    /// Nothing: the entry is a folder marker that is passed over
    Skip { entry_name: String },
    /// Create the folder `dir`; files that follow go there
    EnterDirectory { dir: Vec<String> },
    /// Read `size` bytes at `offset` of the archive and write them to the
    /// file `file_name` in the folder `dir`
    WriteFile {
        dir: Vec<String>,
        /// Filename of the entry, without extension
        entry_name: String,
        /// Name of the file to write, extension included
        file_name: String,
        offset: u32,
        size: u32,
        /// The payload is a shader blob that is split where it can be read
        split_glsl: bool,
        /// The modification time to give the file, if any
        timestamp: Option<u32>,
    },
}

/// How a payload is written once it has been read.
#[derive(Debug, PartialEq, Eq, Clone)]
pub enum Payload {
    /// As it is, under the file name of the action
    Raw,
    /// As two files, one for each shader of the blob
    Shaders {
        vertex_name: String,
        vertex_source: String,
        fragment_name: String,
        fragment_source: String,
        /// The name that the blob gives itself
        blob_name: String,
        /// The name inside the blob is the filename of the entry
        name_matches: bool,
    },
}

/// Names as sequences of characters.
pub open spec fn names_view(names: Seq<String>) -> Seq<Seq<char>> {
    names.map_values(|s: String| s@)
}

pub struct ExtractStateView {
    pub dir: Seq<Seq<char>>,
    pub first_folder: bool,
}

pub enum ExtractActionView {
    Skip { entry_name: Seq<char> },
    EnterDirectory { dir: Seq<Seq<char>> },
    WriteFile {
        dir: Seq<Seq<char>>,
        entry_name: Seq<char>,
        file_name: Seq<char>,
        offset: u32,
        size: u32,
        split_glsl: bool,
        timestamp: Option<u32>,
    },
}

pub enum PayloadView {
    Raw,
    Shaders {
        vertex_name: Seq<char>,
        vertex_source: Seq<char>,
        fragment_name: Seq<char>,
        fragment_source: Seq<char>,
        blob_name: Seq<char>,
        name_matches: bool,
    },
}

impl View for ExtractState {
    type V = ExtractStateView;

    open spec fn view(&self) -> ExtractStateView {
        ExtractStateView { dir: names_view(self.dir@), first_folder: self.first_folder }
    }
}

impl View for ExtractAction {
    type V = ExtractActionView;

    open spec fn view(&self) -> ExtractActionView {
        match *self {
            ExtractAction::Skip { entry_name } => ExtractActionView::Skip {
                entry_name: entry_name@,
            },
            ExtractAction::EnterDirectory { dir } => ExtractActionView::EnterDirectory {
                dir: names_view(dir@),
            },
            ExtractAction::WriteFile {
                dir,
                entry_name,
                file_name,
                offset,
                size,
                split_glsl,
                timestamp,
            } => ExtractActionView::WriteFile {
                dir: names_view(dir@),
                entry_name: entry_name@,
                file_name: file_name@,
                offset,
                size,
                split_glsl,
                timestamp,
            },
        }
    }
}

impl View for Payload {
    type V = PayloadView;

    open spec fn view(&self) -> PayloadView {
        match *self {
            Payload::Raw => PayloadView::Raw,
            Payload::Shaders {
                vertex_name,
                vertex_source,
                fragment_name,
                fragment_source,
                blob_name,
                name_matches,
            } => PayloadView::Shaders {
                vertex_name: vertex_name@,
                vertex_source: vertex_source@,
                fragment_name: fragment_name@,
                fragment_source: fragment_source@,
                blob_name: blob_name@,
                name_matches,
            },
        }
    }
}

/// The state before the first entry: files go into the output folder
/// itself.
pub open spec fn initial_state() -> ExtractStateView {
    ExtractStateView { dir: Seq::empty(), first_folder: true }
}

/// A filename with an extension behind a dot.
pub open spec fn with_extension(filename: Seq<char>, extension: Seq<char>) -> Seq<char> {
    filename + seq!['.'] + extension
}

/// The entry is a folder marker that opens a folder.
pub open spec fn opens_folder(e: SubFileHeaderView, o: ExtractOptions) -> bool {
    e.file_type == DDFiletype::FolderMarker && o.policy == FolderPolicy::Nest
}

/// The folder that a marker opens: the current one is left first, unless
/// this is the first marker, and the marker's name is entered.
pub open spec fn folder_opened(s: ExtractStateView, e: SubFileHeaderView) -> Seq<Seq<char>> {
    if s.first_folder || s.dir.len() == 0 {
        s.dir.push(e.filename)
    } else {
        s.dir.drop_last().push(e.filename)
    }
}

/// The state after an entry. Only a marker that opens a folder changes it.
pub open spec fn spec_next_state(
    s: ExtractStateView,
    e: SubFileHeaderView,
    o: ExtractOptions,
) -> ExtractStateView {
    if opens_folder(e, o) {
        ExtractStateView { dir: folder_opened(s, e), first_folder: false }
    } else {
        s
    }
}

/// What is done for an entry in a state.
pub open spec fn spec_action(
    s: ExtractStateView,
    e: SubFileHeaderView,
    o: ExtractOptions,
) -> ExtractActionView {
    if e.file_type == DDFiletype::FolderMarker && o.policy == FolderPolicy::Nest {
        ExtractActionView::EnterDirectory { dir: folder_opened(s, e) }
    } else if e.file_type == DDFiletype::FolderMarker && o.policy == FolderPolicy::Flatten {
        ExtractActionView::Skip { entry_name: e.filename }
    } else {
        ExtractActionView::WriteFile {
            dir: s.dir,
            entry_name: e.filename,
            file_name: with_extension(e.filename, e.file_type.spec_extension()),
            offset: e.offset,
            size: if e.file_type == DDFiletype::FolderMarker {
                0
            } else {
                e.size
            },
            split_glsl: e.file_type == DDFiletype::GLSL && !o.preserve_glsl,
            timestamp: if o.set_times && e.timestamp != 0 {
                Some(e.timestamp)
            } else {
                None
            },
        }
    }
}

/// The actions for entries taken one after the other, starting in `s`.
pub open spec fn spec_actions(
    s: ExtractStateView,
    entries: Seq<SubFileHeaderView>,
    o: ExtractOptions,
) -> Seq<ExtractActionView>
    decreases entries.len(),
{
    if entries.len() == 0 {
        Seq::empty()
    } else {
        seq![spec_action(s, entries[0], o)] + spec_actions(
            spec_next_state(s, entries[0], o),
            entries.drop_first(),
            o,
        )
    }
}

/// The order in which the entries are walked.
pub open spec fn walk_order(
    entries: Seq<SubFileHeaderView>,
    o: ExtractOptions,
) -> Seq<SubFileHeaderView> {
    if o.reversed {
        entries.reverse()
    } else {
        entries
    }
}

/// How a payload is written: split where the action asks for it and the
/// payload reads as a shader blob, raw otherwise.
pub open spec fn spec_payload(
    filename: Seq<char>,
    split_glsl: bool,
    bytes: Seq<u8>,
) -> PayloadView {
    if split_glsl && spec_glsl_file(bytes) is Ok {
        let pair: GlslPairView = spec_glsl_file(bytes)->Ok_0.0;
        PayloadView::Shaders {
            vertex_name: with_extension(filename, "vert"@),
            vertex_source: pair.vertex_source,
            fragment_name: with_extension(filename, "frag"@),
            fragment_source: pair.fragment_source,
            blob_name: pair.name,
            name_matches: pair.name == filename,
        }
    } else {
        PayloadView::Raw
    }
}

impl ExtractOptions {
    /// The options that the switches of the command line stand for:
    /// `nofolders` keeps all files in one folder and walks the table from
    /// its start, `foldermarkers` writes markers as files, `preserveglsl`
    /// keeps shader blobs whole, `nomodtimes` leaves modification times
    /// alone.
    pub fn from_flags(
        nofolders: bool,
        foldermarkers: bool,
        preserveglsl: bool,
        nomodtimes: bool,
    ) -> (r: Self)
        ensures
            r.policy == (if foldermarkers {
                FolderPolicy::Preserve
            } else if nofolders {
                FolderPolicy::Flatten
            } else {
                FolderPolicy::Nest
            }),
            r.reversed == !nofolders,
            r.preserve_glsl == preserveglsl,
            r.set_times == !nomodtimes,
    {
        let policy = if foldermarkers {
            FolderPolicy::Preserve
        } else if nofolders {
            FolderPolicy::Flatten
        } else {
            FolderPolicy::Nest
        };
        ExtractOptions {
            policy,
            reversed: !nofolders,
            preserve_glsl: preserveglsl,
            set_times: !nomodtimes,
        }
    }
}

/// A copy of a list of names.
fn clone_names(names: &Vec<String>) -> (r: Vec<String>)
    ensures
        names_view(r@) == names_view(names@),
{
    let mut out: Vec<String> = Vec::new();
    let mut i: usize = 0;
    while i < names.len()
        invariant
            i <= names@.len(),
            out@.len() == i,
            forall|j: int| 0 <= j < i ==> (#[trigger] out@[j])@ == names@[j]@,
        decreases names@.len() - i,
    {
        out.push(names[i].clone());
        i += 1;
    }
    assert(names_view(out@) =~= names_view(names@));
    out
}

/// A filename with an extension behind a dot.
fn join_extension(filename: &String, extension: &str) -> (r: String)
    ensures
        r@ == with_extension(filename@, extension@),
{
    let mut name = filename.clone();
    push_char(&mut name, '.');
    name.append(extension);
    name
}

impl ExtractState {
    /// The state before the first entry.
    pub fn new() -> (r: Self)
        ensures
            r@ == initial_state(),
    {
        let r = ExtractState { dir: Vec::new(), first_folder: true };
        assert(names_view(r.dir@) =~= Seq::<Seq<char>>::empty());
        r
    }

    /// Takes one entry: says what is to be done for it, and moves on to the
    /// state for the next one.
    pub fn step(&mut self, entry: &DDSubFileHeader, options: &ExtractOptions) -> (r: ExtractAction)
        ensures
            r@ == spec_action(old(self)@, entry@, *options),
            final(self)@ == spec_next_state(old(self)@, entry@, *options),
    {
        let is_marker = entry.file_type == DDFiletype::FolderMarker;
        if is_marker && options.policy == FolderPolicy::Nest {
            let ghost before = names_view(self.dir@);
            if !self.first_folder && self.dir.len() > 0 {
                self.dir.pop();
                assert(names_view(self.dir@) =~= before.drop_last());
            }
            let ghost popped = names_view(self.dir@);
            self.first_folder = false;
            self.dir.push(entry.filename.clone());
            assert(names_view(self.dir@) =~= popped.push(entry.filename@));
            ExtractAction::EnterDirectory { dir: clone_names(&self.dir) }
        } else if is_marker && options.policy == FolderPolicy::Flatten {
            ExtractAction::Skip { entry_name: entry.filename.clone() }
        } else {
            let extension = entry.file_type.extension();
            ExtractAction::WriteFile {
                dir: clone_names(&self.dir),
                entry_name: entry.filename.clone(),
                file_name: join_extension(&entry.filename, extension.as_str()),
                offset: entry.offset,
                size: if is_marker {
                    0
                } else {
                    entry.size
                },
                split_glsl: entry.file_type == DDFiletype::GLSL && !options.preserve_glsl,
                timestamp: if options.set_times && entry.timestamp != 0 {
                    Some(entry.timestamp)
                } else {
                    None
                },
            }
        }
    }
}

/// Actions by their views.
pub open spec fn actions_view(actions: Seq<ExtractAction>) -> Seq<ExtractActionView> {
    actions.map_values(|a: ExtractAction| a@)
}

/// The actions for a whole table of contents, one for each entry, in the
/// order in which the entries are walked.
pub fn plan_extraction(entries: &Vec<DDSubFileHeader>, options: &ExtractOptions) -> (r: Vec<
    ExtractAction,
>)
    ensures
        actions_view(r@) == spec_actions(
            initial_state(),
            walk_order(toc_view(entries@), *options),
            *options,
        ),
        r@.len() == entries@.len(),
{
    let ghost walk = walk_order(toc_view(entries@), *options);
    let count = entries.len();
    let mut state = ExtractState::new();
    let mut out: Vec<ExtractAction> = Vec::new();
    let mut i: usize = 0;
    assert(walk.len() == count);
    assert(walk.skip(0) == walk);
    assert(actions_view(out@) + spec_actions(state@, walk, *options) == spec_actions(
        state@,
        walk,
        *options,
    ));
    while i < count
        invariant
            i <= count,
            count == entries@.len(),
            walk == walk_order(toc_view(entries@), *options),
            walk.len() == count,
            out@.len() == i,
            spec_actions(initial_state(), walk, *options) == actions_view(out@) + spec_actions(
                state@,
                walk.skip(i as int),
                *options,
            ),
        decreases count - i,
    {
        let at = if options.reversed {
            count - 1 - i
        } else {
            i
        };
        let entry = &entries[at];
        let ghost rest = walk.skip(i as int);
        let ghost before = actions_view(out@);
        let ghost s = state@;
        assert(rest[0] == entry@);
        assert(rest.drop_first() == walk.skip(i + 1));
        let action = state.step(entry, options);
        let ghost a = action@;
        out.push(action);
        assert(actions_view(out@) == before.push(a));
        assert(before + (seq![a] + spec_actions(state@, walk.skip(i + 1), *options))
            == before.push(a) + spec_actions(state@, walk.skip(i + 1), *options));
        i += 1;
    }
    assert(actions_view(out@) + Seq::<ExtractActionView>::empty() == actions_view(out@));
    out
}

/// Decides how a payload that was read is written: a shader blob that is
/// to be split and can be read becomes two files, anything else is written
/// as it is. A blob whose name is not the filename of its entry is split
/// all the same, and the difference is reported.
pub fn decode_payload(filename: &String, split_glsl: bool, bytes: &[u8]) -> (r: Payload)
    ensures
        r@ == spec_payload(filename@, split_glsl, bytes@),
{
    if !split_glsl {
        return Payload::Raw;
    }
    match glsl_file(bytes) {
        Err(_) => Payload::Raw,
        Ok((pair, _)) => {
            let name_matches = pair.name == *filename;
            Payload::Shaders {
                vertex_name: join_extension(filename, "vert"),
                vertex_source: pair.vertex_source,
                fragment_name: join_extension(filename, "frag"),
                fragment_source: pair.fragment_source,
                blob_name: pair.name,
                name_matches,
            }
        },
    }
}

} // verus!
