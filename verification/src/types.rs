//! The records of an archive: its main header, the entries of its table of
//! contents, and the closed set of file types an entry can have.

use crate::wire::{push_char, str_eq};
use vstd::prelude::*;
use vstd::string::StringExecFns;

verus! {

/// The signature `:hx:rg:\x01` that opens every archive.
pub open spec fn magic_bytes() -> Seq<u8> {
    seq![0x3Au8, 0x68u8, 0x78u8, 0x3Au8, 0x72u8, 0x67u8, 0x3Au8, 0x01u8]
}

#[derive(Debug, PartialEq, Eq, Clone)]
pub struct DDMainHeader {
    /// The magic number at the start of the file, always `:hx:rg:\x01`.
    pub magic_number: Vec<u8>,
    /// Length in bytes of the table of contents that follows the main
    /// header, its two closing zero bytes included. The first payload
    /// starts twelve bytes after that.
    pub header_length: u32,
}

#[derive(Debug, PartialEq, Eq, Clone)]
pub struct DDSubFileHeader {
    /// File type
    pub file_type: DDFiletype,
    /// Filename, without extension and without a zero byte
    pub filename: String,
    /// Position of the payload, in bytes from the beginning of the archive
    pub offset: u32,
    /// Length of the payload, in bytes
    pub size: u32,
    /// Unix timestamp of the last modification; zero when none was recorded
    pub timestamp: u32,
}

/// What a main header says, with the signature as a sequence.
pub struct MainHeaderView {
    pub magic_number: Seq<u8>,
    pub header_length: u32,
}

/// What an entry says, with the filename as a sequence of characters.
pub struct SubFileHeaderView {
    pub file_type: DDFiletype,
    pub filename: Seq<char>,
    pub offset: u32,
    pub size: u32,
    pub timestamp: u32,
}

impl View for DDMainHeader {
    type V = MainHeaderView;

    open spec fn view(&self) -> MainHeaderView {
        MainHeaderView { magic_number: self.magic_number@, header_length: self.header_length }
    }
}

impl View for DDSubFileHeader {
    type V = SubFileHeaderView;

    open spec fn view(&self) -> SubFileHeaderView {
        SubFileHeaderView {
            file_type: self.file_type,
            filename: self.filename@,
            offset: self.offset,
            size: self.size,
            timestamp: self.timestamp,
        }
    }
}

/// The entries of a table of contents, each by its view.
pub open spec fn toc_view(entries: Seq<DDSubFileHeader>) -> Seq<SubFileHeaderView> {
    entries.map_values(|e: DDSubFileHeader| e@)
}

#[derive(Debug, PartialEq, Eq, Clone, Copy, Structural)]
pub enum DDFiletype {
    /// 0x20, little-endian WAVE audio, 44100 Hz 16 bit PCM
    WavAudio,
    /// 0x80, shader text file
    ShaderText,
    /// 0x10, combined GLSL vertex and fragment shader
    GLSL,
    /// 0x01, texture data
    Texture1,
    /// 0x02, texture data
    Texture2,
    /// 0x11, marks a folder boundary and carries no payload
    FolderMarker,
    /// Any other code, kept as it was read
    Unknown(u16),
}

/// The upper-case hexadecimal digit for a value below sixteen.
pub open spec fn hex_digit(d: nat) -> char
    recommends
        d < 16,
{
    if d < 10 {
        (48 + d) as u8 as char
    } else {
        (55 + d) as u8 as char
    }
}

/// Upper-case hexadecimal notation without leading zeros.
pub open spec fn hex_upper(n: nat) -> Seq<char>
    decreases n,
{
    if n < 16 {
        seq![hex_digit(n)]
    } else {
        hex_upper(n / 16).push(hex_digit(n % 16))
    }
}

impl DDFiletype {
    /// The file type that a 16-bit code stands for.
    pub open spec fn spec_new(input: u16) -> DDFiletype {
        if input == 0x20 {
            DDFiletype::WavAudio
        } else if input == 0x80 {
            DDFiletype::ShaderText
        } else if input == 0x10 {
            DDFiletype::GLSL
        } else if input == 0x01 {
            DDFiletype::Texture1
        } else if input == 0x02 {
            DDFiletype::Texture2
        } else if input == 0x11 {
            DDFiletype::FolderMarker
        } else {
            DDFiletype::Unknown(input)
        }
    }

    /// The 16-bit code that is written for a file type.
    pub open spec fn code(self) -> u16 {
        match self {
            DDFiletype::WavAudio => 0x20,
            DDFiletype::ShaderText => 0x80,
            DDFiletype::GLSL => 0x10,
            DDFiletype::Texture1 => 0x01,
            DDFiletype::Texture2 => 0x02,
            DDFiletype::FolderMarker => 0x11,
            DDFiletype::Unknown(t) => t,
        }
    }

    /// One of the six types that have a name.
    pub open spec fn is_named(self) -> bool {
        !(self is Unknown)
    }

    /// The value is the one that its own code is read back as: a named
    /// type, or `Unknown` with a code that no named type has.
    pub open spec fn is_canonical(self) -> bool {
        Self::spec_new(self.code()) == self
    }

    /// The extension under which a payload of this type is stored on disk.
    pub open spec fn spec_extension(self) -> Seq<char> {
        match self {
            DDFiletype::WavAudio => "wav"@,
            DDFiletype::ShaderText => "shadercfg"@,
            DDFiletype::GLSL => "dd_glsl"@,
            DDFiletype::Texture1 => "dd_tex1"@,
            DDFiletype::Texture2 => "dd_tex2"@,
            DDFiletype::FolderMarker => "foldermarker"@,
            DDFiletype::Unknown(t) => "dd_0x"@ + hex_upper(t as nat),
        }
    }

    /// The named type that an extension belongs to, if any.
    pub open spec fn spec_from_extension(ext: Seq<char>) -> Option<DDFiletype> {
        if ext == "wav"@ {
            Some(DDFiletype::WavAudio)
        } else if ext == "dd_glsl"@ {
            Some(DDFiletype::GLSL)
        } else if ext == "dd_tex1"@ {
            Some(DDFiletype::Texture1)
        } else if ext == "dd_tex2"@ {
            Some(DDFiletype::Texture2)
        } else if ext == "shadercfg"@ {
            Some(DDFiletype::ShaderText)
        } else if ext == "foldermarker"@ {
            Some(DDFiletype::FolderMarker)
        } else {
            None
        }
    }

    /// A few words that say what the type is.
    pub open spec fn spec_describe(self) -> Seq<char> {
        match self {
            DDFiletype::WavAudio => "wav audio"@,
            DDFiletype::ShaderText => "shader text file"@,
            DDFiletype::GLSL => "glsl vert+frag shader"@,
            DDFiletype::Texture1 => "texture or something 1"@,
            DDFiletype::Texture2 => "texture or something 2"@,
            DDFiletype::FolderMarker => "folder marker probably"@,
            DDFiletype::Unknown(t) => "unknown (0x"@ + hex_upper(t as nat) + ")"@,
        }
    }

    pub fn new(input: u16) -> (r: Self)
        ensures
            r == Self::spec_new(input),
            r.code() == input,
            r.is_canonical(),
    {
        match input {
            0x20 => DDFiletype::WavAudio,
            0x80 => DDFiletype::ShaderText,
            0x10 => DDFiletype::GLSL,
            0x01 => DDFiletype::Texture1,
            0x02 => DDFiletype::Texture2,
            0x11 => DDFiletype::FolderMarker,
            _ => DDFiletype::Unknown(input),
        }
    }

    pub fn to_u16(&self) -> (r: u16)
        ensures
            r == self.code(),
    {
        match *self {
            DDFiletype::WavAudio => 0x20,
            DDFiletype::ShaderText => 0x80,
            DDFiletype::GLSL => 0x10,
            DDFiletype::Texture1 => 0x01,
            DDFiletype::Texture2 => 0x02,
            DDFiletype::FolderMarker => 0x11,
            DDFiletype::Unknown(t) => t,
        }
    }

    pub fn extension(&self) -> (r: String)
        ensures
            r@ == self.spec_extension(),
    {
        match *self {
            DDFiletype::WavAudio => String::from_str("wav"),
            DDFiletype::ShaderText => String::from_str("shadercfg"),
            DDFiletype::GLSL => String::from_str("dd_glsl"),
            DDFiletype::Texture1 => String::from_str("dd_tex1"),
            DDFiletype::Texture2 => String::from_str("dd_tex2"),
            DDFiletype::FolderMarker => String::from_str("foldermarker"),
            DDFiletype::Unknown(t) => {
                let mut s = String::from_str("dd_0x");
                push_hex_upper(&mut s, t);
                s
            },
        }
    }

    pub fn from_extension(ext: &str) -> (r: Option<Self>)
        ensures
            r == Self::spec_from_extension(ext@),
    {
        if str_eq(ext, "wav") {
            Some(DDFiletype::WavAudio)
        } else if str_eq(ext, "dd_glsl") {
            Some(DDFiletype::GLSL)
        } else if str_eq(ext, "dd_tex1") {
            Some(DDFiletype::Texture1)
        } else if str_eq(ext, "dd_tex2") {
            Some(DDFiletype::Texture2)
        } else if str_eq(ext, "shadercfg") {
            Some(DDFiletype::ShaderText)
        } else if str_eq(ext, "foldermarker") {
            Some(DDFiletype::FolderMarker)
        } else {
            None
        }
    }

    pub fn is_unknown(&self) -> (r: bool)
        ensures
            r == (*self is Unknown),
    {
        match *self {
            DDFiletype::Unknown(_) => true,
            _ => false,
        }
    }

    /// A few words for a listing, such as `wav audio` or `unknown (0x1F)`.
    pub fn describe(&self) -> (r: String)
        ensures
            r@ == self.spec_describe(),
    {
        match *self {
            DDFiletype::WavAudio => String::from_str("wav audio"),
            DDFiletype::ShaderText => String::from_str("shader text file"),
            DDFiletype::GLSL => String::from_str("glsl vert+frag shader"),
            DDFiletype::Texture1 => String::from_str("texture or something 1"),
            DDFiletype::Texture2 => String::from_str("texture or something 2"),
            DDFiletype::FolderMarker => String::from_str("folder marker probably"),
            DDFiletype::Unknown(t) => {
                let mut s = String::from_str("unknown (0x");
                push_hex_upper(&mut s, t);
                s.append(")");
                s
            },
        }
    }
}

/// Each named type is found again from its own extension, and the
/// extension of an unknown type stands for no type.
pub proof fn lemma_extension_inference(t: DDFiletype)
    ensures
        t.is_named() ==> DDFiletype::spec_from_extension(t.spec_extension()) == Some(t),
        !t.is_named() ==> DDFiletype::spec_from_extension(t.spec_extension()) is None,
{
    reveal_strlit("wav");
    reveal_strlit("shadercfg");
    reveal_strlit("dd_glsl");
    reveal_strlit("dd_tex1");
    reveal_strlit("dd_tex2");
    reveal_strlit("foldermarker");
    reveal_strlit("dd_0x");
    match t {
        DDFiletype::WavAudio => {},
        DDFiletype::ShaderText => {
            assert("shadercfg"@.len() != "wav"@.len());
        },
        DDFiletype::GLSL => {
            assert("dd_glsl"@.len() != "wav"@.len());
        },
        DDFiletype::Texture1 => {
            assert("dd_tex1"@[3] != "dd_glsl"@[3]);
        },
        DDFiletype::Texture2 => {
            assert("dd_tex2"@[3] != "dd_glsl"@[3]);
            assert("dd_tex2"@[6] != "dd_tex1"@[6]);
        },
        DDFiletype::FolderMarker => {
            assert("foldermarker"@.len() == 12);
        },
        DDFiletype::Unknown(c) => {
            let e = t.spec_extension();
            assert(e.len() > 5);
            assert(e[0] == 'd');
            assert(e[3] == '0');
            assert("wav"@[0] == 'w');
            assert("dd_glsl"@[3] == 'g');
            assert("dd_tex1"@[3] == 't');
            assert("dd_tex2"@[3] == 't');
            assert("shadercfg"@[0] == 's');
            assert("foldermarker"@[0] == 'f');
        },
    }
}

/// An extension stands for a type only if it is the extension of one of
/// the six named types, and then it stands for that type.
pub proof fn lemma_from_extension_named(ext: Seq<char>)
    ensures
        match DDFiletype::spec_from_extension(ext) {
            Some(t) => t.is_named() && t.spec_extension() == ext,
            None => forall|t: DDFiletype| #[trigger] t.is_named() ==> t.spec_extension() != ext,
        },
{
}

/// The character for one hexadecimal digit.
fn hex_digit_char(d: u16) -> (c: char)
    requires
        d < 16,
    ensures
        c == hex_digit(d as nat),
{
    let b: u8 = if d < 10 {
        48 + d as u8
    } else {
        55 + d as u8
    };
    b as char
}

/// Appends `v` in upper-case hexadecimal, without leading zeros.
fn push_hex_upper(s: &mut String, v: u16)
    ensures
        final(s)@ == old(s)@ + hex_upper(v as nat),
{
    let d3: u16 = v / 4096;
    let d2: u16 = (v / 256) % 16;
    let d1: u16 = (v / 16) % 16;
    let d0: u16 = v % 16;
    proof {
        reveal_with_fuel(hex_upper, 4);
    }
    let ghost before = s@;
    if v >= 4096 {
        push_char(s, hex_digit_char(d3));
        push_char(s, hex_digit_char(d2));
        push_char(s, hex_digit_char(d1));
        push_char(s, hex_digit_char(d0));
        assert(s@ =~= before + hex_upper(v as nat));
    } else if v >= 256 {
        push_char(s, hex_digit_char(d2));
        push_char(s, hex_digit_char(d1));
        push_char(s, hex_digit_char(d0));
        assert(s@ =~= before + hex_upper(v as nat));
    } else if v >= 16 {
        push_char(s, hex_digit_char(d1));
        push_char(s, hex_digit_char(d0));
        assert(s@ =~= before + hex_upper(v as nat));
    } else {
        push_char(s, hex_digit_char(d0));
        assert(s@ =~= before + hex_upper(v as nat));
    }
}

} // verus!
