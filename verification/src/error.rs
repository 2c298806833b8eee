//! The ways in which reading, packing or addressing data can fail.

use vstd::prelude::*;

verus! {

/// Every failure is final for the operation that met it: nothing is retried
/// and nothing is replaced by a default.
#[derive(Debug, PartialEq, Eq, Clone, Copy, Structural)]
pub enum DDError {
    /// The first eight bytes are not the archive signature.
    MalformedMagic,
    /// A declared length asks for more bytes than were supplied.
    IncompleteInput,
    /// A record of the table of contents, or of a shader blob, ends before
    /// all of its fields are there.
    TruncatedRecord,
    /// The data does not start with the two texture signature bytes.
    BadTextureMagic,
    /// A text field of a shader blob is not valid UTF-8.
    InvalidText,
    /// The file at this position of the pack list has no extension, or one
    /// that belongs to no file type.
    UnresolvedFileType(usize),
    /// A source file no longer has the length that was listed for it.
    SizeRaceDetected,
    /// A mipmap level other than zero was asked of an image whose sides are
    /// not both powers of two.
    UnsupportedMipmapLevel,
    /// A length or an offset does not fit the 32-bit field that holds it.
    LengthOverflow,
}

} // verus!
