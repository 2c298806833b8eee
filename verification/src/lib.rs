//! Reading and writing Devil Daggers data files: the archive container with
//! its table of contents, the `dd_tex2` mipmapped texture format and the
//! combined GLSL shader blob, together with the planning logic for packing
//! a directory into an archive and for extracting an archive into folders.
//!
//! Every function here works on bytes and plain values that are already in
//! memory; reading and writing files is left to the caller.

pub mod error;
pub mod glsl;
pub mod info;
pub mod order;
pub mod pack;
pub mod parser;
pub mod tex2;
pub mod types;
pub mod unpack;
pub mod wire;
