//! A minimal single-host file server library.
//!
//! The verified core covers three layers: a virtual-file-system (VFS)
//! mapping that pairs logical names with physical paths and is persisted
//! as newline-delimited `name$path` records; a decoder that turns a
//! zero-padded request buffer into a parsed GET or POST request; and a
//! response builder that assembles an HTTP/1.1 `200 OK` response around
//! size-capped content bytes.
//!
//! All of these work on plain byte sequences. The surrounding program
//! performs the socket and file I/O and hands the bytes in and out.

pub mod request;
pub mod response;
pub mod text;
pub mod vfs;

use vstd::prelude::*;

verus! {

/// Largest content size served verbatim; larger files are replaced by a
/// fixed notice.
pub const MAX_SIZE: usize = 128 * 1024;

} // verus!
