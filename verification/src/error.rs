//! The errors of reading and writing documents.
use vstd::prelude::*;

use crate::tag::TagID;

verus! {

/// What went wrong while reading or writing a document.
#[allow(non_camel_case_types)]
#[derive(Debug)]
pub enum Error {
    /// The input ended before the value that was being read.
    EOF,
    /// A tag byte that names no tag type, or one that is not allowed where it stands.
    INVALID(u8),
    /// A length that does not fit the field that holds it.
    LEN(usize),
    /// Bytes were left over after the value was read.
    REMAIN(usize),
    /// A value of another tag type than the one expected.
    MISMATCH { expected: TagID, actual: TagID },
    /// A map key that cannot be written as the name of a compound entry.
    KEY,
    /// An Int read for a `char` that is no Unicode scalar value.
    CHAR(u32),
    /// Any other error, with a message.
    MSG(String),
}

} // verus!
