//! Errors of decoding.

use vstd::prelude::*;

verus! {

/// Why a text could not be decoded.
#[derive(Debug, PartialEq, Eq)]
pub enum Error {
    /// The text does not match the production asked for. Only the entry
    /// points for single productions report it: a whole text is read as far
    /// as the document grammar goes, and what is left is reported as
    /// `TrailingCharacters`.
    Syntax,
    /// The document grammar stops before a character that is not white
    /// space.
    TrailingCharacters,
    /// A dictionary or grid key is not three symbols of the key alphabet.
    InvalidKey {
        /// The offending key, as written.
        key: String,
        /// The grid entry it appears in, if it is a grid key.
        coords: Option<(u32, u32, u32)>,
    },
    /// A grid key has no dictionary entry.
    MissingKey {
        /// The textual form of the key.
        key: String,
        /// The grid entry it appears in.
        coords: (u32, u32, u32),
    },
}

} // verus!
