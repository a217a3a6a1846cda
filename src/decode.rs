//! Decoding a whole text into a map.

use vstd::prelude::*;
use crate::convert::{converted, from_syntax};
use crate::error::Error;
use crate::grammar::document;
use crate::lex::{is_white_space, rest_is_white_space};
use crate::model::DMM;
use crate::parser::document_at;
use crate::text::chars_of;

verus! {

/// Whether `s[q..]` is all white space.
pub open spec fn blank_after(s: Seq<char>, q: int) -> bool {
    forall|k: int| q <= k < s.len() ==> is_white_space(#[trigger] s[k])
}

/// What decoding text `s` gives: `TrailingCharacters` when the document
/// grammar stops before a character that is not white space; otherwise
/// what converting the document's syntax tree gives.
pub open spec fn decoded(s: Seq<char>, r: Result<DMM, Error>) -> bool {
    let (doc, q) = document(s);
    if blank_after(s, q) {
        converted(doc, r)
    } else {
        r matches Err(e) && e == Error::TrailingCharacters
    }
}

/// Decodes the map that `input` describes.
pub fn from_str(input: &str) -> (r: Result<DMM, Error>)
    ensures
        decoded(input@, r),
{
    let cs = chars_of(input);
    let (doc, q) = document_at(cs.as_slice());
    if !rest_is_white_space(cs.as_slice(), q) {
        return Err(Error::TrailingCharacters);
    }
    from_syntax(doc)
}

} // verus!
