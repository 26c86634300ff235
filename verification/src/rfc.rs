//! Pieces of RFC 9110 grammar shared by the header parsers.

use vstd::prelude::*;
use crate::text::{is_ows, ows_end, lemma_ows_end_bounds, str_chars, skip_ows};

verus! {

/// Consumes the optional white space (spaces and horizontal tabs) at the start
/// of `input` (RFC 9110, section 5.6.3) and returns what follows it.
pub fn ows_rfc9110(input: &str) -> (rest: &str)
    ensures
        rest@ == input@.skip(ows_end(input@, 0)),
{
    let chars = str_chars(input);
    let j = skip_ows(&chars, 0);
    proof { lemma_ows_end_bounds(input@, 0); }
    input.substring_char(j, chars.len())
}

} // verus!
