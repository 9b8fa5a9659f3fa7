//! SIREN company identifiers: nine digits, after dashes and white
//! space are removed; any other character rejects the cell.

use vstd::prelude::*;
use crate::chars::to_chars;
use crate::chars::to_string;
use crate::seqops::{all_in_class, all_in_class_x, strip_class, strip_class_x, CharClass};
use crate::seqops::lemma_strip_class_fixed;

verus! {

/// The canonical form of a SIREN cell: the text without dashes and
/// white space, if what remains is exactly nine digits.
pub open spec fn siren_of(s: Seq<char>) -> Option<Seq<char>> {
    let t = strip_class(CharClass::SirenNoise, s);
    if t.len() == 9 && all_in_class(CharClass::Digit, t) {
        Some(t)
    } else {
        None
    }
}

/// The SIREN transform over an optional cell: null passes through.
pub open spec fn siren_spec(o: Option<Seq<char>>) -> Option<Seq<char>> {
    match o {
        None => None,
        Some(s) => siren_of(s),
    }
}

/// Removes dashes and white space and accepts the rest only as a full
/// nine-digit SIREN.
pub fn transform_siren(opt_text: Option<&str>) -> (r: Option<String>)
    ensures
        r.deep_view() == siren_spec(opt_text.deep_view()),
{
    match opt_text {
        None => None,
        Some(text) => {
            let cs = to_chars(text);
            let t = strip_class_x(CharClass::SirenNoise, &cs);
            if t.len() == 9 && all_in_class_x(CharClass::Digit, t.as_slice()) {
                Some(to_string(t.as_slice()))
            } else {
                None
            }
        },
    }
}

/// Applying the SIREN transform twice equals applying it once.
pub proof fn lemma_siren_idempotent(o: Option<Seq<char>>)
    ensures
        siren_spec(siren_spec(o)) == siren_spec(o),
{
    if let Some(s) = o {
        let t = strip_class(CharClass::SirenNoise, s);
        if t.len() == 9 && all_in_class(CharClass::Digit, t) {
            lemma_strip_class_fixed(CharClass::SirenNoise, t);
        }
    }
}

} // verus!
