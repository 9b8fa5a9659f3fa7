//! PCE delivery-point identifiers: free-form digit strings.  Every
//! non-digit is discarded and no length is demanded.

use vstd::prelude::*;
use crate::chars::to_chars;
use crate::chars::to_string;
use crate::seqops::{retain_class, retain_class_x, CharClass};
use crate::seqops::{lemma_retain_class_chars, lemma_retain_class_fixed};

verus! {

/// The canonical form of a PCE cell: exactly its digits.
pub open spec fn pce_of(s: Seq<char>) -> Option<Seq<char>> {
    Some(retain_class(CharClass::Digit, s))
}

/// The PCE transform over an optional cell: null passes through.
pub open spec fn pce_spec(o: Option<Seq<char>>) -> Option<Seq<char>> {
    match o {
        None => None,
        Some(s) => pce_of(s),
    }
}

/// Keeps the digits of the cell, of whatever length.
pub fn transform_pce(opt_text: Option<&str>) -> (r: Option<String>)
    ensures
        r.deep_view() == pce_spec(opt_text.deep_view()),
{
    match opt_text {
        None => None,
        Some(text) => {
            let cs = to_chars(text);
            let d = retain_class_x(CharClass::Digit, &cs);
            Some(to_string(d.as_slice()))
        },
    }
}

/// Applying the PCE transform twice equals applying it once.
pub proof fn lemma_pce_idempotent(o: Option<Seq<char>>)
    ensures
        pce_spec(pce_spec(o)) == pce_spec(o),
{
    if let Some(s) = o {
        lemma_retain_class_chars(CharClass::Digit, s);
        lemma_retain_class_fixed(CharClass::Digit, retain_class(CharClass::Digit, s));
    }
}

} // verus!
