//! SIRET establishment identifiers: fourteen digits, with any other
//! characters discarded.  The successor-SIRET field follows the same
//! rule.

use vstd::prelude::*;
use crate::chars::to_chars;
use crate::chars::to_string;
use crate::seqops::{retain_class, retain_class_x, CharClass};
use crate::seqops::{lemma_retain_class_chars, lemma_retain_class_fixed};

verus! {

/// The canonical form of a SIRET cell: its digits, if exactly fourteen
/// remain.
pub open spec fn siret_of(s: Seq<char>) -> Option<Seq<char>> {
    let d = retain_class(CharClass::Digit, s);
    if d.len() == 14 {
        Some(d)
    } else {
        None
    }
}

/// The SIRET transform over an optional cell: null passes through.
pub open spec fn siret_spec(o: Option<Seq<char>>) -> Option<Seq<char>> {
    match o {
        None => None,
        Some(s) => siret_of(s),
    }
}

/// Keeps the digits of the cell and accepts them only as a full
/// fourteen-digit SIRET.
pub fn transform_siret(opt_text: Option<&str>) -> (r: Option<String>)
    ensures
        r.deep_view() == siret_spec(opt_text.deep_view()),
{
    match opt_text {
        None => None,
        Some(text) => {
            let cs = to_chars(text);
            let d = retain_class_x(CharClass::Digit, &cs);
            if d.len() == 14 {
                Some(to_string(d.as_slice()))
            } else {
                None
            }
        },
    }
}

/// Applying the SIRET transform twice equals applying it once.
pub proof fn lemma_siret_idempotent(o: Option<Seq<char>>)
    ensures
        siret_spec(siret_spec(o)) == siret_spec(o),
{
    if let Some(s) = o {
        let d = retain_class(CharClass::Digit, s);
        if d.len() == 14 {
            lemma_retain_class_chars(CharClass::Digit, s);
            lemma_retain_class_fixed(CharClass::Digit, d);
        }
    }
}

} // verus!
