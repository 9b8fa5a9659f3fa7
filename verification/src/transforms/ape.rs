//! Activity codes (APE and the NAF code and label fields): four digits
//! followed by one letter, emitted with the letter in upper case.  The
//! separators `.`, `-`, `_`, `,` and `;` are stripped before the check.

use vstd::prelude::*;
use crate::chars::{digit, is_ascii_letter, is_digit, ascii_letter, to_chars, to_string};
use crate::fold::upper_char;
use crate::fold::upper_char_x;
use crate::seqops::{strip_class, strip_class_x, CharClass};
use crate::seqops::lemma_strip_class_fixed;

verus! {

/// The canonical form of an activity-code cell: the four digits and the
/// upper-cased trailing letter, if the stripped text has that shape.
pub open spec fn ape_of(s: Seq<char>) -> Option<Seq<char>> {
    let t = strip_class(CharClass::ApeNoise, s);
    if t.len() == 5 && is_digit(t[0]) && is_digit(t[1]) && is_digit(t[2]) && is_digit(t[3])
        && is_ascii_letter(t[4]) {
        Some(t.subrange(0, 4).push(upper_char(t[4])))
    } else {
        None
    }
}

/// The activity-code transform over an optional cell: null passes
/// through.
pub open spec fn ape_spec(o: Option<Seq<char>>) -> Option<Seq<char>> {
    match o {
        None => None,
        Some(s) => ape_of(s),
    }
}

/// Strips separators and accepts the rest only as four digits followed
/// by a letter, upper-casing the letter.
pub fn transform_ape(opt_text: Option<&str>) -> (r: Option<String>)
    ensures
        r.deep_view() == ape_spec(opt_text.deep_view()),
{
    match opt_text {
        None => None,
        Some(text) => {
            let cs = to_chars(text);
            let t = strip_class_x(CharClass::ApeNoise, &cs);
            if t.len() == 5 && digit(t[0]) && digit(t[1]) && digit(t[2]) && digit(t[3])
                && ascii_letter(t[4]) {
                let mut out: Vec<char> = Vec::new();
                out.push(t[0]);
                out.push(t[1]);
                out.push(t[2]);
                out.push(t[3]);
                out.push(upper_char_x(t[4]));
                proof {
                    assert(out@ =~= t@.subrange(0, 4).push(upper_char(t@[4])));
                }
                Some(to_string(out.as_slice()))
            } else {
                None
            }
        },
    }
}

/// The NAF code field follows the same rule as the APE field.
pub fn transform_code_naf(opt_text: Option<&str>) -> (r: Option<String>)
    ensures
        r.deep_view() == ape_spec(opt_text.deep_view()),
{
    transform_ape(opt_text)
}

/// The NAF label field follows the same rule as the APE field.
pub fn transform_libelle_naf(opt_text: Option<&str>) -> (r: Option<String>)
    ensures
        r.deep_view() == ape_spec(opt_text.deep_view()),
{
    transform_ape(opt_text)
}

/// Applying the activity-code transform twice equals applying it once.
pub proof fn lemma_ape_idempotent(o: Option<Seq<char>>)
    ensures
        ape_spec(ape_spec(o)) == ape_spec(o),
{
    if let Some(s) = o {
        let t = strip_class(CharClass::ApeNoise, s);
        if t.len() == 5 && is_digit(t[0]) && is_digit(t[1]) && is_digit(t[2]) && is_digit(t[3])
            && is_ascii_letter(t[4]) {
            let r = t.subrange(0, 4).push(upper_char(t[4]));
            lemma_strip_class_fixed(CharClass::ApeNoise, r);
            assert(ape_of(r) =~~= Some(r));
        }
    }
}

} // verus!
