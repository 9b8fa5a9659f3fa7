//! Civilities.  The trimmed, folded, upper-cased value is first held
//! against the unmappable special titles; then separators become
//! spaces, the tokens are looked up, and the recognized titles are
//! emitted in the fixed order `MONSIEUR MADAME`, without duplicates.

use vstd::prelude::*;
use vstd::string::StringExecFns;
use crate::chars::to_chars;
use crate::fold::{fold_char, fold_chars, fold_seq, upper_char, upper_chars, upper_seq};
use crate::seqops::{
    chars_eq,
    class_to_space,
    class_to_space_x,
    in_class,
    none_in_class,
    split_class,
    split_class_x,
    trim_class_x,
    trim_end_class,
    trim_spaces,
    trim_start_class,
    CharClass,
};
use crate::seqops::{lemma_split_class_pair, lemma_split_class_whole};

verus! {

/// A folded special title that cannot be mapped to a civility.
pub open spec fn is_special_title(u: Seq<char>) -> bool {
    ||| u == "DOCTEUR"@
    ||| u == "GENERAL"@
    ||| u == "COMPTE"@
    ||| u == "INGENIEUR GENERAL"@
    ||| u == "PREFET"@
    ||| u == "PROFESSEUR"@
    ||| u == "MONSEIGNEUR"@
    ||| u == "SŒUR"@
    ||| u == "COMMISSAIRE"@
}

/// A token that resolves to `MONSIEUR`.
pub open spec fn is_monsieur_token(t: Seq<char>) -> bool {
    ||| t == "MONSIEUR"@
    ||| t == "M"@
    ||| t == "M."@
    ||| t == "MR"@
    ||| t == "MM"@
    ||| t == "M(ESPACE)"@
}

/// A token that resolves to `MADAME`.
pub open spec fn is_madame_token(t: Seq<char>) -> bool {
    ||| t == "MADAME"@
    ||| t == "MME"@
    ||| t == "MRS"@
    ||| t == "MS"@
    ||| t == "MLLE"@
    ||| t == "MAD"@
    ||| t == "MADEMOISELLE"@
}

/// The canonical form of a civility cell.
pub open spec fn civilite_of(s: Seq<char>) -> Option<Seq<char>> {
    let u = upper_seq(fold_seq(trim_spaces(s)));
    if is_special_title(u) {
        None
    } else {
        let parts = split_class(CharClass::Space, class_to_space(CharClass::CiviliteSep, u));
        let m = exists|i: int| 0 <= i < parts.len() && is_monsieur_token(#[trigger] parts[i]);
        let f = exists|i: int| 0 <= i < parts.len() && is_madame_token(#[trigger] parts[i]);
        if m && f {
            Some("MONSIEUR MADAME"@)
        } else if m {
            Some("MONSIEUR"@)
        } else if f {
            Some("MADAME"@)
        } else {
            None
        }
    }
}

/// The civility transform over an optional cell: null passes through.
pub open spec fn civilite_spec(o: Option<Seq<char>>) -> Option<Seq<char>> {
    match o {
        None => None,
        Some(s) => civilite_of(s),
    }
}

/// Maps the recognized tokens of the cell to canonical titles, in the
/// fixed order `MONSIEUR MADAME`; an unmappable special title or a cell
/// with no recognized token is rejected.
pub fn transform_civilite(opt_text: Option<&str>) -> (r: Option<String>)
    ensures
        r.deep_view() == civilite_spec(opt_text.deep_view()),
{
    match opt_text {
        None => None,
        Some(text) => {
            let cs = to_chars(text);
            let trimmed = trim_class_x(CharClass::Space, &cs);
            let u = upper_chars(&fold_chars(&trimmed));
            if chars_eq(u.as_slice(), "DOCTEUR") || chars_eq(u.as_slice(), "GENERAL") || chars_eq(
                u.as_slice(),
                "COMPTE",
            ) || chars_eq(u.as_slice(), "INGENIEUR GENERAL") || chars_eq(u.as_slice(), "PREFET")
                || chars_eq(u.as_slice(), "PROFESSEUR") || chars_eq(u.as_slice(), "MONSEIGNEUR")
                || chars_eq(u.as_slice(), "SŒUR") || chars_eq(u.as_slice(), "COMMISSAIRE") {
                return None;
            }
            let spaced = class_to_space_x(CharClass::CiviliteSep, &u);
            let parts = split_class_x(CharClass::Space, &spaced);
            let ghost sparts = split_class(
                CharClass::Space,
                class_to_space(CharClass::CiviliteSep, u@),
            );
            let mut m = false;
            let mut f = false;
            let mut i: usize = 0;
            while i < parts.len()
                invariant
                    i <= parts@.len(),
                    parts.deep_view() == sparts,
                    m == exists|k: int| 0 <= k < i && is_monsieur_token(#[trigger] sparts[k]),
                    f == exists|k: int| 0 <= k < i && is_madame_token(#[trigger] sparts[k]),
                decreases parts@.len() - i,
            {
                let p = parts[i].as_slice();
                proof {
                    assert(p@ == sparts[i as int]);
                }
                if chars_eq(p, "MONSIEUR") || chars_eq(p, "M") || chars_eq(p, "M.") || chars_eq(
                    p,
                    "MR",
                ) || chars_eq(p, "MM") || chars_eq(p, "M(ESPACE)") {
                    m = true;
                }
                if chars_eq(p, "MADAME") || chars_eq(p, "MME") || chars_eq(p, "MRS") || chars_eq(
                    p,
                    "MS",
                ) || chars_eq(p, "MLLE") || chars_eq(p, "MAD") || chars_eq(p, "MADEMOISELLE") {
                    f = true;
                }
                i = i + 1;
            }
            if m && f {
                Some(String::from_str("MONSIEUR MADAME"))
            } else if m {
                Some(String::from_str("MONSIEUR"))
            } else if f {
                Some(String::from_str("MADAME"))
            } else {
                None
            }
        },
    }
}

/// The three possible outputs map to themselves.
proof fn lemma_civilite_fixed_point(r: Seq<char>)
    requires
        r == "MONSIEUR"@ || r == "MADAME"@ || r == "MONSIEUR MADAME"@,
    ensures
        civilite_of(r) == Some(r),
{
    reveal_strlit("MONSIEUR");
    reveal_strlit("MADAME");
    reveal_strlit("MONSIEUR MADAME");
    reveal_strlit("DOCTEUR");
    reveal_strlit("GENERAL");
    reveal_strlit("COMPTE");
    reveal_strlit("INGENIEUR GENERAL");
    reveal_strlit("PREFET");
    reveal_strlit("PROFESSEUR");
    reveal_strlit("MONSEIGNEUR");
    reveal_strlit("SŒUR");
    reveal_strlit("COMMISSAIRE");
    reveal_strlit("M");
    reveal_strlit("M.");
    reveal_strlit("MR");
    reveal_strlit("MM");
    reveal_strlit("M(ESPACE)");
    reveal_strlit("MME");
    reveal_strlit("MRS");
    reveal_strlit("MS");
    reveal_strlit("MLLE");
    reveal_strlit("MAD");
    reveal_strlit("MADEMOISELLE");
    assert(trim_start_class(CharClass::Space, r) == r);
    assert(trim_end_class(CharClass::Space, r) == r);
    assert(trim_spaces(r) == r);
    assert(fold_seq(r) =~= r);
    assert(upper_seq(r) =~= r);
    assert(!is_special_title(r));
    let u = upper_seq(fold_seq(trim_spaces(r)));
    assert(u == r);
    assert(class_to_space(CharClass::CiviliteSep, r) =~= r);
    if r == "MONSIEUR MADAME"@ {
        assert(r =~= "MONSIEUR"@ + seq![' '] + "MADAME"@);
        lemma_split_class_pair(CharClass::Space, "MONSIEUR"@, ' ', "MADAME"@);
        let parts = split_class(CharClass::Space, r);
        assert(parts == seq!["MONSIEUR"@, "MADAME"@]);
        assert(is_monsieur_token(parts[0]));
        assert(is_madame_token(parts[1]));
    } else if r == "MONSIEUR"@ {
        lemma_split_class_whole(CharClass::Space, r);
        let parts = split_class(CharClass::Space, r);
        assert(parts == seq![r]);
        assert(is_monsieur_token(parts[0]));
        assert(forall|i: int| 0 <= i < parts.len() ==> !is_madame_token(#[trigger] parts[i]));
    } else {
        lemma_split_class_whole(CharClass::Space, r);
        let parts = split_class(CharClass::Space, r);
        assert(parts == seq![r]);
        assert(is_madame_token(parts[0]));
        assert(forall|i: int| 0 <= i < parts.len() ==> !is_monsieur_token(#[trigger] parts[i]));
    }
}

/// Applying the civility transform twice equals applying it once.
pub proof fn lemma_civilite_idempotent(o: Option<Seq<char>>)
    ensures
        civilite_spec(civilite_spec(o)) == civilite_spec(o),
{
    if let Some(s) = o {
        match civilite_of(s) {
            None => {},
            Some(r) => {
                assert(r == "MONSIEUR"@ || r == "MADAME"@ || r == "MONSIEUR MADAME"@);
                lemma_civilite_fixed_point(r);
            },
        }
    }
}

} // verus!
