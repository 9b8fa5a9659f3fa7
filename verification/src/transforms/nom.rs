//! Last names.  The trimmed value is folded and upper-cased; runs of
//! non-letters at the boundaries fall away; the delimiters `//`, `/`,
//! `_` and `&` become the standalone word `ET`; characters outside the
//! allowed set are stripped; and runs of hyphens and of white space
//! collapse into single spaces.  An empty trimmed value is rejected.

use vstd::prelude::*;
use crate::chars::{to_chars, to_string};
use crate::fold::{fold_char, fold_chars, fold_seq, upper_char, upper_chars, upper_seq};
use crate::seqops::{
    collapse_class,
    collapse_class_x,
    in_class,
    is_name_letter,
    strip_class,
    strip_class_x,
    trim_class,
    trim_class_x,
    trim_end_class,
    trim_spaces,
    trim_start_class,
    CharClass,
};
use crate::seqops::{
    lemma_collapse_class_pred,
    lemma_collapse_class_props,
    lemma_collapse_class_stable,
    lemma_strip_class_chars,
    lemma_strip_class_fixed,
    lemma_strip_class_pred,
    lemma_trim_class_pred,
};

verus! {

/// The word `ET` standing alone, ready to take a delimiter's place.
pub open spec fn et_word() -> Seq<char> {
    seq![' ', 'E', 'T', ' ']
}

/// Every delimiter occurrence (`//` first, then `/`, `_`, `&`)
/// replaced by the standalone word `ET`.
pub open spec fn replace_delims(s: Seq<char>) -> Seq<char>
    decreases s.len(),
{
    if s.len() == 0 {
        Seq::empty()
    } else if s.len() >= 2 && s[0] == '/' && s[1] == '/' {
        et_word() + replace_delims(s.skip(2))
    } else if s[0] == '/' || s[0] == '_' || s[0] == '&' {
        et_word() + replace_delims(s.skip(1))
    } else {
        seq![s[0]] + replace_delims(s.skip(1))
    }
}

/// The canonical form of a last-name cell.
pub open spec fn nom_of(s: Seq<char>) -> Option<Seq<char>> {
    let t = trim_spaces(s);
    if t.len() == 0 {
        None
    } else {
        let u = upper_seq(fold_seq(t));
        let v = trim_class(CharClass::NomEdge, u);
        let w = trim_spaces(collapse_class(CharClass::Space, replace_delims(v)));
        let x = strip_class(CharClass::NomNoise, w);
        let y = collapse_class(CharClass::Just('-'), x);
        Some(collapse_class(CharClass::Space, y))
    }
}

/// The last-name transform over an optional cell: null passes through.
pub open spec fn nom_spec(o: Option<Seq<char>>) -> Option<Seq<char>> {
    match o {
        None => None,
        Some(s) => nom_of(s),
    }
}

/// Executable [`replace_delims`].
fn replace_delims_x(v: &Vec<char>) -> (r: Vec<char>)
    ensures
        r@ == replace_delims(v@),
{
    let mut r: Vec<char> = Vec::new();
    let mut i: usize = 0;
    proof {
        assert(v@.skip(0) =~= v@);
        assert(r@ + replace_delims(v@) =~= replace_delims(v@));
    }
    while i < v.len()
        invariant
            i <= v@.len(),
            r@ + replace_delims(v@.skip(i as int)) == replace_delims(v@),
        decreases v@.len() - i,
    {
        let ghost rem = v@.skip(i as int);
        let c = v[i];
        if c == '/' && i + 1 < v.len() && v[i + 1] == '/' {
            r.push(' ');
            r.push('E');
            r.push('T');
            r.push(' ');
            i = i + 2;
            proof {
                assert(rem.skip(2) =~= v@.skip(i as int));
                assert(replace_delims(rem) == et_word() + replace_delims(v@.skip(i as int)));
                assert(r@ + replace_delims(v@.skip(i as int)) =~= replace_delims(v@));
            }
        } else if c == '/' || c == '_' || c == '&' {
            r.push(' ');
            r.push('E');
            r.push('T');
            r.push(' ');
            i = i + 1;
            proof {
                assert(rem.skip(1) =~= v@.skip(i as int));
                assert(replace_delims(rem) == et_word() + replace_delims(v@.skip(i as int)));
                assert(r@ + replace_delims(v@.skip(i as int)) =~= replace_delims(v@));
            }
        } else {
            r.push(c);
            i = i + 1;
            proof {
                assert(rem.skip(1) =~= v@.skip(i as int));
                assert(replace_delims(rem) == seq![rem[0]] + replace_delims(v@.skip(i as int)));
                assert(r@ + replace_delims(v@.skip(i as int)) =~= replace_delims(v@));
            }
        }
    }
    proof {
        assert(v@.skip(i as int) =~= Seq::<char>::empty());
        assert(r@ + replace_delims(v@.skip(i as int)) =~= r@);
    }
    r
}

/// Trims, folds and upper-cases the cell, turns delimiters into the
/// word `ET`, strips disallowed characters and collapses hyphen and
/// white-space runs; an empty trimmed cell is rejected.
pub fn transform_nom(opt_text: Option<&str>) -> (r: Option<String>)
    ensures
        r.deep_view() == nom_spec(opt_text.deep_view()),
{
    match opt_text {
        None => None,
        Some(text) => {
            let cs = to_chars(text);
            let t = trim_class_x(CharClass::Space, &cs);
            if t.len() == 0 {
                return None;
            }
            let u = upper_chars(&fold_chars(&t));
            let v = trim_class_x(CharClass::NomEdge, &u);
            let replaced = replace_delims_x(&v);
            let w = trim_class_x(CharClass::Space, &collapse_class_x(CharClass::Space, &replaced));
            let x = strip_class_x(CharClass::NomNoise, &w);
            let y = collapse_class_x(CharClass::Just('-'), &x);
            let z = collapse_class_x(CharClass::Space, &y);
            Some(to_string(z.as_slice()))
        },
    }
}

/// On a text without `/`, `_` or `&`, delimiter replacement changes
/// nothing.
proof fn lemma_replace_delims_fixed(s: Seq<char>)
    requires
        forall|i: int| 0 <= i < s.len() ==> #[trigger] s[i] != '/' && s[i] != '_' && s[i] != '&',
    ensures
        replace_delims(s) == s,
    decreases s.len(),
{
    if s.len() > 0 {
        let t = s.skip(1);
        assert(forall|i: int| 0 <= i < t.len() ==> #[trigger] t[i] == s[i + 1]);
        lemma_replace_delims_fixed(t);
        assert(replace_delims(s) =~= s);
    } else {
        assert(replace_delims(s) =~= s);
    }
}

/// Applying the last-name transform twice equals applying it once, for
/// every cell whose canonical form is non-empty and has letters at both
/// ends.  A cell with no letter at all, such as `" - "`, falls
/// outside: its canonical form is the empty text, which a second pass
/// rejects.
pub proof fn lemma_nom_idempotent(o: Option<Seq<char>>)
    requires
        match nom_spec(o) {
            None => true,
            Some(z) => z.len() > 0 && is_name_letter(z[0]) && is_name_letter(z.last()),
        },
    ensures
        nom_spec(nom_spec(o)) == nom_spec(o),
{
    if let Some(s) = o {
        if let Some(z) = nom_of(s) {
            let t = trim_spaces(s);
            let u = upper_seq(fold_seq(t));
            let v = trim_class(CharClass::NomEdge, u);
            let rep = replace_delims(v);
            let w = trim_spaces(collapse_class(CharClass::Space, rep));
            let x = strip_class(CharClass::NomNoise, w);
            let y = collapse_class(CharClass::Just('-'), x);
            assert(z == collapse_class(CharClass::Space, y));
            // Fold- and case-fixedness flows through every stage.
            let fixed = |c: char| fold_char(c) == c && upper_char(c) == c;
            assert(fixed(' ') && fixed('E') && fixed('T'));
            assert(forall|i: int| 0 <= i < u.len() ==> #[trigger] fixed(u[i])) by {
                assert(forall|i: int|
                    0 <= i < u.len() ==> #[trigger] u[i] == upper_char(fold_char(t[i])));
            }
            lemma_trim_class_pred(CharClass::NomEdge, u, fixed);
            lemma_replace_pred(v, fixed);
            lemma_collapse_class_pred(CharClass::Space, rep, fixed);
            lemma_trim_class_pred(
                CharClass::Space,
                collapse_class(CharClass::Space, rep),
                fixed,
            );
            lemma_strip_class_pred(CharClass::NomNoise, w, fixed);
            lemma_collapse_class_pred(CharClass::Just('-'), x, fixed);
            lemma_collapse_class_pred(CharClass::Space, y, fixed);
            assert(forall|i: int| 0 <= i < z.len() ==> #[trigger] fixed(z[i]));
            // No delimiter, hyphen or noise character survives into the
            // canonical form.
            lemma_strip_class_chars(CharClass::NomNoise, w);
            let clean = |c: char| !in_class(CharClass::NomNoise, c) && c != '/' && c != '_' && c
                != '&';
            assert(clean(' '));
            assert(forall|i: int| 0 <= i < x.len() ==> #[trigger] clean(x[i]));
            lemma_collapse_class_pred(CharClass::Just('-'), x, clean);
            lemma_collapse_class_pred(CharClass::Space, y, clean);
            assert(forall|i: int| 0 <= i < z.len() ==> #[trigger] clean(z[i]));
            lemma_collapse_class_props(CharClass::Just('-'), x);
            let nohyph = |c: char| c != '-';
            assert(forall|i: int| 0 <= i < y.len() ==> #[trigger] nohyph(y[i]));
            lemma_collapse_class_pred(CharClass::Space, y, nohyph);
            assert(forall|i: int| 0 <= i < z.len() ==> #[trigger] nohyph(z[i]));
            // Space structure of the canonical form: single spaces,
            // never adjacent.
            lemma_collapse_class_props(CharClass::Space, y);
            // Now replay the pipeline on the canonical form.
            assert(trim_start_class(CharClass::Space, z) == z);
            assert(trim_end_class(CharClass::Space, z) == z);
            assert(trim_spaces(z) == z);
            assert(fold_seq(z) =~= z);
            assert(upper_seq(z) =~= z);
            assert(trim_start_class(CharClass::NomEdge, z) == z);
            assert(trim_end_class(CharClass::NomEdge, z) == z);
            assert(trim_class(CharClass::NomEdge, z) == z);
            lemma_replace_delims_fixed(z);
            lemma_collapse_class_stable(CharClass::Space, z);
            lemma_strip_class_fixed(CharClass::NomNoise, z);
            lemma_collapse_class_stable(CharClass::Just('-'), z);
            assert(nom_of(z) == Some(z));
        }
    }
}

/// A character-wise property that holds of spaces, `E` and `T`
/// survives delimiter replacement.
proof fn lemma_replace_pred(s: Seq<char>, p: spec_fn(char) -> bool)
    requires
        p(' '),
        p('E'),
        p('T'),
        forall|i: int| 0 <= i < s.len() ==> p(#[trigger] s[i]),
    ensures
        forall|i: int| 0 <= i < replace_delims(s).len() ==> p(#[trigger] replace_delims(s)[i]),
    decreases s.len(),
{
    if s.len() == 0 {
    } else if s.len() >= 2 && s[0] == '/' && s[1] == '/' {
        let t = s.skip(2);
        assert(forall|i: int| 0 <= i < t.len() ==> #[trigger] t[i] == s[i + 2]);
        lemma_replace_pred(t, p);
        assert forall|i: int| 0 <= i < replace_delims(s).len() implies p(
            #[trigger] replace_delims(s)[i],
        ) by {
            if i >= 4 {
                assert(replace_delims(s)[i] == replace_delims(t)[i - 4]);
            }
        }
    } else if s[0] == '/' || s[0] == '_' || s[0] == '&' {
        let t = s.skip(1);
        assert(forall|i: int| 0 <= i < t.len() ==> #[trigger] t[i] == s[i + 1]);
        lemma_replace_pred(t, p);
        assert forall|i: int| 0 <= i < replace_delims(s).len() implies p(
            #[trigger] replace_delims(s)[i],
        ) by {
            if i >= 4 {
                assert(replace_delims(s)[i] == replace_delims(t)[i - 4]);
            }
        }
    } else {
        let t = s.skip(1);
        assert(forall|i: int| 0 <= i < t.len() ==> #[trigger] t[i] == s[i + 1]);
        lemma_replace_pred(t, p);
        assert forall|i: int| 0 <= i < replace_delims(s).len() implies p(
            #[trigger] replace_delims(s)[i],
        ) by {
            if i >= 1 {
                assert(replace_delims(s)[i] == replace_delims(t)[i - 1]);
            }
        }
    }
}

} // verus!
