//! Company names.  Accents are folded, one layer of outer double
//! quotes is removed, doubled double quotes become single ones, and
//! every character is upper-cased except `'ß'`, which has no
//! single-character upper case.  A non-null cell is never rejected.

use vstd::prelude::*;
use crate::chars::{push_char, to_chars, to_string};
use crate::fold::{
    fold_char,
    fold_chars,
    fold_seq,
    lower_char,
    upper_char,
    upper_chars,
    upper_seq,
};

verus! {

/// Doubled double quotes squashed into single ones, left to right.
pub open spec fn squash_quotes(s: Seq<char>) -> Seq<char>
    decreases s.len(),
{
    if s.len() == 0 {
        Seq::empty()
    } else if s.len() >= 2 && s[0] == '"' && s[1] == '"' {
        seq!['"'] + squash_quotes(s.skip(2))
    } else {
        seq![s[0]] + squash_quotes(s.skip(1))
    }
}

/// One layer of outer double quotes removed, when the text both starts
/// and ends with one (and is long enough to carry two).
pub open spec fn unquote(s: Seq<char>) -> Seq<char> {
    if s.len() >= 2 && s[0] == '"' && s.last() == '"' {
        s.subrange(1, s.len() - 1)
    } else {
        s
    }
}

/// The canonical form of a company-name cell.
pub open spec fn raison_sociale_of(s: Seq<char>) -> Option<Seq<char>> {
    Some(upper_seq(squash_quotes(unquote(fold_seq(s)))))
}

/// The company-name transform over an optional cell: null passes
/// through.
pub open spec fn raison_sociale_spec(o: Option<Seq<char>>) -> Option<Seq<char>> {
    match o {
        None => None,
        Some(s) => raison_sociale_of(s),
    }
}

/// Executable [`squash_quotes`].
fn squash_quotes_x(v: &Vec<char>) -> (r: Vec<char>)
    ensures
        r@ == squash_quotes(v@),
{
    let mut r: Vec<char> = Vec::new();
    let mut i: usize = 0;
    proof {
        assert(v@.skip(0) =~= v@);
        assert(r@ + squash_quotes(v@) =~= squash_quotes(v@));
    }
    while i < v.len()
        invariant
            i <= v@.len(),
            r@ + squash_quotes(v@.skip(i as int)) == squash_quotes(v@),
        decreases v@.len() - i,
    {
        let ghost rem = v@.skip(i as int);
        if v[i] == '"' && i + 1 < v.len() && v[i + 1] == '"' {
            r.push('"');
            i = i + 2;
            proof {
                assert(rem.skip(2) =~= v@.skip(i as int));
                assert(squash_quotes(rem) == seq!['"'] + squash_quotes(v@.skip(i as int)));
                assert(r@ + squash_quotes(v@.skip(i as int)) =~= squash_quotes(v@));
            }
        } else {
            r.push(v[i]);
            i = i + 1;
            proof {
                assert(rem.skip(1) =~= v@.skip(i as int));
                assert(squash_quotes(rem) == seq![rem[0]] + squash_quotes(v@.skip(i as int)));
                assert(r@ + squash_quotes(v@.skip(i as int)) =~= squash_quotes(v@));
            }
        }
    }
    proof {
        assert(v@.skip(i as int) =~= Seq::<char>::empty());
        assert(r@ + squash_quotes(v@.skip(i as int)) =~= r@);
    }
    r
}

/// Folds accents, unwraps one layer of outer quotes, squashes doubled
/// quotes and upper-cases everything but `'ß'`.
pub fn transform_raison_sociale(opt_text: Option<&str>) -> (r: Option<String>)
    ensures
        r.deep_view() == raison_sociale_spec(opt_text.deep_view()),
{
    match opt_text {
        None => None,
        Some(text) => {
            let cs = to_chars(text);
            let folded = fold_chars(&cs);
            let mut inner: Vec<char> = Vec::new();
            if folded.len() >= 2 && folded[0] == '"' && folded[folded.len() - 1] == '"' {
                let mut i: usize = 1;
                while i < folded.len() - 1
                    invariant
                        folded@.len() >= 2,
                        1 <= i <= folded@.len() - 1,
                        inner@ == folded@.subrange(1, i as int),
                    decreases folded@.len() - i,
                {
                    inner.push(folded[i]);
                    i = i + 1;
                    proof {
                        assert(inner@ =~= folded@.subrange(1, i as int));
                    }
                }
            } else {
                let mut i: usize = 0;
                while i < folded.len()
                    invariant
                        i <= folded@.len(),
                        inner@ == folded@.subrange(0, i as int),
                    decreases folded@.len() - i,
                {
                    inner.push(folded[i]);
                    i = i + 1;
                    proof {
                        assert(inner@ =~= folded@.subrange(0, i as int));
                    }
                }
                proof {
                    assert(inner@ =~= folded@);
                }
            }
            proof {
                assert(inner@ == unquote(folded@));
            }
            let squashed = squash_quotes_x(&inner);
            let upped = upper_chars(&squashed);
            Some(to_string(upped.as_slice()))
        },
    }
}

/// Every character of the squashed text occurs in the source text, so
/// squashing preserves character-wise fixed points.
proof fn lemma_squash_quotes_chars(s: Seq<char>)
    ensures
        forall|j: int|
            0 <= j < squash_quotes(s).len() ==> exists|k: int|
                0 <= k < s.len() && #[trigger] squash_quotes(s)[j] == s[k],
    decreases s.len(),
{
    if s.len() == 0 {
    } else if s.len() >= 2 && s[0] == '"' && s[1] == '"' {
        lemma_squash_quotes_chars(s.skip(2));
        assert forall|j: int| 0 <= j < squash_quotes(s).len() implies exists|k: int|
            0 <= k < s.len() && #[trigger] squash_quotes(s)[j] == s[k] by {
            if j == 0 {
                assert(squash_quotes(s)[0] == s[0]);
            } else {
                let t = s.skip(2);
                assert(squash_quotes(s)[j] == squash_quotes(t)[j - 1]);
                let k = choose|k: int| 0 <= k < t.len() && squash_quotes(t)[j - 1] == t[k];
                assert(t[k] == s[k + 2]);
            }
        }
    } else {
        lemma_squash_quotes_chars(s.skip(1));
        assert forall|j: int| 0 <= j < squash_quotes(s).len() implies exists|k: int|
            0 <= k < s.len() && #[trigger] squash_quotes(s)[j] == s[k] by {
            if j == 0 {
                assert(squash_quotes(s)[0] == s[0]);
            } else {
                let t = s.skip(1);
                assert(squash_quotes(s)[j] == squash_quotes(t)[j - 1]);
                let k = choose|k: int| 0 <= k < t.len() && squash_quotes(t)[j - 1] == t[k];
                assert(t[k] == s[k + 1]);
            }
        }
    }
}

/// On a text without adjacent double quotes, squashing changes
/// nothing.
proof fn lemma_squash_quotes_fixed(s: Seq<char>)
    requires
        forall|i: int| 0 <= i < s.len() - 1 ==> !(s[i] == '"' && #[trigger] s[i + 1] == '"'),
    ensures
        squash_quotes(s) == s,
    decreases s.len(),
{
    if s.len() == 0 {
        assert(squash_quotes(s) =~= s);
    } else {
        let t = s.skip(1);
        assert(forall|i: int| 0 <= i < t.len() - 1 ==> !(t[i] == '"' && #[trigger] t[i + 1] == '"'))
            by {
            assert(forall|i: int|
                0 <= i < t.len() - 1 ==> t[i] == s[i + 1] && #[trigger] t[i + 1] == s[i + 2]);
        }
        lemma_squash_quotes_fixed(t);
        assert(!(s.len() >= 2 && s[0] == '"' && s[1] == '"'));
        assert(squash_quotes(s) =~= s);
    }
}

/// Applying the company-name transform twice equals applying it once,
/// for every cell whose canonical form neither carries a doubled double
/// quote nor both starts and ends with a double quote.  A cell such as
/// `""A""` falls outside: its canonical form `"A"` loses its outer
/// quotes on a second pass.
pub proof fn lemma_raison_sociale_idempotent(o: Option<Seq<char>>)
    requires
        match raison_sociale_spec(o) {
            None => true,
            Some(r) => {
                &&& !(r.len() >= 2 && r[0] == '"' && r.last() == '"')
                &&& forall|i: int|
                    0 <= i < r.len() - 1 ==> !(r[i] == '"' && #[trigger] r[i + 1] == '"')
            },
        },
    ensures
        raison_sociale_spec(raison_sociale_spec(o)) == raison_sociale_spec(o),
{
    if let Some(s) = o {
        let f = fold_seq(s);
        let q = squash_quotes(unquote(f));
        let r = upper_seq(q);
        assert forall|j: int| 0 <= j < r.len() implies fold_char(#[trigger] r[j]) == r[j]
            && upper_char(r[j]) == r[j] by {
            lemma_squash_quotes_chars(unquote(f));
            assert(q[j] == squash_quotes(unquote(f))[j]);
            let k = choose|k: int| 0 <= k < unquote(f).len() && squash_quotes(unquote(f))[j]
                == unquote(f)[k];
            assert(exists|m: int| 0 <= m < f.len() && unquote(f)[k] == #[trigger] f[m]);
            let m = choose|m: int| 0 <= m < f.len() && unquote(f)[k] == #[trigger] f[m];
            assert(f[m] == fold_char(s[m]));
        }
        assert(fold_seq(r) =~= r);
        assert(unquote(r) == r);
        lemma_squash_quotes_fixed(r);
        assert(upper_seq(r) =~= r);
    }
}

} // verus!
