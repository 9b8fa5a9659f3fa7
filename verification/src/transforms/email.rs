//! Email addresses.  Spaces are removed, the text is upper-cased and
//! folded, the characters `'`, `’` and `&` are dropped, and every run
//! of dots directly after an `@` collapses into the `@`.  The result
//! must then have the canonical shape: one `@`, a non-empty local part
//! of upper-case letters, digits and `._%+-`, a domain of upper-case
//! letters, digits, dots and hyphens whose next-to-last label has at
//! least two characters and whose last label is two to four letters.
//! Hyphens are finally removed from the domain.

use vstd::prelude::*;
use crate::chars::{push_char, to_chars, to_string};
use crate::fold::{fold_char, fold_chars, fold_seq, upper_char, upper_chars, upper_seq};
use crate::seqops::{
    all_in_class,
    all_in_class_x,
    in_class,
    none_in_class,
    split_class,
    split_class_x,
    strip_class,
    strip_class_x,
    CharClass,
};
use crate::seqops::{
    lemma_split_class_pair,
    lemma_strip_class_chars,
    lemma_strip_class_fixed,
    lemma_strip_class_preserves_all,
};

verus! {

/// Every run of dots directly after an `@` collapsed into the `@`.
pub open spec fn collapse_at_dots(s: Seq<char>) -> Seq<char>
    decreases s.len(),
{
    if s.len() == 0 {
        Seq::empty()
    } else if s.len() >= 2 && s[0] == '@' && s[1] == '.' {
        collapse_at_dots(seq!['@'] + s.skip(2))
    } else {
        seq![s[0]] + collapse_at_dots(s.skip(1))
    }
}

/// No `@` is directly followed by a dot.
pub open spec fn no_at_dot(s: Seq<char>) -> bool {
    forall|i: int| 0 <= i < s.len() - 1 ==> !(s[i] == '@' && #[trigger] s[i + 1] == '.')
}

/// The cleaned text an email cell is judged on: spaces removed,
/// upper-cased, folded, noise characters dropped, `@.` collapsed.
pub open spec fn email_cleaned(s: Seq<char>) -> Seq<char> {
    collapse_at_dots(
        strip_class(
            CharClass::EmailNoise,
            fold_seq(upper_seq(strip_class(CharClass::Just(' '), s))),
        ),
    )
}

/// The canonical form of an email cell.
pub open spec fn email_of(s: Seq<char>) -> Option<Seq<char>> {
    let e = email_cleaned(s);
    let ats = split_class(CharClass::Just('@'), e);
    if ats.len() == 2 {
        let local = ats[0];
        let domain = ats[1];
        let labels = split_class(CharClass::Just('.'), domain);
        if local.len() >= 1 && all_in_class(CharClass::EmailLocal, local) && all_in_class(
            CharClass::EmailDomain,
            domain,
        ) && labels.len() >= 2 && labels[labels.len() - 2].len() >= 2 && 2 <= labels.last().len()
            <= 4 && all_in_class(CharClass::UpperAlpha, labels.last()) {
            Some(local + seq!['@'] + strip_class(CharClass::Just('-'), domain))
        } else {
            None
        }
    } else {
        None
    }
}

/// The email transform over an optional cell: null passes through.
pub open spec fn email_spec(o: Option<Seq<char>>) -> Option<Seq<char>> {
    match o {
        None => None,
        Some(s) => email_of(s),
    }
}

/// Executable [`collapse_at_dots`].
fn collapse_at_dots_x(v: &Vec<char>) -> (r: Vec<char>)
    ensures
        r@ == collapse_at_dots(v@),
{
    let mut r: Vec<char> = Vec::new();
    let mut i: usize = 0;
    let mut pending: bool = false;
    proof {
        assert(v@.skip(0) =~= v@);
        assert(r@ + collapse_at_dots(v@) =~= collapse_at_dots(v@));
    }
    loop
        invariant
            i <= v@.len(),
            !pending ==> r@ + collapse_at_dots(v@.skip(i as int)) == collapse_at_dots(v@),
            pending ==> r@ + collapse_at_dots(seq!['@'] + v@.skip(i as int)) == collapse_at_dots(
                v@,
            ),
        ensures
            i == v@.len() && !pending,
            r@ == collapse_at_dots(v@),
        decreases 2 * (v@.len() - i) + (if pending {
            1int
        } else {
            0int
        }),
    {
        if pending {
            let ghost rem = seq!['@'] + v@.skip(i as int);
            if i < v.len() && v[i] == '.' {
                i = i + 1;
                proof {
                    assert(rem.skip(2) =~= v@.skip(i as int));
                    assert(collapse_at_dots(rem) == collapse_at_dots(
                        seq!['@'] + v@.skip(i as int),
                    ));
                }
            } else {
                r.push('@');
                pending = false;
                proof {
                    assert(rem.skip(1) =~= v@.skip(i as int));
                    assert(collapse_at_dots(rem) == seq!['@'] + collapse_at_dots(
                        v@.skip(i as int),
                    ));
                    assert(r@ + collapse_at_dots(v@.skip(i as int)) =~= collapse_at_dots(v@));
                }
            }
        } else {
            if i >= v.len() {
                proof {
                    assert(v@.skip(i as int) =~= Seq::<char>::empty());
                    assert(r@ + collapse_at_dots(v@.skip(i as int)) =~= r@);
                }
                break ;
            }
            let ghost rem = v@.skip(i as int);
            if v[i] == '@' {
                pending = true;
                i = i + 1;
                proof {
                    assert(rem =~= seq!['@'] + v@.skip(i as int));
                }
            } else {
                let c = v[i];
                r.push(c);
                i = i + 1;
                proof {
                    assert(!(rem.len() >= 2 && rem[0] == '@' && rem[1] == '.'));
                    assert(rem.skip(1) =~= v@.skip(i as int));
                    assert(collapse_at_dots(rem) == seq![rem[0]] + collapse_at_dots(
                        v@.skip(i as int),
                    ));
                    assert(r@ + collapse_at_dots(v@.skip(i as int)) =~= collapse_at_dots(v@));
                }
            }
        }
    }
    r
}

/// Cleans the cell, validates the canonical shape and strips hyphens
/// from the domain; any failed check rejects the cell.
pub fn transform_email(opt_email: Option<&str>) -> (r: Option<String>)
    ensures
        r.deep_view() == email_spec(opt_email.deep_view()),
{
    match opt_email {
        None => None,
        Some(text) => {
            let cs = to_chars(text);
            let nospace = strip_class_x(CharClass::Just(' '), &cs);
            let upped = upper_chars(&nospace);
            let folded = fold_chars(&upped);
            let noiseless = strip_class_x(CharClass::EmailNoise, &folded);
            let e = collapse_at_dots_x(&noiseless);
            let ats = split_class_x(CharClass::Just('@'), &e);
            if ats.len() != 2 {
                return None;
            }
            let local = &ats[0];
            let domain = &ats[1];
            proof {
                assert(local@ == ats.deep_view()[0]);
                assert(domain@ == ats.deep_view()[1]);
            }
            let labels = split_class_x(CharClass::Just('.'), domain);
            let nl = labels.len();
            proof {
                assert(nl >= 1) by {
                    crate::seqops::lemma_split_class_nonempty(CharClass::Just('.'), domain@);
                    assert(labels.deep_view().len() == nl);
                }
            }
            let penult_ok = nl >= 2 && labels[nl - 2].len() >= 2;
            let last = &labels[nl - 1];
            proof {
                assert(last@ == labels.deep_view().last());
            }
            let last_ok = 2 <= last.len() && last.len() <= 4 && all_in_class_x(
                CharClass::UpperAlpha,
                last.as_slice(),
            );
            if local.len() >= 1 && all_in_class_x(CharClass::EmailLocal, local.as_slice())
                && all_in_class_x(CharClass::EmailDomain, domain.as_slice()) && penult_ok
                && last_ok {
                let dehyphened = strip_class_x(CharClass::Just('-'), domain);
                let mut out: Vec<char> = Vec::new();
                let mut i: usize = 0;
                while i < local.len()
                    invariant
                        i <= local@.len(),
                        out@ == local@.subrange(0, i as int),
                    decreases local@.len() - i,
                {
                    out.push(local[i]);
                    i = i + 1;
                    proof {
                        assert(out@ =~= local@.subrange(0, i as int));
                    }
                }
                proof {
                    assert(out@ =~= local@);
                }
                out.push('@');
                let mut j: usize = 0;
                while j < dehyphened.len()
                    invariant
                        j <= dehyphened@.len(),
                        out@ == local@.push('@') + dehyphened@.subrange(0, j as int),
                    decreases dehyphened@.len() - j,
                {
                    out.push(dehyphened[j]);
                    j = j + 1;
                    proof {
                        assert(out@ =~= local@.push('@') + dehyphened@.subrange(0, j as int));
                    }
                }
                proof {
                    assert(out@ =~= local@ + seq!['@'] + dehyphened@);
                }
                Some(to_string(out.as_slice()))
            } else {
                None
            }
        },
    }
}

/// On a text where no `@` is followed by a dot, collapsing changes
/// nothing.
proof fn lemma_collapse_at_dots_fixed(s: Seq<char>)
    requires
        no_at_dot(s),
    ensures
        collapse_at_dots(s) == s,
    decreases s.len(),
{
    if s.len() > 0 {
        let t = s.skip(1);
        assert(forall|i: int|
            0 <= i < t.len() - 1 ==> t[i] == s[i + 1] && #[trigger] t[i + 1] == s[i + 2]);
        lemma_collapse_at_dots_fixed(t);
        assert(collapse_at_dots(s) =~= s);
    } else {
        assert(collapse_at_dots(s) =~= s);
    }
}

/// Applying the email transform twice equals applying it once, for
/// every cell whose canonical form is accepted again and carries no
/// `@.`.  A cell whose domain begins with a label of hyphens alone
/// falls outside: removing the hyphens leaves a dot right after the
/// `@`, which a second pass collapses.
pub proof fn lemma_email_idempotent(o: Option<Seq<char>>)
    requires
        match email_spec(o) {
            None => true,
            Some(r) => no_at_dot(r) && email_of(r) is Some,
        },
    ensures
        email_spec(email_spec(o)) == email_spec(o),
{
    if let Some(s) = o {
        if let Some(r) = email_of(s) {
            let e = email_cleaned(s);
            let ats = split_class(CharClass::Just('@'), e);
            let local = ats[0];
            let domain = ats[1];
            let dom2 = strip_class(CharClass::Just('-'), domain);
            assert(r == local + seq!['@'] + dom2);
            lemma_strip_class_preserves_all(CharClass::Just('-'), CharClass::EmailDomain, domain);
            lemma_strip_class_chars(CharClass::Just('-'), domain);
            assert forall|j: int| 0 <= j < r.len() implies !in_class(
                CharClass::Just(' '),
                #[trigger] r[j],
            ) && upper_char(r[j]) == r[j] && fold_char(r[j]) == r[j] && !in_class(
                CharClass::EmailNoise,
                r[j],
            ) by {
                if j < local.len() {
                    assert(r[j] == local[j]);
                    assert(in_class(CharClass::EmailLocal, local[j]));
                } else if j == local.len() {
                    assert(r[j] == '@');
                } else {
                    assert(r[j] == dom2[j - local.len() - 1]);
                    assert(in_class(CharClass::EmailDomain, dom2[j - local.len() - 1]));
                }
            }
            lemma_strip_class_fixed(CharClass::Just(' '), r);
            assert(upper_seq(r) =~= r);
            assert(fold_seq(r) =~= r);
            lemma_strip_class_fixed(CharClass::EmailNoise, r);
            lemma_collapse_at_dots_fixed(r);
            assert(email_cleaned(r) == r);
            assert(none_in_class(CharClass::Just('@'), local));
            assert(none_in_class(CharClass::Just('@'), dom2));
            lemma_split_class_pair(CharClass::Just('@'), local, '@', dom2);
            assert(split_class(CharClass::Just('@'), r) == seq![local, dom2]);
            if let Some(r2) = email_of(r) {
                assert(r2 == local + seq!['@'] + strip_class(CharClass::Just('-'), dom2));
                lemma_strip_class_fixed(CharClass::Just('-'), dom2);
                assert(r2 == r);
            }
        }
    }
}

} // verus!
