//! Reusable character-sequence operations: retaining or stripping a
//! character class, mapping a class to spaces, collapsing runs,
//! trimming, splitting and joining.  Every executable operation returns
//! exactly the value of its specification function.

use vstd::prelude::*;
use crate::chars::{is_digit, is_space};

verus! {

/// A class of characters that an operation acts on.
#[derive(Clone, Copy)]
pub enum CharClass {
    /// White space, after Rust's `char::is_whitespace`.
    Space,
    /// ASCII decimal digits.
    Digit,
    /// Exactly the given character.
    Just(char),
    /// Characters a last name keeps: letters (ASCII or Latin-1
    /// supplement), digits, white space, `-`, `'` and the right single
    /// quotation mark.  The class holds the *complement*: what is
    /// stripped.
    NomNoise,
    /// Complement of the characters allowed at the edge of a last name:
    /// everything but letters.
    NomEdge,
    /// Complement of the characters a first name keeps: everything but
    /// letters, white space, `-`, `'`, the right single quotation mark
    /// and `&`.
    PrenomNoise,
    /// Characters an email loses outright: `'`, the right single
    /// quotation mark and `&`.
    EmailNoise,
    /// Characters a SIREN identifier loses: `-` and white space.
    SirenNoise,
    /// Characters an activity code loses: `.`, `-`, `_`, `,` and `;`.
    ApeNoise,
    /// Characters a civility replaces by spaces: `.`, `,`, `/`, `&`
    /// and `\`.
    CiviliteSep,
    /// Characters allowed in the local part of a canonical email:
    /// upper-case ASCII letters, digits, `.`, `_`, `%`, `+` and `-`.
    EmailLocal,
    /// Characters allowed in the domain of a canonical email:
    /// upper-case ASCII letters, digits, `.` and `-`.
    EmailDomain,
    /// Upper-case ASCII letters.
    UpperAlpha,
}

/// A letter as the name transforms understand it: ASCII or Latin-1
/// supplement (`À` through `ÿ`).
pub open spec fn is_name_letter(c: char) -> bool {
    (97 <= c as u32 && c as u32 <= 122) || (65 <= c as u32 && c as u32 <= 90) || (0xc0 <= c as u32
        && c as u32 <= 0xff)
}

/// Executable test for [`is_name_letter`].
pub fn name_letter(c: char) -> (b: bool)
    ensures
        b == is_name_letter(c),
{
    let n = c as u32;
    (97 <= n && n <= 122) || (65 <= n && n <= 90) || (0xc0 <= n && n <= 0xff)
}

/// Membership of one character in a class.
pub open spec fn in_class(cl: CharClass, c: char) -> bool {
    match cl {
        CharClass::Space => is_space(c),
        CharClass::Digit => is_digit(c),
        CharClass::Just(d) => c == d,
        CharClass::NomNoise => !(is_name_letter(c) || is_digit(c) || is_space(c) || c == '-' || c
            == '\'' || c == '\u{2019}'),
        CharClass::NomEdge => !is_name_letter(c),
        CharClass::PrenomNoise => !(is_name_letter(c) || is_space(c) || c == '-' || c == '\'' || c
            == '\u{2019}' || c == '&'),
        CharClass::EmailNoise => c == '\'' || c == '\u{2019}' || c == '&',
        CharClass::SirenNoise => c == '-' || is_space(c),
        CharClass::ApeNoise => c == '.' || c == '-' || c == '_' || c == ',' || c == ';',
        CharClass::CiviliteSep => c == '.' || c == ',' || c == '/' || c == '&' || c == '\\',
        CharClass::EmailLocal => (65 <= c as u32 && c as u32 <= 90) || is_digit(c) || c == '.' || c
            == '_' || c == '%' || c == '+' || c == '-',
        CharClass::EmailDomain => (65 <= c as u32 && c as u32 <= 90) || is_digit(c) || c == '.'
            || c == '-',
        CharClass::UpperAlpha => 65 <= c as u32 && c as u32 <= 90,
    }
}

/// Executable test for [`in_class`].
pub fn in_class_x(cl: CharClass, c: char) -> (b: bool)
    ensures
        b == in_class(cl, c),
{
    let n = c as u32;
    let letter = (97 <= n && n <= 122) || (65 <= n && n <= 90) || (0xc0 <= n && n <= 0xff);
    match cl {
        CharClass::Space => crate::chars::space(c),
        CharClass::Digit => crate::chars::digit(c),
        CharClass::Just(d) => c == d,
        CharClass::NomNoise => !(letter || crate::chars::digit(c) || crate::chars::space(c) || c
            == '-' || c == '\'' || c == '\u{2019}'),
        CharClass::NomEdge => !letter,
        CharClass::PrenomNoise => !(letter || crate::chars::space(c) || c == '-' || c == '\'' || c
            == '\u{2019}' || c == '&'),
        CharClass::EmailNoise => c == '\'' || c == '\u{2019}' || c == '&',
        CharClass::SirenNoise => c == '-' || crate::chars::space(c),
        CharClass::ApeNoise => c == '.' || c == '-' || c == '_' || c == ',' || c == ';',
        CharClass::CiviliteSep => c == '.' || c == ',' || c == '/' || c == '&' || c == '\\',
        CharClass::EmailLocal => (65 <= n && n <= 90) || crate::chars::digit(c) || c == '.' || c
            == '_' || c == '%' || c == '+' || c == '-',
        CharClass::EmailDomain => (65 <= n && n <= 90) || crate::chars::digit(c) || c == '.' || c
            == '-',
        CharClass::UpperAlpha => 65 <= n && n <= 90,
    }
}

/// The subsequence of the members of the class, in order.
pub open spec fn retain_class(cl: CharClass, s: Seq<char>) -> Seq<char>
    decreases s.len(),
{
    if s.len() == 0 {
        Seq::empty()
    } else {
        let rest = retain_class(cl, s.drop_last());
        if in_class(cl, s.last()) {
            rest.push(s.last())
        } else {
            rest
        }
    }
}

/// The subsequence of the non-members of the class, in order.
pub open spec fn strip_class(cl: CharClass, s: Seq<char>) -> Seq<char>
    decreases s.len(),
{
    if s.len() == 0 {
        Seq::empty()
    } else {
        let rest = strip_class(cl, s.drop_last());
        if in_class(cl, s.last()) {
            rest
        } else {
            rest.push(s.last())
        }
    }
}

/// Every member of the class replaced by a single space.
pub open spec fn class_to_space(cl: CharClass, s: Seq<char>) -> Seq<char> {
    s.map_values(
        |c: char|
            if in_class(cl, c) {
                ' '
            } else {
                c
            },
    )
}

/// Every maximal run of members of the class replaced by one space.
pub open spec fn collapse_class(cl: CharClass, s: Seq<char>) -> Seq<char>
    decreases s.len(),
{
    if s.len() == 0 {
        Seq::empty()
    } else {
        let rest = collapse_class(cl, s.drop_last());
        let c = s.last();
        if in_class(cl, c) {
            if s.len() >= 2 && in_class(cl, s[s.len() - 2]) {
                rest
            } else {
                rest.push(' ')
            }
        } else {
            rest.push(c)
        }
    }
}

/// The sequence without its leading run of members of the class.
pub open spec fn trim_start_class(cl: CharClass, s: Seq<char>) -> Seq<char>
    decreases s.len(),
{
    if s.len() > 0 && in_class(cl, s[0]) {
        trim_start_class(cl, s.drop_first())
    } else {
        s
    }
}

/// The sequence without its trailing run of members of the class.
pub open spec fn trim_end_class(cl: CharClass, s: Seq<char>) -> Seq<char>
    decreases s.len(),
{
    if s.len() > 0 && in_class(cl, s.last()) {
        trim_end_class(cl, s.drop_last())
    } else {
        s
    }
}

/// The sequence without leading and trailing runs of members of the
/// class.
pub open spec fn trim_class(cl: CharClass, s: Seq<char>) -> Seq<char> {
    trim_end_class(cl, trim_start_class(cl, s))
}

/// White-space trim, as `str::trim` performs it.
pub open spec fn trim_spaces(s: Seq<char>) -> Seq<char> {
    trim_class(CharClass::Space, s)
}

/// The parts of the sequence between occurrences of members of the
/// class.  There is always at least one part; a separator at the edge
/// or two adjacent separators yield empty parts.
pub open spec fn split_class(cl: CharClass, s: Seq<char>) -> Seq<Seq<char>>
    decreases s.len(),
{
    if s.len() == 0 {
        seq![Seq::empty()]
    } else {
        let parts = split_class(cl, s.drop_last());
        let c = s.last();
        if in_class(cl, c) {
            parts.push(Seq::empty())
        } else {
            parts.update(parts.len() - 1, parts.last().push(c))
        }
    }
}

/// The parts joined back with the given separator between them.
pub open spec fn join_char(sep: char, parts: Seq<Seq<char>>) -> Seq<char>
    decreases parts.len(),
{
    if parts.len() == 0 {
        Seq::empty()
    } else if parts.len() == 1 {
        parts[0]
    } else {
        join_char(sep, parts.drop_last()).push(sep) + parts.last()
    }
}

/// Every character of the sequence is a member of the class.
pub open spec fn all_in_class(cl: CharClass, s: Seq<char>) -> bool {
    forall|i: int| 0 <= i < s.len() ==> in_class(cl, #[trigger] s[i])
}

/// No character of the sequence is a member of the class.
pub open spec fn none_in_class(cl: CharClass, s: Seq<char>) -> bool {
    forall|i: int| 0 <= i < s.len() ==> !in_class(cl, #[trigger] s[i])
}

/// What [`retain_class`] keeps lies in the class, and it never grows.
pub proof fn lemma_retain_class_chars(cl: CharClass, s: Seq<char>)
    ensures
        all_in_class(cl, retain_class(cl, s)),
        retain_class(cl, s).len() <= s.len(),
    decreases s.len(),
{
    if s.len() > 0 {
        lemma_retain_class_chars(cl, s.drop_last());
    }
}

/// On a sequence lying wholly in the class, [`retain_class`] changes
/// nothing.
pub proof fn lemma_retain_class_fixed(cl: CharClass, s: Seq<char>)
    requires
        all_in_class(cl, s),
    ensures
        retain_class(cl, s) == s,
    decreases s.len(),
{
    if s.len() > 0 {
        lemma_retain_class_fixed(cl, s.drop_last());
        assert(retain_class(cl, s) =~= s);
    } else {
        assert(retain_class(cl, s) =~= s);
    }
}

/// One step of [`retain_class`] over a push.
pub proof fn lemma_retain_class_push(cl: CharClass, s: Seq<char>, c: char)
    ensures
        retain_class(cl, s.push(c)) == (if in_class(cl, c) {
            retain_class(cl, s).push(c)
        } else {
            retain_class(cl, s)
        }),
{
    assert(s.push(c).drop_last() =~= s);
    assert(s.push(c).last() == c);
}

/// What [`strip_class`] keeps lies outside the class.
pub proof fn lemma_strip_class_chars(cl: CharClass, s: Seq<char>)
    ensures
        none_in_class(cl, strip_class(cl, s)),
        strip_class(cl, s).len() <= s.len(),
    decreases s.len(),
{
    if s.len() > 0 {
        lemma_strip_class_chars(cl, s.drop_last());
    }
}

/// Stripping one class keeps membership of another intact.
pub proof fn lemma_strip_class_preserves_all(cl: CharClass, cl2: CharClass, s: Seq<char>)
    requires
        all_in_class(cl2, s),
    ensures
        all_in_class(cl2, strip_class(cl, s)),
    decreases s.len(),
{
    if s.len() > 0 {
        lemma_strip_class_preserves_all(cl, cl2, s.drop_last());
    }
}

/// On a sequence lying wholly outside the class, [`strip_class`]
/// changes nothing.
pub proof fn lemma_strip_class_fixed(cl: CharClass, s: Seq<char>)
    requires
        none_in_class(cl, s),
    ensures
        strip_class(cl, s) == s,
    decreases s.len(),
{
    if s.len() > 0 {
        lemma_strip_class_fixed(cl, s.drop_last());
        assert(strip_class(cl, s) =~= s);
    } else {
        assert(strip_class(cl, s) =~= s);
    }
}

/// In what [`collapse_class`] yields, every member of the class is a
/// space, no two members are adjacent, and a trailing non-member stays
/// last.
pub proof fn lemma_collapse_class_props(cl: CharClass, s: Seq<char>)
    ensures
        forall|i: int|
            0 <= i < collapse_class(cl, s).len() && in_class(cl, #[trigger] collapse_class(cl, s)[i])
                ==> collapse_class(cl, s)[i] == ' ' && in_class(cl, ' '),
        forall|i: int|
            0 <= i < collapse_class(cl, s).len() - 1 ==> !(in_class(
                cl,
                #[trigger] collapse_class(cl, s)[i],
            ) && in_class(cl, collapse_class(cl, s)[i + 1])),
        s.len() > 0 && !in_class(cl, s.last()) ==> collapse_class(cl, s).len() > 0 && collapse_class(
            cl,
            s,
        ).last() == s.last(),
        s.len() > 0 && in_class(cl, s.last()) ==> collapse_class(cl, s).len() > 0 && collapse_class(
            cl,
            s,
        ).last() == ' ',
    decreases s.len(),
{
    if s.len() > 0 {
        lemma_collapse_class_props(cl, s.drop_last());
        let rest = collapse_class(cl, s.drop_last());
        let out = collapse_class(cl, s);
        if in_class(cl, s.last()) {
            if s.len() >= 2 && in_class(cl, s[s.len() - 2]) {
                assert(out == rest);
            } else {
                assert(out == rest.push(' '));
                if s.len() == 1 {
                    assert(s.drop_last().len() == 0);
                    assert(rest.len() == 0);
                } else {
                    assert(s.drop_last().last() == s[s.len() - 2]);
                    assert(rest.len() > 0 && rest.last() == s[s.len() - 2]);
                }
                assert forall|i: int| 0 <= i < out.len() - 1 implies !(in_class(
                    cl,
                    #[trigger] out[i],
                ) && in_class(cl, out[i + 1])) by {
                    if i + 1 < rest.len() {
                        assert(out[i] == rest[i] && out[i + 1] == rest[i + 1]);
                    } else {
                        assert(i + 1 == rest.len());
                        assert(out[i] == rest.last() && out[i + 1] == ' ');
                    }
                }
            }
        } else {
            assert(out == rest.push(s.last()));
        }
    }
}

/// A sequence whose class members are single non-adjacent spaces is a
/// fixed point of [`collapse_class`].
pub proof fn lemma_collapse_class_stable(cl: CharClass, s: Seq<char>)
    requires
        forall|i: int|
            0 <= i < s.len() && in_class(cl, #[trigger] s[i]) ==> s[i] == ' ' && (i + 1 < s.len()
                ==> !in_class(cl, s[i + 1])),
    ensures
        collapse_class(cl, s) == s,
    decreases s.len(),
{
    if s.len() > 0 {
        lemma_collapse_class_stable(cl, s.drop_last());
        assert(collapse_class(cl, s) =~= s);
    } else {
        assert(collapse_class(cl, s) =~= s);
    }
}

/// A character-wise property survives [`retain_class`].
pub proof fn lemma_retain_class_pred(cl: CharClass, s: Seq<char>, p: spec_fn(char) -> bool)
    requires
        forall|i: int| 0 <= i < s.len() ==> p(#[trigger] s[i]),
    ensures
        forall|i: int|
            0 <= i < retain_class(cl, s).len() ==> p(#[trigger] retain_class(cl, s)[i]),
    decreases s.len(),
{
    if s.len() > 0 {
        assert forall|i: int| 0 <= i < s.drop_last().len() implies p(
            #[trigger] s.drop_last()[i],
        ) by {
            assert(s.drop_last()[i] == s[i]);
        }
        lemma_retain_class_pred(cl, s.drop_last(), p);
        let rest = retain_class(cl, s.drop_last());
        assert forall|i: int| 0 <= i < retain_class(cl, s).len() implies p(
            #[trigger] retain_class(cl, s)[i],
        ) by {
            if in_class(cl, s.last()) {
                assert(retain_class(cl, s) == rest.push(s.last()));
                if i < rest.len() {
                    assert(retain_class(cl, s)[i] == rest[i]);
                } else {
                    assert(retain_class(cl, s)[i] == s.last());
                }
            } else {
                assert(retain_class(cl, s) == rest);
            }
        }
    }
}

/// A character-wise property survives [`strip_class`].
pub proof fn lemma_strip_class_pred(cl: CharClass, s: Seq<char>, p: spec_fn(char) -> bool)
    requires
        forall|i: int| 0 <= i < s.len() ==> p(#[trigger] s[i]),
    ensures
        forall|i: int| 0 <= i < strip_class(cl, s).len() ==> p(#[trigger] strip_class(cl, s)[i]),
    decreases s.len(),
{
    if s.len() > 0 {
        assert forall|i: int| 0 <= i < s.drop_last().len() implies p(
            #[trigger] s.drop_last()[i],
        ) by {
            assert(s.drop_last()[i] == s[i]);
        }
        lemma_strip_class_pred(cl, s.drop_last(), p);
        let rest = strip_class(cl, s.drop_last());
        assert forall|i: int| 0 <= i < strip_class(cl, s).len() implies p(
            #[trigger] strip_class(cl, s)[i],
        ) by {
            if !in_class(cl, s.last()) {
                assert(strip_class(cl, s) == rest.push(s.last()));
                if i < rest.len() {
                    assert(strip_class(cl, s)[i] == rest[i]);
                } else {
                    assert(strip_class(cl, s)[i] == s.last());
                }
            } else {
                assert(strip_class(cl, s) == rest);
            }
        }
    }
}

/// A character-wise property that holds of the space survives
/// [`collapse_class`].
pub proof fn lemma_collapse_class_pred(cl: CharClass, s: Seq<char>, p: spec_fn(char) -> bool)
    requires
        p(' '),
        forall|i: int| 0 <= i < s.len() ==> p(#[trigger] s[i]),
    ensures
        forall|i: int|
            0 <= i < collapse_class(cl, s).len() ==> p(#[trigger] collapse_class(cl, s)[i]),
    decreases s.len(),
{
    if s.len() > 0 {
        assert forall|i: int| 0 <= i < s.drop_last().len() implies p(
            #[trigger] s.drop_last()[i],
        ) by {
            assert(s.drop_last()[i] == s[i]);
        }
        lemma_collapse_class_pred(cl, s.drop_last(), p);
        let rest = collapse_class(cl, s.drop_last());
        assert forall|i: int| 0 <= i < collapse_class(cl, s).len() implies p(
            #[trigger] collapse_class(cl, s)[i],
        ) by {
            if in_class(cl, s.last()) {
                if s.len() >= 2 && in_class(cl, s[s.len() - 2]) {
                    assert(collapse_class(cl, s) == rest);
                } else {
                    assert(collapse_class(cl, s) == rest.push(' '));
                    if i < rest.len() {
                        assert(collapse_class(cl, s)[i] == rest[i]);
                    } else {
                        assert(collapse_class(cl, s)[i] == ' ');
                    }
                }
            } else {
                assert(collapse_class(cl, s) == rest.push(s.last()));
                if i < rest.len() {
                    assert(collapse_class(cl, s)[i] == rest[i]);
                } else {
                    assert(collapse_class(cl, s)[i] == s.last());
                }
            }
        }
    }
}

/// A character-wise property survives trimming.
pub proof fn lemma_trim_class_pred(cl: CharClass, s: Seq<char>, p: spec_fn(char) -> bool)
    requires
        forall|i: int| 0 <= i < s.len() ==> p(#[trigger] s[i]),
    ensures
        forall|i: int|
            0 <= i < trim_start_class(cl, s).len() ==> p(#[trigger] trim_start_class(cl, s)[i]),
        forall|i: int|
            0 <= i < trim_end_class(cl, s).len() ==> p(#[trigger] trim_end_class(cl, s)[i]),
        forall|i: int| 0 <= i < trim_class(cl, s).len() ==> p(#[trigger] trim_class(cl, s)[i]),
    decreases s.len(),
{
    if s.len() > 0 && in_class(cl, s[0]) {
        assert forall|i: int| 0 <= i < s.drop_first().len() implies p(
            #[trigger] s.drop_first()[i],
        ) by {
            assert(s.drop_first()[i] == s[i + 1]);
        }
        lemma_trim_class_pred(cl, s.drop_first(), p);
        assert(trim_start_class(cl, s) == trim_start_class(cl, s.drop_first()));
    }
    if s.len() > 0 && in_class(cl, s.last()) {
        assert forall|i: int| 0 <= i < s.drop_last().len() implies p(
            #[trigger] s.drop_last()[i],
        ) by {
            assert(s.drop_last()[i] == s[i]);
        }
        lemma_trim_class_pred(cl, s.drop_last(), p);
        assert(trim_end_class(cl, s) == trim_end_class(cl, s.drop_last()));
    }
    let t = trim_start_class(cl, s);
    assert(forall|i: int| 0 <= i < t.len() ==> p(#[trigger] t[i]));
    lemma_trim_end_pred_only(cl, t, p);
}

/// A character-wise property survives [`trim_end_class`].
proof fn lemma_trim_end_pred_only(cl: CharClass, s: Seq<char>, p: spec_fn(char) -> bool)
    requires
        forall|i: int| 0 <= i < s.len() ==> p(#[trigger] s[i]),
    ensures
        forall|i: int|
            0 <= i < trim_end_class(cl, s).len() ==> p(#[trigger] trim_end_class(cl, s)[i]),
    decreases s.len(),
{
    if s.len() > 0 && in_class(cl, s.last()) {
        assert forall|i: int| 0 <= i < s.drop_last().len() implies p(
            #[trigger] s.drop_last()[i],
        ) by {
            assert(s.drop_last()[i] == s[i]);
        }
        lemma_trim_end_pred_only(cl, s.drop_last(), p);
        assert(trim_end_class(cl, s) == trim_end_class(cl, s.drop_last()));
    }
}

/// Every character of every part of a split satisfies what every
/// character of the source satisfies, and no part holds a separator.
pub proof fn lemma_split_class_parts(cl: CharClass, s: Seq<char>, p: spec_fn(char) -> bool)
    requires
        forall|i: int| 0 <= i < s.len() ==> p(#[trigger] s[i]),
    ensures
        forall|k: int, j: int|
            0 <= k < split_class(cl, s).len() && 0 <= j < split_class(cl, s)[k].len() ==> p(
                #[trigger] split_class(cl, s)[k][j],
            ) && !in_class(cl, split_class(cl, s)[k][j]),
    decreases s.len(),
{
    if s.len() == 0 {
        assert(split_class(cl, s) == seq![Seq::<char>::empty()]);
    } else {
        assert forall|i: int| 0 <= i < s.drop_last().len() implies p(
            #[trigger] s.drop_last()[i],
        ) by {
            assert(s.drop_last()[i] == s[i]);
        }
        lemma_split_class_parts(cl, s.drop_last(), p);
        lemma_split_class_nonempty(cl, s.drop_last());
        let pre = split_class(cl, s.drop_last());
        let cur = split_class(cl, s);
        assert forall|k: int, j: int|
            0 <= k < cur.len() && 0 <= j < cur[k].len() implies p(#[trigger] cur[k][j])
            && !in_class(cl, cur[k][j]) by {
            if in_class(cl, s.last()) {
                assert(cur == pre.push(Seq::<char>::empty()));
                assert(k < pre.len());
                assert(cur[k] == pre[k]);
            } else {
                assert(cur == pre.update(pre.len() - 1, pre.last().push(s.last())));
                if k < pre.len() - 1 {
                    assert(cur[k] == pre[k]);
                } else {
                    assert(cur[k] == pre.last().push(s.last()));
                    if j < pre.last().len() {
                        assert(cur[k][j] == pre[pre.len() - 1][j]);
                    } else {
                        assert(cur[k][j] == s.last());
                    }
                }
            }
        }
    }
}

/// Splitting a base extended by one separator and one separator-free
/// part appends that part to the split of the base.
pub proof fn lemma_split_class_append(cl: CharClass, sep: char, base: Seq<char>, x: Seq<char>)
    requires
        in_class(cl, sep),
        none_in_class(cl, x),
    ensures
        split_class(cl, base.push(sep) + x) == split_class(cl, base).push(x),
    decreases x.len(),
{
    if x.len() == 0 {
        assert(base.push(sep) + x =~= base.push(sep));
        assert(base.push(sep).drop_last() =~= base);
        assert(base.push(sep).last() == sep);
        assert(split_class(cl, base.push(sep)) =~~= split_class(cl, base).push(x));
    } else {
        assert(forall|i: int| 0 <= i < x.drop_last().len() ==> #[trigger] x.drop_last()[i] == x[i]);
        lemma_split_class_append(cl, sep, base, x.drop_last());
        let whole = base.push(sep) + x;
        assert(whole.drop_last() =~= base.push(sep) + x.drop_last());
        assert(whole.last() == x.last());
        assert(!in_class(cl, x.last()));
        let pre = split_class(cl, base).push(x.drop_last());
        lemma_split_class_nonempty(cl, base);
        assert(split_class(cl, whole) == pre.update(pre.len() - 1, pre.last().push(x.last())));
        assert(split_class(cl, whole) =~~= split_class(cl, base).push(x));
    }
}

/// Joining separator-free parts and splitting again recovers exactly
/// the parts.
pub proof fn lemma_join_split_roundtrip(cl: CharClass, sep: char, parts: Seq<Seq<char>>)
    requires
        in_class(cl, sep),
        parts.len() >= 1,
        forall|k: int| 0 <= k < parts.len() ==> none_in_class(cl, #[trigger] parts[k]),
    ensures
        split_class(cl, join_char(sep, parts)) == parts,
    decreases parts.len(),
{
    if parts.len() == 1 {
        lemma_split_class_whole(cl, parts[0]);
        assert(join_char(sep, parts) == parts[0]);
        assert(split_class(cl, join_char(sep, parts)) =~~= parts);
    } else {
        let pre = parts.drop_last();
        assert(forall|k: int| 0 <= k < pre.len() ==> pre[k] == parts[k]);
        lemma_join_split_roundtrip(cl, sep, pre);
        assert(join_char(sep, parts) == join_char(sep, pre).push(sep) + parts.last());
        lemma_split_class_append(cl, sep, join_char(sep, pre), parts.last());
        assert(split_class(cl, join_char(sep, parts)) =~~= parts);
    }
}

/// Tidy white space: every space character is a plain blank, no two
/// stand side by side, and none stands at an end.
pub open spec fn space_tidy(s: Seq<char>) -> bool {
    &&& forall|j: int| 0 <= j < s.len() && is_space(#[trigger] s[j]) ==> s[j] == ' '
    &&& forall|j: int| 0 <= j < s.len() - 1 ==> !(is_space(#[trigger] s[j]) && is_space(s[j + 1]))
    &&& s.len() > 0 ==> !is_space(s[0]) && !is_space(s.last())
}

/// A character-wise property that holds of the separator survives
/// joining.
pub proof fn lemma_join_char_pred(sep: char, parts: Seq<Seq<char>>, p: spec_fn(char) -> bool)
    requires
        p(sep),
        forall|k: int, j: int|
            0 <= k < parts.len() && 0 <= j < parts[k].len() ==> p(#[trigger] parts[k][j]),
    ensures
        forall|j: int| 0 <= j < join_char(sep, parts).len() ==> p(#[trigger] join_char(sep, parts)[j]),
    decreases parts.len(),
{
    if parts.len() <= 1 {
    } else {
        let pre = parts.drop_last();
        assert(forall|k: int| 0 <= k < pre.len() ==> #[trigger] pre[k] == parts[k]);
        lemma_join_char_pred(sep, pre, p);
        let base = join_char(sep, pre);
        let whole = join_char(sep, parts);
        assert(whole == base.push(sep) + parts.last());
        assert forall|j: int| 0 <= j < whole.len() implies p(#[trigger] whole[j]) by {
            if j < base.len() {
                assert(whole[j] == base[j]);
            } else if j == base.len() {
                assert(whole[j] == sep);
            } else {
                assert(whole[j] == parts.last()[j - base.len() - 1]);
            }
        }
    }
}

/// Joining tidy parts with a non-space separator yields a tidy whole.
pub proof fn lemma_join_tidy(sep: char, parts: Seq<Seq<char>>)
    requires
        !is_space(sep),
        forall|k: int| 0 <= k < parts.len() ==> space_tidy(#[trigger] parts[k]),
    ensures
        space_tidy(join_char(sep, parts)),
    decreases parts.len(),
{
    if parts.len() == 0 {
    } else if parts.len() == 1 {
        assert(join_char(sep, parts) == parts[0]);
    } else {
        let pre = parts.drop_last();
        assert(forall|k: int| 0 <= k < pre.len() ==> #[trigger] pre[k] == parts[k]);
        lemma_join_tidy(sep, pre);
        let base = join_char(sep, pre);
        let last = parts.last();
        let whole = join_char(sep, parts);
        assert(whole == base.push(sep) + last);
        assert forall|j: int| 0 <= j < whole.len() && is_space(#[trigger] whole[j]) implies whole[j]
            == ' ' by {
            if j < base.len() {
                assert(whole[j] == base[j]);
            } else if j == base.len() {
                assert(whole[j] == sep);
            } else {
                assert(whole[j] == last[j - base.len() - 1]);
            }
        }
        assert forall|j: int| 0 <= j < whole.len() - 1 implies !(is_space(#[trigger] whole[j])
            && is_space(whole[j + 1])) by {
            if j + 1 < base.len() {
                assert(whole[j] == base[j] && whole[j + 1] == base[j + 1]);
            } else if j + 1 == base.len() {
                assert(whole[j] == base[j] && whole[j + 1] == sep);
            } else if j == base.len() {
                assert(whole[j] == sep);
            } else {
                assert(whole[j] == last[j - base.len() - 1] && whole[j + 1] == last[j
                    - base.len()]);
            }
        }
        if whole.len() > 0 {
            assert(!is_space(whole[0])) by {
                if base.len() > 0 {
                    assert(whole[0] == base[0]);
                } else {
                    assert(whole[0] == sep);
                }
            }
            assert(!is_space(whole.last())) by {
                if last.len() > 0 {
                    assert(whole.last() == last.last());
                } else {
                    assert(whole.last() == sep);
                }
            }
        }
    }
}

/// Joining non-empty space-free parts with a blank yields a tidy
/// whole.
pub proof fn lemma_join_blank_tidy(parts: Seq<Seq<char>>)
    requires
        forall|k: int| 0 <= k < parts.len() ==> (#[trigger] parts[k]).len() > 0,
        forall|k: int, j: int|
            0 <= k < parts.len() && 0 <= j < parts[k].len() ==> !is_space(#[trigger] parts[k][j]),
    ensures
        space_tidy(join_char(' ', parts)),
    decreases parts.len(),
{
    if parts.len() == 0 {
    } else if parts.len() == 1 {
        assert(join_char(' ', parts) == parts[0]);
        let whole = parts[0];
        assert(forall|j: int| 0 <= j < whole.len() ==> !is_space(#[trigger] whole[j]));
    } else {
        let pre = parts.drop_last();
        assert(forall|k: int| 0 <= k < pre.len() ==> #[trigger] pre[k] == parts[k]);
        lemma_join_blank_tidy(pre);
        let base = join_char(' ', pre);
        let last = parts.last();
        let whole = join_char(' ', parts);
        assert(whole == base.push(' ') + last);
        assert(base.len() > 0) by {
            assert(pre.len() >= 1);
            lemma_join_len(' ', pre);
        }
        assert forall|j: int| 0 <= j < whole.len() && is_space(#[trigger] whole[j]) implies whole[j]
            == ' ' by {
            if j < base.len() {
                assert(whole[j] == base[j]);
            } else if j == base.len() {
            } else {
                assert(whole[j] == last[j - base.len() - 1]);
            }
        }
        assert forall|j: int| 0 <= j < whole.len() - 1 implies !(is_space(#[trigger] whole[j])
            && is_space(whole[j + 1])) by {
            if j + 1 < base.len() {
                assert(whole[j] == base[j] && whole[j + 1] == base[j + 1]);
            } else if j + 1 == base.len() {
                assert(whole[j] == base[j] && whole[j + 1] == ' ');
                assert(whole[j] == base.last());
                assert(!is_space(base.last()));
            } else if j == base.len() {
                assert(whole[j + 1] == last[0]);
                assert(!is_space(last[0]));
            } else {
                assert(whole[j] == last[j - base.len() - 1] && whole[j + 1] == last[j
                    - base.len()]);
            }
        }
        assert(whole.len() > 0);
        assert(!is_space(whole[0])) by {
            assert(whole[0] == base[0]);
        }
        assert(!is_space(whole.last())) by {
            assert(last.len() > 0);
            assert(whole.last() == last.last());
        }
    }
}

/// A join of at least one part is at least as long as its first part,
/// and a join of two or more parts holds at least one separator.
pub proof fn lemma_join_len(sep: char, parts: Seq<Seq<char>>)
    requires
        parts.len() >= 1,
    ensures
        join_char(sep, parts).len() >= parts[0].len(),
        parts.len() >= 2 ==> join_char(sep, parts).len() >= 1,
        parts[0].len() > 0 ==> join_char(sep, parts).len() > 0 && join_char(sep, parts)[0]
            == parts[0][0],
        parts.len() >= 2 && parts[0].len() == 0 ==> join_char(sep, parts).len() > 0,
    decreases parts.len(),
{
    if parts.len() == 1 {
        assert(join_char(sep, parts) == parts[0]);
    } else {
        let pre = parts.drop_last();
        assert(pre[0] == parts[0]);
        lemma_join_len(sep, pre);
        assert(join_char(sep, parts) == join_char(sep, pre).push(sep) + parts.last());
        if parts[0].len() > 0 {
            assert(join_char(sep, parts)[0] == join_char(sep, pre)[0]);
        }
    }
}

/// A non-empty end-trim never ends in a member of the class.
pub proof fn lemma_trim_end_last(cl: CharClass, s: Seq<char>)
    ensures
        trim_end_class(cl, s).len() > 0 ==> !in_class(cl, trim_end_class(cl, s).last()),
    decreases s.len(),
{
    if s.len() > 0 && in_class(cl, s.last()) {
        lemma_trim_end_last(cl, s.drop_last());
    }
}

/// A sequence with no separator splits into itself alone.
pub proof fn lemma_split_class_whole(cl: CharClass, s: Seq<char>)
    requires
        none_in_class(cl, s),
    ensures
        split_class(cl, s) == seq![s],
    decreases s.len(),
{
    if s.len() == 0 {
        assert(split_class(cl, s) =~~= seq![s]);
    } else {
        lemma_split_class_whole(cl, s.drop_last());
        assert(split_class(cl, s) =~~= seq![s]);
    }
}

/// A sequence of two separator-free halves around one separator splits
/// into exactly those halves.
pub proof fn lemma_split_class_pair(cl: CharClass, a: Seq<char>, sep: char, b: Seq<char>)
    requires
        in_class(cl, sep),
        none_in_class(cl, a),
        none_in_class(cl, b),
    ensures
        split_class(cl, a + seq![sep] + b) == seq![a, b],
    decreases b.len(),
{
    if b.len() == 0 {
        lemma_split_class_whole(cl, a);
        assert((a + seq![sep] + b).drop_last() =~= a);
        assert(split_class(cl, a + seq![sep] + b) =~~= seq![a, b]);
    } else {
        lemma_split_class_pair(cl, a, sep, b.drop_last());
        assert((a + seq![sep] + b).drop_last() =~= a + seq![sep] + b.drop_last());
        assert((a + seq![sep] + b).last() == b.last());
        assert(split_class(cl, a + seq![sep] + b) =~~= seq![a, b]);
    }
}

/// Executable test for [`all_in_class`].
pub fn all_in_class_x(cl: CharClass, v: &[char]) -> (b: bool)
    ensures
        b == all_in_class(cl, v@),
{
    let mut i: usize = 0;
    while i < v.len()
        invariant
            i <= v@.len(),
            forall|j: int| 0 <= j < i ==> in_class(cl, #[trigger] v@[j]),
        decreases v@.len() - i,
    {
        if !in_class_x(cl, v[i]) {
            return false;
        }
        i = i + 1;
    }
    true
}

/// Whether the characters spell exactly the given string.
pub fn chars_eq(v: &[char], s: &str) -> (b: bool)
    ensures
        b == (v@ == s@),
{
    let w = crate::chars::to_chars(s);
    if v.len() != w.len() {
        proof {
            assert(v@.len() != w@.len());
        }
        return false;
    }
    let mut i: usize = 0;
    while i < v.len()
        invariant
            i <= v@.len(),
            v@.len() == w@.len(),
            w@ == s@,
            forall|j: int| 0 <= j < i ==> v@[j] == w@[j],
        decreases v@.len() - i,
    {
        if v[i] != w[i] {
            return false;
        }
        i = i + 1;
    }
    proof {
        assert(v@ =~= w@);
    }
    true
}

/// Splitting always yields at least one part.
pub proof fn lemma_split_class_nonempty(cl: CharClass, s: Seq<char>)
    ensures
        split_class(cl, s).len() >= 1,
    decreases s.len(),
{
    if s.len() > 0 {
        lemma_split_class_nonempty(cl, s.drop_last());
    }
}

/// Executable [`split_class`].
pub fn split_class_x(cl: CharClass, v: &Vec<char>) -> (r: Vec<Vec<char>>)
    ensures
        r.deep_view() == split_class(cl, v@),
{
    let mut parts: Vec<Vec<char>> = Vec::new();
    let mut cur: Vec<char> = Vec::new();
    let mut i: usize = 0;
    while i < v.len()
        invariant
            i <= v@.len(),
            parts.deep_view().push(cur@) == split_class(cl, v@.subrange(0, i as int)),
        decreases v@.len() - i,
    {
        let ghost pre = v@.subrange(0, i as int);
        let ghost oldparts = parts.deep_view();
        let ghost oldcur = cur@;
        if in_class_x(cl, v[i]) {
            parts.push(cur);
            cur = Vec::new();
        } else {
            cur.push(v[i]);
        }
        i = i + 1;
        proof {
            let curseq = v@.subrange(0, i as int);
            assert(curseq.drop_last() =~= pre);
            if in_class(cl, v@[i - 1]) {
                assert(parts.deep_view() =~~= oldparts.push(oldcur));
                assert(parts.deep_view().push(cur@) =~~= split_class(cl, pre).push(
                    Seq::<char>::empty(),
                ));
            } else {
                let p = split_class(cl, pre);
                lemma_split_class_nonempty(cl, pre);
                assert(parts.deep_view().push(cur@) =~~= p.update(p.len() - 1, p.last().push(v@[i
                    - 1])));
            }
        }
    }
    proof {
        assert(v@.subrange(0, v@.len() as int) =~= v@);
    }
    parts.push(cur);
    proof {
        assert(parts.deep_view() =~~= split_class(cl, v@));
    }
    parts
}

/// Executable [`retain_class`].
pub fn retain_class_x(cl: CharClass, v: &Vec<char>) -> (r: Vec<char>)
    ensures
        r@ == retain_class(cl, v@),
{
    let mut r: Vec<char> = Vec::new();
    let mut i: usize = 0;
    while i < v.len()
        invariant
            i <= v@.len(),
            r@ == retain_class(cl, v@.subrange(0, i as int)),
        decreases v@.len() - i,
    {
        let ghost pre = v@.subrange(0, i as int);
        if in_class_x(cl, v[i]) {
            r.push(v[i]);
        }
        i = i + 1;
        proof {
            let cur = v@.subrange(0, i as int);
            assert(cur.drop_last() =~= pre);
        }
    }
    proof {
        assert(v@.subrange(0, v@.len() as int) =~= v@);
    }
    r
}

/// Executable [`strip_class`].
pub fn strip_class_x(cl: CharClass, v: &Vec<char>) -> (r: Vec<char>)
    ensures
        r@ == strip_class(cl, v@),
{
    let mut r: Vec<char> = Vec::new();
    let mut i: usize = 0;
    while i < v.len()
        invariant
            i <= v@.len(),
            r@ == strip_class(cl, v@.subrange(0, i as int)),
        decreases v@.len() - i,
    {
        let ghost pre = v@.subrange(0, i as int);
        if !in_class_x(cl, v[i]) {
            r.push(v[i]);
        }
        i = i + 1;
        proof {
            let cur = v@.subrange(0, i as int);
            assert(cur.drop_last() =~= pre);
        }
    }
    proof {
        assert(v@.subrange(0, v@.len() as int) =~= v@);
    }
    r
}

/// Executable [`class_to_space`].
pub fn class_to_space_x(cl: CharClass, v: &Vec<char>) -> (r: Vec<char>)
    ensures
        r@ == class_to_space(cl, v@),
{
    let mut r: Vec<char> = Vec::new();
    let mut i: usize = 0;
    while i < v.len()
        invariant
            i <= v@.len(),
            r@.len() == i,
            forall|j: int|
                0 <= j < i ==> r@[j] == (if in_class(cl, v@[j]) {
                    ' '
                } else {
                    v@[j]
                }),
        decreases v@.len() - i,
    {
        if in_class_x(cl, v[i]) {
            r.push(' ');
        } else {
            r.push(v[i]);
        }
        i = i + 1;
    }
    proof {
        assert(r@ =~= class_to_space(cl, v@));
    }
    r
}

/// Executable [`collapse_class`].
pub fn collapse_class_x(cl: CharClass, v: &Vec<char>) -> (r: Vec<char>)
    ensures
        r@ == collapse_class(cl, v@),
{
    let mut r: Vec<char> = Vec::new();
    let mut i: usize = 0;
    while i < v.len()
        invariant
            i <= v@.len(),
            r@ == collapse_class(cl, v@.subrange(0, i as int)),
        decreases v@.len() - i,
    {
        let ghost pre = v@.subrange(0, i as int);
        if in_class_x(cl, v[i]) {
            if !(i > 0 && in_class_x(cl, v[i - 1])) {
                r.push(' ');
            }
        } else {
            r.push(v[i]);
        }
        i = i + 1;
        proof {
            let cur = v@.subrange(0, i as int);
            assert(cur.drop_last() =~= pre);
        }
    }
    proof {
        assert(v@.subrange(0, v@.len() as int) =~= v@);
    }
    r
}

/// Executable [`trim_class`].
pub fn trim_class_x(cl: CharClass, v: &Vec<char>) -> (r: Vec<char>)
    ensures
        r@ == trim_class(cl, v@),
{
    let mut lo: usize = 0;
    proof {
        assert(v@.skip(0) =~= v@);
    }
    while lo < v.len() && in_class_x(cl, v[lo])
        invariant
            lo <= v@.len(),
            trim_start_class(cl, v@) == trim_start_class(cl, v@.skip(lo as int)),
            forall|j: int| 0 <= j < lo ==> in_class(cl, v@[j]),
        decreases v@.len() - lo,
    {
        proof {
            assert(v@.skip(lo as int).drop_first() =~= v@.skip(lo as int + 1));
        }
        lo = lo + 1;
    }
    proof {
        assert(trim_start_class(cl, v@) == v@.skip(lo as int));
    }
    let mut hi: usize = v.len();
    while hi > lo && in_class_x(cl, v[hi - 1])
        invariant
            lo <= hi <= v@.len(),
            trim_start_class(cl, v@) == v@.skip(lo as int),
            trim_end_class(cl, v@.skip(lo as int)) == trim_end_class(
                cl,
                v@.subrange(lo as int, hi as int),
            ),
        decreases hi,
    {
        proof {
            assert(v@.subrange(lo as int, hi as int).drop_last() =~= v@.subrange(
                lo as int,
                hi as int - 1,
            ));
            assert(v@.subrange(lo as int, hi as int).last() == v@[hi - 1]);
        }
        hi = hi - 1;
    }
    let mut r: Vec<char> = Vec::new();
    let mut i: usize = lo;
    while i < hi
        invariant
            lo <= i <= hi <= v@.len(),
            r@ == v@.subrange(lo as int, i as int),
        decreases hi - i,
    {
        r.push(v[i]);
        i = i + 1;
        proof {
            assert(r@ =~= v@.subrange(lo as int, i as int));
        }
    }
    proof {
        assert(v@.skip(lo as int) =~= v@.subrange(lo as int, v@.len() as int));
        if hi == lo {
            assert(r@ =~= v@.subrange(lo as int, lo as int));
            assert(trim_end_class(cl, v@.subrange(lo as int, hi as int)) =~= r@);
        } else {
            assert(!in_class(cl, v@.subrange(lo as int, hi as int).last()));
            assert(trim_end_class(cl, v@.subrange(lo as int, hi as int)) == v@.subrange(
                lo as int,
                hi as int,
            ));
        }
    }
    r
}

} // verus!
