//! First names.  A one-character cell is kept as it is when it is a
//! letter, and rejected otherwise.  Any other cell loses its
//! disallowed characters, runs of `&` become single spaces, white
//! space is tidied, and each hyphen-separated part is title-cased:
//! every space-separated token starts with its upper-cased, folded
//! first character, the rest lower-cased with accents preserved.

use vstd::prelude::*;
use crate::chars::{to_chars, to_string};
use crate::fold::{fold_char, fold_char_x, lower_char, lower_char_x, lower_seq, upper_char, upper_char_x};
use crate::chars::is_space;
use crate::seqops::{
    collapse_class,
    is_name_letter,
    collapse_class_x,
    in_class,
    join_char,
    space_tidy,
    split_class,
    split_class_x,
    strip_class,
    strip_class_x,
    trim_class,
    trim_class_x,
    trim_end_class,
    trim_spaces,
    trim_start_class,
    CharClass,
};
use crate::seqops::{
    lemma_collapse_class_pred,
    lemma_collapse_class_props,
    lemma_collapse_class_stable,
    lemma_join_blank_tidy,
    lemma_join_char_pred,
    lemma_split_class_parts,
    lemma_trim_class_pred,
};

verus! {

/// One token title-cased: the first character upper-cased and folded,
/// the rest lower-cased.
pub open spec fn title_token(tok: Seq<char>) -> Seq<char> {
    seq![fold_char(upper_char(tok[0]))] + lower_seq(tok.skip(1))
}

/// The non-empty tokens of the split, each title-cased.
pub open spec fn formatted_tokens(parts: Seq<Seq<char>>) -> Seq<Seq<char>>
    decreases parts.len(),
{
    if parts.len() == 0 {
        Seq::empty()
    } else {
        let rest = formatted_tokens(parts.drop_last());
        if parts.last().len() > 0 {
            rest.push(title_token(parts.last()))
        } else {
            rest
        }
    }
}

/// One hyphen-part formatted: its white-space tokens title-cased and
/// joined by single spaces.
pub open spec fn format_part(p: Seq<char>) -> Seq<char> {
    join_char(' ', formatted_tokens(split_class(CharClass::Space, p)))
}

/// The canonical form of a first-name cell.
pub open spec fn prenom_of(s: Seq<char>) -> Option<Seq<char>> {
    if s.len() == 1 {
        if is_name_letter(s[0]) {
            Some(s)
        } else {
            None
        }
    } else {
        let t = collapse_class(
            CharClass::Space,
            trim_spaces(
                collapse_class(
                    CharClass::Just('&'),
                    strip_class(CharClass::PrenomNoise, s),
                ),
            ),
        );
        Some(
            join_char(
                '-',
                split_class(CharClass::Just('-'), t).map_values(|p: Seq<char>| format_part(p)),
            ),
        )
    }
}

/// The first-name transform over an optional cell: null passes
/// through.
pub open spec fn prenom_spec(o: Option<Seq<char>>) -> Option<Seq<char>> {
    match o {
        None => None,
        Some(s) => prenom_of(s),
    }
}

/// Builds [`format_part`] for one hyphen-part.
fn format_part_x(p: &Vec<char>) -> (r: Vec<char>)
    ensures
        r@ == format_part(p@),
{
    {
        let parts = split_class_x(CharClass::Space, p);
        let ghost sparts = split_class(CharClass::Space, p@);
        let mut out: Vec<char> = Vec::new();
        let mut some_token: bool = false;
        let mut k: usize = 0;
        proof {
            assert(sparts.subrange(0, 0) =~= Seq::<Seq<char>>::empty());
        }
        while k < parts.len()
            invariant
                k <= parts@.len(),
                parts.deep_view() == sparts,
                out@ == join_char(' ', formatted_tokens(sparts.subrange(0, k as int))),
                some_token == (formatted_tokens(sparts.subrange(0, k as int)).len() > 0),
            decreases parts@.len() - k,
        {
            let ghost pre = sparts.subrange(0, k as int);
            let tok = &parts[k];
            proof {
                assert(tok@ == sparts[k as int]);
                assert(sparts.subrange(0, k as int + 1).drop_last() =~= pre);
                assert(sparts.subrange(0, k as int + 1).last() == sparts[k as int]);
            }
            if tok.len() > 0 {
                if some_token {
                    out.push(' ');
                }
                let ghost mid = out@;
                out.push(fold_char_x(upper_char_x(tok[0])));
                let mut j: usize = 1;
                while j < tok.len()
                    invariant
                        1 <= j <= tok@.len(),
                        tok@.len() > 0,
                        out@ == mid + seq![fold_char(upper_char(tok@[0]))] + lower_seq(
                            tok@.skip(1),
                        ).subrange(0, j - 1),
                    decreases tok@.len() - j,
                {
                    out.push(lower_char_x(tok[j]));
                    j = j + 1;
                    proof {
                        assert(lower_seq(tok@.skip(1))[j - 2] == lower_char(tok@[j - 1]));
                        assert(out@ =~= mid + seq![fold_char(upper_char(tok@[0]))] + lower_seq(
                            tok@.skip(1),
                        ).subrange(0, j - 1));
                    }
                }
                proof {
                    assert(lower_seq(tok@.skip(1)).subrange(
                        0,
                        tok@.len() - 1,
                    ) =~= lower_seq(tok@.skip(1)));
                    assert(out@ =~= mid + title_token(tok@));
                    let cur = formatted_tokens(sparts.subrange(0, k as int + 1));
                    assert(cur == formatted_tokens(pre).push(title_token(tok@)));
                    assert(cur.drop_last() =~= formatted_tokens(pre));
                    assert(cur.last() == title_token(tok@));
                    if formatted_tokens(pre).len() == 0 {
                        assert(join_char(' ', cur) =~= title_token(tok@));
                        assert(out@ =~= join_char(' ', cur));
                    } else {
                        assert(join_char(' ', cur) == join_char(
                            ' ',
                            formatted_tokens(pre),
                        ).push(' ') + title_token(tok@));
                        assert(out@ =~= join_char(' ', cur));
                    }
                }
                some_token = true;
            } else {
                proof {
                    assert(formatted_tokens(sparts.subrange(0, k as int + 1))
                        == formatted_tokens(pre));
                }
            }
            k = k + 1;
        }
        proof {
            assert(sparts.subrange(0, sparts.len() as int) =~= sparts);
        }
        out
    }
}

/// Keeps a one-letter cell as it is, rejects another one-character
/// cell, and otherwise cleans and title-cases the cell part by part.
pub fn transform_prenom(opt_text: Option<&str>) -> (r: Option<String>)
    ensures
        r.deep_view() == prenom_spec(opt_text.deep_view()),
{
    match opt_text {
        None => None,
        Some(text) => {
            let cs = to_chars(text);
            if cs.len() == 1 {
                if crate::seqops::name_letter(cs[0]) {
                    Some(to_string(cs.as_slice()))
                } else {
                    None
                }
            } else {
                let r1 = strip_class_x(CharClass::PrenomNoise, &cs);
                let r2 = collapse_class_x(CharClass::Just('&'), &r1);
                let t = collapse_class_x(CharClass::Space, &trim_class_x(CharClass::Space, &r2));
                let parts = split_class_x(CharClass::Just('-'), &t);
                let ghost sparts = split_class(CharClass::Just('-'), t@);
                let ghost emitted = sparts.map_values(|p: Seq<char>| format_part(p));
                let mut out: Vec<char> = Vec::new();
                let mut k: usize = 0;
                proof {
                    assert(emitted.subrange(0, 0) =~= Seq::<Seq<char>>::empty());
                }
                while k < parts.len()
                    invariant
                        k <= parts@.len(),
                        parts.deep_view() == sparts,
                        emitted == sparts.map_values(|p: Seq<char>| format_part(p)),
                        out@ == join_char('-', emitted.subrange(0, k as int)),
                    decreases parts@.len() - k,
                {
                    let ghost pre = emitted.subrange(0, k as int);
                    proof {
                        assert(parts@[k as int]@ == sparts[k as int]);
                        assert(emitted.subrange(0, k as int + 1).drop_last() =~= pre);
                        assert(emitted.subrange(0, k as int + 1).last() == format_part(
                            sparts[k as int],
                        ));
                    }
                    if k > 0 {
                        out.push('-');
                    }
                    let mut piece = format_part_x(&parts[k]);
                    out.append(&mut piece);
                    k = k + 1;
                    proof {
                        let cur = emitted.subrange(0, k as int);
                        if k == 1 {
                            assert(join_char('-', cur) == format_part(sparts[0]));
                            assert(out@ =~= join_char('-', cur));
                        } else {
                            assert(join_char('-', cur) == join_char('-', pre).push('-')
                                + format_part(sparts[k - 1]));
                            assert(out@ =~= join_char('-', cur));
                        }
                    }
                }
                proof {
                    crate::seqops::lemma_split_class_nonempty(CharClass::Just('-'), t@);
                    assert(emitted.subrange(0, emitted.len() as int) =~= emitted);
                }
                Some(to_string(out.as_slice()))
            }
        },
    }
}

/// Title-casing one token twice equals title-casing it once.
pub proof fn lemma_title_token_idempotent(tok: Seq<char>)
    requires
        tok.len() > 0,
    ensures
        title_token(title_token(tok)) == title_token(tok),
{
    let t = title_token(tok);
    assert(t.len() == tok.len());
    assert(t[0] == fold_char(upper_char(tok[0])));
    assert forall|j: int| 1 <= j < t.len() implies #[trigger] t[j] == lower_char(tok[j]) by {
        assert(t[j] == lower_seq(tok.skip(1))[j - 1]);
        assert(tok.skip(1)[j - 1] == tok[j]);
    }
    assert forall|j: int| 1 <= j < t.len() implies #[trigger] title_token(t)[j] == t[j] by {
        assert(title_token(t)[j] == lower_seq(t.skip(1))[j - 1]);
        assert(t.skip(1)[j - 1] == t[j]);
        assert(lower_char(lower_char(tok[j])) == lower_char(tok[j]));
    }
    assert(title_token(t)[0] == fold_char(upper_char(t[0])));
    assert(fold_char(upper_char(fold_char(upper_char(tok[0])))) == fold_char(upper_char(tok[0])));
    assert(title_token(t) =~= t);
}

/// A character a cleaned hyphen-part may hold: no disallowed
/// character, no ampersand, no hyphen, and no white space but the
/// plain blank.
pub open spec fn part_char(c: char) -> bool {
    &&& !in_class(CharClass::PrenomNoise, c)
    &&& c != '&'
    &&& c != '-'
    &&& (is_space(c) ==> c == ' ')
}

/// The title-cased tokens of a split are non-empty, space- and
/// hyphen-free, ampersand-free, and fixed under title-casing.
proof fn lemma_formatted_tokens_props(parts: Seq<Seq<char>>)
    requires
        forall|k: int, j: int|
            0 <= k < parts.len() && 0 <= j < parts[k].len() ==> part_char(#[trigger] parts[k][j])
                && !is_space(parts[k][j]),
    ensures
        forall|k: int|
            0 <= k < formatted_tokens(parts).len() ==> (#[trigger] formatted_tokens(
                parts,
            )[k]).len() > 0 && title_token(formatted_tokens(parts)[k]) == formatted_tokens(
                parts,
            )[k],
        forall|k: int, j: int|
            0 <= k < formatted_tokens(parts).len() && 0 <= j < formatted_tokens(parts)[k].len()
                ==> !is_space(#[trigger] formatted_tokens(parts)[k][j]) && formatted_tokens(
                parts,
            )[k][j] != '&' && formatted_tokens(parts)[k][j] != '-',
    decreases parts.len(),
{
    if parts.len() > 0 {
        assert(forall|k: int, j: int|
            0 <= k < parts.drop_last().len() && 0 <= j < parts.drop_last()[k].len() ==> part_char(
                #[trigger] parts.drop_last()[k][j],
            ) && !is_space(parts.drop_last()[k][j])) by {
            assert(forall|k: int|
                0 <= k < parts.drop_last().len() ==> #[trigger] parts.drop_last()[k] == parts[k]);
        }
        lemma_formatted_tokens_props(parts.drop_last());
        let pre = formatted_tokens(parts.drop_last());
        let cur = formatted_tokens(parts);
        let tok = parts.last();
        if tok.len() > 0 {
            assert(cur == pre.push(title_token(tok)));
            let tt = title_token(tok);
            assert(tt.len() == tok.len());
            lemma_title_token_idempotent(tok);
            assert forall|j: int| 0 <= j < tt.len() implies !is_space(#[trigger] tt[j]) && tt[j]
                != '&' && tt[j] != '-' by {
                if j == 0 {
                    assert(tt[0] == fold_char(upper_char(tok[0])));
                    assert(part_char(tok[0]) && !is_space(tok[0]));
                } else {
                    assert(tt[j] == lower_seq(tok.skip(1))[j - 1]);
                    assert(tok.skip(1)[j - 1] == tok[j]);
                    assert(tt[j] == lower_char(tok[j]));
                    assert(part_char(tok[j]) && !is_space(tok[j]));
                }
            }
        } else {
            assert(cur == pre);
        }
    }
}

/// A list of non-empty, title-fixed tokens is a fixed point of the
/// token formatter.
proof fn lemma_formatted_tokens_fixed(parts: Seq<Seq<char>>)
    requires
        forall|k: int|
            0 <= k < parts.len() ==> (#[trigger] parts[k]).len() > 0 && title_token(parts[k])
                == parts[k],
    ensures
        formatted_tokens(parts) == parts,
    decreases parts.len(),
{
    if parts.len() == 0 {
        assert(formatted_tokens(parts) =~~= parts);
    } else {
        assert(forall|k: int|
            0 <= k < parts.drop_last().len() ==> #[trigger] parts.drop_last()[k] == parts[k]);
        lemma_formatted_tokens_fixed(parts.drop_last());
        assert(formatted_tokens(parts) =~~= parts);
    }
}

/// What one formatted hyphen-part looks like, and that formatting it
/// again changes nothing.
proof fn lemma_format_part_fixed(p: Seq<char>)
    requires
        forall|j: int| 0 <= j < p.len() ==> part_char(#[trigger] p[j]),
    ensures
        forall|j: int|
            0 <= j < format_part(p).len() ==> (#[trigger] format_part(p)[j]) != '&' && format_part(
                p,
            )[j] != '-' && (is_space(format_part(p)[j]) ==> format_part(p)[j] == ' '),
        space_tidy(format_part(p)),
        format_part(format_part(p)) == format_part(p),
{
    let cl = CharClass::Space;
    let sp = split_class(cl, p);
    lemma_split_class_parts(cl, p, |c: char| part_char(c));
    assert(forall|k: int, j: int|
        0 <= k < sp.len() && 0 <= j < sp[k].len() ==> part_char(#[trigger] sp[k][j]) && !is_space(
            sp[k][j],
        ));
    lemma_formatted_tokens_props(sp);
    let ft = formatted_tokens(sp);
    let f = join_char(' ', ft);
    assert(format_part(p) == f);
    assert forall|j: int| 0 <= j < f.len() implies (#[trigger] f[j]) != '&' && f[j] != '-' && (
    is_space(f[j]) ==> f[j] == ' ') by {
        lemma_join_char_pred(' ', ft, |c: char| c != '&' && c != '-' && (is_space(c) ==> c == ' '));
    }
    lemma_join_blank_tidy(ft);
    assert(space_tidy(f));
    // Formatting the result again changes nothing.
    if ft.len() == 0 {
        assert(f =~= Seq::<char>::empty());
        assert(split_class(cl, f) == seq![Seq::<char>::empty()]);
        assert(formatted_tokens(seq![Seq::<char>::empty()]) =~~= Seq::<Seq<char>>::empty()) by {
            let one = seq![Seq::<char>::empty()];
            assert(one.drop_last() =~= Seq::<Seq<char>>::empty());
            assert(formatted_tokens(Seq::<Seq<char>>::empty()) =~= Seq::<Seq<char>>::empty());
            assert(one.last().len() == 0);
            assert(formatted_tokens(one) == formatted_tokens(one.drop_last()));
        }
        assert(format_part(f) =~= f);
    } else {
        crate::seqops::lemma_join_split_roundtrip(cl, ' ', ft);
        assert(split_class(cl, f) == ft);
        lemma_formatted_tokens_fixed(ft);
        assert(format_part(f) == f);
    }
}

/// Applying the first-name transform twice equals applying it once,
/// for every cell whose canonical form keeps to the allowed
/// characters and is not a single non-letter character.  Two kinds of
/// cell fall outside: one whose canonical form is a lone non-letter,
/// which a second pass rejects; and one with a letter such as `'ÿ'` at
/// a token start, whose title-cased form leaves the kept character
/// set and is stripped by a second pass.
pub proof fn lemma_prenom_idempotent(o: Option<Seq<char>>)
    requires
        match prenom_spec(o) {
            None => true,
            Some(t) => {
                &&& (t.len() == 1 ==> is_name_letter(t[0]))
                &&& forall|j: int|
                    0 <= j < t.len() ==> !in_class(CharClass::PrenomNoise, #[trigger] t[j])
            },
        },
    ensures
        prenom_spec(prenom_spec(o)) == prenom_spec(o),
{
    let sp_cl = CharClass::Space;
    let hy_cl = CharClass::Just('-');
    let amp_cl = CharClass::Just('&');
    let noise = CharClass::PrenomNoise;
    if let Some(s) = o {
        if s.len() == 1 {
            // A one-character cell maps to itself or to null; both are
            // fixed points.
        } else {
            let stripped = strip_class(noise, s);
            let amp = collapse_class(amp_cl, stripped);
            let tr = trim_spaces(amp);
            let cleaned = collapse_class(sp_cl, tr);
            let parts = split_class(hy_cl, cleaned);
            let emitted = parts.map_values(|p: Seq<char>| format_part(p));
            let t = join_char('-', emitted);
            assert(prenom_of(s) == Some(t));
            let good = forall|j: int|
                0 <= j < t.len() ==> !in_class(noise, #[trigger] t[j]);
            assert(good);
            // The hyphen-parts of the cleaned text hold only allowed
            // characters.
            crate::seqops::lemma_strip_class_chars(noise, s);
            lemma_collapse_class_pred(amp_cl, stripped, |c: char| !in_class(noise, c));
            lemma_collapse_class_props(amp_cl, stripped);
            assert(forall|j: int| 0 <= j < amp.len() ==> (#[trigger] amp[j]) != '&');
            lemma_trim_class_pred(
                sp_cl,
                amp,
                |c: char| !in_class(noise, c) && c != '&',
            );
            assert(trim_class(sp_cl, amp) == tr);
            lemma_collapse_class_pred(
                sp_cl,
                tr,
                |c: char| !in_class(noise, c) && c != '&',
            );
            lemma_collapse_class_props(sp_cl, tr);
            lemma_split_class_parts(
                hy_cl,
                cleaned,
                |c: char| !in_class(noise, c) && c != '&' && (is_space(c) ==> c == ' '),
            );
            assert forall|k: int, j: int|
                0 <= k < parts.len() && 0 <= j < parts[k].len() implies part_char(
                #[trigger] parts[k][j],
            ) by {
                assert(!in_class(hy_cl, parts[k][j]));
            }
            // Each formatted part is tidy and fixed under formatting.
            assert forall|k: int| 0 <= k < emitted.len() implies space_tidy(
                #[trigger] emitted[k],
            ) && format_part(emitted[k]) == emitted[k] && (forall|j: int|
                0 <= j < emitted[k].len() ==> (#[trigger] emitted[k][j]) != '&' && emitted[k][j]
                    != '-' && (is_space(emitted[k][j]) ==> emitted[k][j] == ' ')) by {
                assert(emitted[k] == format_part(parts[k]));
                lemma_format_part_fixed(parts[k]);
            }
            // The joined result passes every cleaning stage untouched.
            crate::seqops::lemma_strip_class_fixed(noise, t);
            assert(forall|j: int| 0 <= j < t.len() ==> (#[trigger] t[j]) != '&') by {
                lemma_join_char_pred('-', emitted, |c: char| c != '&');
            }
            lemma_collapse_class_stable(amp_cl, t);
            crate::seqops::lemma_join_tidy('-', emitted);
            assert(space_tidy(t));
            assert(trim_start_class(sp_cl, t) == t);
            assert(trim_end_class(sp_cl, t) == t);
            assert(trim_spaces(t) == t);
            lemma_collapse_class_stable(sp_cl, t);
            crate::seqops::lemma_split_class_nonempty(hy_cl, cleaned);
            assert(emitted.len() >= 1);
            crate::seqops::lemma_join_split_roundtrip(hy_cl, '-', emitted);
            assert(split_class(hy_cl, t) == emitted);
            assert(emitted.map_values(|p: Seq<char>| format_part(p)) =~= emitted);
            if t.len() == 1 {
                assert(is_name_letter(t[0]));
                assert(prenom_of(t) == Some(t));
            } else {
                assert(prenom_of(t) == Some(
                    join_char(
                        '-',
                        split_class(
                            hy_cl,
                            collapse_class(
                                sp_cl,
                                trim_spaces(collapse_class(amp_cl, strip_class(noise, t))),
                            ),
                        ).map_values(|p: Seq<char>| format_part(p)),
                    ),
                ));
                assert(prenom_of(t) == Some(t));
            }
        }
    }
}

} // verus!
