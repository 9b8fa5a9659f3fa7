//! Telephone numbers.  Only the digits of the cell count.  A number is
//! classified by its length and leading digits, paid-service numbers
//! (national part starting 81, 82, 83, 87 or 89) are rejected, and an
//! accepted number is rewritten as `+33` followed by the nine national
//! digits grouped 1-2-2-2-2.
//!
//! A twelve-digit number starting `00` is rejected: the recorded
//! international rewrite asks for eleven digits where only ten exist,
//! so no output of that shape can be formed.

use vstd::prelude::*;
use crate::chars::{is_digit, to_chars, to_string};
use crate::seqops::{all_in_class, retain_class, retain_class_x, CharClass};
use crate::seqops::{lemma_retain_class_chars, lemma_retain_class_push};

verus! {

/// A paid-service national part: it starts with 81, 82, 83, 87 or 89.
pub open spec fn is_paid(t: Seq<char>) -> bool {
    t.len() >= 2 && t[0] == '8' && (t[1] == '1' || t[1] == '2' || t[1] == '3' || t[1] == '7' || t[1]
        == '9')
}

/// The canonical rendering of nine national digits:
/// `+33 d dd dd dd dd`.
pub open spec fn fmt_national(n: Seq<char>) -> Seq<char> {
    seq![
        '+',
        '3',
        '3',
        ' ',
        n[0],
        ' ',
        n[1],
        n[2],
        ' ',
        n[3],
        n[4],
        ' ',
        n[5],
        n[6],
        ' ',
        n[7],
        n[8],
    ]
}

/// The canonical form of a telephone cell.
pub open spec fn phone_of(s: Seq<char>) -> Option<Seq<char>> {
    let d = retain_class(CharClass::Digit, s);
    if d.len() == 10 && d[0] == '0' && !is_paid(d.skip(1)) {
        Some(fmt_national(d.skip(1)))
    } else if d.len() == 11 && d[0] == '3' && d[1] == '3' && !is_paid(d.skip(2)) {
        Some(fmt_national(d.skip(2)))
    } else if d.len() == 12 && d[0] == '3' && d[1] == '3' && d[2] == '0' && !is_paid(d.skip(3)) {
        Some(fmt_national(d.skip(3)))
    } else if d.len() == 9 && !is_paid(d) {
        Some(fmt_national(d))
    } else {
        None
    }
}

/// The telephone transform over an optional cell: null passes through.
pub open spec fn phone_spec(o: Option<Seq<char>>) -> Option<Seq<char>> {
    match o {
        None => None,
        Some(s) => phone_of(s),
    }
}

/// Whether the digits from position `k` on name a paid service.
fn paid_at(d: &Vec<char>, k: usize) -> (b: bool)
    requires
        k <= d@.len(),
    ensures
        b == is_paid(d@.skip(k as int)),
{
    if d.len() - k >= 2 {
        let c0 = d[k];
        let c1 = d[k + 1];
        c0 == '8' && (c1 == '1' || c1 == '2' || c1 == '3' || c1 == '7' || c1 == '9')
    } else {
        false
    }
}

/// Renders nine national digits as `+33 d dd dd dd dd`.
fn render_national(d: &Vec<char>, k: usize) -> (r: String)
    requires
        d@.len() - k == 9,
    ensures
        r@ == fmt_national(d@.skip(k as int)),
{
    let len = d.len();
    proof {
        assert(k + 9 == len);
    }
    let mut out: Vec<char> = Vec::new();
    out.push('+');
    out.push('3');
    out.push('3');
    out.push(' ');
    out.push(d[k]);
    out.push(' ');
    out.push(d[k + 1]);
    out.push(d[k + 2]);
    out.push(' ');
    out.push(d[k + 3]);
    out.push(d[k + 4]);
    out.push(' ');
    out.push(d[k + 5]);
    out.push(d[k + 6]);
    out.push(' ');
    out.push(d[k + 7]);
    out.push(d[k + 8]);
    proof {
        assert(out@ =~= fmt_national(d@.skip(k as int)));
    }
    to_string(out.as_slice())
}

/// Keeps the digits of the cell, rejects paid-service numbers, and
/// rewrites an accepted number to its `+33` form.
pub fn transform_telephone(opt_phone_number: Option<&str>) -> (r: Option<String>)
    ensures
        r.deep_view() == phone_spec(opt_phone_number.deep_view()),
{
    match opt_phone_number {
        None => None,
        Some(text) => {
            let cs = to_chars(text);
            let d = retain_class_x(CharClass::Digit, &cs);
            if d.len() == 10 && d[0] == '0' && !paid_at(&d, 1) {
                Some(render_national(&d, 1))
            } else if d.len() == 11 && d[0] == '3' && d[1] == '3' && !paid_at(&d, 2) {
                Some(render_national(&d, 2))
            } else if d.len() == 12 && d[0] == '3' && d[1] == '3' && d[2] == '0' && !paid_at(
                &d,
                3,
            ) {
                Some(render_national(&d, 3))
            } else if d.len() == 9 && !paid_at(&d, 0) {
                proof {
                    assert(d@.skip(0) =~= d@);
                }
                Some(render_national(&d, 0))
            } else {
                None
            }
        },
    }
}

/// The cell was rejected for naming a paid service: one of the
/// accepted length shapes matched, but the national part starts with
/// a paid prefix.
pub open spec fn paid_rejected(s: Seq<char>) -> bool {
    let d = retain_class(CharClass::Digit, s);
    ||| (d.len() == 10 && d[0] == '0' && is_paid(d.skip(1)))
    ||| (d.len() == 11 && d[0] == '3' && d[1] == '3' && is_paid(d.skip(2)))
    ||| (d.len() == 12 && d[0] == '3' && d[1] == '3' && d[2] == '0' && is_paid(d.skip(3)))
    ||| (d.len() == 9 && is_paid(d))
}

/// The telephone transform under a paid-service policy: keeping raw
/// returns the untouched cell instead of rejecting it.
pub open spec fn phone_policy_spec(
    policy: crate::config::PaidPhonePolicy,
    o: Option<Seq<char>>,
) -> Option<Seq<char>> {
    match o {
        None => None,
        Some(s) => if policy is KeepRaw && paid_rejected(s) {
            Some(s)
        } else {
            phone_of(s)
        },
    }
}

/// Like [`transform_telephone`], but under the configured
/// paid-service policy.
pub fn transform_telephone_with(
    policy: crate::config::PaidPhonePolicy,
    opt_phone_number: Option<&str>,
) -> (r: Option<String>)
    ensures
        r.deep_view() == phone_policy_spec(policy, opt_phone_number.deep_view()),
{
    match policy {
        crate::config::PaidPhonePolicy::Reject => transform_telephone(opt_phone_number),
        crate::config::PaidPhonePolicy::KeepRaw => match opt_phone_number {
            None => None,
            Some(text) => {
                let cs = to_chars(text);
                let d = retain_class_x(CharClass::Digit, &cs);
                let rejected_paid = if d.len() == 10 && d[0] == '0' {
                    paid_at(&d, 1)
                } else if d.len() == 11 && d[0] == '3' && d[1] == '3' {
                    paid_at(&d, 2)
                } else if d.len() == 12 && d[0] == '3' && d[1] == '3' && d[2] == '0' {
                    paid_at(&d, 3)
                } else if d.len() == 9 {
                    paid_at(&d, 0)
                } else {
                    false
                };
                proof {
                    assert(d@.skip(0) =~= d@);
                }
                if rejected_paid {
                    Some(to_string(cs.as_slice()))
                } else {
                    transform_telephone(opt_phone_number)
                }
            },
        },
    }
}

/// The digits of a rendered number are `33` followed by the nine
/// national digits.
proof fn lemma_digits_of_rendering(n: Seq<char>)
    requires
        n.len() == 9,
        all_in_class(CharClass::Digit, n),
    ensures
        retain_class(CharClass::Digit, fmt_national(n)) == seq!['3', '3'] + n,
{
    let cl = CharClass::Digit;
    let s0 = Seq::<char>::empty();
    let s1 = s0.push('+');
    let s2 = s1.push('3');
    let s3 = s2.push('3');
    let s4 = s3.push(' ');
    let s5 = s4.push(n[0]);
    let s6 = s5.push(' ');
    let s7 = s6.push(n[1]);
    let s8 = s7.push(n[2]);
    let s9 = s8.push(' ');
    let s10 = s9.push(n[3]);
    let s11 = s10.push(n[4]);
    let s12 = s11.push(' ');
    let s13 = s12.push(n[5]);
    let s14 = s13.push(n[6]);
    let s15 = s14.push(' ');
    let s16 = s15.push(n[7]);
    let s17 = s16.push(n[8]);
    assert(retain_class(cl, s0) == Seq::<char>::empty());
    lemma_retain_class_push(cl, s0, '+');
    lemma_retain_class_push(cl, s1, '3');
    lemma_retain_class_push(cl, s2, '3');
    lemma_retain_class_push(cl, s3, ' ');
    lemma_retain_class_push(cl, s4, n[0]);
    lemma_retain_class_push(cl, s5, ' ');
    lemma_retain_class_push(cl, s6, n[1]);
    lemma_retain_class_push(cl, s7, n[2]);
    lemma_retain_class_push(cl, s8, ' ');
    lemma_retain_class_push(cl, s9, n[3]);
    lemma_retain_class_push(cl, s10, n[4]);
    lemma_retain_class_push(cl, s11, ' ');
    lemma_retain_class_push(cl, s12, n[5]);
    lemma_retain_class_push(cl, s13, n[6]);
    lemma_retain_class_push(cl, s14, ' ');
    lemma_retain_class_push(cl, s15, n[7]);
    lemma_retain_class_push(cl, s16, n[8]);
    assert(s17 =~= fmt_national(n));
    assert(retain_class(cl, s17) =~= seq!['3', '3'] + n);
}

/// Applying the telephone transform twice equals applying it once.
pub proof fn lemma_phone_idempotent(o: Option<Seq<char>>)
    ensures
        phone_spec(phone_spec(o)) == phone_spec(o),
{
    if let Some(s) = o {
        let d = retain_class(CharClass::Digit, s);
        lemma_retain_class_chars(CharClass::Digit, s);
        if phone_of(s) is Some {
            let n = if d.len() == 10 {
                d.skip(1)
            } else if d.len() == 11 {
                d.skip(2)
            } else if d.len() == 12 {
                d.skip(3)
            } else {
                d.skip(0)
            };
            assert(n.len() == 9);
            assert(all_in_class(CharClass::Digit, n));
            assert(!is_paid(n)) by {
                if d.len() == 9 {
                    assert(d.skip(0) =~= d);
                }
            }
            assert(phone_of(s) == Some(fmt_national(n)));
            lemma_digits_of_rendering(n);
            let d2 = retain_class(CharClass::Digit, fmt_national(n));
            assert(d2 == seq!['3', '3'] + n);
            assert(d2.len() == 11);
            assert(d2.skip(2) =~= n);
            assert(phone_of(fmt_national(n)) == Some(fmt_national(n)));
        }
    }
}

} // verus!
