//! Decimal rendering of record ids, for the slash-joined `ids` cell of
//! a cluster row.

use vstd::prelude::*;
use crate::chars::is_digit;

verus! {

/// The decimal digits of a non-negative number, most significant
/// first.
pub open spec fn dec_digits(n: nat) -> Seq<char>
    decreases n,
{
    let d = ((n % 10) + 48) as u8 as char;
    if n < 10 {
        seq![d]
    } else {
        dec_digits(n / 10).push(d)
    }
}

/// The decimal rendering of an integer: a minus sign for a negative
/// value, then the digits.
pub open spec fn dec_str(n: int) -> Seq<char> {
    if n < 0 {
        seq!['-'] + dec_digits((-n) as nat)
    } else {
        dec_digits(n as nat)
    }
}

/// Renders an id in decimal.
pub fn render_i64(n: i64) -> (r: Vec<char>)
    ensures
        r@ == dec_str(n as int),
{
    let neg = n < 0;
    let mut m: u64 = if n < 0 {
        if n == i64::MIN {
            9223372036854775808u64
        } else {
            (-n) as u64
        }
    } else {
        n as u64
    };
    proof {
        if n < 0 {
            assert(m == (-(n as int)) as nat);
        } else {
            assert(m == n as nat);
        }
    }
    let ghost target = m as nat;
    let mut rev: Vec<char> = Vec::new();
    proof {
        assert(dec_digits(target) =~= dec_digits(m as nat) + rev@.reverse());
    }
    loop
        invariant_except_break
            dec_digits(target) == dec_digits(m as nat) + rev@.reverse(),
        ensures
            rev@.reverse() == dec_digits(target),
        decreases m,
    {
        let ghost old_m = m as nat;
        let ghost old_rev = rev@;
        let d = ((m % 10) as u8 + 48) as char;
        let next = m / 10;
        proof {
            assert(d == ((old_m % 10) + 48) as u8 as char);
            assert((old_rev.push(d)).reverse() =~= seq![d] + old_rev.reverse());
        }
        rev.push(d);
        if next == 0 {
            proof {
                assert(old_m < 10);
                assert(dec_digits(old_m) == seq![d]);
                assert(dec_digits(target) =~= rev@.reverse());
            }
            break ;
        }
        m = next;
        proof {
            assert(old_m >= 10);
            assert(m as nat == old_m / 10);
            assert(dec_digits(old_m) == dec_digits(old_m / 10).push(d));
            assert(dec_digits(old_m / 10).push(d) + old_rev.reverse() =~= dec_digits(old_m / 10)
                + (seq![d] + old_rev.reverse()));
            assert(dec_digits(target) =~= dec_digits(m as nat) + rev@.reverse());
        }
    }
    let mut out: Vec<char> = Vec::new();
    if neg {
        out.push('-');
    }
    let mut i: usize = rev.len();
    while i > 0
        invariant
            i <= rev@.len(),
            out@ == (if neg {
                seq!['-']
            } else {
                Seq::<char>::empty()
            }) + rev@.reverse().subrange(0, rev@.len() - i),
        decreases i,
    {
        i = i - 1;
        out.push(rev[i]);
        proof {
            assert(rev@.reverse()[rev@.len() - 1 - i] == rev@[i as int]);
            assert(out@ =~= (if neg {
                seq!['-']
            } else {
                Seq::<char>::empty()
            }) + rev@.reverse().subrange(0, rev@.len() - i));
        }
    }
    proof {
        assert(rev@.reverse().subrange(0, rev@.len() as int) =~= rev@.reverse());
        if neg {
            assert((n as int) < 0);
            assert(out@ =~= dec_str(n as int));
        } else {
            assert(out@ =~= dec_str(n as int));
        }
    }
    out
}

} // verus!
