//! Diacritic folding and case mapping for Latin-1 letters.
//!
//! [`fold_char`] maps every Latin-1 supplement letter that carries a
//! diacritic (grave, acute, circumflex, tilde, diaeresis, ring, cedilla)
//! to its ASCII base letter, preserving case; every other character is
//! left as it is.  [`upper_char`] and [`lower_char`] map between the
//! cases of ASCII and Latin-1 letters one character at a time; `'ß'` has
//! no single-character upper case and is preserved.  That is the whole
//! scope of the case maps: a letter beyond the Latin-1 supplement
//! passes through both of them unchanged.

use vstd::prelude::*;
use crate::chars::{push_char, to_chars};

verus! {

/// The folded counterpart of one character.
pub open spec fn fold_char(c: char) -> char {
    let n = c as u32;
    if 0xe0 <= n && n <= 0xe5 {
        'a'
    } else if 0xc0 <= n && n <= 0xc5 {
        'A'
    } else if 0xe8 <= n && n <= 0xeb {
        'e'
    } else if 0xc8 <= n && n <= 0xcb {
        'E'
    } else if 0xec <= n && n <= 0xef {
        'i'
    } else if 0xcc <= n && n <= 0xcf {
        'I'
    } else if 0xf2 <= n && n <= 0xf6 {
        'o'
    } else if 0xd2 <= n && n <= 0xd6 {
        'O'
    } else if 0xf9 <= n && n <= 0xfc {
        'u'
    } else if 0xd9 <= n && n <= 0xdc {
        'U'
    } else if n == 0xe7 {
        'c'
    } else if n == 0xc7 {
        'C'
    } else if n == 0xf1 {
        'n'
    } else if n == 0xd1 {
        'N'
    } else {
        c
    }
}

/// A character [`fold_char`] rewrites: a Latin-1 letter with a diacritic.
pub open spec fn is_accented(c: char) -> bool {
    fold_char(c) != c
}

/// A character inside the ASCII range.
pub open spec fn is_ascii_char(c: char) -> bool {
    (c as u32) < 128
}

/// Folding a whole sequence of characters.
pub open spec fn fold_seq(s: Seq<char>) -> Seq<char> {
    s.map_values(|c: char| fold_char(c))
}

/// Executable folding of one character.
pub fn fold_char_x(c: char) -> (r: char)
    ensures
        r == fold_char(c),
{
    let n = c as u32;
    if 0xe0 <= n && n <= 0xe5 {
        'a'
    } else if 0xc0 <= n && n <= 0xc5 {
        'A'
    } else if 0xe8 <= n && n <= 0xeb {
        'e'
    } else if 0xc8 <= n && n <= 0xcb {
        'E'
    } else if 0xec <= n && n <= 0xef {
        'i'
    } else if 0xcc <= n && n <= 0xcf {
        'I'
    } else if 0xf2 <= n && n <= 0xf6 {
        'o'
    } else if 0xd2 <= n && n <= 0xd6 {
        'O'
    } else if 0xf9 <= n && n <= 0xfc {
        'u'
    } else if 0xd9 <= n && n <= 0xdc {
        'U'
    } else if n == 0xe7 {
        'c'
    } else if n == 0xc7 {
        'C'
    } else if n == 0xf1 {
        'n'
    } else if n == 0xd1 {
        'N'
    } else {
        c
    }
}

/// Folds every character of a vector.
pub fn fold_chars(v: &Vec<char>) -> (r: Vec<char>)
    ensures
        r@ == fold_seq(v@),
{
    let mut r: Vec<char> = Vec::new();
    let mut i: usize = 0;
    while i < v.len()
        invariant
            i <= v@.len(),
            r@.len() == i,
            forall|j: int| 0 <= j < i ==> r@[j] == fold_char(v@[j]),
        decreases v@.len() - i,
    {
        let c = fold_char_x(v[i]);
        r.push(c);
        i = i + 1;
    }
    proof {
        assert(r@ =~= fold_seq(v@));
    }
    r
}

/// Strips the diacritics of every Latin-1 supplement letter in the text,
/// preserving case; all other characters pass through unchanged.
pub fn strip_accent(text: &str) -> (r: String)
    ensures
        r@ == fold_seq(text@),
{
    let v = to_chars(text);
    let folded = fold_chars(&v);
    let mut out = String::new();
    let mut i: usize = 0;
    while i < folded.len()
        invariant
            i <= folded@.len(),
            out@ == folded@.subrange(0, i as int),
        decreases folded@.len() - i,
    {
        push_char(&mut out, folded[i]);
        i = i + 1;
        proof {
            assert(out@ =~= folded@.subrange(0, i as int));
        }
    }
    proof {
        assert(out@ =~= folded@);
    }
    out
}

/// Folding a folded character sequence changes nothing; it never changes
/// the length of a sequence; and the folded counterpart of an accented
/// character is ASCII.
pub proof fn lemma_fold_closure(s: Seq<char>)
    ensures
        fold_seq(fold_seq(s)) == fold_seq(s),
        fold_seq(s).len() == s.len(),
        forall|i: int|
            0 <= i < s.len() && is_accented(s[i]) ==> is_ascii_char(#[trigger] fold_seq(s)[i]),
{
    assert(fold_seq(fold_seq(s)) =~= fold_seq(s));
}

/// The upper-case counterpart of one character: ASCII and Latin-1
/// letters are mapped; `'ß'` is preserved; everything else is unchanged.
pub open spec fn upper_char(c: char) -> char {
    let n = c as u32;
    if 97 <= n && n <= 122 {
        ((n - 32) as u8) as char
    } else if 0xe0 <= n && n <= 0xfe && n != 0xf7 {
        ((n - 32) as u8) as char
    } else if n == 0xff {
        '\u{178}'
    } else {
        c
    }
}

/// The lower-case counterpart of one character.
pub open spec fn lower_char(c: char) -> char {
    let n = c as u32;
    if 65 <= n && n <= 90 {
        ((n + 32) as u8) as char
    } else if 0xc0 <= n && n <= 0xde && n != 0xd7 {
        ((n + 32) as u8) as char
    } else if n == 0x178 {
        'ÿ'
    } else {
        c
    }
}

/// Upper-casing a whole sequence of characters.
pub open spec fn upper_seq(s: Seq<char>) -> Seq<char> {
    s.map_values(|c: char| upper_char(c))
}

/// Lower-casing a whole sequence of characters.
pub open spec fn lower_seq(s: Seq<char>) -> Seq<char> {
    s.map_values(|c: char| lower_char(c))
}

/// Executable upper-casing of one character.
pub fn upper_char_x(c: char) -> (r: char)
    ensures
        r == upper_char(c),
{
    let n = c as u32;
    if (97 <= n && n <= 122) || (0xe0 <= n && n <= 0xfe && n != 0xf7) {
        ((n - 32) as u8) as char
    } else if n == 0xff {
        '\u{178}'
    } else {
        c
    }
}

/// Executable lower-casing of one character.
pub fn lower_char_x(c: char) -> (r: char)
    ensures
        r == lower_char(c),
{
    let n = c as u32;
    if (65 <= n && n <= 90) || (0xc0 <= n && n <= 0xde && n != 0xd7) {
        ((n + 32) as u8) as char
    } else if n == 0x178 {
        'ÿ'
    } else {
        c
    }
}

/// Upper-cases every character of a vector.
pub fn upper_chars(v: &Vec<char>) -> (r: Vec<char>)
    ensures
        r@ == upper_seq(v@),
{
    let mut r: Vec<char> = Vec::new();
    let mut i: usize = 0;
    while i < v.len()
        invariant
            i <= v@.len(),
            r@.len() == i,
            forall|j: int| 0 <= j < i ==> r@[j] == upper_char(v@[j]),
        decreases v@.len() - i,
    {
        let c = upper_char_x(v[i]);
        r.push(c);
        i = i + 1;
    }
    proof {
        assert(r@ =~= upper_seq(v@));
    }
    r
}

/// Lower-cases every character of a vector.
pub fn lower_chars(v: &Vec<char>) -> (r: Vec<char>)
    ensures
        r@ == lower_seq(v@),
{
    let mut r: Vec<char> = Vec::new();
    let mut i: usize = 0;
    while i < v.len()
        invariant
            i <= v@.len(),
            r@.len() == i,
            forall|j: int| 0 <= j < i ==> r@[j] == lower_char(v@[j]),
        decreases v@.len() - i,
    {
        let c = lower_char_x(v[i]);
        r.push(c);
        i = i + 1;
    }
    proof {
        assert(r@ =~= lower_seq(v@));
    }
    r
}

} // verus!
