//! The numeric-field test that drives column type inference.
//!
//! A field counts as numeric exactly when it matches the grammar that Rust's
//! standard library documents for parsing a floating-point number from a
//! string: an optional sign, then either one of the words `inf`, `infinity`
//! or `nan` (in any letter case), or a mantissa with at least one digit —
//! `Digit+ ('.' Digit*)?` or `'.' Digit+` — followed by an optional exponent
//! `('e'|'E') Sign? Digit+`.

use vstd::prelude::*;

verus! {

/// An ASCII decimal digit.
pub open spec fn is_digit(c: char) -> bool {
    0x30 <= c as u32 && c as u32 <= 0x39
}

/// Runtime test for [`is_digit`].
pub fn is_digit_char(c: char) -> (r: bool)
    ensures
        r == is_digit(c),
{
    let u: u32 = c as u32;
    0x30 <= u && u <= 0x39
}

/// First index at or after `j` holding a non-digit, or `s.len()`.
pub open spec fn digit_run_end(s: Seq<char>, j: int) -> int
    decreases s.len() - j,
    when 0 <= j <= s.len()
{
    if j == s.len() {
        j
    } else if !is_digit(s[j]) {
        j
    } else {
        digit_run_end(s, j + 1)
    }
}

pub proof fn lemma_digit_run_end_determined(s: Seq<char>, j: int, e: int)
    requires
        0 <= j <= e <= s.len(),
        forall|i: int| j <= i < e ==> is_digit(#[trigger] s[i]),
        e < s.len() ==> !is_digit(s[e]),
    ensures
        digit_run_end(s, j) == e,
    decreases e - j,
{
    if j < e {
        lemma_digit_run_end_determined(s, j + 1, e);
    }
}

/// Case-insensitive match of one character against a lowercase ASCII letter.
pub open spec fn letter_matches(c: char, lower: char) -> bool {
    c as u32 == lower as u32 || c as u32 + 0x20 == lower as u32
}

/// Runtime test for [`letter_matches`].
pub fn letter_matches_char(c: char, lower: char) -> (r: bool)
    ensures
        r == letter_matches(c, lower),
{
    let u: u32 = c as u32;
    let l: u32 = lower as u32;
    u == l || u + 0x20 == l
}

/// The suffix of `s` starting at `j` is a well-formed exponent part.
pub open spec fn is_exponent(s: Seq<char>, j: int) -> bool {
    &&& 0 <= j < s.len()
    &&& letter_matches(s[j], 'e')
    &&& {
        let k = if j + 1 < s.len() && (s[j + 1] == '+' || s[j + 1] == '-') {
            j + 2
        } else {
            j + 1
        };
        k < s.len() && digit_run_end(s, k) == s.len()
    }
}

/// `s` (with no sign) is a number: `Digit+ ('.' Digit*)?` or `'.' Digit+`,
/// each with an optional exponent.
pub open spec fn is_number(s: Seq<char>) -> bool {
    let d = digit_run_end(s, 0);
    if d == 0 {
        &&& s.len() > 0
        &&& s[0] == '.'
        &&& {
            let d2 = digit_run_end(s, 1);
            d2 > 1 && (d2 == s.len() || is_exponent(s, d2))
        }
    } else {
        ||| d == s.len()
        ||| (s[d] == '.' && {
            let d2 = digit_run_end(s, d + 1);
            d2 == s.len() || is_exponent(s, d2)
        })
        ||| is_exponent(s, d)
    }
}

/// `s` (with no sign) is one of the words `inf`, `infinity` or `nan`, in any
/// letter case.
pub open spec fn is_special_word(s: Seq<char>) -> bool {
    ||| (s.len() == 3 && letter_matches(s[0], 'i') && letter_matches(s[1], 'n')
        && letter_matches(s[2], 'f'))
    ||| (s.len() == 8 && letter_matches(s[0], 'i') && letter_matches(s[1], 'n')
        && letter_matches(s[2], 'f') && letter_matches(s[3], 'i') && letter_matches(s[4], 'n')
        && letter_matches(s[5], 'i') && letter_matches(s[6], 't') && letter_matches(s[7], 'y'))
    ||| (s.len() == 3 && letter_matches(s[0], 'n') && letter_matches(s[1], 'a')
        && letter_matches(s[2], 'n'))
}

/// `s` parses as a floating-point number.
pub open spec fn is_numeric(s: Seq<char>) -> bool {
    let b = if s.len() > 0 && (s[0] == '+' || s[0] == '-') {
        s.subrange(1, s.len() as int)
    } else {
        s
    };
    is_special_word(b) || is_number(b)
}

/// The empty field is not numeric; this is what makes an empty value flip its
/// column to textual.
pub proof fn lemma_empty_not_numeric()
    ensures
        !is_numeric(Seq::<char>::empty()),
{
    assert(digit_run_end(Seq::<char>::empty(), 0) == 0);
}

/// Scans the digit run starting at `j`.
fn digit_run_end_str(s: &str, n: usize, j: usize) -> (e: usize)
    requires
        n == s@.len(),
        j <= n,
    ensures
        e == digit_run_end(s@, j as int),
        j <= e <= n,
{
    let mut e: usize = j;
    while e < n && is_digit_char(s.get_char(e))
        invariant
            j <= e <= n,
            n == s@.len(),
            forall|i: int| j <= i < e ==> is_digit(#[trigger] s@[i]),
        decreases n - e,
    {
        e = e + 1;
    }
    proof {
        lemma_digit_run_end_determined(s@, j as int, e as int);
    }
    e
}

/// Runtime test for [`is_exponent`].
fn is_exponent_str(s: &str, n: usize, j: usize) -> (r: bool)
    requires
        n == s@.len(),
        j <= n,
    ensures
        r == is_exponent(s@, j as int),
{
    if j >= n {
        return false;
    }
    if !letter_matches_char(s.get_char(j), 'e') {
        return false;
    }
    let k: usize = if j + 1 < n {
        let c = s.get_char(j + 1);
        if c == '+' || c == '-' {
            j + 2
        } else {
            j + 1
        }
    } else {
        j + 1
    };
    if k >= n {
        return false;
    }
    let e = digit_run_end_str(s, n, k);
    e == n
}

/// Runtime test for [`is_number`].
fn is_number_str(s: &str) -> (r: bool)
    ensures
        r == is_number(s@),
{
    let n: usize = s.unicode_len();
    let d = digit_run_end_str(s, n, 0);
    if d == 0 {
        if n == 0 {
            return false;
        }
        if s.get_char(0) != '.' {
            return false;
        }
        let d2 = digit_run_end_str(s, n, 1);
        d2 > 1 && (d2 == n || is_exponent_str(s, n, d2))
    } else {
        if d == n {
            return true;
        }
        if s.get_char(d) == '.' {
            let d2 = digit_run_end_str(s, n, d + 1);
            if d2 == n || is_exponent_str(s, n, d2) {
                return true;
            }
        }
        is_exponent_str(s, n, d)
    }
}

/// Runtime test for [`is_special_word`].
fn is_special_word_str(s: &str) -> (r: bool)
    ensures
        r == is_special_word(s@),
{
    let n: usize = s.unicode_len();
    if n == 3 {
        let a = s.get_char(0);
        let b = s.get_char(1);
        let c = s.get_char(2);
        (letter_matches_char(a, 'i') && letter_matches_char(b, 'n') && letter_matches_char(c, 'f'))
            || (letter_matches_char(a, 'n') && letter_matches_char(b, 'a') && letter_matches_char(
            c,
            'n',
        ))
    } else if n == 8 {
        letter_matches_char(s.get_char(0), 'i') && letter_matches_char(s.get_char(1), 'n')
            && letter_matches_char(s.get_char(2), 'f') && letter_matches_char(s.get_char(3), 'i')
            && letter_matches_char(s.get_char(4), 'n') && letter_matches_char(s.get_char(5), 'i')
            && letter_matches_char(s.get_char(6), 't') && letter_matches_char(s.get_char(7), 'y')
    } else {
        false
    }
}

/// Runtime test for [`is_numeric`]: does the field parse as a floating-point
/// number?
pub fn is_numeric_str(s: &str) -> (r: bool)
    ensures
        r == is_numeric(s@),
{
    let n: usize = s.unicode_len();
    let b: &str = if n > 0 {
        let c = s.get_char(0);
        if c == '+' || c == '-' {
            s.substring_char(1, n)
        } else {
            s
        }
    } else {
        s
    };
    is_special_word_str(b) || is_number_str(b)
}

} // verus!
