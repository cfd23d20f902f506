//! Tokenization of one input line: splitting on the tab delimiter and
//! trimming whitespace from each field.

use vstd::prelude::*;

verus! {

/// The characters treated as whitespace when a field is trimmed:
/// the Unicode `White_Space` code points.
pub open spec fn is_space(c: char) -> bool {
    let u = c as u32;
    ||| u == 0x09
    ||| u == 0x0A
    ||| u == 0x0B
    ||| u == 0x0C
    ||| u == 0x0D
    ||| u == 0x20
    ||| u == 0x85
    ||| u == 0xA0
    ||| u == 0x1680
    ||| (0x2000 <= u && u <= 0x200A)
    ||| u == 0x2028
    ||| u == 0x2029
    ||| u == 0x202F
    ||| u == 0x205F
    ||| u == 0x3000
}

/// Runtime test for [`is_space`].
pub fn is_space_char(c: char) -> (r: bool)
    ensures
        r == is_space(c),
{
    let u: u32 = c as u32;
    u == 0x09 || u == 0x0A || u == 0x0B || u == 0x0C || u == 0x0D || u == 0x20 || u == 0x85
        || u == 0xA0 || u == 0x1680 || (0x2000 <= u && u <= 0x200A) || u == 0x2028 || u == 0x2029
        || u == 0x202F || u == 0x205F || u == 0x3000
}

/// Number of whitespace characters at the start of `s`.
pub open spec fn leading_ws(s: Seq<char>) -> int
    decreases s.len(),
{
    if s.len() > 0 && is_space(s[0]) {
        1 + leading_ws(s.drop_first())
    } else {
        0
    }
}

/// Number of whitespace characters at the end of `s`.
pub open spec fn trailing_ws(s: Seq<char>) -> int
    decreases s.len(),
{
    if s.len() > 0 && is_space(s.last()) {
        1 + trailing_ws(s.drop_last())
    } else {
        0
    }
}

/// `s` with leading and trailing whitespace removed.
pub open spec fn trimmed(s: Seq<char>) -> Seq<char> {
    if leading_ws(s) == s.len() {
        Seq::empty()
    } else {
        s.subrange(leading_ws(s), s.len() - trailing_ws(s))
    }
}

pub proof fn lemma_leading_ws_bounds(s: Seq<char>)
    ensures
        0 <= leading_ws(s) <= s.len(),
        forall|i: int| 0 <= i < leading_ws(s) ==> is_space(#[trigger] s[i]),
        leading_ws(s) < s.len() ==> !is_space(s[leading_ws(s)]),
    decreases s.len(),
{
    if s.len() > 0 && is_space(s[0]) {
        lemma_leading_ws_bounds(s.drop_first());
        assert forall|i: int| 0 <= i < leading_ws(s) implies is_space(#[trigger] s[i]) by {
            if i > 0 {
                assert(s[i] == s.drop_first()[i - 1]);
            }
        }
        if leading_ws(s) < s.len() {
            assert(s[leading_ws(s)] == s.drop_first()[leading_ws(s.drop_first())]);
        }
    }
}

pub proof fn lemma_leading_ws_determined(s: Seq<char>, j: int)
    requires
        0 <= j <= s.len(),
        forall|i: int| 0 <= i < j ==> is_space(#[trigger] s[i]),
        j < s.len() ==> !is_space(s[j]),
    ensures
        leading_ws(s) == j,
    decreases s.len(),
{
    if j == 0 {
    } else {
        assert(is_space(s[0]));
        assert forall|i: int| 0 <= i < j - 1 implies is_space(#[trigger] s.drop_first()[i]) by {
            assert(s.drop_first()[i] == s[i + 1]);
        }
        if j - 1 < s.drop_first().len() {
            assert(s.drop_first()[j - 1] == s[j]);
        }
        lemma_leading_ws_determined(s.drop_first(), j - 1);
    }
}

pub proof fn lemma_trailing_ws_bounds(s: Seq<char>)
    ensures
        0 <= trailing_ws(s) <= s.len(),
        forall|i: int| s.len() - trailing_ws(s) <= i < s.len() ==> is_space(#[trigger] s[i]),
        trailing_ws(s) < s.len() ==> !is_space(s[s.len() - trailing_ws(s) - 1]),
    decreases s.len(),
{
    if s.len() > 0 && is_space(s.last()) {
        lemma_trailing_ws_bounds(s.drop_last());
        assert forall|i: int| s.len() - trailing_ws(s) <= i < s.len() implies is_space(
            #[trigger] s[i],
        ) by {
            if i < s.len() - 1 {
                assert(s[i] == s.drop_last()[i]);
            }
        }
    }
}

pub proof fn lemma_trailing_ws_determined(s: Seq<char>, b: int)
    requires
        0 <= b <= s.len(),
        forall|i: int| b <= i < s.len() ==> is_space(#[trigger] s[i]),
        b > 0 ==> !is_space(s[b - 1]),
    ensures
        trailing_ws(s) == s.len() - b,
    decreases s.len(),
{
    if b == s.len() {
        if s.len() > 0 {
            assert(!is_space(s.last()));
        }
    } else {
        assert(is_space(s.last()));
        assert forall|i: int| b <= i < s.drop_last().len() implies is_space(
            #[trigger] s.drop_last()[i],
        ) by {
            assert(s.drop_last()[i] == s[i]);
        }
        if b > 0 {
            assert(s.drop_last()[b - 1] == s[b - 1]);
        }
        lemma_trailing_ws_determined(s.drop_last(), b);
    }
}

/// A trimmed field begins and ends with a non-whitespace character and is no
/// longer than what it was cut from; trimming a second time changes nothing.
pub proof fn lemma_trimmed_idempotent(s: Seq<char>)
    ensures
        trimmed(s).len() <= s.len(),
        trimmed(trimmed(s)) == trimmed(s),
{
    lemma_leading_ws_bounds(s);
    lemma_trailing_ws_bounds(s);
    let a = leading_ws(s);
    let t = trailing_ws(s);
    if a == s.len() {
        assert(trimmed(s) == Seq::<char>::empty());
        assert(leading_ws(Seq::<char>::empty()) == 0);
        assert(trimmed(trimmed(s)) =~= trimmed(s));
    } else {
        assert(!is_space(s[a]));
        // the first non-space from the left lies strictly before the trailing run
        if a >= s.len() - t {
            assert(is_space(s[a]));
        }
        let w = s.subrange(a, s.len() - t);
        assert(w.len() > 0);
        assert(w[0] == s[a]);
        assert(w.last() == s[s.len() - t - 1]);
        assert(t < s.len());
        assert(!is_space(w.last()));
        lemma_leading_ws_determined(w, 0);
        lemma_trailing_ws_determined(w, w.len() as int);
        assert(trimmed(w) =~= w);
    }
}

/// Removes leading and trailing whitespace from a field, as [`trimmed`] says.
pub fn trim_str<'a>(s: &'a str) -> (r: &'a str)
    ensures
        r@ == trimmed(s@),
{
    let n: usize = s.unicode_len();
    let mut a: usize = 0;
    while a < n && is_space_char(s.get_char(a))
        invariant
            0 <= a <= n,
            n == s@.len(),
            forall|i: int| 0 <= i < a ==> is_space(#[trigger] s@[i]),
        decreases n - a,
    {
        a = a + 1;
    }
    if a == n {
        proof {
            lemma_leading_ws_determined(s@, a as int);
        }
        let r = s.substring_char(0, 0);
        proof {
            assert(r@ =~= trimmed(s@));
        }
        r
    } else {
        let mut b: usize = n;
        while is_space_char(s.get_char(b - 1))
            invariant
                a < b <= n,
                n == s@.len(),
                !is_space(s@[a as int]),
                forall|i: int| b <= i < n ==> is_space(#[trigger] s@[i]),
            decreases b,
        {
            assert(b - 1 != a);
            b = b - 1;
        }
        proof {
            lemma_leading_ws_determined(s@, a as int);
            lemma_trailing_ws_determined(s@, b as int);
        }
        let r = s.substring_char(a, b);
        proof {
            assert(r@ =~= trimmed(s@));
        }
        r
    }
}

/// Index of the first tab in `s`, or `s.len()` if there is none.
pub open spec fn first_tab(s: Seq<char>) -> int
    decreases s.len(),
{
    if s.len() == 0 {
        0
    } else if s[0] == '\t' {
        0
    } else {
        1 + first_tab(s.drop_first())
    }
}

pub proof fn lemma_first_tab_bounds(s: Seq<char>)
    ensures
        0 <= first_tab(s) <= s.len(),
        forall|i: int| 0 <= i < first_tab(s) ==> #[trigger] s[i] != '\t',
        first_tab(s) < s.len() ==> s[first_tab(s)] == '\t',
    decreases s.len(),
{
    if s.len() > 0 && s[0] != '\t' {
        lemma_first_tab_bounds(s.drop_first());
        assert forall|i: int| 0 <= i < first_tab(s) implies #[trigger] s[i] != '\t' by {
            if i > 0 {
                assert(s[i] == s.drop_first()[i - 1]);
            }
        }
        if first_tab(s) < s.len() {
            assert(s[first_tab(s)] == s.drop_first()[first_tab(s.drop_first())]);
        }
    }
}

pub proof fn lemma_first_tab_determined(s: Seq<char>, j: int)
    requires
        0 <= j <= s.len(),
        forall|i: int| 0 <= i < j ==> #[trigger] s[i] != '\t',
        j < s.len() ==> s[j] == '\t',
    ensures
        first_tab(s) == j,
    decreases s.len(),
{
    if j == 0 {
    } else {
        assert(s[0] != '\t');
        assert forall|i: int| 0 <= i < j - 1 implies #[trigger] s.drop_first()[i] != '\t' by {
            assert(s.drop_first()[i] == s[i + 1]);
        }
        if j - 1 < s.drop_first().len() {
            assert(s.drop_first()[j - 1] == s[j]);
        }
        lemma_first_tab_determined(s.drop_first(), j - 1);
    }
}

/// The fields of one line: the line is split on every tab and each piece is
/// trimmed. Consecutive tabs yield empty fields, and a line without tabs is a
/// single field, so an empty line yields one empty field.
pub open spec fn parse_line_spec(s: Seq<char>) -> Seq<Seq<char>>
    decreases s.len(),
{
    let j = first_tab(s);
    if j >= s.len() {
        seq![trimmed(s)]
    } else {
        proof {
            lemma_first_tab_bounds(s);
        }
        seq![trimmed(s.subrange(0, j))] + parse_line_spec(s.subrange(j + 1, s.len() as int))
    }
}

/// Every field of a parsed line is already trimmed: trimming it again
/// changes nothing.
pub proof fn lemma_parse_line_trimmed(s: Seq<char>)
    ensures
        forall|i: int|
            0 <= i < parse_line_spec(s).len() ==> trimmed(#[trigger] parse_line_spec(s)[i])
                == parse_line_spec(s)[i],
    decreases s.len(),
{
    let j = first_tab(s);
    lemma_first_tab_bounds(s);
    if j >= s.len() {
        lemma_trimmed_idempotent(s);
    } else {
        lemma_trimmed_idempotent(s.subrange(0, j));
        let rest = s.subrange(j + 1, s.len() as int);
        lemma_parse_line_trimmed(rest);
        assert forall|i: int| 0 <= i < parse_line_spec(s).len() implies trimmed(
            #[trigger] parse_line_spec(s)[i],
        ) == parse_line_spec(s)[i] by {
            if i > 0 {
                assert(parse_line_spec(s)[i] == parse_line_spec(rest)[i - 1]);
            }
        }
    }
}

/// Splits a line on tabs and trims each field, as [`parse_line_spec`] says.
pub fn split_line(l: &str) -> (r: Vec<String>)
    ensures
        r.deep_view() == parse_line_spec(l@),
{
    let n: usize = l.unicode_len();
    let mut toks: Vec<String> = Vec::new();
    let mut start: usize = 0;
    let mut i: usize = 0;
    proof {
        assert(l@.subrange(0, n as int) =~= l@);
        assert(toks.deep_view() + parse_line_spec(l@) =~= parse_line_spec(l@));
    }
    while i < n
        invariant
            0 <= start <= i <= n,
            n == l@.len(),
            forall|k: int| start <= k < i ==> #[trigger] l@[k] != '\t',
            parse_line_spec(l@) == toks.deep_view() + parse_line_spec(
                l@.subrange(start as int, n as int),
            ),
        decreases n - i,
    {
        if l.get_char(i) == '\t' {
            let piece = l.substring_char(start, i);
            let tok = trim_str(piece).to_owned();
            let ghost toks0 = toks.deep_view();
            toks.push(tok);
            proof {
                let suf = l@.subrange(start as int, n as int);
                assert forall|k: int| 0 <= k < i - start implies #[trigger] suf[k] != '\t' by {
                    assert(suf[k] == l@[start + k]);
                }
                assert(suf[i - start] == l@[i as int]);
                lemma_first_tab_determined(suf, i - start);
                assert(suf.subrange(0, i - start) =~= l@.subrange(start as int, i as int));
                assert(suf.subrange(i - start + 1, suf.len() as int) =~= l@.subrange(
                    i + 1,
                    n as int,
                ));
                assert(parse_line_spec(suf) == seq![trimmed(piece@)] + parse_line_spec(
                    l@.subrange(i + 1, n as int),
                ));
                assert(toks.deep_view() =~= toks0.push(tok@));
                assert(toks0.push(tok@) + parse_line_spec(l@.subrange(i + 1, n as int)) =~= toks0
                    + parse_line_spec(suf));
            }
            start = i + 1;
        }
        i = i + 1;
    }
    let piece = l.substring_char(start, n);
    let tok = trim_str(piece).to_owned();
    let ghost toks0 = toks.deep_view();
    toks.push(tok);
    proof {
        let suf = l@.subrange(start as int, n as int);
        assert forall|k: int| 0 <= k < suf.len() implies #[trigger] suf[k] != '\t' by {
            assert(suf[k] == l@[start + k]);
        }
        lemma_first_tab_determined(suf, suf.len() as int);
        assert(parse_line_spec(suf) == seq![trimmed(suf)]);
        assert(toks.deep_view() =~= toks0.push(tok@));
        assert(toks0.push(tok@) =~= toks0 + seq![trimmed(suf)]);
    }
    toks
}

} // verus!
