//! Character utilities shared by the markup and stylesheet parsers: the
//! character classes of the two grammars, case-insensitive comparison,
//! conversions between strings and character vectors, and the parse-failure
//! record both parsers report.
use vstd::prelude::*;

verus! {

/// The whitespace class of both grammars: space, tab, carriage return and
/// newline.
pub open spec fn is_ws(c: char) -> bool {
    c == ' ' || c == '\t' || c == '\r' || c == '\n'
}

/// An ASCII letter.
pub open spec fn is_alpha(c: char) -> bool {
    ('a' <= c && c <= 'z') || ('A' <= c && c <= 'Z')
}

/// An ASCII digit.
pub open spec fn is_digit(c: char) -> bool {
    '0' <= c && c <= '9'
}

/// An ASCII letter or digit.
pub open spec fn is_alnum(c: char) -> bool {
    is_alpha(c) || is_digit(c)
}

/// The ASCII-lowercased code of a character.
pub open spec fn lower_code(c: char) -> int {
    if 65 <= (c as u32) && (c as u32) <= 90 {
        (c as u32) + 32
    } else {
        (c as u32) as int
    }
}

/// Case-insensitive character equality, folding ASCII letters only.
pub open spec fn eq_ci(a: char, b: char) -> bool {
    lower_code(a) == lower_code(b)
}

/// Case-insensitive equality of two character sequences.
pub open spec fn seq_eq_ci(a: Seq<char>, b: Seq<char>) -> bool {
    a.len() == b.len() && (forall|i: int| 0 <= i < a.len() ==> eq_ci(a[i], #[trigger] b[i]))
}

/// Whether `lit` occurs at position `p` of `s`, case-insensitively.
pub open spec fn matches_ci_at(s: Seq<char>, p: int, lit: Seq<char>) -> bool {
    p + lit.len() <= s.len() && seq_eq_ci(s.subrange(p, p + lit.len()), lit)
}

/// Whether `lit` occurs at position `p` of `s`, exactly.
pub open spec fn matches_at(s: Seq<char>, p: int, lit: Seq<char>) -> bool {
    p + lit.len() <= s.len() && s.subrange(p, p + lit.len()) == lit
}

/// Whitespace test.
pub fn ws_char(c: char) -> (r: bool)
    ensures
        r == is_ws(c),
{
    c == ' ' || c == '\t' || c == '\r' || c == '\n'
}

/// ASCII letter test.
pub fn alpha_char(c: char) -> (r: bool)
    ensures
        r == is_alpha(c),
{
    ('a' <= c && c <= 'z') || ('A' <= c && c <= 'Z')
}

/// ASCII digit test.
pub fn digit_char(c: char) -> (r: bool)
    ensures
        r == is_digit(c),
{
    '0' <= c && c <= '9'
}

/// ASCII letter-or-digit test.
pub fn alnum_char(c: char) -> (r: bool)
    ensures
        r == is_alnum(c),
{
    alpha_char(c) || digit_char(c)
}

/// Case-insensitive character comparison.
pub fn ci_char_eq(a: char, b: char) -> (r: bool)
    ensures
        r == eq_ci(a, b),
{
    let ca = a as u32;
    let cb = b as u32;
    let la = if 65 <= ca && ca <= 90 {
        ca + 32
    } else {
        ca
    };
    let lb = if 65 <= cb && cb <= 90 {
        cb + 32
    } else {
        cb
    };
    la == lb
}

/// The characters of a string, in order.
pub fn str_chars(s: &str) -> (r: Vec<char>)
    ensures
        r@ == s@,
{
    let n = s.unicode_len();
    let mut out: Vec<char> = Vec::new();
    for i in 0..n
        invariant
            n == s@.len(),
            out@ =~= s@.take(i as int),
    {
        out.push(s.get_char(i));
        proof {
            assert(out@ =~= s@.take(i + 1));
        }
    }
    proof {
        assert(s@.take(n as int) =~= s@);
    }
    out
}

/// The string made of exactly the given characters.
///
/// Relies on std's `FromIterator` for `String`: collecting characters yields
/// the string of those characters in order.
#[verifier::external_body]
pub fn chars_to_string(v: Vec<char>) -> (r: String)
    ensures
        r@ == v@,
{
    v.into_iter().collect()
}

/// The string made of the characters `t[from..to]`.
pub fn segment_string(t: &Vec<char>, from: usize, to: usize) -> (r: String)
    requires
        from <= to <= t@.len(),
    ensures
        r@ == t@.subrange(from as int, to as int),
{
    let mut out: Vec<char> = Vec::new();
    let mut i = from;
    while i < to
        invariant
            from <= i <= to <= t@.len(),
            out@ =~= t@.subrange(from as int, i as int),
        decreases to - i,
    {
        out.push(t[i]);
        proof {
            assert(out@ =~= t@.subrange(from as int, i + 1));
        }
        i = i + 1;
    }
    chars_to_string(out)
}

/// Whether `lit` occurs at position `p` of `t`, exactly.
pub fn lit_at(t: &Vec<char>, p: usize, lit: &str) -> (r: bool)
    ensures
        r == matches_at(t@, p as int, lit@),
{
    let n = lit.unicode_len();
    let m = t.len();
    if n > m || p > m - n {
        return false;
    }
    for i in 0..n
        invariant
            n == lit@.len(),
            m == t@.len(),
            p + n <= m,
            forall|k: int| 0 <= k < i ==> t@[p + k] == lit@[k],
    {
        if t[p + i] != lit.get_char(i) {
            proof {
                assert(t@.subrange(p as int, p + lit@.len())[i as int] != lit@[i as int]);
            }
            return false;
        }
    }
    proof {
        assert(t@.subrange(p as int, p + lit@.len()) =~= lit@);
    }
    true
}

/// Whether `lit` occurs at position `p` of `t`, case-insensitively.
pub fn lit_at_ci(t: &Vec<char>, p: usize, lit: &str) -> (r: bool)
    ensures
        r == matches_ci_at(t@, p as int, lit@),
{
    let n = lit.unicode_len();
    let m = t.len();
    if n > m || p > m - n {
        return false;
    }
    for i in 0..n
        invariant
            n == lit@.len(),
            m == t@.len(),
            p + n <= m,
            forall|k: int| 0 <= k < i ==> eq_ci(t@[p + k], #[trigger] lit@[k]),
    {
        if !ci_char_eq(t[p + i], lit.get_char(i)) {
            proof {
                assert(!eq_ci(t@.subrange(p as int, p + lit@.len())[i as int], lit@[i as int]));
            }
            return false;
        }
    }
    proof {
        assert forall|i: int| 0 <= i < lit@.len() implies eq_ci(
            t@.subrange(p as int, p + lit@.len())[i],
            #[trigger] lit@[i],
        ) by {
            assert(t@.subrange(p as int, p + lit@.len())[i] == t@[p + i]);
        }
    }
    true
}


/// A parse failure: the input position where it occurred and the chain of
/// named grammar contexts active there, innermost first.
#[derive(Debug, PartialEq, Eq, Clone)]
pub struct ParseError {
    pub position: usize,
    pub contexts: Vec<String>,
}

} // verus!
