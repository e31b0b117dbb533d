//! The stylesheet parser: one or more whitespace-separated rules, each a
//! single class or id selector followed by a braced list of declarations.
use vstd::prelude::*;

use crate::chars::ParseError;
use crate::chars::alpha_char;
use crate::chars::digit_char;
use crate::chars::alnum_char;
use crate::chars::is_alnum;
use crate::chars::lit_at;
use crate::chars::segment_string;
use crate::chars::str_chars;
use crate::chars::ws_char;
use crate::style::Declaration;
use crate::style::Rule;
use crate::style::Selector;
use crate::style::Stylesheet;
use crate::style::Value;
use crate::style::decls_view;
use crate::style::rules_view;
use crate::chars::is_alpha;
use crate::chars::is_digit;
use crate::chars::is_ws;
use crate::chars::matches_at;
use crate::style::Border;
use crate::style::DeclV;
use crate::style::DisplayKind;
use crate::style::RuleV;
use crate::style::SelectorV;
use crate::style::ValueV;

verus! {

/// The position after the whitespace run starting at `p`.
pub open spec fn sp_ws(s: Seq<char>, p: int) -> int
    decreases s.len() - p,
{
    if 0 <= p < s.len() && is_ws(s[p]) {
        sp_ws(s, p + 1)
    } else {
        p
    }
}

/// The end of the identifier-continuation run starting at `p`: letters,
/// digits and hyphens.
pub open spec fn sp_ident_end(s: Seq<char>, p: int) -> int
    decreases s.len() - p,
{
    if 0 <= p < s.len() && (is_alnum(s[p]) || s[p] == '-') {
        sp_ident_end(s, p + 1)
    } else {
        p
    }
}

/// A stylesheet identifier: a letter followed by letters, digits and hyphens.
pub open spec fn sp_ident(s: Seq<char>, p: int) -> Option<(int, Seq<char>)> {
    if 0 <= p < s.len() && is_alpha(s[p]) {
        let e = sp_ident_end(s, p + 1);
        Some((e, s.subrange(p, e)))
    } else {
        None
    }
}

/// A selector: `.class` or `#id`.
pub open spec fn sp_selector(s: Seq<char>, p: int) -> Option<(int, SelectorV)> {
    if 0 <= p < s.len() && s[p] == '.' {
        match sp_ident(s, p + 1) {
            Option::Some((e, name)) => Some(
                (e, SelectorV { id: None, classes: seq![name] }),
            ),
            Option::None => None,
        }
    } else if 0 <= p < s.len() && s[p] == '#' {
        match sp_ident(s, p + 1) {
            Option::Some((e, name)) => Some((e, SelectorV { id: Some(name), classes: Seq::empty() })),
            Option::None => None,
        }
    } else {
        None
    }
}

/// The numeric value of a digit run; underscore separators are skipped.
pub open spec fn sp_digits_value(ds: Seq<char>) -> nat
    decreases ds,
{
    if ds.len() == 0 {
        0nat
    } else {
        let rest = sp_digits_value(ds.drop_last());
        if is_digit(ds.last()) {
            (rest * 10 + ((ds.last() as u32) - 48)) as nat
        } else {
            rest
        }
    }
}

/// The end of the digit-or-underscore run starting at `p`.
pub open spec fn sp_num_end(s: Seq<char>, p: int) -> int
    decreases s.len() - p,
{
    if 0 <= p < s.len() && (is_digit(s[p]) || s[p] == '_') {
        sp_num_end(s, p + 1)
    } else {
        p
    }
}

/// A decimal literal: an optional sign, then a digit run with optional
/// underscore separators. The value is exact, over unbounded integers.
pub open spec fn sp_decimal(s: Seq<char>, p: int) -> Option<(int, int)> {
    let sign = 0 <= p < s.len() && (s[p] == '-' || s[p] == '+');
    let neg = 0 <= p < s.len() && s[p] == '-';
    let p1 = if sign {
        p + 1
    } else {
        p
    };
    if 0 <= p1 < s.len() && is_digit(s[p1]) {
        let e = sp_num_end(s, p1);
        let v = sp_digits_value(s.subrange(p1, e)) as int;
        Some((e, if neg {
            -v
        } else {
            v
        }))
    } else {
        None
    }
}

/// An absolute length: a decimal that fits the cell-coordinate type; one that
/// does not is no absolute length (the declaration then falls back to the
/// generic keyword rule).
pub open spec fn sp_abs_len(s: Seq<char>, p: int) -> Option<(int, ValueV)> {
    match sp_decimal(s, p) {
        Option::Some((e, v)) => if i32::MIN <= v <= i32::MAX {
            Some((e, ValueV::AbsoluteLength(v as i32)))
        } else {
            None
        },
        Option::None => None,
    }
}

/// A margin value: an absolute length or the literal `auto`.
pub open spec fn sp_margin(s: Seq<char>, p: int) -> Option<(int, ValueV)> {
    match sp_abs_len(s, p) {
        Option::Some(r) => Some(r),
        Option::None => if matches_at(s, p, "auto"@) {
            Some((p + 4, ValueV::Auto))
        } else {
            None
        },
    }
}

/// A border style: `none`, `light`, `heavy` or `double`.
pub open spec fn sp_border(s: Seq<char>, p: int) -> Option<(int, ValueV)> {
    if matches_at(s, p, "none"@) {
        Some((p + 4, ValueV::Border(Border::Blank)))
    } else if matches_at(s, p, "light"@) {
        Some((p + 5, ValueV::Border(Border::Light)))
    } else if matches_at(s, p, "heavy"@) {
        Some((p + 5, ValueV::Border(Border::Heavy)))
    } else if matches_at(s, p, "double"@) {
        Some((p + 6, ValueV::Border(Border::Double)))
    } else {
        None
    }
}

/// A display kind: `inline`, `block` or `none`.
pub open spec fn sp_display(s: Seq<char>, p: int) -> Option<(int, ValueV)> {
    if matches_at(s, p, "inline"@) {
        Some((p + 6, ValueV::Display(DisplayKind::Inline)))
    } else if matches_at(s, p, "block"@) {
        Some((p + 5, ValueV::Display(DisplayKind::Block)))
    } else if matches_at(s, p, "none"@) {
        Some((p + 4, ValueV::Display(DisplayKind::Hidden)))
    } else {
        None
    }
}

/// Which typed value grammar a recognized property name routes to.
#[derive(Debug, Copy, Clone, PartialEq, Eq, Structural)]
pub enum ValueKind {
    Length,
    MarginLength,
    BorderStyle,
    DisplayMode,
}

/// A value of the given kind.
pub open spec fn sp_value(s: Seq<char>, p: int, kind: ValueKind) -> Option<(int, ValueV)> {
    match kind {
        ValueKind::Length => sp_abs_len(s, p),
        ValueKind::MarginLength => sp_margin(s, p),
        ValueKind::BorderStyle => sp_border(s, p),
        ValueKind::DisplayMode => sp_display(s, p),
    }
}

/// A declaration of a recognized property: its name, a colon, one space, a
/// value of its typed grammar, and a semicolon.
pub open spec fn sp_named_decl(s: Seq<char>, p: int, name: Seq<char>, kind: ValueKind) -> Option<
    (int, DeclV),
> {
    if matches_at(s, p, name) {
        let q = p + name.len();
        if matches_at(s, q, ": "@) {
            match sp_value(s, q + 2, kind) {
                Option::Some((e, v)) => if 0 <= e < s.len() && s[e] == ';' {
                    Some((e + 1, DeclV { name, value: v }))
                } else {
                    None
                },
                Option::None => None,
            }
        } else {
            None
        }
    } else {
        None
    }
}

/// The first semicolon at or after `p`.
pub open spec fn sp_find_semi(s: Seq<char>, p: int) -> Option<int>
    decreases s.len() - p,
{
    if 0 <= p < s.len() {
        if s[p] == ';' {
            Some(p)
        } else {
            sp_find_semi(s, p + 1)
        }
    } else {
        None
    }
}

/// A declaration of an unrecognized property: its value is the raw text up to
/// the semicolon, kept as a keyword. An unknown property name is never a
/// parse error.
pub open spec fn sp_unnamed_decl(s: Seq<char>, p: int) -> Option<(int, DeclV)> {
    match sp_ident(s, p) {
        Option::Some((q, name)) => if matches_at(s, q, ": "@) {
            match sp_find_semi(s, q + 2) {
                Option::Some(semi) => Some(
                    (semi + 1, DeclV { name, value: ValueV::Keyword(s.subrange(q + 2, semi)) }),
                ),
                Option::None => None,
            }
        } else {
            None
        },
        Option::None => None,
    }
}

/// The table of recognized property names, in the order they are tried, with
/// the value grammar of each.
pub open spec fn sp_decl_table(i: int) -> (Seq<char>, ValueKind) {
    if i == 0 {
        ("width"@, ValueKind::Length)
    } else if i == 1 {
        ("height"@, ValueKind::Length)
    } else if i == 2 {
        ("margin"@, ValueKind::MarginLength)
    } else if i == 3 {
        ("margin-top"@, ValueKind::MarginLength)
    } else if i == 4 {
        ("margin-bottom"@, ValueKind::MarginLength)
    } else if i == 5 {
        ("margin-left"@, ValueKind::MarginLength)
    } else if i == 6 {
        ("margin-right"@, ValueKind::MarginLength)
    } else if i == 7 {
        ("padding"@, ValueKind::Length)
    } else if i == 8 {
        ("padding-top"@, ValueKind::Length)
    } else if i == 9 {
        ("padding-bottom"@, ValueKind::Length)
    } else if i == 10 {
        ("padding-left"@, ValueKind::Length)
    } else if i == 11 {
        ("padding-right"@, ValueKind::Length)
    } else if i == 12 {
        ("border"@, ValueKind::BorderStyle)
    } else if i == 13 {
        ("border-top"@, ValueKind::BorderStyle)
    } else if i == 14 {
        ("border-bottom"@, ValueKind::BorderStyle)
    } else if i == 15 {
        ("border-left"@, ValueKind::BorderStyle)
    } else if i == 16 {
        ("border-right"@, ValueKind::BorderStyle)
    } else {
        ("display"@, ValueKind::DisplayMode)
    }
}

/// Tries the recognized property names from entry `i` on, then the generic
/// rule for unknown properties.
pub open spec fn sp_any_decl_from(s: Seq<char>, p: int, i: int) -> Option<(int, DeclV)>
    decreases 18 - i,
{
    if i >= 18 {
        sp_unnamed_decl(s, p)
    } else {
        match sp_named_decl(s, p, sp_decl_table(i).0, sp_decl_table(i).1) {
            Option::Some(r) => Some(r),
            Option::None => sp_any_decl_from(s, p, i + 1),
        }
    }
}

/// Any declaration: the recognized properties in table order, then the
/// generic keyword rule.
pub open spec fn sp_any_decl(s: Seq<char>, p: int) -> Option<(int, DeclV)> {
    sp_any_decl_from(s, p, 0)
}

/// Zero or more whitespace-wrapped declarations; stops, without consuming the
/// leading whitespace, where no further declaration parses.
pub open spec fn sp_decls(s: Seq<char>, p: int) -> (int, Seq<DeclV>)
    decreases s.len() - p,
{
    if 0 <= p <= s.len() {
        let q = sp_ws(s, p);
        match sp_any_decl(s, q) {
            Option::Some((p2, d)) => {
                let p3 = sp_ws(s, p2);
                if p < p3 <= s.len() {
                    let (pf, rest) = sp_decls(s, p3);
                    (pf, seq![d] + rest)
                } else {
                    (p, Seq::empty())
                }
            },
            Option::None => (p, Seq::empty()),
        }
    } else {
        (p, Seq::empty())
    }
}

/// A rule: a selector, one space, an open brace, declarations, and a close
/// brace.
pub open spec fn sp_rule(s: Seq<char>, p: int) -> Option<(int, RuleV)> {
    match sp_selector(s, p) {
        Option::Some((q, sel)) => if matches_at(s, q, " {"@) {
            let (p2, ds) = sp_decls(s, q + 2);
            if 0 <= p2 < s.len() && s[p2] == '}' {
                Some((p2 + 1, RuleV { selectors: seq![sel], declarations: ds }))
            } else {
                None
            }
        } else {
            None
        },
        Option::None => None,
    }
}

/// The whitespace-wrapped rules after the first one; stops where no further
/// rule parses.
pub open spec fn sp_more_rules(s: Seq<char>, p: int) -> (int, Seq<RuleV>)
    decreases s.len() - p,
{
    if 0 <= p <= s.len() {
        let q = sp_ws(s, p);
        match sp_rule(s, q) {
            Option::Some((p2, r)) => {
                let p3 = sp_ws(s, p2);
                if p < p3 <= s.len() {
                    let (pf, rest) = sp_more_rules(s, p3);
                    (pf, seq![r] + rest)
                } else {
                    (p, Seq::empty())
                }
            },
            Option::None => (p, Seq::empty()),
        }
    } else {
        (p, Seq::empty())
    }
}

/// A stylesheet: one or more whitespace-separated rules.
pub open spec fn sp_stylesheet(s: Seq<char>, p: int) -> Option<(int, Seq<RuleV>)> {
    let q = sp_ws(s, p);
    match sp_rule(s, q) {
        Option::Some((p2, r)) => {
            let p3 = sp_ws(s, p2);
            let (pf, rest) = sp_more_rules(s, p3);
            Some((pf, seq![r] + rest))
        },
        Option::None => None,
    }
}


/// Skips the whitespace run at `p`.
fn skip_ws(t: &Vec<char>, p: usize) -> (r: usize)
    requires
        p <= t@.len(),
    ensures
        r as int == sp_ws(t@, p as int),
        p <= r <= t@.len(),
{
    let n = t.len();
    let mut q = p;
    while q < n && ws_char(t[q])
        invariant
            p <= q <= n == t@.len(),
            sp_ws(t@, p as int) == sp_ws(t@, q as int),
        decreases n - q,
    {
        q = q + 1;
    }
    q
}

/// A parse failure at the given position.
fn fail(position: usize) -> (r: ParseError) {
    ParseError { position, contexts: Vec::new() }
}

/// A parse failure labelled with the grammar context it occurred in.
fn label(mut e: ParseError, context: &str) -> (r: ParseError) {
    e.contexts.push(String::from_str(context));
    e
}

/// Parses a stylesheet identifier.
fn ident(t: &Vec<char>, p: usize) -> (r: Result<(usize, String), ParseError>)
    requires
        p <= t@.len(),
    ensures
        match r {
            Ok((e, name)) => sp_ident(t@, p as int) == Some((e as int, name@)) && p < e <= t@.len(),
            Err(_) => sp_ident(t@, p as int) is None,
        },
{
    let n = t.len();
    if !(p < n && alpha_char(t[p])) {
        return Err(label(fail(p), "identifier"));
    }
    let mut e = p + 1;
    while e < n && (alnum_char(t[e]) || t[e] == '-')
        invariant
            p < e <= n == t@.len(),
            sp_ident_end(t@, p + 1) == sp_ident_end(t@, e as int),
        decreases n - e,
    {
        e = e + 1;
    }
    Ok((e, segment_string(t, p, e)))
}

/// Parses a selector: `.class` or `#id`.
fn selector(t: &Vec<char>, p: usize) -> (r: Result<(usize, Selector), ParseError>)
    requires
        p <= t@.len(),
    ensures
        match r {
            Ok((e, sel)) => sp_selector(t@, p as int) == Some((e as int, sel@)) && p < e
                <= t@.len(),
            Err(_) => sp_selector(t@, p as int) is None,
        },
{
    let n = t.len();
    if p < n && t[p] == '.' {
        match ident(t, p + 1) {
            Ok((e, name)) => {
                let mut classes: Vec<String> = Vec::new();
                classes.push(name);
                let sel = Selector { id: None, classes };
                proof {
                    assert(sel@.classes =~= seq![sel.classes@[0]@]);
                }
                Ok((e, sel))
            },
            Err(e) => Err(label(e, "class")),
        }
    } else if p < n && t[p] == '#' {
        match ident(t, p + 1) {
            Ok((e, name)) => {
                let sel = Selector { id: Some(name), classes: Vec::new() };
                proof {
                    assert(sel@.classes =~= Seq::<Seq<char>>::empty());
                }
                Ok((e, sel))
            },
            Err(e) => Err(label(e, "id")),
        }
    } else {
        Err(label(fail(p), "selector"))
    }
}

/// Parses an absolute length: a decimal that fits the cell-coordinate type.
fn abs_len(t: &Vec<char>, p: usize) -> (r: Result<(usize, Value), ParseError>)
    requires
        p <= t@.len(),
    ensures
        match r {
            Ok((e, v)) => sp_abs_len(t@, p as int) == Some((e as int, v@)) && p < e <= t@.len(),
            Err(_) => sp_abs_len(t@, p as int) is None,
        },
{
    let n = t.len();
    let mut p1 = p;
    let mut neg = false;
    if p < n && (t[p] == '-' || t[p] == '+') {
        neg = t[p] == '-';
        p1 = p + 1;
    }
    if !(p1 < n && digit_char(t[p1])) {
        return Err(label(fail(p), "decimal"));
    }
    let cap: u64 = 4294967296;
    let mut acc: u64 = 0;
    let mut e = p1;
    while e < n && (digit_char(t[e]) || t[e] == '_')
        invariant
            p1 <= e <= n == t@.len(),
            cap == 4294967296,
            acc <= cap,
            sp_num_end(t@, p1 as int) == sp_num_end(t@, e as int),
            sp_digits_value(t@.subrange(p1 as int, e as int)) <= cap ==> acc
                == sp_digits_value(t@.subrange(p1 as int, e as int)),
            sp_digits_value(t@.subrange(p1 as int, e as int)) > cap ==> acc == cap,
        decreases n - e,
    {
        proof {
            assert(t@.subrange(p1 as int, e + 1).drop_last() =~= t@.subrange(p1 as int, e as int));
            assert(t@.subrange(p1 as int, e + 1).last() == t@[e as int]);
        }
        if digit_char(t[e]) {
            let d: u64 = (t[e] as u32 as u64) - 48;
            let acc2 = acc * 10 + d;
            acc = if acc2 > cap {
                cap
            } else {
                acc2
            };
        }
        e = e + 1;
    }
    proof {
        assert(t@.subrange(p1 as int, p1 as int) =~= Seq::<char>::empty());
    }
    if neg {
        if acc <= 2147483648 {
            let v: i64 = -(acc as i64);
            Ok((e, Value::AbsoluteLength(v as i32)))
        } else {
            Err(label(fail(p), "absolute length"))
        }
    } else {
        if acc <= 2147483647 {
            Ok((e, Value::AbsoluteLength(acc as i32)))
        } else {
            Err(label(fail(p), "absolute length"))
        }
    }
}

/// Parses a value of the given kind.
fn value_of_kind(t: &Vec<char>, p: usize, kind: ValueKind) -> (r: Result<
    (usize, Value),
    ParseError,
>)
    requires
        p <= t@.len(),
    ensures
        match r {
            Ok((e, v)) => sp_value(t@, p as int, kind) == Some((e as int, v@)) && p < e <= t@.len(),
            Err(_) => sp_value(t@, p as int, kind) is None,
        },
{
    match kind {
        ValueKind::Length => abs_len(t, p),
        ValueKind::MarginLength => {
            match abs_len(t, p) {
                Ok(r) => Ok(r),
                Err(_) => {
                    if lit_at(t, p, "auto") {
                        let n = t.len();
                        proof {
                            reveal_strlit("auto");
                            assert(p + 4 <= n);
                        }
                        Ok((p + 4, Value::Auto))
                    } else {
                        Err(label(fail(p), "margin"))
                    }
                },
            }
        },
        ValueKind::BorderStyle => {
            if lit_at(t, p, "none") {
                let n = t.len();
                proof {
                    reveal_strlit("none");
                    assert(p + 4 <= n);
                }
                Ok((p + 4, Value::Border(Border::Blank)))
            } else if lit_at(t, p, "light") {
                let n = t.len();
                proof {
                    reveal_strlit("light");
                    assert(p + 5 <= n);
                }
                Ok((p + 5, Value::Border(Border::Light)))
            } else if lit_at(t, p, "heavy") {
                let n = t.len();
                proof {
                    reveal_strlit("heavy");
                    assert(p + 5 <= n);
                }
                Ok((p + 5, Value::Border(Border::Heavy)))
            } else if lit_at(t, p, "double") {
                let n = t.len();
                proof {
                    reveal_strlit("double");
                    assert(p + 6 <= n);
                }
                Ok((p + 6, Value::Border(Border::Double)))
            } else {
                Err(label(fail(p), "border"))
            }
        },
        ValueKind::DisplayMode => {
            if lit_at(t, p, "inline") {
                let n = t.len();
                proof {
                    reveal_strlit("inline");
                    assert(p + 6 <= n);
                }
                Ok((p + 6, Value::Display(DisplayKind::Inline)))
            } else if lit_at(t, p, "block") {
                let n = t.len();
                proof {
                    reveal_strlit("block");
                    assert(p + 5 <= n);
                }
                Ok((p + 5, Value::Display(DisplayKind::Block)))
            } else if lit_at(t, p, "none") {
                let n = t.len();
                proof {
                    reveal_strlit("none");
                    assert(p + 4 <= n);
                }
                Ok((p + 4, Value::Display(DisplayKind::Hidden)))
            } else {
                Err(label(fail(p), "display"))
            }
        },
    }
}

/// Parses a declaration of the given recognized property.
fn named_decl(t: &Vec<char>, p: usize, name: &str, kind: ValueKind) -> (r: Result<
    (usize, Declaration),
    ParseError,
>)
    requires
        p <= t@.len(),
    ensures
        match r {
            Ok((e, d)) => sp_named_decl(t@, p as int, name@, kind) == Some((e as int, d@)) && p < e
                <= t@.len(),
            Err(_) => sp_named_decl(t@, p as int, name@, kind) is None,
        },
{
    if !lit_at(t, p, name) {
        return Err(fail(p));
    }
    let n = t.len();
    proof {
        assert(p + name@.len() <= n);
    }
    let q = p + name.unicode_len();
    if !lit_at(t, q, ": ") {
        return Err(fail(q));
    }
    proof {
        reveal_strlit(": ");
        assert(q + 2 <= n);
    }
    let (e, v) = match value_of_kind(t, q + 2, kind) {
        Ok(r) => r,
        Err(err) => {
            return Err(err);
        },
    };
    let n = t.len();
    if !(e < n && t[e] == ';') {
        return Err(fail(e));
    }
    Ok((e + 1, Declaration { name: String::from_str(name), value: v }))
}

/// Parses a declaration of an unrecognized property: its raw value text up to
/// the semicolon is kept as a keyword.
fn unnamed_decl(t: &Vec<char>, p: usize) -> (r: Result<(usize, Declaration), ParseError>)
    requires
        p <= t@.len(),
    ensures
        match r {
            Ok((e, d)) => sp_unnamed_decl(t@, p as int) == Some((e as int, d@)) && p < e
                <= t@.len(),
            Err(_) => sp_unnamed_decl(t@, p as int) is None,
        },
{
    let (q, name) = match ident(t, p) {
        Ok(r) => r,
        Err(e) => {
            return Err(label(e, "declaration"));
        },
    };
    let n = t.len();
    if !lit_at(t, q, ": ") {
        return Err(label(fail(q), "declaration"));
    }
    proof {
        reveal_strlit(": ");
        assert(q + 2 <= n);
    }
    let mut semi = q + 2;
    while semi < n && t[semi] != ';'
        invariant
            q + 2 <= semi <= n == t@.len(),
            sp_find_semi(t@, q + 2) == sp_find_semi(t@, semi as int),
        decreases n - semi,
    {
        semi = semi + 1;
    }
    if semi >= n {
        return Err(label(fail(semi), "declaration"));
    }
    let raw = segment_string(t, q + 2, semi);
    Ok((semi + 1, Declaration { name, value: Value::Keyword(raw) }))
}

/// The recognized property names, in the order they are tried.
fn decl_entry(i: usize) -> (r: (&'static str, ValueKind))
    requires
        i < 18,
    ensures
        r.0@ == sp_decl_table(i as int).0,
        r.1 == sp_decl_table(i as int).1,
{
    match i {
        0 => ("width", ValueKind::Length),
        1 => ("height", ValueKind::Length),
        2 => ("margin", ValueKind::MarginLength),
        3 => ("margin-top", ValueKind::MarginLength),
        4 => ("margin-bottom", ValueKind::MarginLength),
        5 => ("margin-left", ValueKind::MarginLength),
        6 => ("margin-right", ValueKind::MarginLength),
        7 => ("padding", ValueKind::Length),
        8 => ("padding-top", ValueKind::Length),
        9 => ("padding-bottom", ValueKind::Length),
        10 => ("padding-left", ValueKind::Length),
        11 => ("padding-right", ValueKind::Length),
        12 => ("border", ValueKind::BorderStyle),
        13 => ("border-top", ValueKind::BorderStyle),
        14 => ("border-bottom", ValueKind::BorderStyle),
        15 => ("border-left", ValueKind::BorderStyle),
        16 => ("border-right", ValueKind::BorderStyle),
        _ => ("display", ValueKind::DisplayMode),
    }
}

/// Parses any declaration: the recognized properties in table order, then the
/// generic keyword rule.
fn any_decl(t: &Vec<char>, p: usize) -> (r: Result<(usize, Declaration), ParseError>)
    requires
        p <= t@.len(),
    ensures
        match r {
            Ok((e, d)) => sp_any_decl(t@, p as int) == Some((e as int, d@)) && p < e <= t@.len(),
            Err(_) => sp_any_decl(t@, p as int) is None,
        },
{
    for i in 0..18usize
        invariant
            p <= t@.len(),
            sp_any_decl(t@, p as int) == sp_any_decl_from(t@, p as int, i as int),
    {
        let (name, kind) = decl_entry(i);
        match named_decl(t, p, name, kind) {
            Ok(r) => {
                return Ok(r);
            },
            Err(_) => {},
        }
    }
    match unnamed_decl(t, p) {
        Ok(r) => Ok(r),
        Err(e) => Err(label(e, "any declaration")),
    }
}

/// Parses zero or more whitespace-wrapped declarations.
fn decls(t: &Vec<char>, p: usize) -> (r: (usize, Vec<Declaration>))
    requires
        p <= t@.len(),
    ensures
        (r.0 as int, decls_view(r.1@)) == sp_decls(t@, p as int),
        p <= r.0 <= t@.len(),
{
    let mut cur = p;
    let mut out: Vec<Declaration> = Vec::new();
    let n = t.len();
    loop
        invariant
            p <= cur <= n == t@.len(),
            sp_decls(t@, p as int).0 == sp_decls(t@, cur as int).0,
            sp_decls(t@, p as int).1 == decls_view(out@) + sp_decls(t@, cur as int).1,
        decreases n - cur,
    {
        let q = skip_ws(t, cur);
        match any_decl(t, q) {
            Err(_) => {
                proof {
                    assert(sp_decls(t@, cur as int) == (cur as int, Seq::<DeclV>::empty()));
                    assert(decls_view(out@) + Seq::<DeclV>::empty() =~= decls_view(out@));
                }
                return (cur, out);
            },
            Ok((p2, d)) => {
                let p3 = skip_ws(t, p2);
                if !(cur < p3) {
                    proof {
                        assert(sp_decls(t@, cur as int) == (cur as int, Seq::<DeclV>::empty()));
                        assert(decls_view(out@) + Seq::<DeclV>::empty() =~= decls_view(out@));
                    }
                    return (cur, out);
                }
                let ghost out0 = out@;
                out.push(d);
                proof {
                    assert(decls_view(out@) =~= decls_view(out0).push(out@.last()@));
                    assert(decls_view(out@) + sp_decls(t@, p3 as int).1 =~= decls_view(out0) + (
                    seq![out@.last()@] + sp_decls(t@, p3 as int).1));
                }
                cur = p3;
            },
        }
    }
}

/// Parses one rule: a selector, one space, and a braced declaration list.
fn rule(t: &Vec<char>, p: usize) -> (r: Result<(usize, Rule), ParseError>)
    requires
        p <= t@.len(),
    ensures
        match r {
            Ok((e, rl)) => sp_rule(t@, p as int) == Some((e as int, rl@)) && p < e <= t@.len(),
            Err(_) => sp_rule(t@, p as int) is None,
        },
{
    let (q, sel) = match selector(t, p) {
        Ok(r) => r,
        Err(e) => {
            return Err(label(e, "rule"));
        },
    };
    let n0 = t.len();
    if !lit_at(t, q, " {") {
        return Err(label(fail(q), "rule"));
    }
    proof {
        reveal_strlit(" {");
        assert(q + 2 <= n0);
    }
    let (p2, ds) = decls(t, q + 2);
    let n = n0;
    if !(p2 < n && t[p2] == '}') {
        return Err(label(fail(p2), "rule"));
    }
    let mut selectors: Vec<Selector> = Vec::new();
    selectors.push(sel);
    let rl = Rule { selectors, declarations: ds };
    proof {
        assert(rl@.selectors =~= seq![rl.selectors@[0]@]);
        assert(rl@.declarations == decls_view(rl.declarations@));
    }
    Ok((p2 + 1, rl))
}

/// Parses the whitespace-wrapped rules after the first one.
fn more_rules(t: &Vec<char>, p: usize) -> (r: (usize, Vec<Rule>))
    requires
        p <= t@.len(),
    ensures
        (r.0 as int, rules_view(r.1@)) == sp_more_rules(t@, p as int),
        p <= r.0 <= t@.len(),
{
    let mut cur = p;
    let mut out: Vec<Rule> = Vec::new();
    let n = t.len();
    loop
        invariant
            p <= cur <= n == t@.len(),
            sp_more_rules(t@, p as int).0 == sp_more_rules(t@, cur as int).0,
            sp_more_rules(t@, p as int).1 == rules_view(out@) + sp_more_rules(t@, cur as int).1,
        decreases n - cur,
    {
        let q = skip_ws(t, cur);
        match rule(t, q) {
            Err(_) => {
                proof {
                    assert(sp_more_rules(t@, cur as int) == (cur as int, Seq::<RuleV>::empty()));
                    assert(rules_view(out@) + Seq::<RuleV>::empty() =~= rules_view(out@));
                }
                return (cur, out);
            },
            Ok((p2, rl)) => {
                let p3 = skip_ws(t, p2);
                if !(cur < p3) {
                    proof {
                        assert(sp_more_rules(t@, cur as int) == (
                            cur as int,
                            Seq::<RuleV>::empty(),
                        ));
                        assert(rules_view(out@) + Seq::<RuleV>::empty() =~= rules_view(out@));
                    }
                    return (cur, out);
                }
                let ghost out0 = out@;
                out.push(rl);
                proof {
                    assert(rules_view(out@) =~= rules_view(out0).push(out@.last()@));
                    assert(rules_view(out@) + sp_more_rules(t@, p3 as int).1 =~= rules_view(out0) + (
                    seq![out@.last()@] + sp_more_rules(t@, p3 as int).1));
                }
                cur = p3;
            },
        }
    }
}

/// Parses a stylesheet: one or more whitespace-separated rules. Returns the
/// position where parsing stopped together with the sheet.
pub fn stylesheet(input: &str) -> (r: Result<(usize, Stylesheet), ParseError>)
    ensures
        match r {
            Ok((e, sheet)) => sp_stylesheet(input@, 0) == Some((e as int, sheet@)),
            Err(_) => sp_stylesheet(input@, 0) is None,
        },
{
    let t = str_chars(input);
    let q = skip_ws(&t, 0);
    let (p2, first) = match rule(&t, q) {
        Ok(r) => r,
        Err(e) => {
            return Err(label(e, "stylesheet"));
        },
    };
    let p3 = skip_ws(&t, p2);
    let (pf, rest) = more_rules(&t, p3);
    let mut rules: Vec<Rule> = Vec::new();
    rules.push(first);
    let ghost first_v = rules@[0]@;
    let mut rest_vec = rest;
    let ghost rest_v = rules_view(rest_vec@);
    rules.append(&mut rest_vec);
    let sheet = Stylesheet { rules };
    proof {
        assert(sheet@ =~= seq![first_v] + rest_v);
    }
    Ok((pf, sheet))
}

/// Parses a stylesheet from source text; input after the last rule is
/// discarded.
pub fn parse_stylesheet(input: &str) -> (r: Result<Stylesheet, ParseError>)
    ensures
        match r {
            Ok(sheet) => sp_stylesheet(input@, 0) matches Some(pr) && sheet@ == pr.1,
            Err(_) => sp_stylesheet(input@, 0) is None,
        },
{
    match stylesheet(input) {
        Ok((_, sheet)) => Ok(sheet),
        Err(e) => Err(e),
    }
}

} // verus!
