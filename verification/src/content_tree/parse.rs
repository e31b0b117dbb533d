//! The markup parser: an optional doctype, then one root element; elements
//! are open/close tag pairs or self-closing tags, with text runs between
//! them.
use vstd::prelude::*;

use crate::chars::ParseError;
use crate::chars::alnum_char;
use crate::chars::alpha_char;
use crate::chars::chars_to_string;
use crate::chars::eq_ci;
use crate::chars::lit_at;
use crate::chars::lit_at_ci;
use crate::chars::segment_string;
use crate::chars::str_chars;
use crate::chars::ws_char;
use crate::content_tree::ElementData;
use crate::content_tree::Node;
use crate::content_tree::NodeData;
use crate::content_tree::nodes_view;
use crate::chars::is_alnum;
use crate::chars::is_alpha;
use crate::chars::is_ws;
use crate::chars::matches_at;
use crate::chars::matches_ci_at;
use crate::chars::seq_eq_ci;
use crate::content_tree::NodeV;

verus! {

/// A parse outcome: a result and the position after it, no match (the
/// grammar backtracks), or a refusal that aborts the whole parse (the
/// unsupported `style` attribute).
pub enum MarkRes<T> {
    Found(int, T),
    Missing,
    Refused,
}

/// The length of the whitespace run at `p`.
pub open spec fn ws_run(s: Seq<char>, p: int) -> nat
    decreases s.len() - p,
{
    if 0 <= p < s.len() && is_ws(s[p]) {
        1 + ws_run(s, p + 1)
    } else {
        0nat
    }
}

/// The offset from `p` of the first occurrence of `c`, if any.
pub open spec fn find_off(s: Seq<char>, p: int, c: char) -> Option<nat>
    decreases s.len() - p,
{
    if 0 <= p < s.len() {
        if s[p] == c {
            Some(0nat)
        } else {
            match find_off(s, p + 1, c) {
                Option::Some(d) => Some(d + 1),
                Option::None => None,
            }
        }
    } else {
        None
    }
}

/// The offset from `p` of the first comment terminator `-->`, if any.
pub open spec fn find_close_off(s: Seq<char>, p: int) -> Option<nat>
    decreases s.len() - p,
{
    if 0 <= p < s.len() {
        if matches_at(s, p, "-->"@) {
            Some(0nat)
        } else {
            match find_close_off(s, p + 1) {
                Option::Some(d) => Some(d + 1),
                Option::None => None,
            }
        }
    } else {
        None
    }
}

/// A comment: `<!--` up to and including the next `-->`.
pub open spec fn sp_comment(s: Seq<char>, p: int) -> Option<int> {
    if matches_at(s, p, "<!--"@) {
        match find_close_off(s, p + 4) {
            Option::Some(d) => Some(p + 4 + d + 3),
            Option::None => None,
        }
    } else {
        None
    }
}

/// The position after the run of structural whitespace and comments at `p`.
pub open spec fn sp_ws_items(s: Seq<char>, p: int) -> int
    decreases s.len() - p,
{
    match sp_comment(s, p) {
        Option::Some(q) => if p < q <= s.len() {
            sp_ws_items(s, q)
        } else {
            p
        },
        Option::None => {
            if 0 <= p < s.len() && is_ws(s[p]) {
                let q = p + 1 + ws_run(s, p + 1);
                if q <= s.len() {
                    sp_ws_items(s, q)
                } else {
                    p
                }
            } else {
                p
            }
        },
    }
}

/// The position after the run of non-space whitespace and comments at `p`:
/// comments, newlines and tabs are consumed between siblings, but a plain
/// space is left alone, as it may begin a text node.
pub open spec fn sp_nsws_items(s: Seq<char>, p: int) -> int
    decreases s.len() - p,
{
    match sp_comment(s, p) {
        Option::Some(q) => if p < q <= s.len() {
            sp_nsws_items(s, q)
        } else {
            p
        },
        Option::None => {
            if matches_at(s, p, "\r\n"@) {
                let q = p + 2 + ws_run(s, p + 2);
                if q <= s.len() {
                    sp_nsws_items(s, q)
                } else {
                    p
                }
            } else if 0 <= p < s.len() && s[p] == '\n' {
                let q = p + 1 + ws_run(s, p + 1);
                if q <= s.len() {
                    sp_nsws_items(s, q)
                } else {
                    p
                }
            } else if 0 <= p < s.len() && s[p] == '\t' {
                sp_nsws_items(s, p + 1)
            } else {
                p
            }
        },
    }
}

/// A markup identifier's first character: a letter, underscore or colon.
pub open spec fn is_ident_start(c: char) -> bool {
    is_alpha(c) || c == '_' || c == ':'
}

/// A markup identifier's continuation character.
pub open spec fn is_ident_cont(c: char) -> bool {
    is_alnum(c) || c == '_' || c == ':' || c == '.'
}

/// The end of the identifier-continuation run at `p`.
pub open spec fn sp_m_ident_end(s: Seq<char>, p: int) -> int
    decreases s.len() - p,
{
    if 0 <= p < s.len() && is_ident_cont(s[p]) {
        sp_m_ident_end(s, p + 1)
    } else {
        p
    }
}

/// A markup identifier.
pub open spec fn sp_m_ident(s: Seq<char>, p: int) -> Option<(int, Seq<char>)> {
    if 0 <= p < s.len() && is_ident_start(s[p]) {
        let e = sp_m_ident_end(s, p + 1);
        Some((e, s.subrange(p, e)))
    } else {
        None
    }
}

/// An attribute value: `=` then a double-quoted string.
pub open spec fn sp_attr_value(s: Seq<char>, p: int) -> Option<(int, Seq<char>)> {
    if matches_at(s, p, "=\""@) {
        match find_off(s, p + 2, '"') {
            Option::Some(d) => Some((p + 2 + d + 1, s.subrange(p + 2, p + 2 + d))),
            Option::None => None,
        }
    } else {
        None
    }
}

/// One attribute: a name and its quoted value.
pub open spec fn sp_attribute(s: Seq<char>, p: int) -> Option<(int, (Seq<char>, Seq<char>))> {
    match sp_m_ident(s, p) {
        Option::Some((q, name)) => match sp_attr_value(s, q) {
            Option::Some((e, v)) => Some((e, (name, v))),
            Option::None => None,
        },
        Option::None => None,
    }
}

/// The attributes after the first one: each preceded by mandatory whitespace;
/// where whitespace is not followed by an attribute, it is left unconsumed.
pub open spec fn sp_more_attrs(s: Seq<char>, p: int) -> (int, Seq<(Seq<char>, Seq<char>)>)
    decreases s.len() - p,
{
    let q = sp_ws_items(s, p);
    if q > p {
        match sp_attribute(s, q) {
            Option::Some((p2, a)) => if p < p2 <= s.len() {
                let (pf, rest) = sp_more_attrs(s, p2);
                (pf, seq![a] + rest)
            } else {
                (p, Seq::empty())
            },
            Option::None => (p, Seq::empty()),
        }
    } else {
        (p, Seq::empty())
    }
}

/// An optional attribute list: mandatory whitespace, then attributes
/// separated by whitespace. The leading whitespace is consumed even when no
/// attribute follows it.
pub open spec fn sp_attr_list(s: Seq<char>, p: int) -> (int, Seq<(Seq<char>, Seq<char>)>) {
    let q = sp_ws_items(s, p);
    if q > p {
        match sp_attribute(s, q) {
            Option::Some((p2, a)) => {
                let (pf, rest) = sp_more_attrs(s, p2);
                (pf, seq![a] + rest)
            },
            Option::None => (q, Seq::empty()),
        }
    } else {
        (p, Seq::empty())
    }
}

/// The segments of `v` from `from` on, split at single spaces; consecutive
/// spaces yield empty segments.
pub open spec fn sp_split_from(v: Seq<char>, from: int) -> Seq<Seq<char>>
    decreases v.len() - from,
{
    if 0 <= from <= v.len() {
        match find_off(v, from, ' ') {
            Option::Some(d) => if from + d < v.len() {
                seq![v.subrange(from, from + d)] + sp_split_from(v, from + d + 1)
            } else {
                seq![v.subrange(from, v.len() as int)]
            },
            Option::None => seq![v.subrange(from, v.len() as int)],
        }
    } else {
        Seq::empty()
    }
}

/// The class names in a `class` attribute value: space-separated segments.
pub open spec fn sp_split(v: Seq<char>) -> Seq<Seq<char>> {
    sp_split_from(v, 0)
}

/// The sequence with later duplicates removed; first occurrences keep their
/// place, so the sequence denotes its set.
pub open spec fn sp_dedup(cs: Seq<Seq<char>>) -> Seq<Seq<char>>
    decreases cs,
{
    if cs.len() == 0 {
        Seq::empty()
    } else {
        let rest = sp_dedup(cs.drop_last());
        if cs.drop_last().contains(cs.last()) {
            rest
        } else {
            rest.push(cs.last())
        }
    }
}

/// The element data an attribute list denotes, before the tag-name class is
/// added.
pub struct AttrsV {
    pub id: Option<Seq<char>>,
    pub classes: Seq<Seq<char>>,
}

/// Folds an attribute list: `class` replaces the class set with its
/// space-split value, `id` sets the id, the unsupported `style` attribute
/// refuses the document, and anything else is parsed but discarded. Attribute
/// names compare case-insensitively.
pub open spec fn sp_apply_attrs(attrs: Seq<(Seq<char>, Seq<char>)>) -> MarkRes<AttrsV>
    decreases attrs,
{
    if attrs.len() == 0 {
        MarkRes::Found(0, AttrsV { id: None, classes: Seq::empty() })
    } else {
        match sp_apply_attrs(attrs.drop_last()) {
            MarkRes::Found(z, acc) => {
                let (name, val) = attrs.last();
                if seq_eq_ci(name, "class"@) {
                    MarkRes::Found(z, AttrsV { id: acc.id, classes: sp_dedup(sp_split(val)) })
                } else if seq_eq_ci(name, "id"@) {
                    MarkRes::Found(z, AttrsV { id: Some(val), classes: acc.classes })
                } else if seq_eq_ci(name, "style"@) {
                    MarkRes::Refused
                } else {
                    MarkRes::Found(z, acc)
                }
            },
            MarkRes::Refused => MarkRes::Refused,
            MarkRes::Missing => MarkRes::Missing,
        }
    }
}

/// The class set of an element: its attribute classes plus its own tag name,
/// which substitutes for a first-class type selector.
pub open spec fn with_tag_class(classes: Seq<Seq<char>>, tag: Seq<char>) -> Seq<Seq<char>> {
    if classes.contains(tag) {
        classes
    } else {
        classes.push(tag)
    }
}

/// Text content with every whitespace run collapsed to one space; `prev_ws`
/// records whether the previous character was whitespace.
pub open spec fn sp_collapse(s: Seq<char>, prev_ws: bool) -> Seq<char>
    decreases s,
{
    if s.len() == 0 {
        Seq::empty()
    } else if is_ws(s[0]) {
        if prev_ws {
            sp_collapse(s.skip(1), true)
        } else {
            seq![' '] + sp_collapse(s.skip(1), true)
        }
    } else {
        seq![s[0]] + sp_collapse(s.skip(1), false)
    }
}

/// A text run: everything up to the next tag (or the end of input), with
/// whitespace runs collapsed to single spaces.
pub open spec fn sp_text(s: Seq<char>, p: int) -> Option<(int, NodeV)> {
    if 0 <= p < s.len() && s[p] != '<' {
        let e = match find_off(s, p, '<') {
            Option::Some(d) => p + d,
            Option::None => s.len() as int,
        };
        Some((e, NodeV::Text(sp_collapse(s.subrange(p, e), false))))
    } else {
        None
    }
}

/// The common head of both tag forms: `<`, the tag name, and the attributes.
pub open spec fn sp_tag_head(s: Seq<char>, p: int) -> MarkRes<(Seq<char>, AttrsV)> {
    if 0 <= p < s.len() && s[p] == '<' {
        match sp_m_ident(s, p + 1) {
            Option::Some((q, tag)) => {
                let (p2, attrs) = sp_attr_list(s, q);
                match sp_apply_attrs(attrs) {
                    MarkRes::Found(z, av) => MarkRes::Found(p2, (tag, av)),
                    MarkRes::Refused => MarkRes::Refused,
                    MarkRes::Missing => MarkRes::Missing,
                }
            },
            Option::None => MarkRes::Missing,
        }
    } else {
        MarkRes::Missing
    }
}

/// The element node a tag head and child list denote.
pub open spec fn make_element(tag: Seq<char>, av: AttrsV, children: Seq<NodeV>) -> NodeV {
    NodeV::Element { id: av.id, classes: with_tag_class(av.classes, tag), children }
}

/// A tag with children: the open tag, the children, and a close tag whose
/// name matches the open tag case-insensitively.
pub open spec fn sp_tag_children(s: Seq<char>, p: int) -> MarkRes<NodeV>
    decreases s.len() - p, 0int,
{
    match sp_tag_head(s, p) {
        MarkRes::Found(p2, tv) => {
            let q = p2 + ws_run(s, p2);
            if 0 <= q < s.len() && s[q] == '>' && p < q + 1 <= s.len() {
                match sp_children(s, q + 1) {
                    MarkRes::Found(z, pk) => {
                        let p3 = pk.0;
                        let kids = pk.1;
                        if matches_at(s, p3, "</"@) {
                            match sp_m_ident(s, p3 + 2) {
                                Option::Some((p4, name)) => if seq_eq_ci(name, tv.0) && 0 <= p4
                                    < s.len() && s[p4] == '>' {
                                    MarkRes::Found(p4 + 1, make_element(tv.0, tv.1, kids))
                                } else {
                                    MarkRes::Missing
                                },
                                Option::None => MarkRes::Missing,
                            }
                        } else {
                            MarkRes::Missing
                        }
                    },
                    MarkRes::Refused => MarkRes::Refused,
                    MarkRes::Missing => MarkRes::Missing,
                }
            } else {
                MarkRes::Missing
            }
        },
        MarkRes::Refused => MarkRes::Refused,
        MarkRes::Missing => MarkRes::Missing,
    }
}

/// A self-closing tag: the open tag head, mandatory whitespace, then `/>`.
pub open spec fn sp_tag_no_children(s: Seq<char>, p: int) -> MarkRes<NodeV> {
    match sp_tag_head(s, p) {
        MarkRes::Found(p2, tv) => {
            let w = ws_run(s, p2);
            if w >= 1 && matches_at(s, p2 + w, "/>"@) {
                MarkRes::Found(p2 + w + 2, make_element(tv.0, tv.1, Seq::empty()))
            } else {
                MarkRes::Missing
            }
        },
        MarkRes::Refused => MarkRes::Refused,
        MarkRes::Missing => MarkRes::Missing,
    }
}

/// An element: a tag with children, a self-closing tag, or a text run.
pub open spec fn sp_element(s: Seq<char>, p: int) -> MarkRes<NodeV>
    decreases s.len() - p, 1int,
{
    match sp_tag_children(s, p) {
        MarkRes::Found(e, n) => MarkRes::Found(e, n),
        MarkRes::Refused => MarkRes::Refused,
        MarkRes::Missing => match sp_tag_no_children(s, p) {
            MarkRes::Found(e, n) => MarkRes::Found(e, n),
            MarkRes::Refused => MarkRes::Refused,
            MarkRes::Missing => match sp_text(s, p) {
                Option::Some((e, n)) => MarkRes::Found(e, n),
                Option::None => MarkRes::Missing,
            },
        },
    }
}

/// Zero or more children, each wrapped in non-space whitespace; stops where
/// no further element parses, with the structural whitespace before the stop
/// consumed and discarded.
pub open spec fn sp_children(s: Seq<char>, p: int) -> MarkRes<(int, Seq<NodeV>)>
    decreases s.len() - p, 2int,
{
    if 0 <= p <= s.len() {
        let q = sp_nsws_items(s, p);
        if p <= q <= s.len() {
            match sp_element(s, q) {
                MarkRes::Found(p2, n) => {
                    let p3 = sp_nsws_items(s, p2);
                    if p < p3 <= s.len() {
                        match sp_children(s, p3) {
                            MarkRes::Found(z2, pr) => MarkRes::Found(0, (pr.0, seq![n] + pr.1)),
                            MarkRes::Refused => MarkRes::Refused,
                            MarkRes::Missing => MarkRes::Missing,
                        }
                    } else {
                        MarkRes::Found(0, (q, Seq::empty()))
                    }
                },
                MarkRes::Refused => MarkRes::Refused,
                MarkRes::Missing => MarkRes::Found(0, (q, Seq::empty())),
            }
        } else {
            MarkRes::Found(0, (p, Seq::empty()))
        }
    } else {
        MarkRes::Found(0, (p, Seq::empty()))
    }
}

/// A document: an optional doctype declaration (consumed and ignored), then
/// one root element in open/close form, wrapped in structural whitespace.
pub open spec fn sp_document(s: Seq<char>) -> MarkRes<NodeV> {
    let p0: int = if matches_ci_at(s, 0, "<!doctype"@) {
        match find_off(s, 9, '>') {
            Option::Some(d) => 9 + (d as int) + 1,
            Option::None => -1,
        }
    } else {
        0
    };
    if p0 >= 0 && p0 <= s.len() {
        let q = sp_ws_items(s, p0);
        if 0 <= q <= s.len() {
            sp_tag_children(s, q)
        } else {
            MarkRes::Missing
        }
    } else {
        MarkRes::Missing
    }
}


/// Why markup parsing failed: a syntax error, or the unsupported `style`
/// attribute, which is refused rather than silently accepted.
#[derive(Debug, PartialEq, Eq, Clone)]
pub enum MarkupError {
    Syntax(ParseError),
    Unsupported(ParseError),
}

/// The models of a string-pair list, element by element.
pub open spec fn pairs_view(s: Seq<(String, String)>) -> Seq<(Seq<char>, Seq<char>)> {
    Seq::new(s.len(), |i: int| (s[i].0@, s[i].1@))
}

/// The models of a string list, element by element.
pub open spec fn strs_view(s: Seq<String>) -> Seq<Seq<char>> {
    Seq::new(s.len(), |i: int| s[i]@)
}

/// A syntax failure at the given position.
fn miss(position: usize, context: &str) -> (r: MarkupError)
    ensures
        r is Syntax,
{
    let mut contexts: Vec<String> = Vec::new();
    contexts.push(String::from_str(context));
    MarkupError::Syntax(ParseError { position, contexts })
}

/// Case-insensitive comparison of a string against a literal.
fn str_eq_ci(a: &str, b: &str) -> (r: bool)
    ensures
        r == seq_eq_ci(a@, b@),
{
    let n = a.unicode_len();
    let m = b.unicode_len();
    if n != m {
        return false;
    }
    for i in 0..n
        invariant
            n == a@.len() == b@.len(),
            forall|k: int| 0 <= k < i ==> eq_ci(a@[k], #[trigger] b@[k]),
    {
        if !crate::chars::ci_char_eq(a.get_char(i), b.get_char(i)) {
            return false;
        }
    }
    true
}

/// The position after the structural whitespace and comments at `p`.
fn ws_items(t: &Vec<char>, p: usize) -> (r: usize)
    requires
        p <= t@.len(),
    ensures
        r as int == sp_ws_items(t@, p as int),
        p <= r <= t@.len(),
    decreases t@.len() - p,
{
    let n = t.len();
    match comment(t, p) {
        Some(q) => ws_items(t, q),
        None => {
            if p < n && ws_char(t[p]) {
                let mut q = p + 1;
                while q < n && ws_char(t[q])
                    invariant
                        p + 1 <= q <= n == t@.len(),
                        p + 1 + ws_run(t@, p + 1) == q + ws_run(t@, q as int),
                    decreases n - q,
                {
                    q = q + 1;
                }
                ws_items(t, q)
            } else {
                p
            }
        },
    }
}

/// The position after the non-space whitespace and comments at `p`.
fn nsws_items(t: &Vec<char>, p: usize) -> (r: usize)
    requires
        p <= t@.len(),
    ensures
        r as int == sp_nsws_items(t@, p as int),
        p <= r <= t@.len(),
    decreases t@.len() - p,
{
    let n = t.len();
    match comment(t, p) {
        Some(q) => nsws_items(t, q),
        None => {
            if lit_at(t, p, "\r\n") {
                proof {
                    reveal_strlit("\r\n");
                }
                let mut q = p + 2;
                while q < n && ws_char(t[q])
                    invariant
                        p + 2 <= q <= n == t@.len(),
                        p + 2 + ws_run(t@, p + 2) == q + ws_run(t@, q as int),
                    decreases n - q,
                {
                    q = q + 1;
                }
                nsws_items(t, q)
            } else if p < n && t[p] == '\n' {
                let mut q = p + 1;
                while q < n && ws_char(t[q])
                    invariant
                        p + 1 <= q <= n == t@.len(),
                        p + 1 + ws_run(t@, p + 1) == q + ws_run(t@, q as int),
                    decreases n - q,
                {
                    q = q + 1;
                }
                nsws_items(t, q)
            } else if p < n && t[p] == '\t' {
                nsws_items(t, p + 1)
            } else {
                p
            }
        },
    }
}

/// A comment at `p`, returning the position after its terminator.
fn comment(t: &Vec<char>, p: usize) -> (r: Option<usize>)
    requires
        p <= t@.len(),
    ensures
        match r {
            Some(q) => sp_comment(t@, p as int) == Some(q as int) && p < q <= t@.len(),
            None => sp_comment(t@, p as int) is None,
        },
{
    if !lit_at(t, p, "<!--") {
        return None;
    }
    proof {
        reveal_strlit("<!--");
    }
    let n = t.len();
    let mut q = p + 4;
    while q < n && !lit_at(t, q, "-->")
        invariant
            p + 4 <= q <= n == t@.len(),
            find_close_off(t@, p + 4) matches Some(d) ==> p + 4 + d >= q,
            find_close_off(t@, p + 4) == match find_close_off(t@, q as int) {
                Option::Some(d) => Some((d + q - (p + 4)) as nat),
                Option::None => None,
            },
        decreases n - q,
    {
        q = q + 1;
    }
    if q >= n {
        proof {
            assert(find_close_off(t@, q as int) is None);
        }
        return None;
    }
    proof {
        reveal_strlit("-->");
        assert(find_close_off(t@, q as int) == Some(0nat));
        assert(q + 3 <= t@.len());
    }
    Some(q + 3)
}

/// Parses a markup identifier.
fn m_ident(t: &Vec<char>, p: usize) -> (r: Option<(usize, String)>)
    requires
        p <= t@.len(),
    ensures
        match r {
            Some((e, name)) => sp_m_ident(t@, p as int) == Some((e as int, name@)) && p < e
                <= t@.len(),
            None => sp_m_ident(t@, p as int) is None,
        },
{
    let n = t.len();
    if !(p < n && (alpha_char(t[p]) || t[p] == '_' || t[p] == ':')) {
        return None;
    }
    let mut e = p + 1;
    while e < n && (alnum_char(t[e]) || t[e] == '_' || t[e] == ':' || t[e] == '.')
        invariant
            p < e <= n == t@.len(),
            sp_m_ident_end(t@, p + 1) == sp_m_ident_end(t@, e as int),
        decreases n - e,
    {
        e = e + 1;
    }
    Some((e, segment_string(t, p, e)))
}

/// Parses an attribute value: `=` then a double-quoted string.
fn attr_value(t: &Vec<char>, p: usize) -> (r: Option<(usize, String)>)
    requires
        p <= t@.len(),
    ensures
        match r {
            Some((e, v)) => sp_attr_value(t@, p as int) == Some((e as int, v@)) && p < e
                <= t@.len(),
            None => sp_attr_value(t@, p as int) is None,
        },
{
    if !lit_at(t, p, "=\"") {
        return None;
    }
    proof {
        reveal_strlit("=\"");
    }
    let n = t.len();
    let mut q = p + 2;
    while q < n && t[q] != '"'
        invariant
            p + 2 <= q <= n == t@.len(),
            find_off(t@, p + 2, '"') matches Some(d) ==> p + 2 + d >= q,
            find_off(t@, p + 2, '"') == match find_off(t@, q as int, '"') {
                Option::Some(d) => Some((d + q - (p + 2)) as nat),
                Option::None => None,
            },
        decreases n - q,
    {
        q = q + 1;
    }
    if q >= n {
        return None;
    }
    proof {
        assert(find_off(t@, q as int, '"') == Some(0nat));
    }
    Some((q + 1, segment_string(t, p + 2, q)))
}

/// Parses one attribute: a name and its quoted value.
fn attribute(t: &Vec<char>, p: usize) -> (r: Option<(usize, (String, String))>)
    requires
        p <= t@.len(),
    ensures
        match r {
            Some((e, a)) => sp_attribute(t@, p as int) == Some((e as int, (a.0@, a.1@))) && p < e
                <= t@.len(),
            None => sp_attribute(t@, p as int) is None,
        },
{
    match m_ident(t, p) {
        Some((q, name)) => match attr_value(t, q) {
            Some((e, v)) => Some((e, (name, v))),
            None => None,
        },
        None => None,
    }
}

/// Parses an optional whitespace-led attribute list.
fn attr_list(t: &Vec<char>, p: usize) -> (r: (usize, Vec<(String, String)>))
    requires
        p <= t@.len(),
    ensures
        r.0 as int == sp_attr_list(t@, p as int).0,
        pairs_view(r.1@) == sp_attr_list(t@, p as int).1,
        p <= r.0 <= t@.len(),
{
    let q = ws_items(t, p);
    let mut out: Vec<(String, String)> = Vec::new();
    if q <= p {
        proof {
            assert(pairs_view(out@) =~= sp_attr_list(t@, p as int).1);
        }
        return (p, out);
    }
    let (mut cur, first) = match attribute(t, q) {
        Some((p2, a)) => (p2, a),
        None => {
            proof {
                assert(pairs_view(out@) =~= sp_attr_list(t@, p as int).1);
            }
            return (q, out);
        },
    };
    out.push(first);
    let ghost target = sp_attr_list(t@, p as int);
    proof {
        assert(pairs_view(out@) =~= seq![(out@[0].0@, out@[0].1@)]);
    }
    let n = t.len();
    loop
        invariant
            p < cur <= n == t@.len(),
            out@.len() >= 1,
            target == sp_attr_list(t@, p as int),
            target.0 == sp_more_attrs(t@, cur as int).0,
            target.1 == pairs_view(out@) + sp_more_attrs(t@, cur as int).1,
        decreases n - cur,
    {
        let q2 = ws_items(t, cur);
        if q2 <= cur {
            proof {
                assert(sp_more_attrs(t@, cur as int) == (cur as int, Seq::<(
                    Seq<char>,
                    Seq<char>,
                )>::empty()));
                assert(target.1 =~= pairs_view(out@));
            }
            return (cur, out);
        }
        match attribute(t, q2) {
            None => {
                proof {
                    assert(sp_more_attrs(t@, cur as int) == (cur as int, Seq::<(
                        Seq<char>,
                        Seq<char>,
                    )>::empty()));
                    assert(target.1 =~= pairs_view(out@));
                }
                return (cur, out);
            },
            Some((p2, a)) => {
                let ghost out0 = out@;
                out.push(a);
                proof {
                    assert(pairs_view(out@) =~= pairs_view(out0).push(
                        (out@.last().0@, out@.last().1@),
                    ));
                    assert(pairs_view(out@) + sp_more_attrs(t@, p2 as int).1 =~= pairs_view(out0)
                        + (seq![(out@.last().0@, out@.last().1@)] + sp_more_attrs(
                        t@,
                        p2 as int,
                    ).1));
                }
                cur = p2;
            },
        }
    }
}

/// Splits a class attribute value at single spaces.
fn split_classes(v: &String) -> (r: Vec<String>)
    ensures
        strs_view(r@) == sp_split(v@),
{
    let t = str_chars(v.as_str());
    let n = t.len();
    let mut out: Vec<String> = Vec::new();
    let mut from: usize = 0;
    loop
        invariant
            from <= n == t@.len(),
            t@ == v@,
            sp_split(v@) == strs_view(out@) + sp_split_from(v@, from as int),
        decreases n - from,
    {
        let mut q = from;
        while q < n && t[q] != ' '
            invariant
                from <= q <= n == t@.len(),
                find_off(t@, from as int, ' ') matches Some(d) ==> from + d >= q,
                find_off(t@, from as int, ' ') == match find_off(t@, q as int, ' ') {
                    Option::Some(d) => Some((d + q - from) as nat),
                    Option::None => None,
                },
            decreases n - q,
        {
            q = q + 1;
        }
        let ghost out0 = out@;
        if q >= n {
            proof {
                assert(find_off(t@, q as int, ' ') is None);
                assert(t@.subrange(from as int, n as int) == v@.subrange(from as int, v@.len() as int));
            }
            out.push(segment_string(&t, from, n));
            proof {
                assert(strs_view(out@) =~= strs_view(out0).push(out@.last()@));
                assert(sp_split_from(v@, from as int) =~= seq![out@.last()@]);
                assert(strs_view(out@) + Seq::<Seq<char>>::empty() =~= strs_view(out@));
                assert(sp_split(v@) =~= strs_view(out@));
            }
            return out;
        }
        proof {
            assert(find_off(t@, q as int, ' ') == Some(0nat));
        }
        out.push(segment_string(&t, from, q));
        proof {
            assert(strs_view(out@) =~= strs_view(out0).push(out@.last()@));
            assert(strs_view(out@) + sp_split_from(v@, q + 1) =~= strs_view(out0) + (seq![
                out@.last()@,
            ] + sp_split_from(v@, q + 1)));
        }
        from = q + 1;
    }
}

/// Removes later duplicates from a class list, keeping first occurrences.
fn dedup_classes(v: Vec<String>) -> (r: Vec<String>)
    ensures
        strs_view(r@) == sp_dedup(strs_view(v@)),
{
    let n = v.len();
    let mut out: Vec<String> = Vec::new();
    for i in 0..n
        invariant
            n == v@.len(),
            strs_view(out@) == sp_dedup(strs_view(v@).take(i as int)),
    {
        proof {
            assert(strs_view(v@).take(i + 1).drop_last() =~= strs_view(v@).take(i as int));
            assert(strs_view(v@).take(i + 1).last() == v@[i as int]@);
        }
        let mut seen = false;
        for j in 0..i
            invariant
                i < n == v@.len(),
                seen ==> strs_view(v@).take(i as int).contains(v@[i as int]@),
                !seen ==> forall|k: int|
                    0 <= k < j ==> strs_view(v@).take(i as int)[k] != v@[i as int]@,
        {
            if v[j].eq(&v[i]) {
                proof {
                    assert(strs_view(v@).take(i as int)[j as int] == v@[i as int]@);
                }
                seen = true;
            }
        }
        proof {
            if !seen {
                assert(forall|k: int|
                    0 <= k < i ==> strs_view(v@).take(i as int)[k] != v@[i as int]@);
                assert(!strs_view(v@).take(i as int).contains(v@[i as int]@));
            }
        }
        if !seen {
            let ghost out0 = out@;
            out.push(v[i].clone());
            proof {
                assert(strs_view(out@) =~= strs_view(out0).push(out@.last()@));
            }
        }
    }
    proof {
        assert(strs_view(v@).take(n as int) =~= strs_view(v@));
    }
    out
}

/// A refusal while folding any prefix of an attribute list refuses the whole
/// list.
proof fn lemma_apply_attrs_refused(s: Seq<(Seq<char>, Seq<char>)>, k: int)
    requires
        0 <= k <= s.len(),
        sp_apply_attrs(s.take(k)) is Refused,
    ensures
        sp_apply_attrs(s) is Refused,
    decreases s.len() - k,
{
    if k < s.len() {
        assert(s.take(k + 1).drop_last() =~= s.take(k));
        assert(sp_apply_attrs(s.take(k + 1)) is Refused);
        lemma_apply_attrs_refused(s, k + 1);
    } else {
        assert(s.take(k) =~= s);
    }
}

/// Folds an attribute list into an element's id and class set; the `style`
/// attribute refuses the document.
fn apply_attrs(attrs: &Vec<(String, String)>, position: usize) -> (r: Result<
    (Option<String>, Vec<String>),
    MarkupError,
>)
    ensures
        match r {
            Ok((id, classes)) => sp_apply_attrs(pairs_view(attrs@)) matches MarkRes::Found(z, av)
                && av.id == match id {
                Some(s) => Some(s@),
                None => None,
            } && av.classes == strs_view(classes@),
            Err(e) => sp_apply_attrs(pairs_view(attrs@)) is Refused && e is Unsupported,
        },
{
    let n = attrs.len();
    let mut id: Option<String> = None;
    let mut classes: Vec<String> = Vec::new();
    proof {
        assert(pairs_view(attrs@).take(0) =~= Seq::<(Seq<char>, Seq<char>)>::empty());
        assert(strs_view(classes@) =~= Seq::<Seq<char>>::empty());
    }
    for i in 0..n
        invariant
            n == attrs@.len(),
            sp_apply_attrs(pairs_view(attrs@).take(i as int)) matches MarkRes::Found(z, av)
                && av.id == match id {
                Some(s) => Some(s@),
                None => None,
            } && av.classes == strs_view(classes@),
    {
        proof {
            assert(pairs_view(attrs@).take(i + 1).drop_last() =~= pairs_view(attrs@).take(
                i as int,
            ));
            let ghost cur_pair = attrs@[i as int];
            assert(pairs_view(attrs@).take(i + 1).last() == (cur_pair.0@, cur_pair.1@));
        }
        let name = &attrs[i].0;
        if str_eq_ci(name.as_str(), "class") {
            classes = dedup_classes(split_classes(&attrs[i].1));
        } else if str_eq_ci(name.as_str(), "id") {
            id = Some(attrs[i].1.clone());
        } else if str_eq_ci(name.as_str(), "style") {
            proof {
                assert(sp_apply_attrs(pairs_view(attrs@).take(i + 1)) is Refused);
                lemma_apply_attrs_refused(pairs_view(attrs@), i + 1);
            }
            let mut contexts: Vec<String> = Vec::new();
            contexts.push(String::from_str("style attribute"));
            return Err(MarkupError::Unsupported(ParseError { position, contexts }));
        }
    }
    proof {
        assert(pairs_view(attrs@).take(n as int) =~= pairs_view(attrs@));
    }
    Ok((id, classes))
}


/// Prefixes already-parsed children onto the outcome of parsing the rest.
pub open spec fn children_combine(
    acc: Seq<NodeV>,
    r: MarkRes<(int, Seq<NodeV>)>,
) -> MarkRes<(int, Seq<NodeV>)> {
    match r {
        MarkRes::Found(z, pr) => MarkRes::Found(0, (pr.0, acc + pr.1)),
        MarkRes::Refused => MarkRes::Refused,
        MarkRes::Missing => MarkRes::Missing,
    }
}

/// Whether a class list already holds the given name.
fn contains_class(classes: &Vec<String>, tag: &String) -> (r: bool)
    ensures
        r == strs_view(classes@).contains(tag@),
{
    let n = classes.len();
    for j in 0..n
        invariant
            n == classes@.len(),
            forall|k: int| 0 <= k < j ==> strs_view(classes@)[k] != tag@,
    {
        if classes[j].eq(tag) {
            proof {
                assert(strs_view(classes@)[j as int] == tag@);
            }
            return true;
        }
    }
    false
}

/// Parses the common head of both tag forms: `<`, the tag name, and the
/// attributes, folded into the element's id and class set.
fn tag_head(t: &Vec<char>, p: usize) -> (r: Result<
    (usize, String, Option<String>, Vec<String>),
    MarkupError,
>)
    requires
        p <= t@.len(),
    ensures
        match r {
            Ok((e, tag, id, classes)) => sp_tag_head(t@, p as int) == MarkRes::Found(
                e as int,
                (tag@, AttrsV {
                    id: match id {
                        Some(s) => Some(s@),
                        None => None,
                    },
                    classes: strs_view(classes@),
                }),
            ) && p < e <= t@.len(),
            Err(e) => (e is Syntax ==> sp_tag_head(t@, p as int) is Missing) && (e is Unsupported
                ==> sp_tag_head(t@, p as int) is Refused),
        },
{
    let n = t.len();
    if !(p < n && t[p] == '<') {
        return Err(miss(p, "open tag"));
    }
    let (q, tag) = match m_ident(t, p + 1) {
        Some(r) => r,
        None => {
            return Err(miss(p, "open tag"));
        },
    };
    let (p2, attrs) = attr_list(t, q);
    match apply_attrs(&attrs, p2) {
        Ok((id, classes)) => Ok((p2, tag, id, classes)),
        Err(e) => Err(e),
    }
}

/// Parses a text run: everything up to the next tag or the end of input,
/// whitespace runs collapsed to single spaces.
fn text_at(t: &Vec<char>, p: usize) -> (r: Result<(usize, Node), MarkupError>)
    requires
        p <= t@.len(),
    ensures
        match r {
            Ok((e, node)) => sp_text(t@, p as int) == Some((e as int, node@)) && p < e <= t@.len(),
            Err(e) => e is Syntax && sp_text(t@, p as int) is None,
        },
{
    let n = t.len();
    if !(p < n && t[p] != '<') {
        return Err(miss(p, "text"));
    }
    let mut e = p;
    while e < n && t[e] != '<'
        invariant
            p <= e <= n == t@.len(),
            find_off(t@, p as int, '<') matches Some(d) ==> p + d >= e,
            find_off(t@, p as int, '<') == match find_off(t@, e as int, '<') {
                Option::Some(d) => Some((d + e - p) as nat),
                Option::None => None,
            },
        decreases n - e,
    {
        e = e + 1;
    }
    proof {
        if e < n {
            assert(find_off(t@, e as int, '<') == Some(0nat));
        } else {
            assert(find_off(t@, e as int, '<') is None);
        }
    }
    let ghost seg = t@.subrange(p as int, e as int);
    let mut acc: Vec<char> = Vec::new();
    let mut prev_ws = false;
    let mut i = p;
    while i < e
        invariant
            p <= i <= e <= n == t@.len(),
            seg == t@.subrange(p as int, e as int),
            sp_collapse(seg, false) == acc@ + sp_collapse(t@.subrange(i as int, e as int), prev_ws),
        decreases e - i,
    {
        proof {
            assert(t@.subrange(i as int, e as int).skip(1) =~= t@.subrange(i + 1, e as int));
            assert(t@.subrange(i as int, e as int)[0] == t@[i as int]);
        }
        let ghost acc0 = acc@;
        let c = t[i];
        if ws_char(c) {
            if !prev_ws {
                acc.push(' ');
                proof {
                    assert(acc@ =~= acc0.push(' '));
                    assert(acc@ + sp_collapse(t@.subrange(i + 1, e as int), true) =~= acc0 + (seq![
                        ' ',
                    ] + sp_collapse(t@.subrange(i + 1, e as int), true)));
                }
            }
            prev_ws = true;
        } else {
            acc.push(c);
            proof {
                assert(acc@ =~= acc0.push(t@[i as int]));
                assert(acc@ + sp_collapse(t@.subrange(i + 1, e as int), false) =~= acc0 + (seq![
                    t@[i as int],
                ] + sp_collapse(t@.subrange(i + 1, e as int), false)));
            }
            prev_ws = false;
        }
        i = i + 1;
    }
    proof {
        assert(t@.subrange(e as int, e as int) =~= Seq::<char>::empty());
        assert(acc@ + Seq::<char>::empty() =~= acc@);
    }
    let node = Node::from(chars_to_string(acc));
    Ok((e, node))
}

/// Parses an element: a tag with children, a self-closing tag, or a text run.
pub fn element_at(t: &Vec<char>, p: usize) -> (r: Result<(usize, Node), MarkupError>)
    requires
        p <= t@.len(),
    ensures
        match r {
            Ok((e, node)) => sp_element(t@, p as int) == MarkRes::Found(e as int, node@) && p < e
                <= t@.len(),
            Err(e) => (e is Syntax ==> sp_element(t@, p as int) is Missing) && (e is Unsupported
                ==> sp_element(t@, p as int) is Refused),
        },
    decreases t@.len() - p, 1int,
{
    match tag_children_at(t, p) {
        Ok(r) => Ok(r),
        Err(MarkupError::Unsupported(e)) => Err(MarkupError::Unsupported(e)),
        Err(MarkupError::Syntax(_)) => {
            match tag_no_children_at(t, p) {
                Ok(r) => Ok(r),
                Err(MarkupError::Unsupported(e)) => Err(MarkupError::Unsupported(e)),
                Err(MarkupError::Syntax(_)) => {
                    match text_at(t, p) {
                        Ok(r) => Ok(r),
                        Err(e) => Err(e),
                    }
                },
            }
        },
    }
}

/// Parses a self-closing tag: the tag head, mandatory whitespace, then `/>`.
fn tag_no_children_at(t: &Vec<char>, p: usize) -> (r: Result<(usize, Node), MarkupError>)
    requires
        p <= t@.len(),
    ensures
        match r {
            Ok((e, node)) => sp_tag_no_children(t@, p as int) == MarkRes::Found(e as int, node@)
                && p < e <= t@.len(),
            Err(e) => (e is Syntax ==> sp_tag_no_children(t@, p as int) is Missing) && (e
                is Unsupported ==> sp_tag_no_children(t@, p as int) is Refused),
        },
{
    let (p2, tag, id, classes) = match tag_head(t, p) {
        Ok(r) => r,
        Err(e) => {
            return Err(e);
        },
    };
    let n = t.len();
    let mut q = p2;
    while q < n && ws_char(t[q])
        invariant
            p2 <= q <= n == t@.len(),
            p2 + ws_run(t@, p2 as int) == q + ws_run(t@, q as int),
        decreases n - q,
    {
        q = q + 1;
    }
    if q == p2 {
        return Err(miss(q, "self-closing tag"));
    }
    if !lit_at(t, q, "/>") {
        return Err(miss(q, "self-closing tag"));
    }
    proof {
        reveal_strlit("/>");
        assert(q + 2 <= n);
    }
    let node = build_element_node(tag, id, classes, Vec::new());
    proof {
        assert(nodes_view(Seq::<Node>::empty()) =~= Seq::<NodeV>::empty());
    }
    Ok((q + 2, node))
}

/// An element node from its parsed parts; the tag name joins the class set.
fn build_element_node(tag: String, id: Option<String>, classes: Vec<String>, children: Vec<
    Node,
>) -> (r: Node)
    ensures
        r@ == (NodeV::Element {
            id: match id {
                Some(s) => Some(s@),
                None => None,
            },
            classes: with_tag_class(strs_view(classes@), tag@),
            children: nodes_view(children@),
        }),
{
    let mut classes = classes;
    if !contains_class(&classes, &tag) {
        let ghost cs0 = classes@;
        classes.push(tag);
        proof {
            assert(strs_view(classes@) =~= strs_view(cs0).push(classes@.last()@));
        }
    }
    let node = Node {
        node_data: NodeData::Element(ElementData { id, classes }),
        children,
    };
    proof {
        match &node.node_data {
            NodeData::Element(e) => {
                assert(e@.classes =~= strs_view(e.classes@));
            },
            NodeData::Text(_) => {},
        }
    }
    node
}

/// Parses a tag with children: the open tag, the children, and a matching
/// close tag.
fn tag_children_at(t: &Vec<char>, p: usize) -> (r: Result<(usize, Node), MarkupError>)
    requires
        p <= t@.len(),
    ensures
        match r {
            Ok((e, node)) => sp_tag_children(t@, p as int) == MarkRes::Found(e as int, node@) && p
                < e <= t@.len(),
            Err(e) => (e is Syntax ==> sp_tag_children(t@, p as int) is Missing) && (e
                is Unsupported ==> sp_tag_children(t@, p as int) is Refused),
        },
    decreases t@.len() - p, 0int,
{
    let (p2, tag, id, classes) = match tag_head(t, p) {
        Ok(r) => r,
        Err(e) => {
            return Err(e);
        },
    };
    let n = t.len();
    let mut q = p2;
    while q < n && ws_char(t[q])
        invariant
            p2 <= q <= n == t@.len(),
            p2 + ws_run(t@, p2 as int) == q + ws_run(t@, q as int),
        decreases n - q,
    {
        q = q + 1;
    }
    if !(q < n && t[q] == '>') {
        return Err(miss(q, "open tag"));
    }
    let ghost start = (q + 1) as int;
    let ghost head_av = AttrsV {
        id: match &id {
            Some(s) => Some(s@),
            None => None,
        },
        classes: strs_view(classes@),
    };
    let mut cur = q + 1;
    let mut kids: Vec<Node> = Vec::new();
    proof {
        assert(nodes_view(kids@) =~= Seq::<NodeV>::empty());
    }
    loop
        invariant
            p < cur <= n == t@.len(),
            start <= cur,
            p + 2 <= start,
            start == q + 1 <= n,
            sp_tag_head(t@, p as int) == MarkRes::Found(p2 as int, (tag@, head_av)),
            head_av == (AttrsV {
                id: match id {
                    Some(s) => Some(s@),
                    None => None,
                },
                classes: strs_view(classes@),
            }),
            q as int == p2 + ws_run(t@, p2 as int),
            q < n,
            t@[q as int] == '>',
            sp_children(t@, start) == children_combine(nodes_view(kids@), sp_children(
                t@,
                cur as int,
            )),
        decreases n - cur,
    {
        let q2 = nsws_items(t, cur);
        match element_at(t, q2) {
            Err(MarkupError::Unsupported(e)) => {
                return Err(MarkupError::Unsupported(e));
            },
            Err(MarkupError::Syntax(_)) => {
                proof {
                    assert(sp_children(t@, cur as int) == MarkRes::Found(
                        0,
                        (q2 as int, Seq::<NodeV>::empty()),
                    ));
                    assert(nodes_view(kids@) + Seq::<NodeV>::empty() =~= nodes_view(kids@));
                    assert(sp_children(t@, start) == MarkRes::Found(
                        0,
                        (q2 as int, nodes_view(kids@)),
                    ));
                }
                if !lit_at(t, q2, "</") {
                    return Err(miss(q2, "close tag"));
                }
                proof {
                    reveal_strlit("</");
                }
                let (p4, name) = match m_ident(t, q2 + 2) {
                    Some(r) => r,
                    None => {
                        return Err(miss(q2, "close tag"));
                    },
                };
                if !str_eq_ci(name.as_str(), tag.as_str()) {
                    return Err(miss(q2, "close tag"));
                }
                if !(p4 < n && t[p4] == '>') {
                    return Err(miss(p4, "close tag"));
                }
                let node = build_element_node(tag, id, classes, kids);
                return Ok((p4 + 1, node));
            },
            Ok((p3, child)) => {
                let p4 = nsws_items(t, p3);
                let ghost kids0 = kids@;
                kids.push(child);
                proof {
                    assert(kids@.drop_last() =~= kids0);
                    assert(nodes_view(kids@) =~= nodes_view(kids0).push(kids@.last()@));
                    assert(cur < p4);
                    assert(nodes_view(kids@) + match sp_children(t@, p4 as int) {
                        MarkRes::Found(z, pr) => pr.1,
                        _ => Seq::<NodeV>::empty(),
                    } =~= nodes_view(kids0) + (seq![kids@.last()@] + match sp_children(
                        t@,
                        p4 as int,
                    ) {
                        MarkRes::Found(z, pr) => pr.1,
                        _ => Seq::<NodeV>::empty(),
                    }));
                }
                cur = p4;
            },
        }
    }
}

/// Parses a document: an optional doctype declaration, then one root element
/// in open/close form, wrapped in structural whitespace. Input after the root
/// element is not consumed.
pub fn document_at(t: &Vec<char>) -> (r: Result<(usize, Node), MarkupError>)
    ensures
        match r {
            Ok((e, node)) => sp_document(t@) == MarkRes::Found(e as int, node@),
            Err(e) => (e is Syntax ==> sp_document(t@) is Missing) && (e is Unsupported
                ==> sp_document(t@) is Refused),
        },
{
    let n = t.len();
    let mut p0: usize = 0;
    if lit_at_ci(t, 0, "<!doctype") {
        proof {
            reveal_strlit("<!doctype");
        }
        let mut q: usize = 9;
        while q < n && t[q] != '>'
            invariant
                9 <= q <= n == t@.len(),
                find_off(t@, 9, '>') matches Some(d) ==> 9 + d >= q,
                find_off(t@, 9, '>') == match find_off(t@, q as int, '>') {
                    Option::Some(d) => Some((d + q - 9) as nat),
                    Option::None => None,
                },
            decreases n - q,
        {
            q = q + 1;
        }
        if q >= n {
            return Err(miss(q, "doctype"));
        }
        proof {
            assert(find_off(t@, q as int, '>') == Some(0nat));
        }
        p0 = q + 1;
    }
    let q = ws_items(t, p0);
    tag_children_at(t, q)
}

/// Parses markup source text into its content tree; input after the root
/// element is discarded.
pub fn parse_markup(input: &str) -> (r: Result<Node, MarkupError>)
    ensures
        match r {
            Ok(node) => sp_document(input@) matches MarkRes::Found(e, nv) && nv == node@,
            Err(e) => (e is Syntax ==> sp_document(input@) is Missing) && (e is Unsupported
                ==> sp_document(input@) is Refused),
        },
{
    let t = str_chars(input);
    match document_at(&t) {
        Ok((_, node)) => Ok(node),
        Err(e) => Err(e),
    }
}

/// Parses one element from the start of the input, returning how many
/// characters it consumed.
pub fn element(input: &str) -> (r: Result<(usize, Node), MarkupError>)
    ensures
        match r {
            Ok((e, node)) => sp_element(input@, 0) == MarkRes::Found(e as int, node@),
            Err(e) => (e is Syntax ==> sp_element(input@, 0) is Missing) && (e is Unsupported
                ==> sp_element(input@, 0) is Refused),
        },
{
    let t = str_chars(input);
    element_at(&t, 0)
}

/// The model of an open tag alone: the element data it denotes, with the tag
/// name in the class set.
pub open spec fn sp_open_tag(s: Seq<char>, p: int) -> MarkRes<crate::content_tree::ElemV> {
    match sp_tag_head(s, p) {
        MarkRes::Found(p2, tv) => if 0 <= p2 < s.len() && s[p2] == '>' {
            MarkRes::Found(
                p2 + 1,
                crate::content_tree::ElemV {
                    id: tv.1.id,
                    classes: with_tag_class(tv.1.classes, tv.0),
                },
            )
        } else {
            MarkRes::Missing
        },
        MarkRes::Refused => MarkRes::Refused,
        MarkRes::Missing => MarkRes::Missing,
    }
}

/// Parses an open tag alone from the start of the input: `<`, the tag name,
/// the attributes, and `>`.
pub fn open_tag(input: &str) -> (r: Result<(usize, ElementData), MarkupError>)
    ensures
        match r {
            Ok((e, ed)) => sp_open_tag(input@, 0) == MarkRes::Found(e as int, ed@),
            Err(e) => (e is Syntax ==> sp_open_tag(input@, 0) is Missing) && (e is Unsupported
                ==> sp_open_tag(input@, 0) is Refused),
        },
{
    let t = str_chars(input);
    let (p2, tag, id, classes) = match tag_head(&t, 0) {
        Ok(r) => r,
        Err(e) => {
            return Err(e);
        },
    };
    let n = t.len();
    if !(p2 < n && t[p2] == '>') {
        return Err(miss(p2, "open tag"));
    }
    let mut classes = classes;
    if !contains_class(&classes, &tag) {
        let ghost cs0 = classes@;
        classes.push(tag);
        proof {
            assert(strs_view(classes@) =~= strs_view(cs0).push(classes@.last()@));
        }
    }
    let ed = ElementData { id, classes };
    proof {
        assert(ed@.classes =~= strs_view(ed.classes@));
    }
    Ok((p2 + 1, ed))
}


/// Removing later duplicates keeps membership: the deduplicated class list
/// holds exactly the classes of the original.
pub proof fn lemma_dedup_contains(cs: Seq<Seq<char>>)
    ensures
        forall|x: Seq<char>| sp_dedup(cs).contains(x) <==> #[trigger] cs.contains(x),
    decreases cs,
{
    if cs.len() > 0 {
        lemma_dedup_contains(cs.drop_last());
        let rest = sp_dedup(cs.drop_last());
        assert forall|x: Seq<char>| sp_dedup(cs).contains(x) <==> #[trigger] cs.contains(x) by {
            if cs.contains(x) {
                if x == cs.last() {
                    if cs.drop_last().contains(x) {
                        assert(rest.contains(x));
                        assert(sp_dedup(cs).contains(x)) by {
                            if !cs.drop_last().contains(cs.last()) {
                                let i = choose|i: int|
                                    0 <= i < rest.len() && rest[i] == x;
                                assert(rest.push(cs.last())[i] == x);
                            }
                        }
                    } else {
                        assert(sp_dedup(cs) == rest.push(cs.last()));
                        assert(sp_dedup(cs)[sp_dedup(cs).len() - 1] == x);
                    }
                } else {
                    let i = choose|i: int| 0 <= i < cs.len() && cs[i] == x;
                    assert(cs.drop_last()[i] == x);
                    assert(cs.drop_last().contains(x));
                    assert(rest.contains(x));
                    let j = choose|j: int| 0 <= j < rest.len() && rest[j] == x;
                    if !cs.drop_last().contains(cs.last()) {
                        assert(rest.push(cs.last())[j] == x);
                    }
                }
            }
            if sp_dedup(cs).contains(x) {
                if cs.drop_last().contains(cs.last()) {
                    assert(rest.contains(x));
                    assert(cs.drop_last().contains(x));
                    let i = choose|i: int| 0 <= i < cs.drop_last().len() && cs.drop_last()[i] == x;
                    assert(cs[i] == x);
                } else {
                    let j = choose|j: int|
                        0 <= j < sp_dedup(cs).len() && sp_dedup(cs)[j] == x;
                    if j < rest.len() {
                        assert(rest.contains(x));
                        assert(cs.drop_last().contains(x));
                        let i = choose|i: int|
                            0 <= i < cs.drop_last().len() && cs.drop_last()[i] == x;
                        assert(cs[i] == x);
                    } else {
                        assert(x == cs.last());
                        assert(cs[cs.len() - 1] == x);
                    }
                }
            }
        }
    }
}

/// The tag-name-as-class law: an element's class set is exactly the classes
/// of its `class` attribute together with its own tag name.
pub proof fn lemma_tag_name_class(val: Seq<char>, tag: Seq<char>)
    ensures
        crate::content_tree::class_set(with_tag_class(sp_dedup(sp_split(val)), tag))
            == crate::content_tree::class_set(sp_split(val)).insert(tag),
{
    broadcast use vstd::set::group_set_axioms;

    lemma_dedup_contains(sp_split(val));
    let dd = sp_dedup(sp_split(val));
    let wt = with_tag_class(dd, tag);
    assert forall|x: Seq<char>| #[trigger] wt.contains(x) <==> sp_split(val).contains(x) || x
        == tag by {
        if dd.contains(tag) {
            assert(wt == dd);
        } else {
            if wt.contains(x) {
                let i = choose|i: int| 0 <= i < wt.len() && wt[i] == x;
                if i < dd.len() {
                    assert(dd[i] == x);
                    assert(dd.contains(x));
                } else {
                    assert(x == tag);
                }
            }
            if dd.contains(x) {
                let i = choose|i: int| 0 <= i < dd.len() && dd[i] == x;
                assert(wt[i] == x);
            }
            if x == tag {
                assert(wt[wt.len() - 1] == x);
            }
        }
    }
    assert(crate::content_tree::class_set(wt) =~= crate::content_tree::class_set(
        sp_split(val),
    ).insert(tag));
}

} // verus!
