//! The cascade resolver: builds a style tree that mirrors the content tree,
//! mapping each element to its resolved property values.
use vstd::prelude::*;

use crate::content_tree::ElemV;
use crate::content_tree::ElementData;
use crate::content_tree::Node;
use crate::content_tree::NodeData;
use crate::style::Declaration;
use crate::style::DisplayKind;
use crate::style::Rule;
use crate::style::Specificity;
use crate::style::Stylesheet;
use crate::style::Value;
use crate::style::ValueV;
use crate::style::rule_match;
use crate::style::spec_lt;
use crate::style::specificity_lt;

verus! {

/// A resolved property map: property name to value. Represented as an
/// append-only association list where the latest binding of a name wins.
pub struct PropMap {
    pub entries: Vec<(String, Value)>,
}

/// The map denoted by an association list: bindings applied left to right,
/// later bindings overwriting earlier ones.
pub open spec fn entries_map(s: Seq<(String, Value)>) -> Map<Seq<char>, ValueV>
    decreases s.len(),
{
    if s.len() == 0 {
        Map::empty()
    } else {
        entries_map(s.drop_last()).insert(s.last().0@, s.last().1@)
    }
}

/// The latest binding of `k` in the association list, if any.
pub open spec fn lookup_entries(s: Seq<(String, Value)>, k: Seq<char>) -> Option<ValueV>
    decreases s.len(),
{
    if s.len() == 0 {
        None
    } else if s.last().0@ == k {
        Some(s.last().1@)
    } else {
        lookup_entries(s.drop_last(), k)
    }
}

/// The association list denotes exactly its latest bindings.
pub proof fn lemma_entries_map(s: Seq<(String, Value)>, k: Seq<char>)
    ensures
        entries_map(s).contains_key(k) <==> lookup_entries(s, k) is Some,
        lookup_entries(s, k) matches Some(v) ==> entries_map(s)[k] == v,
    decreases s.len(),
{
    if s.len() > 0 {
        lemma_entries_map(s.drop_last(), k);
    }
}

impl View for PropMap {
    type V = Map<Seq<char>, ValueV>;

    open spec fn view(&self) -> Map<Seq<char>, ValueV> {
        entries_map(self.entries@)
    }
}

/// A copy of a value, field for field.
pub fn copy_value(v: &Value) -> (r: Value)
    ensures
        r == *v,
{
    match v {
        Value::Keyword(s) => Value::Keyword(s.clone()),
        Value::Auto => Value::Auto,
        Value::AbsoluteLength(l) => Value::AbsoluteLength(*l),
        Value::Border(b) => Value::Border(*b),
        Value::Display(d) => Value::Display(*d),
    }
}

impl PropMap {
    /// An empty property map.
    pub fn new() -> (r: PropMap)
        ensures
            r@ == Map::<Seq<char>, ValueV>::empty(),
            r.entries@.len() == 0,
    {
        PropMap { entries: Vec::new() }
    }

    /// Binds `name` to `value`, overwriting any earlier binding.
    pub fn insert(&mut self, name: String, value: Value)
        ensures
            final(self)@ == old(self)@.insert(name@, value@),
            final(self).entries@ == old(self).entries@.push((name, value)),
    {
        let ghost s0 = self.entries@;
        self.entries.push((name, value));
        proof {
            assert(self.entries@.drop_last() =~= s0);
            assert(self.entries@.last() == (name, value));
        }
    }

    /// The value bound to `name`, if any.
    pub fn get(&self, name: &String) -> (r: Option<&Value>)
        ensures
            match r {
                Some(v) => self@.contains_key(name@) && self@[name@] == v@,
                None => !self@.contains_key(name@),
            },
    {
        proof {
            lemma_entries_map(self.entries@, name@);
            assert(self.entries@.take(self.entries@.len() as int) =~= self.entries@);
        }
        let mut i = self.entries.len();
        while i > 0
            invariant
                i <= self.entries.len(),
                lookup_entries(self.entries@, name@) == lookup_entries(
                    self.entries@.take(i as int),
                    name@,
                ),
            decreases i,
        {
            i = i - 1;
            proof {
                assert(self.entries@.take(i + 1).last() == self.entries@[i as int]);
                assert(self.entries@.take(i + 1).drop_last() =~= self.entries@.take(i as int));
            }
            if self.entries[i].0.eq(name) {
                proof {
                    assert(lookup_entries(self.entries@, name@) == Some(
                        self.entries@[i as int].1@,
                    ));
                    lemma_entries_map(self.entries@, name@);
                }
                let v = &self.entries[i].1;
                proof {
                    assert(v@ == self.entries@[i as int].1@);
                }
                return Some(v);
            }
        }
        proof {
            assert(self.entries@.take(0).len() == 0);
            lemma_entries_map(self.entries@, name@);
        }
        None
    }
}

/// The last declaration of property `p` in a declaration list, if any.
pub open spec fn decl_last(decls: Seq<Declaration>, p: Seq<char>) -> Option<ValueV>
    decreases decls.len(),
{
    if decls.len() == 0 {
        None
    } else if decls.last().name@ == p {
        Some(decls.last().value@)
    } else {
        decl_last(decls.drop_last(), p)
    }
}

/// Folds one matching rule into the cascade result for a property: the rule's
/// declaration wins unless an earlier rule matched with strictly higher
/// specificity; on equal specificity the later rule wins.
pub open spec fn cascade_step(
    prev: Option<(Specificity, ValueV)>,
    sp: Specificity,
    decl: Option<ValueV>,
) -> Option<(Specificity, ValueV)> {
    match decl {
        Option::None => prev,
        Option::Some(v) => match prev {
            Option::None => Some((sp, v)),
            Option::Some((sp2, v2)) => if spec_lt(sp, sp2) {
                Some((sp2, v2))
            } else {
                Some((sp, v))
            },
        },
    }
}

/// The cascade winner for property `p` on element `e`: among the rules whose
/// selector matches `e` and that declare `p`, the one with the highest
/// specificity, ties broken by later source position; within that rule, its
/// last declaration of `p`.
pub open spec fn cascade_winner(rules: Seq<Rule>, e: ElemV, p: Seq<char>) -> Option<
    (Specificity, ValueV),
>
    decreases rules.len(),
{
    if rules.len() == 0 {
        None
    } else {
        let prev = cascade_winner(rules.drop_last(), e, p);
        match rule_match(rules.last(), e) {
            Option::Some(sp) => cascade_step(prev, sp, decl_last(rules.last().declarations@, p)),
            Option::None => prev,
        }
    }
}

/// A property map resolves the cascade of `rules` on element `e`: it binds a
/// property exactly when some matching rule declares it, to the winning
/// declaration's value.
pub open spec fn cascade_ok(m: Map<Seq<char>, ValueV>, rules: Seq<Rule>, e: ElemV) -> bool {
    forall|p: Seq<char>|
        {
            &&& (#[trigger] m.contains_key(p) <==> cascade_winner(rules, e, p) is Some)
            &&& (cascade_winner(rules, e, p) matches Some(w) ==> m.contains_key(p) && m[p] == w.1)
        }
}


/// The latest strength recorded for a property in the association list.
pub open spec fn lookup_strength(s: Seq<(String, Specificity)>, k: Seq<char>) -> Option<Specificity>
    decreases s.len(),
{
    if s.len() == 0 {
        None
    } else if s.last().0@ == k {
        Some(s.last().1)
    } else {
        lookup_strength(s.drop_last(), k)
    }
}

/// The latest strength bound to `name`, if any.
fn get_strength(s: &Vec<(String, Specificity)>, name: &String) -> (r: Option<Specificity>)
    ensures
        r == lookup_strength(s@, name@),
{
    proof {
        assert(s@.take(s@.len() as int) =~= s@);
    }
    let mut i = s.len();
    while i > 0
        invariant
            i <= s.len(),
            lookup_strength(s@, name@) == lookup_strength(s@.take(i as int), name@),
        decreases i,
    {
        i = i - 1;
        proof {
            assert(s@.take(i + 1).last() == s@[i as int]);
            assert(s@.take(i + 1).drop_last() =~= s@.take(i as int));
        }
        if s[i].0.eq(name) {
            return Some(s[i].1);
        }
    }
    proof {
        assert(s@.take(0).len() == 0);
    }
    None
}


/// One declaration step of the cascade: pushing the declaration's binding
/// when it is not outranked (or leaving the lists alone when it is) moves the
/// association lists from modelling the rule's declarations up to `j` to
/// modelling them up to `j + 1`.
proof fn lemma_cascade_decl_step(
    rules: Seq<Rule>,
    e: ElemV,
    sp: Specificity,
    decls: Seq<Declaration>,
    j: int,
    ev0: Seq<(String, Value)>,
    sv0: Seq<(String, Specificity)>,
    ev1: Seq<(String, Value)>,
    sv1: Seq<(String, Specificity)>,
    overwrite: bool,
)
    requires
        0 <= j < decls.len(),
        forall|p: Seq<char>|
            #[trigger] lookup_entries(ev0, p) == none_value(
                cascade_step(cascade_winner(rules, e, p), sp, decl_last(decls.take(j), p)),
            ),
        forall|p: Seq<char>|
            #[trigger] lookup_strength(sv0, p) == none_strength(
                cascade_step(cascade_winner(rules, e, p), sp, decl_last(decls.take(j), p)),
            ),
        overwrite == match lookup_strength(sv0, decls[j].name@) {
            Option::Some(cur) => !spec_lt(sp, cur),
            Option::None => true,
        },
        overwrite ==> {
            &&& ev1.len() == ev0.len() + 1
            &&& ev1.drop_last() == ev0
            &&& ev1.last().0@ == decls[j].name@
            &&& ev1.last().1@ == decls[j].value@
            &&& sv1.len() == sv0.len() + 1
            &&& sv1.drop_last() == sv0
            &&& sv1.last().0@ == decls[j].name@
            &&& sv1.last().1 == sp
        },
        !overwrite ==> ev1 == ev0 && sv1 == sv0,
    ensures
        forall|p: Seq<char>|
            #[trigger] lookup_entries(ev1, p) == none_value(
                cascade_step(cascade_winner(rules, e, p), sp, decl_last(decls.take(j + 1), p)),
            ),
        forall|p: Seq<char>|
            #[trigger] lookup_strength(sv1, p) == none_strength(
                cascade_step(cascade_winner(rules, e, p), sp, decl_last(decls.take(j + 1), p)),
            ),
{
    let dname = decls[j].name@;
    let dval = decls[j].value@;
    assert(decls.take(j + 1).drop_last() =~= decls.take(j));
    assert(decls.take(j + 1).last() == decls[j]);
    let prevd = cascade_winner(rules, e, dname);
    let mergedd = cascade_step(prevd, sp, decl_last(decls.take(j), dname));
    assert(lookup_strength(sv0, dname) == none_strength(mergedd));
    let goald = cascade_step(prevd, sp, Some(dval));
    if overwrite {
        assert(goald == Some((sp, dval))) by {
            if prevd is Some {
                let sp2 = (prevd->0).0;
                if spec_lt(sp, sp2) {
                    assert(mergedd == prevd || mergedd == Some((sp, (mergedd->0).1)));
                    assert(!spec_lt(sp, (mergedd->0).0));
                    assert(!spec_lt(sp, sp));
                    assert(false);
                }
            }
        }
    } else {
        assert(mergedd is Some && spec_lt(sp, (mergedd->0).0));
        assert(goald == mergedd) by {
            if prevd is Some {
                let sp2 = (prevd->0).0;
                if !spec_lt(sp, sp2) {
                    assert((mergedd->0).0 == sp2 || (mergedd->0).0 == sp);
                    assert(!spec_lt(sp, sp));
                    assert(spec_lt(sp, sp2));
                    assert(false);
                }
                assert(mergedd == prevd);
            } else {
                assert((mergedd->0).0 == sp);
                assert(!spec_lt(sp, sp));
                assert(false);
            }
        }
    }
    assert forall|p: Seq<char>| #[trigger] lookup_entries(ev1, p) == none_value(
        cascade_step(cascade_winner(rules, e, p), sp, decl_last(decls.take(j + 1), p)),
    ) by {
        if p == dname {
            if overwrite {
                assert(lookup_entries(ev1, p) == Some(dval));
            }
        } else {
            assert(decl_last(decls.take(j + 1), p) == decl_last(decls.take(j), p));
            if overwrite {
                assert(lookup_entries(ev1, p) == lookup_entries(ev0, p));
            }
        }
    }
    assert forall|p: Seq<char>| #[trigger] lookup_strength(sv1, p) == none_strength(
        cascade_step(cascade_winner(rules, e, p), sp, decl_last(decls.take(j + 1), p)),
    ) by {
        if p == dname {
            if overwrite {
                assert(lookup_strength(sv1, p) == Some(sp));
            }
        } else {
            assert(decl_last(decls.take(j + 1), p) == decl_last(decls.take(j), p));
            if overwrite {
                assert(lookup_strength(sv1, p) == lookup_strength(sv0, p));
            }
        }
    }
}

/// An association list whose latest bindings are the cascade winners denotes
/// a map that resolves the cascade.
proof fn lemma_cascade_done(rules: Seq<Rule>, e: ElemV, ev: Seq<(String, Value)>)
    requires
        forall|p: Seq<char>|
            #[trigger] lookup_entries(ev, p) == none_value(cascade_winner(rules, e, p)),
    ensures
        cascade_ok(entries_map(ev), rules, e),
{
    assert forall|p: Seq<char>|
        {
            &&& (#[trigger] entries_map(ev).contains_key(p) <==> cascade_winner(rules, e, p)
                is Some)
            &&& (cascade_winner(rules, e, p) matches Some(w) ==> entries_map(ev).contains_key(p)
                && entries_map(ev)[p] == w.1)
        } by {
        lemma_entries_map(ev, p);
    }
}

/// Resolves the cascade for one element: every property declared by a
/// matching rule is bound to the declaration of the highest-specificity
/// match, ties broken by later source position.
pub fn specified_values(element: &ElementData, stylesheet: &Stylesheet) -> (r: PropMap)
    ensures
        cascade_ok(r@, stylesheet.rules@, element@),
{
    let mut values = PropMap::new();
    let mut strengths: Vec<(String, Specificity)> = Vec::new();
    let n = stylesheet.rules.len();
    for i in 0..n
        invariant
            n == stylesheet.rules.len(),
            forall|p: Seq<char>|
                #[trigger] lookup_entries(values.entries@, p) == none_value(
                    cascade_winner(stylesheet.rules@.take(i as int), element@, p),
                ),
            forall|p: Seq<char>|
                #[trigger] lookup_strength(strengths@, p) == none_strength(
                    cascade_winner(stylesheet.rules@.take(i as int), element@, p),
                ),
    {
        proof {
            assert(stylesheet.rules@.take(i + 1).drop_last() =~= stylesheet.rules@.take(i as int));
            assert(stylesheet.rules@.take(i + 1).last() == stylesheet.rules@[i as int]);
        }
        let ghost prev_rules = stylesheet.rules@.take(i as int);
        if let Some(sp) = stylesheet.rules[i].match_rule(element) {
            let decls = &stylesheet.rules[i].declarations;
            let m = decls.len();
            for j in 0..m
                invariant
                    m == decls.len(),
                    decls == stylesheet.rules@[i as int].declarations,
                    prev_rules == stylesheet.rules@.take(i as int),
                    i < n == stylesheet.rules.len(),
                    rule_match(stylesheet.rules@[i as int], element@) == Some(sp),
                    forall|p: Seq<char>|
                        #[trigger] lookup_entries(values.entries@, p) == none_value(
                            cascade_step(
                                cascade_winner(prev_rules, element@, p),
                                sp,
                                decl_last(decls@.take(j as int), p),
                            ),
                        ),
                    forall|p: Seq<char>|
                        #[trigger] lookup_strength(strengths@, p) == none_strength(
                            cascade_step(
                                cascade_winner(prev_rules, element@, p),
                                sp,
                                decl_last(decls@.take(j as int), p),
                            ),
                        ),
            {
                let ghost ev0 = values.entries@;
                let ghost sv0 = strengths@;
                let name = &decls[j].name;
                let overwrite = match get_strength(&strengths, name) {
                    Some(cur) => !specificity_lt(&sp, &cur),
                    None => true,
                };
                if overwrite {
                    values.insert(name.clone(), copy_value(&decls[j].value));
                    strengths.push((name.clone(), sp));
                    proof {
                        assert(values.entries@.drop_last() =~= ev0);
                        assert(strengths@.drop_last() =~= sv0);
                    }
                }
                proof {
                    lemma_cascade_decl_step(
                        prev_rules,
                        element@,
                        sp,
                        decls@,
                        j as int,
                        ev0,
                        sv0,
                        values.entries@,
                        strengths@,
                        overwrite,
                    );
                }
            }
            proof {
                assert(decls@.take(m as int) =~= decls@);
                assert forall|p: Seq<char>| #[trigger] lookup_entries(values.entries@, p)
                    == none_value(
                    cascade_winner(stylesheet.rules@.take(i + 1), element@, p),
                ) && #[trigger] lookup_strength(strengths@, p) == none_strength(
                    cascade_winner(stylesheet.rules@.take(i + 1), element@, p),
                ) by {
                    assert(lookup_entries(values.entries@, p) == none_value(
                        cascade_step(
                            cascade_winner(prev_rules, element@, p),
                            sp,
                            decl_last(decls@.take(m as int), p),
                        ),
                    ));
                    assert(cascade_winner(stylesheet.rules@.take(i + 1), element@, p)
                        == cascade_step(
                        cascade_winner(prev_rules, element@, p),
                        sp,
                        decl_last(stylesheet.rules@[i as int].declarations@, p),
                    ));
                }
            }
        } else {
            proof {
                assert forall|p: Seq<char>| #[trigger] lookup_entries(values.entries@, p)
                    == none_value(
                    cascade_winner(stylesheet.rules@.take(i + 1), element@, p),
                ) && #[trigger] lookup_strength(strengths@, p) == none_strength(
                    cascade_winner(stylesheet.rules@.take(i + 1), element@, p),
                ) by {
                    assert(cascade_winner(stylesheet.rules@.take(i + 1), element@, p)
                        == cascade_winner(prev_rules, element@, p));
                }
            }
        }
    }
    proof {
        assert(stylesheet.rules@.take(n as int) =~= stylesheet.rules@);
        lemma_cascade_done(stylesheet.rules@, element@, values.entries@);
    }
    values
}

/// The value part of a cascade outcome.
pub open spec fn none_value(o: Option<(Specificity, ValueV)>) -> Option<ValueV> {
    match o {
        Option::Some((sp, v)) => Some(v),
        Option::None => None,
    }
}

/// The strength part of a cascade outcome.
pub open spec fn none_strength(o: Option<(Specificity, ValueV)>) -> Option<Specificity> {
    match o {
        Option::Some((sp, v)) => Some(sp),
        Option::None => None,
    }
}


/// A node of the style tree: the content node's data, its resolved property
/// map (empty for text nodes), and one styled child per content child.
pub struct StyledNode {
    pub node: NodeData,
    pub specified_values: PropMap,
    pub children: Vec<StyledNode>,
}

/// The styled tree `sn` is the style tree of content node `n` under `rules`:
/// same shape, same node data, and each element's property map resolves the
/// cascade; text nodes carry an empty map.
pub open spec fn styled_ok(sn: StyledNode, n: Node, rules: Seq<Rule>) -> bool
    decreases n,
{
    &&& sn.node@ == n.node_data@
    &&& sn.children@.len() == n.children@.len()
    &&& (forall|i: int|
        0 <= i < n.children@.len() ==> styled_ok(#[trigger] sn.children@[i], n.children@[i], rules))
    &&& match n.node_data {
        NodeData::Text(_) => sn.specified_values@ == Map::<Seq<char>, ValueV>::empty(),
        NodeData::Element(e) => cascade_ok(sn.specified_values@, rules, e@),
    }
}

/// A copy of a string list, element for element.
fn copy_strings(v: &Vec<String>) -> (r: Vec<String>)
    ensures
        r@ == v@,
{
    let mut out: Vec<String> = Vec::new();
    let n = v.len();
    for i in 0..n
        invariant
            n == v.len(),
            out@ =~= v@.take(i as int),
    {
        out.push(v[i].clone());
        proof {
            assert(out@ =~= v@.take(i + 1));
        }
    }
    proof {
        assert(v@.take(n as int) =~= v@);
    }
    out
}

/// A copy of a node's own data, field for field.
fn copy_node_data(d: &NodeData) -> (r: NodeData)
    ensures
        r@ == d@,
{
    match d {
        NodeData::Text(s) => NodeData::Text(s.clone()),
        NodeData::Element(e) => NodeData::Element(
            ElementData {
                id: match &e.id {
                    Some(s) => Some(s.clone()),
                    None => None,
                },
                classes: copy_strings(&e.classes),
            },
        ),
    }
}

/// Builds the style tree for `root`: a tree of the same shape where every
/// element node carries its resolved property map and every text node an
/// empty one.
pub fn style_tree(root: &Node, style: &Stylesheet) -> (r: StyledNode)
    ensures
        styled_ok(r, *root, style.rules@),
    decreases *root,
{
    let specified = match &root.node_data {
        NodeData::Element(e) => specified_values(e, style),
        NodeData::Text(_) => PropMap::new(),
    };
    let mut children: Vec<StyledNode> = Vec::new();
    let n = root.children.len();
    for i in 0..n
        invariant
            n == root.children.len(),
            children@.len() == i,
            forall|k: int|
                0 <= k < i ==> styled_ok(
                    #[trigger] children@[k],
                    root.children@[k],
                    style.rules@,
                ),
    {
        proof {
            assert(decreases_to!(*root => root.children@[i as int]));
        }
        children.push(style_tree(&root.children[i], style));
    }
    StyledNode { node: copy_node_data(&root.node_data), specified_values: specified, children }
}

/// A map lookup with a shorthand fallback: the value of `k`, else the value
/// of `sh`, else the default.
pub open spec fn map_lookup(
    m: Map<Seq<char>, ValueV>,
    k: Seq<char>,
    sh: Seq<char>,
    d: ValueV,
) -> ValueV {
    if m.contains_key(k) {
        m[k]
    } else if m.contains_key(sh) {
        m[sh]
    } else {
        d
    }
}

/// The display kind a styled node resolves to: the value of its `display`
/// property when that is a display kind, `Inline` otherwise.
pub open spec fn display_of(sn: StyledNode) -> DisplayKind {
    if sn.specified_values@.contains_key("display"@) {
        match sn.specified_values@["display"@] {
            ValueV::Display(d) => d,
            _ => DisplayKind::Inline,
        }
    } else {
        DisplayKind::Inline
    }
}

impl StyledNode {
    /// The content node data this styled node refers to.
    pub fn node(&self) -> (r: &NodeData)
        ensures
            r == &self.node,
    {
        &self.node
    }

    /// The resolved display kind: the `display` property, defaulting to
    /// inline when unset or not a display kind.
    pub fn display(&self) -> (r: DisplayKind)
        ensures
            r == display_of(*self),
    {
        match self.value("display") {
            Some(Value::Display(d)) => d,
            _ => DisplayKind::Inline,
        }
    }

    /// The resolved value of a property, if set.
    pub fn value(&self, keyword: &str) -> (r: Option<Value>)
        ensures
            match r {
                Some(v) => self.specified_values@.contains_key(keyword@)
                    && self.specified_values@[keyword@] == v@,
                None => !self.specified_values@.contains_key(keyword@),
            },
    {
        let k = String::from_str(keyword);
        match self.specified_values.get(&k) {
            Some(v) => Some(copy_value(v)),
            None => None,
        }
    }

    /// The resolved value of `keyword`, falling back to the `shorthand`
    /// property and then to the given default.
    pub fn lookup(&self, keyword: &str, shorthand: &str, default: &Value) -> (r: Value)
        ensures
            r@ == map_lookup(self.specified_values@, keyword@, shorthand@, default@),
    {
        match self.value(keyword) {
            Some(v) => v,
            None => match self.value(shorthand) {
                Some(v) => v,
                None => copy_value(default),
            },
        }
    }
}


/// A leaf copy of a styled node: the same node data and property map, with no
/// children.
pub fn copy_styled_leaf(sn: &StyledNode) -> (r: StyledNode)
    ensures
        r.node@ == sn.node@,
        r.specified_values@ == sn.specified_values@,
        r.children@.len() == 0,
{
    let mut entries: Vec<(String, Value)> = Vec::new();
    let n = sn.specified_values.entries.len();
    for i in 0..n
        invariant
            n == sn.specified_values.entries.len(),
            entries@ =~= sn.specified_values.entries@.take(i as int),
    {
        entries.push(
            (sn.specified_values.entries[i].0.clone(), copy_value(&sn.specified_values.entries[i].1)),
        );
        proof {
            assert(entries@ =~= sn.specified_values.entries@.take(i + 1));
        }
    }
    proof {
        assert(sn.specified_values.entries@.take(n as int) =~= sn.specified_values.entries@);
    }
    StyledNode {
        node: copy_node_data(&sn.node),
        specified_values: PropMap { entries },
        children: Vec::new(),
    }
}


/// The cascade-order law, for two rules that both match an element and both
/// declare a property: the higher-specificity rule's declaration wins
/// regardless of source order, and on equal specificity the later rule wins.
pub proof fn lemma_cascade_order(r1: Rule, r2: Rule, e: ElemV, p: Seq<char>)
    requires
        rule_match(r1, e) is Some,
        rule_match(r2, e) is Some,
        decl_last(r1.declarations@, p) is Some,
        decl_last(r2.declarations@, p) is Some,
    ensures
        ({
            let sp1 = rule_match(r1, e)->0;
            let sp2 = rule_match(r2, e)->0;
            let w = cascade_winner(seq![r1, r2], e, p);
            &&& w is Some
            &&& (spec_lt(sp1, sp2) ==> (w->0).1 == decl_last(r2.declarations@, p)->0)
            &&& (spec_lt(sp2, sp1) ==> (w->0).1 == decl_last(r1.declarations@, p)->0)
            &&& (sp1 == sp2 ==> (w->0).1 == decl_last(r2.declarations@, p)->0)
        }),
{
    let rs = seq![r1, r2];
    assert(rs.drop_last() =~= seq![r1]);
    assert(rs.last() == r2);
    assert(seq![r1].drop_last() =~= Seq::<Rule>::empty());
    assert(seq![r1].last() == r1);
    assert(cascade_winner(seq![r1].drop_last(), e, p) is None);
    assert(cascade_winner(seq![r1], e, p) == cascade_step(
        cascade_winner(seq![r1].drop_last(), e, p),
        rule_match(r1, e)->0,
        decl_last(r1.declarations@, p),
    ));
    assert(cascade_winner(rs, e, p) == cascade_step(
        cascade_winner(seq![r1], e, p),
        rule_match(r2, e)->0,
        decl_last(r2.declarations@, p),
    ));
    let sp2 = rule_match(r2, e)->0;
    if spec_lt(sp2, rule_match(r1, e)->0) {
        assert(!spec_lt(rule_match(r1, e)->0, sp2));
    }
}

} // verus!
