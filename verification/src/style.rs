//! The stylesheet model: rules, selectors, declarations and property values,
//! together with selector matching and specificity.
use vstd::prelude::*;

pub mod parse;

use crate::content_tree::ElemV;
use crate::content_tree::ElementData;

verus! {

/// A per-edge border style. `Blank` means no border (size 0); every other
/// style occupies one character cell.
#[derive(Debug, Copy, Clone, PartialEq, Eq, Structural)]
pub enum Border {
    Blank,
    Light,
    Heavy,
    Double,
}

impl Default for Border {
    fn default() -> (r: Self)
        ensures
            r == Border::Blank,
    {
        Border::Blank
    }
}

/// The size, in character cells, that a border style occupies.
pub open spec fn border_size(b: Border) -> i32 {
    if b == Border::Blank {
        0
    } else {
        1
    }
}

impl Border {
    /// The width in character cells of an edge drawn with this style.
    pub fn size(&self) -> (r: i32)
        ensures
            r == border_size(*self),
    {
        match self {
            Border::Blank => 0,
            _ => 1,
        }
    }
}

/// How an element participates in layout.
#[derive(Debug, Copy, Clone, PartialEq, Eq, Structural)]
pub enum DisplayKind {
    Inline,
    Block,
    Hidden,
}

/// A property value, as resolved by the stylesheet parser.
#[derive(Debug, PartialEq, Eq, Clone)]
pub enum Value {
    /// An uninterpreted keyword: the raw text of a declaration whose property
    /// name has no typed grammar.
    Keyword(String),
    /// The literal `auto`, from a margin declaration.
    Auto,
    /// An absolute length, in characters.
    AbsoluteLength(i32),
    /// A border style.
    Border(Border),
    /// A display kind.
    Display(DisplayKind),
}

/// The mathematical model of a `Value`: the same shape with the keyword text
/// as a sequence of characters.
pub enum ValueV {
    Keyword(Seq<char>),
    Auto,
    AbsoluteLength(i32),
    Border(Border),
    Display(DisplayKind),
}

impl View for Value {
    type V = ValueV;

    open spec fn view(&self) -> ValueV {
        match self {
            Value::Keyword(s) => ValueV::Keyword(s@),
            Value::Auto => ValueV::Auto,
            Value::AbsoluteLength(l) => ValueV::AbsoluteLength(*l),
            Value::Border(b) => ValueV::Border(*b),
            Value::Display(d) => ValueV::Display(*d),
        }
    }
}

/// The length, in character cells, that a value contributes to layout
/// arithmetic: absolute lengths count themselves, everything else counts zero.
pub open spec fn value_chars(v: ValueV) -> i32 {
    match v {
        ValueV::AbsoluteLength(l) => l,
        _ => 0,
    }
}

impl Value {
    /// The length in character cells this value stands for in layout
    /// arithmetic; zero for everything but an absolute length.
    pub fn to_chars(&self) -> (r: i32)
        ensures
            r == value_chars(self@),
    {
        match self {
            Value::AbsoluteLength(l) => *l,
            _ => 0,
        }
    }
}

/// A selector's match strength: (id present, number of required classes,
/// reserved element-type slot). Compared lexicographically; the third slot is
/// kept at zero for cascade-order compatibility with a grammar that would
/// also rank element-type selectors.
pub type Specificity = (usize, usize, usize);

/// One parsed declaration: a property name and its value.
#[derive(Debug, PartialEq, Eq, Clone)]
pub struct Declaration {
    pub name: String,
    pub value: Value,
}

/// One selector: an optional required id and a list of required classes.
#[derive(Debug, PartialEq, Eq, Clone)]
pub struct Selector {
    pub id: Option<String>,
    pub classes: Vec<String>,
}

/// One rule: its selectors and its declarations, in source order.
#[derive(Debug, PartialEq, Eq, Clone)]
pub struct Rule {
    pub selectors: Vec<Selector>,
    pub declarations: Vec<Declaration>,
}

/// An ordered list of rules; source order is significant for cascade
/// tie-breaks.
#[derive(Debug, PartialEq, Eq, Clone)]
pub struct Stylesheet {
    pub rules: Vec<Rule>,
}

/// The model of a selector's specificity: (id present, required classes,
/// reserved slot).
pub open spec fn selector_specificity(s: Selector) -> Specificity {
    ((if s.id is Some { 1usize } else { 0usize }), s.classes@.len() as usize, 0usize)
}

/// Strict lexicographic order on specificity tuples.
pub open spec fn spec_lt(a: Specificity, b: Specificity) -> bool {
    a.0 < b.0 || (a.0 == b.0 && (a.1 < b.1 || (a.1 == b.1 && a.2 < b.2)))
}

/// Compares two specificity tuples lexicographically.
pub fn specificity_lt(a: &Specificity, b: &Specificity) -> (r: bool)
    ensures
        r == spec_lt(*a, *b),
{
    a.0 < b.0 || (a.0 == b.0 && (a.1 < b.1 || (a.1 == b.1 && a.2 < b.2)))
}

/// Whether the selector model matches the element model: the selector either
/// requires no id or exactly the element's id, and every required class is in
/// the element's class set.
pub open spec fn selector_matches(sel: Selector, e: ElemV) -> bool {
    &&& match sel.id {
        Some(id) => e.id == Some(id@),
        None => true,
    }
    &&& forall|i: int| 0 <= i < sel.classes@.len() ==> e.classes.contains(#[trigger] sel.classes@[i]@)
}

/// Whether the element model carries class `c`.
fn element_has_class(element: &ElementData, c: &String) -> (r: bool)
    ensures
        r == element@.classes.contains(c@),
{
    let n = element.classes.len();
    for j in 0..n
        invariant
            n == element.classes.len(),
            forall|k: int| 0 <= k < j ==> element@.classes[k] != c@,
    {
        if element.classes[j].eq(c) {
            assert(element@.classes[j as int] == c@);
            return true;
        }
    }
    assert(forall|k: int| 0 <= k < element@.classes.len() ==> element@.classes[k] != c@);
    false
}

impl Selector {
    /// The specificity tuple of this selector.
    pub fn specificity(&self) -> (r: Specificity)
        ensures
            r == selector_specificity(*self),
    {
        (
            if self.id.is_some() {
                1
            } else {
                0
            },
            self.classes.len(),
            0,
        )
    }

    /// Whether this selector matches the given element.
    pub fn matches(&self, element: &ElementData) -> (r: bool)
        ensures
            r == selector_matches(*self, element@),
    {
        match &self.id {
            Some(id) => {
                match &element.id {
                    Some(eid) => {
                        if !id.eq(eid) {
                            return false;
                        }
                    },
                    None => {
                        return false;
                    },
                }
            },
            None => {},
        }
        let n = self.classes.len();
        for i in 0..n
            invariant
                n == self.classes.len(),
                forall|k: int| 0 <= k < i ==> element@.classes.contains(#[trigger] self.classes@[k]@),
                match self.id {
                    Some(id) => element@.id == Some(id@),
                    None => true,
                },
        {
            if !element_has_class(element, &self.classes[i]) {
                return false;
            }
        }
        true
    }
}

/// The first selector in the sequence that matches the element, with its
/// specificity.
pub open spec fn first_selector_match(sels: Seq<Selector>, e: ElemV) -> Option<Specificity>
    decreases sels.len(),
{
    if sels.len() == 0 {
        None
    } else if selector_matches(sels[0], e) {
        Some(selector_specificity(sels[0]))
    } else {
        first_selector_match(sels.skip(1), e)
    }
}

/// The specificity under which a rule matches an element: the specificity of
/// the first of its selectors that matches, if any.
pub open spec fn rule_match(r: Rule, e: ElemV) -> Option<Specificity> {
    first_selector_match(r.selectors@, e)
}

impl Rule {
    /// The specificity of the first of this rule's selectors that matches the
    /// element, or `None` when none does.
    pub fn match_rule(&self, element: &ElementData) -> (r: Option<Specificity>)
        ensures
            r == rule_match(*self, element@),
    {
        let n = self.selectors.len();
        proof {
            assert(self.selectors@.skip(0) =~= self.selectors@);
        }
        for i in 0..n
            invariant
                n == self.selectors.len(),
                first_selector_match(self.selectors@, element@) == first_selector_match(
                    self.selectors@.skip(i as int),
                    element@,
                ),
        {
            proof {
                assert(self.selectors@.skip(i as int)[0] == self.selectors@[i as int]);
                assert(self.selectors@.skip(i as int).skip(1) =~= self.selectors@.skip(i + 1));
            }
            if self.selectors[i].matches(element) {
                return Some(self.selectors[i].specificity());
            }
        }
        proof {
            assert(self.selectors@.skip(n as int).len() == 0);
        }
        None
    }
}

/// The matching rules of a stylesheet for an element: for each rule that
/// matches, its match specificity and its index in source order.
pub open spec fn matched_rules(rules: Seq<Rule>, e: ElemV) -> Seq<(Specificity, usize)>
    decreases rules.len(),
{
    if rules.len() == 0 {
        Seq::empty()
    } else {
        match rule_match(rules.last(), e) {
            Some(sp) => matched_rules(rules.drop_last(), e).push((sp, (rules.len() - 1) as usize)),
            None => matched_rules(rules.drop_last(), e),
        }
    }
}

impl Stylesheet {
    /// Every rule of this sheet that matches the element, as pairs of match
    /// specificity and rule index, in source order.
    pub fn matching_rules(&self, element: &ElementData) -> (r: Vec<(Specificity, usize)>)
        ensures
            r@ == matched_rules(self.rules@, element@),
    {
        let mut out: Vec<(Specificity, usize)> = Vec::new();
        let n = self.rules.len();
        for i in 0..n
            invariant
                n == self.rules.len(),
                out@ == matched_rules(self.rules@.take(i as int), element@),
        {
            proof {
                assert(self.rules@.take(i + 1).drop_last() =~= self.rules@.take(i as int));
                assert(self.rules@.take(i + 1).last() == self.rules@[i as int]);
            }
            if let Some(sp) = self.rules[i].match_rule(element) {
                out.push((sp, i));
            }
        }
        proof {
            assert(self.rules@.take(n as int) =~= self.rules@);
        }
        out
    }
}


/// The model of a declaration.
pub struct DeclV {
    pub name: Seq<char>,
    pub value: ValueV,
}

/// The model of a selector.
pub struct SelectorV {
    pub id: Option<Seq<char>>,
    pub classes: Seq<Seq<char>>,
}

/// The model of a rule.
pub struct RuleV {
    pub selectors: Seq<SelectorV>,
    pub declarations: Seq<DeclV>,
}

impl View for Declaration {
    type V = DeclV;

    open spec fn view(&self) -> DeclV {
        DeclV { name: self.name@, value: self.value@ }
    }
}

impl View for Selector {
    type V = SelectorV;

    open spec fn view(&self) -> SelectorV {
        SelectorV {
            id: match self.id {
                Some(s) => Some(s@),
                None => None,
            },
            classes: self.classes.deep_view(),
        }
    }
}

/// The models of a selector list, element by element.
pub open spec fn selectors_view(s: Seq<Selector>) -> Seq<SelectorV> {
    Seq::new(s.len(), |i: int| s[i]@)
}

/// The models of a declaration list, element by element.
pub open spec fn decls_view(s: Seq<Declaration>) -> Seq<DeclV> {
    Seq::new(s.len(), |i: int| s[i]@)
}

impl View for Rule {
    type V = RuleV;

    open spec fn view(&self) -> RuleV {
        RuleV {
            selectors: selectors_view(self.selectors@),
            declarations: decls_view(self.declarations@),
        }
    }
}

/// The models of a rule list, element by element.
pub open spec fn rules_view(s: Seq<Rule>) -> Seq<RuleV> {
    Seq::new(s.len(), |i: int| s[i]@)
}

impl View for Stylesheet {
    type V = Seq<RuleV>;

    open spec fn view(&self) -> Seq<RuleV> {
        rules_view(self.rules@)
    }
}

} // verus!
