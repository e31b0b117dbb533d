//! The content tree: the parsed markup document, made of element and text
//! nodes. Built once by the markup parser and immutable afterward.
use vstd::prelude::*;

pub mod parse;

verus! {

/// One node of the content tree, owning its children.
#[derive(Debug, PartialEq, Eq)]
pub struct Node {
    pub node_data: NodeData,
    pub children: Vec<Node>,
}

/// What a node is: a text run (always a leaf) or an element.
#[derive(Debug, PartialEq, Eq, Clone)]
pub enum NodeData {
    Text(String),
    Element(ElementData),
}

/// The data of an element: an optional id and its class set. The class set
/// always contains the element's own tag name, which substitutes for a
/// first-class type selector.
#[derive(Debug, PartialEq, Eq, Clone)]
pub struct ElementData {
    pub id: Option<String>,
    pub classes: Vec<String>,
}

/// The mathematical model of a content node.
pub enum NodeV {
    Text(Seq<char>),
    Element { id: Option<Seq<char>>, classes: Seq<Seq<char>>, children: Seq<NodeV> },
}

/// The model of an element's data alone.
pub struct ElemV {
    pub id: Option<Seq<char>>,
    pub classes: Seq<Seq<char>>,
}

/// The model of a node's own data.
pub enum NodeDataV {
    Text(Seq<char>),
    Element(ElemV),
}

impl View for NodeData {
    type V = NodeDataV;

    open spec fn view(&self) -> NodeDataV {
        match self {
            NodeData::Text(s) => NodeDataV::Text(s@),
            NodeData::Element(e) => NodeDataV::Element(e@),
        }
    }
}

impl View for ElementData {
    type V = ElemV;

    open spec fn view(&self) -> ElemV {
        ElemV { id: match self.id {
            Some(s) => Some(s@),
            None => None,
        }, classes: self.classes.deep_view() }
    }
}

/// The models of a sequence of nodes, element by element.
pub open spec fn nodes_view(s: Seq<Node>) -> Seq<NodeV>
    decreases s,
{
    if s.len() == 0 {
        Seq::empty()
    } else {
        nodes_view(s.drop_last()).push(s.last()@)
    }
}

impl View for Node {
    type V = NodeV;

    open spec fn view(&self) -> NodeV
        decreases *self,
    {
        match self.node_data {
            NodeData::Text(s) => NodeV::Text(s@),
            NodeData::Element(e) => NodeV::Element {
                id: e@.id,
                classes: e@.classes,
                children: nodes_view(self.children@),
            },
        }
    }
}

/// An element's class set, as a mathematical set of character sequences.
pub open spec fn class_set(classes: Seq<Seq<char>>) -> Set<Seq<char>> {
    classes.to_set()
}

/// Whether the element model `e` carries the class `c`.
pub open spec fn elem_has_class(e: ElemV, c: Seq<char>) -> bool {
    class_set(e.classes).contains(c)
}

impl Node {
    /// A text leaf holding the given string.
    pub fn from(s: String) -> (r: Node)
        ensures
            r.node_data == NodeData::Text(s),
            r.children@.len() == 0,
    {
        Node { children: Vec::new(), node_data: NodeData::Text(s) }
    }

    /// An element node with the given children, id and classes.
    pub fn new(children: Vec<Node>, id: Option<String>, classes: Vec<String>) -> (r: Node)
        ensures
            r.children == children,
            r.node_data == NodeData::Element(ElementData { id, classes }),
    {
        Node { children, node_data: NodeData::Element(ElementData { id, classes }) }
    }

    /// The text of a text node, or `None` for an element.
    pub fn text(&self) -> (r: Option<&str>)
        ensures
            match self.node_data {
                NodeData::Text(_) => r is Some && r->0@ == self@->Text_0,
                NodeData::Element(_) => r is None,
            },
    {
        match self.node_data {
            NodeData::Text(ref s) => Some(s.as_str()),
            NodeData::Element(_) => None,
        }
    }
}

} // verus!
