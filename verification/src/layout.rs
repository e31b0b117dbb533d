//! The layout engine: builds a tree of layout boxes from the style tree and
//! computes box-model geometry in character-cell units.
use vstd::prelude::*;

use crate::content_tree::NodeData;
use crate::content_tree::NodeDataV;
use crate::style::Border;
use crate::style::DisplayKind;
use crate::style::Value;
use crate::style::ValueV;
use crate::style::border_size;
use crate::style::value_chars;
use crate::style_tree::StyledNode;
use crate::style_tree::display_of;
use crate::style_tree::map_lookup;

verus! {

/// A rectangle in character-cell units.
#[derive(Debug, Copy, Clone, PartialEq, Eq, Structural)]
pub struct Rect {
    pub x: i32,
    pub y: i32,
    pub width: i32,
    pub height: i32,
}

/// Per-edge sizes in character-cell units.
#[derive(Debug, Copy, Clone, PartialEq, Eq, Structural)]
pub struct EdgeSizes {
    pub left: i32,
    pub right: i32,
    pub top: i32,
    pub bottom: i32,
}

/// Per-edge border styles.
#[derive(Debug, Copy, Clone, PartialEq, Eq, Structural)]
pub struct Borders {
    pub left: Border,
    pub right: Border,
    pub top: Border,
    pub bottom: Border,
}

/// The geometry of one laid-out box: its border box plus the edge sizes that
/// derive the other three boxes of the box model.
#[derive(Debug, Copy, Clone, PartialEq, Eq, Structural)]
pub struct Dimensions {
    pub border_box: Rect,
    pub padding: EdgeSizes,
    pub border: Borders,
    pub margin: EdgeSizes,
}

impl Default for Rect {
    fn default() -> (r: Self)
        ensures
            r == (Rect { x: 0, y: 0, width: 0, height: 0 }),
    {
        Rect { x: 0, y: 0, width: 0, height: 0 }
    }
}

impl Default for EdgeSizes {
    fn default() -> (r: Self)
        ensures
            r == (EdgeSizes { left: 0, right: 0, top: 0, bottom: 0 }),
    {
        EdgeSizes { left: 0, right: 0, top: 0, bottom: 0 }
    }
}

impl Default for Borders {
    fn default() -> (r: Self)
        ensures
            r == (Borders {
                left: Border::Blank,
                right: Border::Blank,
                top: Border::Blank,
                bottom: Border::Blank,
            }),
    {
        Borders { left: Border::Blank, right: Border::Blank, top: Border::Blank, bottom: Border::Blank }
    }
}

/// All-zero dimensions: the state of a box before layout fills it.
pub open spec fn zero_dimensions() -> Dimensions {
    Dimensions {
        border_box: Rect { x: 0, y: 0, width: 0, height: 0 },
        padding: EdgeSizes { left: 0, right: 0, top: 0, bottom: 0 },
        border: Borders {
            left: Border::Blank,
            right: Border::Blank,
            top: Border::Blank,
            bottom: Border::Blank,
        },
        margin: EdgeSizes { left: 0, right: 0, top: 0, bottom: 0 },
    }
}

impl Default for Dimensions {
    fn default() -> (r: Self)
        ensures
            r == zero_dimensions(),
    {
        Dimensions {
            border_box: Rect { x: 0, y: 0, width: 0, height: 0 },
            padding: EdgeSizes { left: 0, right: 0, top: 0, bottom: 0 },
            border: Borders {
                left: Border::Blank,
                right: Border::Blank,
                top: Border::Blank,
                bottom: Border::Blank,
            },
            margin: EdgeSizes { left: 0, right: 0, top: 0, bottom: 0 },
        }
    }
}

/// A rectangle over unbounded integers, for stating geometry exactly.
pub struct RectV {
    pub x: int,
    pub y: int,
    pub width: int,
    pub height: int,
}

/// Per-edge sizes over unbounded integers.
pub struct EdgesV {
    pub left: int,
    pub right: int,
    pub top: int,
    pub bottom: int,
}

/// The integer model of a rectangle.
pub open spec fn rect_v(r: Rect) -> RectV {
    RectV { x: r.x as int, y: r.y as int, width: r.width as int, height: r.height as int }
}

/// The integer model of edge sizes.
pub open spec fn edges_v(e: EdgeSizes) -> EdgesV {
    EdgesV {
        left: e.left as int,
        right: e.right as int,
        top: e.top as int,
        bottom: e.bottom as int,
    }
}

/// The per-edge sizes a set of border styles occupies.
pub open spec fn border_edges_v(b: Borders) -> EdgesV {
    EdgesV {
        left: border_size(b.left) as int,
        right: border_size(b.right) as int,
        top: border_size(b.top) as int,
        bottom: border_size(b.bottom) as int,
    }
}

/// A rectangle grown outward by edge sizes.
pub open spec fn rect_expanded(r: RectV, e: EdgesV) -> RectV {
    RectV {
        x: r.x - e.left,
        y: r.y - e.top,
        width: r.width + e.left + e.right,
        height: r.height + e.top + e.bottom,
    }
}

/// A rectangle shrunk inward by edge sizes; width and height never go below
/// zero.
pub open spec fn rect_contracted(r: RectV, e: EdgesV) -> RectV {
    RectV {
        x: r.x + e.left,
        y: r.y + e.top,
        width: if r.width - e.left - e.right >= 0 {
            r.width - e.left - e.right
        } else {
            0
        },
        height: if r.height - e.top - e.bottom >= 0 {
            r.height - e.top - e.bottom
        } else {
            0
        },
    }
}

/// The border box of laid-out dimensions.
pub open spec fn border_box_v(d: Dimensions) -> RectV {
    rect_v(d.border_box)
}

/// The margin box: the border box grown by the margins.
pub open spec fn margin_box_v(d: Dimensions) -> RectV {
    rect_expanded(border_box_v(d), edges_v(d.margin))
}

/// The padding box: the border box shrunk by the border sizes.
pub open spec fn padding_box_v(d: Dimensions) -> RectV {
    rect_contracted(border_box_v(d), border_edges_v(d.border))
}

/// The content box: the padding box shrunk by the padding.
pub open spec fn content_box_v(d: Dimensions) -> RectV {
    rect_contracted(padding_box_v(d), edges_v(d.padding))
}

/// Whether an integer rectangle fits the machine representation.
pub open spec fn rect_fits(r: RectV) -> bool {
    &&& i32::MIN <= r.x <= i32::MAX
    &&& i32::MIN <= r.y <= i32::MAX
    &&& i32::MIN <= r.width <= i32::MAX
    &&& i32::MIN <= r.height <= i32::MAX
}

impl Rect {
    /// This rectangle grown outward by the given edge sizes.
    pub fn expanded_by(&self, edges: &EdgeSizes) -> (r: Rect)
        requires
            rect_fits(rect_expanded(rect_v(*self), edges_v(*edges))),
        ensures
            rect_v(r) == rect_expanded(rect_v(*self), edges_v(*edges)),
    {
        Rect {
            x: ((self.x as i64) - (edges.left as i64)) as i32,
            y: ((self.y as i64) - (edges.top as i64)) as i32,
            width: ((self.width as i64) + (edges.left as i64) + (edges.right as i64)) as i32,
            height: ((self.height as i64) + (edges.top as i64) + (edges.bottom as i64)) as i32,
        }
    }

    /// This rectangle shrunk inward by the given edge sizes, never below zero
    /// width or height.
    pub fn contracted_by(&self, edges: &EdgeSizes) -> (r: Rect)
        requires
            rect_fits(rect_contracted(rect_v(*self), edges_v(*edges))),
        ensures
            rect_v(r) == rect_contracted(rect_v(*self), edges_v(*edges)),
    {
        let w: i64 = (self.width as i64) - (edges.left as i64) - (edges.right as i64);
        let h: i64 = (self.height as i64) - (edges.top as i64) - (edges.bottom as i64);
        Rect {
            x: ((self.x as i64) + (edges.left as i64)) as i32,
            y: ((self.y as i64) + (edges.top as i64)) as i32,
            width: if w >= 0 {
                w as i32
            } else {
                0
            },
            height: if h >= 0 {
                h as i32
            } else {
                0
            },
        }
    }
}

impl Borders {
    /// The sizes of the four border edges.
    pub fn sizes(&self) -> (r: EdgeSizes)
        ensures
            edges_v(r) == border_edges_v(*self),
    {
        EdgeSizes {
            left: self.left.size(),
            right: self.right.size(),
            top: self.top.size(),
            bottom: self.bottom.size(),
        }
    }
}

impl Dimensions {
    /// The area covered by the border box plus the margins.
    pub fn margin_box(&self) -> (r: Rect)
        requires
            rect_fits(margin_box_v(*self)),
        ensures
            rect_v(r) == margin_box_v(*self),
    {
        self.border_box.expanded_by(&self.margin)
    }

    /// The area covered by the border box itself.
    pub fn border_box(&self) -> (r: Rect)
        ensures
            rect_v(r) == border_box_v(*self),
    {
        self.border_box
    }

    /// The area covered by the border box minus the border.
    pub fn padding_box(&self) -> (r: Rect)
        requires
            rect_fits(padding_box_v(*self)),
        ensures
            rect_v(r) == padding_box_v(*self),
    {
        self.border_box.contracted_by(&self.border.sizes())
    }

    /// The area covered by the border box minus the border and the padding.
    pub fn content_box(&self) -> (r: Rect)
        requires
            rect_fits(padding_box_v(*self)),
            rect_fits(content_box_v(*self)),
        ensures
            rect_v(r) == content_box_v(*self),
    {
        self.padding_box().contracted_by(&self.padding)
    }
}



/// Why layout cannot proceed: the document root resolves to `display: none`
/// (nothing to render), or a computed coordinate leaves the machine range.
#[derive(Debug, Copy, Clone, PartialEq, Eq, Structural)]
pub enum LayoutError {
    HiddenRoot,
    Overflow,
}

/// A box in the layout tree: its geometry, what it stands for, and its child
/// boxes.
pub struct LayoutBox {
    pub dimensions: Dimensions,
    pub box_type: BoxType,
    pub children: Vec<LayoutBox>,
}

/// What a layout box stands for: an inline or block element with its resolved
/// style, or an anonymous wrapper synthesized to group consecutive inline
/// content under a block parent.
pub enum BoxType {
    InlineNode(StyledNode),
    BlockNode(StyledNode),
    Anonymous,
}

/// The model of the style a box refers to: the node data and the resolved
/// property map.
pub struct StyledV {
    pub node: NodeDataV,
    pub props: Map<Seq<char>, ValueV>,
}

/// The model of a styled node, seen as a style reference.
pub open spec fn styled_v(sn: StyledNode) -> StyledV {
    StyledV { node: sn.node@, props: sn.specified_values@ }
}

/// The style a non-anonymous box refers to.
pub open spec fn style_of(b: LayoutBox) -> StyledV {
    match b.box_type {
        BoxType::InlineNode(sn) => styled_v(sn),
        BoxType::BlockNode(sn) => styled_v(sn),
        BoxType::Anonymous => StyledV {
            node: NodeDataV::Text(Seq::empty()),
            props: Map::empty(),
        },
    }
}

/// The model of what a layout box stands for.
pub enum BoxKindV {
    Inline(StyledV),
    Block(StyledV),
    Anon,
}

/// The model of a layout box.
pub struct BoxV {
    pub dims: Dimensions,
    pub kind: BoxKindV,
    pub children: Seq<BoxV>,
}

/// The models of a sequence of layout boxes, element by element.
pub open spec fn boxes_view(s: Seq<LayoutBox>) -> Seq<BoxV>
    decreases s,
{
    if s.len() == 0 {
        Seq::empty()
    } else {
        boxes_view(s.drop_last()).push(box_view(s.last()))
    }
}

/// The model of a layout box.
pub open spec fn box_view(b: LayoutBox) -> BoxV
    decreases b,
{
    BoxV {
        dims: b.dimensions,
        kind: match b.box_type {
            BoxType::InlineNode(sn) => BoxKindV::Inline(styled_v(sn)),
            BoxType::BlockNode(sn) => BoxKindV::Block(styled_v(sn)),
            BoxType::Anonymous => BoxKindV::Anon,
        },
        children: boxes_view(b.children@),
    }
}

/// `boxes_view` is the element-wise view: same length, each box modelled in
/// place.
pub proof fn lemma_boxes_view(s: Seq<LayoutBox>)
    ensures
        boxes_view(s).len() == s.len(),
        forall|i: int| 0 <= i < s.len() ==> boxes_view(s)[i] == box_view(#[trigger] s[i]),
    decreases s,
{
    if s.len() > 0 {
        lemma_boxes_view(s.drop_last());
        assert forall|i: int| 0 <= i < s.len() implies boxes_view(s)[i] == box_view(
            #[trigger] s[i],
        ) by {
            if i < s.len() - 1 {
                assert(s.drop_last()[i] == s[i]);
            }
        }
    }
}

impl LayoutBox {
    /// A box of the given type, with zeroed geometry and no children.
    pub fn new(box_type: BoxType) -> (r: LayoutBox)
        ensures
            r.dimensions == zero_dimensions(),
            r.children@.len() == 0,
            r.box_type == box_type,
    {
        LayoutBox { dimensions: Dimensions::default(), children: Vec::new(), box_type }
    }

    /// The style this box refers to; only inline and block boxes have one.
    pub fn get_style_node(&self) -> (r: &StyledNode)
        requires
            !(self.box_type is Anonymous),
        ensures
            match self.box_type {
                BoxType::InlineNode(sn) => *r == sn,
                BoxType::BlockNode(sn) => *r == sn,
                BoxType::Anonymous => false,
            },
    {
        match &self.box_type {
            BoxType::Anonymous => unreached(),
            BoxType::InlineNode(s) => s,
            BoxType::BlockNode(s) => s,
        }
    }
}

/// A leaf copy of a styled node: same node data and property map, no
/// children. Layout boxes carry such a copy as their style reference.
fn styled_leaf(sn: &StyledNode) -> (r: StyledNode)
    ensures
        styled_v(r) == styled_v(*sn),
        r.children@.len() == 0,
{
    crate::style_tree::copy_styled_leaf(sn)
}

/// The layout-tree model of a styled node: a block or inline box (by its
/// resolved display) whose children are the boxes of its styled children,
/// with consecutive inline children of a block box grouped under a trailing
/// anonymous box.
pub open spec fn build_v(sn: StyledNode) -> BoxV
    decreases sn,
{
    BoxV {
        dims: zero_dimensions(),
        kind: if display_of(sn) is Block {
            BoxKindV::Block(styled_v(sn))
        } else {
            BoxKindV::Inline(styled_v(sn))
        },
        children: build_children_v(sn.children@, display_of(sn) is Block),
    }
}

/// One step of layout-tree construction: how the box of one more styled child
/// joins the accumulated children of its parent box.
pub open spec fn build_step_v(
    acc: Seq<BoxV>,
    child_box: BoxV,
    child_display: DisplayKind,
    parent_block: bool,
) -> Seq<BoxV> {
    match child_display {
        DisplayKind::Hidden => acc,
        DisplayKind::Block => acc.push(child_box),
        DisplayKind::Inline => if !parent_block {
            acc.push(child_box)
        } else if acc.len() > 0 && acc.last().kind is Anon {
            acc.update(
                acc.len() - 1,
                BoxV {
                    dims: acc.last().dims,
                    kind: BoxKindV::Anon,
                    children: acc.last().children.push(child_box),
                },
            )
        } else {
            acc.push(BoxV { dims: zero_dimensions(), kind: BoxKindV::Anon, children: seq![child_box] })
        },
    }
}

/// The child boxes a sequence of styled children contributes to a parent box.
pub open spec fn build_children_v(kids: Seq<StyledNode>, parent_block: bool) -> Seq<BoxV>
    decreases kids,
{
    if kids.len() == 0 {
        Seq::empty()
    } else {
        build_step_v(
            build_children_v(kids.drop_last(), parent_block),
            build_v(kids.last()),
            display_of(kids.last()),
            parent_block,
        )
    }
}

/// Builds the layout tree for a styled node: display `none` prunes subtrees,
/// and a root that itself resolves to `none` is an error, as there is nothing
/// to render.
pub fn build_layout_tree(styled: &StyledNode) -> (r: Result<LayoutBox, LayoutError>)
    ensures
        r is Err <==> display_of(*styled) is Hidden,
        r matches Err(e) ==> e == LayoutError::HiddenRoot,
        r matches Ok(b) ==> box_view(b) == build_v(*styled),
    decreases *styled,
{
    let parent_block = match styled.display() {
        DisplayKind::Hidden => {
            return Err(LayoutError::HiddenRoot);
        },
        DisplayKind::Inline => false,
        DisplayKind::Block => true,
    };
    let mut children: Vec<LayoutBox> = Vec::new();
    let n = styled.children.len();
    for i in 0..n
        invariant
            n == styled.children.len(),
            parent_block == display_of(*styled) is Block,
            !(display_of(*styled) is Hidden),
            boxes_view(children@) == build_children_v(
                styled.children@.take(i as int),
                parent_block,
            ),
    {
        let ghost acc0 = boxes_view(children@);
        proof {
            assert(styled.children@.take(i + 1).drop_last() =~= styled.children@.take(i as int));
            assert(styled.children@.take(i + 1).last() == styled.children@[i as int]);
        }
        match styled.children[i].display() {
            DisplayKind::Hidden => {},
            DisplayKind::Block => {
                proof {
                    assert(decreases_to!(*styled => styled.children@[i as int]));
                }
                let child_box = match build_layout_tree(&styled.children[i]) {
                    Ok(b) => b,
                    Err(_) => unreached(),
                };
                let ghost cv0 = children@;
                children.push(child_box);
                proof {
                    assert(children@.drop_last() =~= cv0);
                    assert(boxes_view(children@) == acc0.push(box_view(children@.last())));
                }
            },
            DisplayKind::Inline => {
                proof {
                    assert(decreases_to!(*styled => styled.children@[i as int]));
                }
                let child_box = match build_layout_tree(&styled.children[i]) {
                    Ok(b) => b,
                    Err(_) => unreached(),
                };
                if !parent_block {
                    let ghost cv0 = children@;
                    children.push(child_box);
                    proof {
                        assert(children@.drop_last() =~= cv0);
                        assert(boxes_view(children@) == acc0.push(box_view(children@.last())));
                    }
                } else {
                    let reuse_last = children.len() > 0 && matches!(
                        children[children.len() - 1].box_type,
                        BoxType::Anonymous,
                    );
                    let mut anon = if reuse_last {
                        proof {
                            lemma_boxes_view(children@);
                        }
                        match children.pop() {
                            Some(a) => a,
                            None => unreached(),
                        }
                    } else {
                        LayoutBox::new(BoxType::Anonymous)
                    };
                    let ghost cv0 = children@;
                    let ghost anon0 = anon;
                    let ghost av0 = anon.children@;
                    anon.children.push(child_box);
                    proof {
                        assert(anon.children@.drop_last() =~= av0);
                        assert(boxes_view(anon.children@) == boxes_view(av0).push(
                            box_view(anon.children@.last()),
                        ));
                    }
                    children.push(anon);
                    proof {
                        assert(children@.drop_last() =~= cv0);
                        assert(boxes_view(children@) == boxes_view(cv0).push(
                            box_view(children@.last()),
                        ));
                        if reuse_last {
                            assert(acc0.update(
                                acc0.len() - 1,
                                BoxV {
                                    dims: acc0.last().dims,
                                    kind: BoxKindV::Anon,
                                    children: acc0.last().children.push(
                                        build_v(styled.children@[i as int]),
                                    ),
                                },
                            ) =~= boxes_view(children@));
                        }
                    }
                }
            },
        }
    }
    proof {
        assert(styled.children@.take(n as int) =~= styled.children@);
    }
    let leaf = styled_leaf(styled);
    let bt = if parent_block {
        BoxType::BlockNode(leaf)
    } else {
        BoxType::InlineNode(leaf)
    };
    Ok(LayoutBox { dimensions: Dimensions::default(), box_type: bt, children })
}


/// Whether an integer fits the machine's cell-coordinate type.
pub open spec fn fits_i32(v: int) -> bool {
    i32::MIN <= v <= i32::MAX
}

/// Whether a property value means `auto`: the `auto` literal, or the keyword
/// `auto` from a property whose grammar has no `auto` of its own.
pub open spec fn is_auto(v: ValueV) -> bool {
    match v {
        ValueV::Auto => true,
        ValueV::Keyword(s) => s == "auto"@,
        _ => false,
    }
}

/// The border style a value names, defaulting to no border.
pub open spec fn border_of(v: ValueV) -> Border {
    match v {
        ValueV::Border(b) => b,
        _ => Border::Blank,
    }
}

/// The resolved horizontal components of a block box, in character cells.
pub struct WidthSolution {
    pub width: int,
    pub margin_left: int,
    pub margin_right: int,
    pub border_left: Border,
    pub border_right: Border,
    pub padding_left: int,
    pub padding_right: int,
}

/// Resolves the horizontal components of a block box against the containing
/// block's content width `cbw`, in this priority: a non-auto width whose total
/// already exceeds `cbw` forces auto margins to zero; exactly one auto margin
/// absorbs the whole underflow; with nothing auto the right margin absorbs it
/// and may go negative; an auto width zeroes auto margins and takes the
/// underflow, or, when the underflow is negative, becomes zero and pushes the
/// loss into the right margin; two auto margins split the underflow exactly.
pub open spec fn resolve_width(sv: StyledV, cbw: int) -> WidthSolution {
    let zero = ValueV::AbsoluteLength(0);
    let w0 = if sv.props.contains_key("width"@) {
        sv.props["width"@]
    } else {
        ValueV::Auto
    };
    let ml0 = map_lookup(sv.props, "margin-left"@, "margin"@, ValueV::Auto);
    let mr0 = map_lookup(sv.props, "margin-right"@, "margin"@, ValueV::Auto);
    let bl = border_of(
        map_lookup(sv.props, "border-left"@, "border"@, ValueV::Border(Border::Blank)),
    );
    let br = border_of(
        map_lookup(sv.props, "border-right"@, "border"@, ValueV::Border(Border::Blank)),
    );
    let pl = value_chars(map_lookup(sv.props, "padding-left"@, "padding"@, zero)) as int;
    let pr = value_chars(map_lookup(sv.props, "padding-right"@, "padding"@, zero)) as int;
    let total = value_chars(ml0) + value_chars(mr0) + value_chars(w0) + border_size(bl)
        + border_size(br) + pl + pr;
    let squeeze = !is_auto(w0) && total > cbw;
    let ml1 = if squeeze && is_auto(ml0) {
        ValueV::AbsoluteLength(0)
    } else {
        ml0
    };
    let mr1 = if squeeze && is_auto(mr0) {
        ValueV::AbsoluteLength(0)
    } else {
        mr0
    };
    let underflow = cbw - total;
    let base = WidthSolution {
        width: value_chars(w0) as int,
        margin_left: value_chars(ml1) as int,
        margin_right: value_chars(mr1) as int,
        border_left: bl,
        border_right: br,
        padding_left: pl,
        padding_right: pr,
    };
    if !is_auto(w0) {
        if !is_auto(ml1) && !is_auto(mr1) {
            WidthSolution { margin_right: base.margin_right + underflow, ..base }
        } else if !is_auto(ml1) && is_auto(mr1) {
            WidthSolution { margin_right: underflow, ..base }
        } else if is_auto(ml1) && !is_auto(mr1) {
            WidthSolution { margin_left: underflow, ..base }
        } else {
            let l = underflow / 2;
            WidthSolution { margin_left: l, margin_right: underflow - l, ..base }
        }
    } else {
        let ml2: int = if is_auto(ml1) {
            0
        } else {
            base.margin_left
        };
        let mr2: int = if is_auto(mr1) {
            0
        } else {
            base.margin_right
        };
        if underflow >= 0 {
            WidthSolution { width: underflow, margin_left: ml2, margin_right: mr2, ..base }
        } else {
            WidthSolution {
                width: 0,
                margin_left: ml2,
                margin_right: mr2 + underflow,
                ..base
            }
        }
    }
}

/// The width-resolution step of block layout, applied to stored dimensions:
/// fails when a resolved component leaves the machine range.
pub open spec fn sp_block_width(sv: StyledV, cb: Dimensions, d: Dimensions) -> Option<Dimensions> {
    let ws = resolve_width(sv, content_box_v(cb).width);
    if fits_i32(ws.width) && fits_i32(ws.margin_left) && fits_i32(ws.margin_right) {
        Some(
            Dimensions {
                border_box: Rect {
                    x: d.border_box.x,
                    y: d.border_box.y,
                    width: ws.width as i32,
                    height: d.border_box.height,
                },
                padding: EdgeSizes {
                    left: ws.padding_left as i32,
                    right: ws.padding_right as i32,
                    top: d.padding.top,
                    bottom: d.padding.bottom,
                },
                border: Borders {
                    left: ws.border_left,
                    right: ws.border_right,
                    top: d.border.top,
                    bottom: d.border.bottom,
                },
                margin: EdgeSizes {
                    left: ws.margin_left as i32,
                    right: ws.margin_right as i32,
                    top: d.margin.top,
                    bottom: d.margin.bottom,
                },
            },
        )
    } else {
        None
    }
}

/// The position step of block layout: vertical edges resolve (auto vertical
/// margins count zero), the height starts as the vertical padding, and the
/// border box lands at the containing block's content origin offset by the
/// left margin, stacked below all content already laid out there.
pub open spec fn sp_block_position(sv: StyledV, cb: Dimensions, d: Dimensions) -> Option<
    Dimensions,
> {
    let zero = ValueV::AbsoluteLength(0);
    let mt = value_chars(map_lookup(sv.props, "margin-top"@, "margin"@, zero)) as int;
    let mb = value_chars(map_lookup(sv.props, "margin-bottom"@, "margin"@, zero)) as int;
    let bt = border_of(map_lookup(sv.props, "border-top"@, "border"@, ValueV::Border(Border::Blank)));
    let bb = border_of(
        map_lookup(sv.props, "border-bottom"@, "border"@, ValueV::Border(Border::Blank)),
    );
    let pt = value_chars(map_lookup(sv.props, "padding-top"@, "padding"@, zero)) as int;
    let pb = value_chars(map_lookup(sv.props, "padding-bottom"@, "padding"@, zero)) as int;
    let h = pt + pb;
    let x = content_box_v(cb).x + d.margin.left;
    let y = content_box_v(cb).y + content_box_v(cb).height + mt;
    if fits_i32(h) && fits_i32(x) && fits_i32(y) {
        Some(
            Dimensions {
                border_box: Rect {
                    x: x as i32,
                    y: y as i32,
                    width: d.border_box.width,
                    height: h as i32,
                },
                padding: EdgeSizes {
                    left: d.padding.left,
                    right: d.padding.right,
                    top: pt as i32,
                    bottom: pb as i32,
                },
                border: Borders {
                    left: d.border.left,
                    right: d.border.right,
                    top: bt,
                    bottom: bb,
                },
                margin: EdgeSizes {
                    left: d.margin.left,
                    right: d.margin.right,
                    top: mt as i32,
                    bottom: mb as i32,
                },
            },
        )
    } else {
        None
    }
}

/// The height step of block layout: an explicit `height` declaration
/// overrides the accumulated children height.
pub open spec fn sp_block_height(sv: StyledV, d: Dimensions) -> Dimensions {
    if sv.props.contains_key("height"@) && sv.props["height"@] is AbsoluteLength {
        Dimensions {
            border_box: Rect {
                x: d.border_box.x,
                y: d.border_box.y,
                width: d.border_box.width,
                height: sv.props["height"@]->AbsoluteLength_0,
            },
            padding: d.padding,
            border: d.border,
            margin: d.margin,
        }
    } else {
        d
    }
}

/// Lays out each child of a block box in order against the box's own
/// dimensions, accumulating the box's height by each child's margin-box
/// height so later children stack below earlier ones.
pub open spec fn sp_block_children(children: Seq<BoxV>, d: Dimensions) -> Option<
    (Seq<BoxV>, Dimensions),
>
    decreases children,
{
    if children.len() == 0 {
        Some((Seq::empty(), d))
    } else {
        match sp_block_children(children.drop_last(), d) {
            Option::None => None,
            Option::Some((acc, d1)) => match layout_v(children.last(), d1) {
                Option::None => None,
                Option::Some(c) => {
                    let h = d1.border_box.height + margin_box_v(c.dims).height;
                    if fits_i32(h) {
                        Some(
                            (
                                acc.push(c),
                                Dimensions {
                                    border_box: Rect {
                                        x: d1.border_box.x,
                                        y: d1.border_box.y,
                                        width: d1.border_box.width,
                                        height: h as i32,
                                    },
                                    padding: d1.padding,
                                    border: d1.border,
                                    margin: d1.margin,
                                },
                            ),
                        )
                    } else {
                        None
                    }
                },
            },
        }
    }
}

/// The position step of inline layout: horizontal edges resolve with default
/// zero, the height is one row, the width starts as the horizontal padding,
/// and the box lands at the containing block's content origin offset by the
/// left margin, below the content already laid out there.
pub open spec fn sp_inline_position(sv: StyledV, cb: Dimensions, d: Dimensions) -> Option<
    Dimensions,
> {
    let zero = ValueV::AbsoluteLength(0);
    let ml = value_chars(map_lookup(sv.props, "margin-left"@, "margin"@, zero));
    let mr = value_chars(map_lookup(sv.props, "margin-right"@, "margin"@, zero));
    let pl = value_chars(map_lookup(sv.props, "padding-left"@, "padding"@, zero));
    let pr = value_chars(map_lookup(sv.props, "padding-right"@, "padding"@, zero));
    let w = pl as int + pr as int;
    let x = content_box_v(cb).x + ml as int;
    let y = content_box_v(cb).y + content_box_v(cb).height;
    if fits_i32(w) && fits_i32(x) && fits_i32(y) {
        Some(
            Dimensions {
                border_box: Rect { x: x as i32, y: y as i32, width: w as i32, height: 1 },
                padding: EdgeSizes {
                    left: pl,
                    right: pr,
                    top: d.padding.top,
                    bottom: d.padding.bottom,
                },
                border: d.border,
                margin: EdgeSizes {
                    left: ml,
                    right: mr,
                    top: d.margin.top,
                    bottom: d.margin.bottom,
                },
            },
        )
    } else {
        None
    }
}

/// Lays out each inline child immediately to the right of the previous one:
/// `ls` is the remaining space, whose origin moves right by each child's
/// margin-box width, while the owner's width grows by the same amount.
pub open spec fn sp_inline_children(children: Seq<BoxV>, ls: Dimensions, d: Dimensions) -> Option<
    (Seq<BoxV>, Dimensions, Dimensions),
>
    decreases children,
{
    if children.len() == 0 {
        Some((Seq::empty(), ls, d))
    } else {
        match sp_inline_children(children.drop_last(), ls, d) {
            Option::None => None,
            Option::Some((acc, ls1, d1)) => match layout_v(children.last(), ls1) {
                Option::None => None,
                Option::Some(c) => {
                    let w = margin_box_v(c.dims).width;
                    let x = ls1.border_box.x + w;
                    let dw = d1.border_box.width + w;
                    if fits_i32(x) && fits_i32(dw) {
                        Some(
                            (
                                acc.push(c),
                                Dimensions {
                                    border_box: Rect {
                                        x: x as i32,
                                        y: ls1.border_box.y,
                                        width: ls1.border_box.width,
                                        height: ls1.border_box.height,
                                    },
                                    padding: ls1.padding,
                                    border: ls1.border,
                                    margin: ls1.margin,
                                },
                                Dimensions {
                                    border_box: Rect {
                                        x: d1.border_box.x,
                                        y: d1.border_box.y,
                                        width: dw as i32,
                                        height: d1.border_box.height,
                                    },
                                    padding: d1.padding,
                                    border: d1.border,
                                    margin: d1.margin,
                                },
                            ),
                        )
                    } else {
                        None
                    }
                },
            },
        }
    }
}

/// The width step of inline layout: a text leaf adds its character count to
/// the width accumulated from its children.
pub open spec fn sp_inline_width(sv: StyledV, d: Dimensions) -> Option<Dimensions> {
    match sv.node {
        NodeDataV::Text(t) => if t.len() <= i32::MAX {
            let w = d.border_box.width + t.len();
            if fits_i32(w) {
                Some(
                    Dimensions {
                        border_box: Rect {
                            x: d.border_box.x,
                            y: d.border_box.y,
                            width: w as i32,
                            height: d.border_box.height,
                        },
                        padding: d.padding,
                        border: d.border,
                        margin: d.margin,
                    },
                )
            } else {
                None
            }
        } else {
            None
        },
        NodeDataV::Element(_) => Some(d),
    }
}

/// Lays out a box inside the given containing block: block boxes run block
/// layout, inline boxes inline layout, and anonymous boxes adopt the
/// containing block's dimensions and lay out their inline children. The
/// result is `None` exactly when some computed coordinate leaves the machine
/// range.
pub open spec fn layout_v(bv: BoxV, cb: Dimensions) -> Option<BoxV>
    decreases bv,
{
    match bv.kind {
        BoxKindV::Block(sv) => {
            match sp_block_width(sv, cb, bv.dims) {
                Option::None => None,
                Option::Some(d1) => match sp_block_position(sv, cb, d1) {
                    Option::None => None,
                    Option::Some(d2) => match sp_block_children(bv.children, d2) {
                        Option::None => None,
                        Option::Some((kids, d3)) => Some(
                            BoxV { dims: sp_block_height(sv, d3), kind: bv.kind, children: kids },
                        ),
                    },
                },
            }
        },
        BoxKindV::Inline(sv) => {
            match sp_inline_position(sv, cb, bv.dims) {
                Option::None => None,
                Option::Some(d1) => match sp_inline_children(bv.children, d1, d1) {
                    Option::None => None,
                    Option::Some((kids, ls2, d2)) => match sp_inline_width(sv, d2) {
                        Option::None => None,
                        Option::Some(d3) => Some(
                            BoxV { dims: d3, kind: bv.kind, children: kids },
                        ),
                    },
                },
            }
        },
        BoxKindV::Anon => {
            match sp_inline_children(bv.children, cb, cb) {
                Option::None => None,
                Option::Some((kids, ls2, d2)) => Some(
                    BoxV { dims: d2, kind: BoxKindV::Anon, children: kids },
                ),
            }
        },
    }
}


/// Narrows a computed coordinate to the cell-coordinate type, or reports the
/// overflow.
fn to_i32(v: i64) -> (r: Result<i32, LayoutError>)
    ensures
        r is Ok <==> fits_i32(v as int),
        r matches Ok(x) ==> x as int == v as int,
        r matches Err(e) ==> e == LayoutError::Overflow,
{
    if v >= (i32::MIN as i64) && v <= (i32::MAX as i64) {
        Ok(v as i32)
    } else {
        Err(LayoutError::Overflow)
    }
}

/// Whether a value means `auto`.
fn value_is_auto(v: &Value) -> (r: bool)
    ensures
        r == is_auto(v@),
{
    match v {
        Value::Auto => true,
        Value::Keyword(s) => {
            let a = String::from_str("auto");
            s.eq(&a)
        },
        _ => false,
    }
}

/// The border style a value names, defaulting to no border.
fn border_of_value(v: &Value) -> (r: Border)
    ensures
        r == border_of(v@),
{
    match v {
        Value::Border(b) => *b,
        _ => Border::Blank,
    }
}

/// The content box of arbitrary dimensions, computed in a wide type so no
/// intermediate overflows.
fn content_parts(d: &Dimensions) -> (r: (i64, i64, i64, i64))
    ensures
        r.0 as int == content_box_v(*d).x,
        r.1 as int == content_box_v(*d).y,
        r.2 as int == content_box_v(*d).width,
        r.3 as int == content_box_v(*d).height,
{
    let bl = d.border.left.size() as i64;
    let br = d.border.right.size() as i64;
    let bt = d.border.top.size() as i64;
    let bb = d.border.bottom.size() as i64;
    let pw0 = (d.border_box.width as i64) - bl - br;
    let pw = if pw0 >= 0 {
        pw0
    } else {
        0
    };
    let ph0 = (d.border_box.height as i64) - bt - bb;
    let ph = if ph0 >= 0 {
        ph0
    } else {
        0
    };
    let cw0 = pw - (d.padding.left as i64) - (d.padding.right as i64);
    let cw = if cw0 >= 0 {
        cw0
    } else {
        0
    };
    let ch0 = ph - (d.padding.top as i64) - (d.padding.bottom as i64);
    let ch = if ch0 >= 0 {
        ch0
    } else {
        0
    };
    let cx = (d.border_box.x as i64) + bl + (d.padding.left as i64);
    let cy = (d.border_box.y as i64) + bt + (d.padding.top as i64);
    (cx, cy, cw, ch)
}

/// A failure while laying out any prefix of the children fails the whole
/// child sequence.
proof fn lemma_block_children_none(s: Seq<BoxV>, d: Dimensions, k: int)
    requires
        0 <= k <= s.len(),
        sp_block_children(s.take(k), d) is None,
    ensures
        sp_block_children(s, d) is None,
    decreases s.len() - k,
{
    if k < s.len() {
        assert(s.take(k + 1).drop_last() =~= s.take(k));
        assert(sp_block_children(s.take(k + 1), d) is None);
        lemma_block_children_none(s, d, k + 1);
    } else {
        assert(s.take(k) =~= s);
    }
}

/// A failure while laying out any prefix of the inline children fails the
/// whole child sequence.
proof fn lemma_inline_children_none(s: Seq<BoxV>, ls: Dimensions, d: Dimensions, k: int)
    requires
        0 <= k <= s.len(),
        sp_inline_children(s.take(k), ls, d) is None,
    ensures
        sp_inline_children(s, ls, d) is None,
    decreases s.len() - k,
{
    if k < s.len() {
        assert(s.take(k + 1).drop_last() =~= s.take(k));
        assert(sp_inline_children(s.take(k + 1), ls, d) is None);
        lemma_inline_children_none(s, ls, d, k + 1);
    } else {
        assert(s.take(k) =~= s);
    }
}

impl LayoutBox {
    /// Lays this box out inside the given containing block, returning the
    /// laid-out tree; fails exactly when a computed coordinate leaves the
    /// machine range.
    pub fn layout(&self, containing_block: &Dimensions) -> (r: Result<LayoutBox, LayoutError>)
        ensures
            match r {
                Ok(b) => layout_v(box_view(*self), *containing_block) == Some(box_view(b)),
                Err(e) => layout_v(box_view(*self), *containing_block) is None && e
                    == LayoutError::Overflow,
            },
        decreases *self, 2int,
    {
        match &self.box_type {
            BoxType::BlockNode(_) => self.layout_block(containing_block),
            BoxType::InlineNode(_) => self.layout_inline(containing_block),
            BoxType::Anonymous => {
                let d = *containing_block;
                match self.layout_inline_children(d, d) {
                    Ok((kids, _ls, d2)) => Ok(
                        LayoutBox { dimensions: d2, box_type: BoxType::Anonymous, children: kids },
                    ),
                    Err(e) => Err(e),
                }
            },
        }
    }

    /// Block layout: width, then position, then children, then height.
    fn layout_block(&self, containing_block: &Dimensions) -> (r: Result<LayoutBox, LayoutError>)
        requires
            self.box_type is BlockNode,
        ensures
            match r {
                Ok(b) => layout_v(box_view(*self), *containing_block) == Some(box_view(b)),
                Err(e) => layout_v(box_view(*self), *containing_block) is None && e
                    == LayoutError::Overflow,
            },
        decreases *self, 1int,
    {
        let d1 = match self.calculate_block_width(containing_block, self.dimensions) {
            Ok(d) => d,
            Err(e) => {
                return Err(e);
            },
        };
        let d2 = match self.calculate_block_position(containing_block, d1) {
            Ok(d) => d,
            Err(e) => {
                return Err(e);
            },
        };
        let (kids, d3) = match self.layout_block_children(d2) {
            Ok(p) => p,
            Err(e) => {
                return Err(e);
            },
        };
        let d4 = self.calculate_block_height(d3);
        let leaf = styled_leaf(self.get_style_node());
        Ok(LayoutBox { dimensions: d4, box_type: BoxType::BlockNode(leaf), children: kids })
    }

    /// Width resolution for a block box (the first step of block layout).
    #[verifier::rlimit(100)]
    fn calculate_block_width(&self, containing_block: &Dimensions, d: Dimensions) -> (r: Result<
        Dimensions,
        LayoutError,
    >)
        requires
            !(self.box_type is Anonymous),
        ensures
            match r {
                Ok(d2) => sp_block_width(style_of(*self), *containing_block, d) == Some(d2),
                Err(e) => sp_block_width(style_of(*self), *containing_block, d) is None && e
                    == LayoutError::Overflow,
            },
    {
        let style = self.get_style_node();
        let width_v = match style.value("width") {
            Some(v) => v,
            None => Value::Auto,
        };
        let ml_v = style.lookup("margin-left", "margin", &Value::Auto);
        let mr_v = style.lookup("margin-right", "margin", &Value::Auto);
        let bl = border_of_value(&style.lookup("border-left", "border", &Value::Border(Border::Blank)));
        let br = border_of_value(
            &style.lookup("border-right", "border", &Value::Border(Border::Blank)),
        );
        let pl = style.lookup("padding-left", "padding", &Value::AbsoluteLength(0)).to_chars();
        let pr = style.lookup("padding-right", "padding", &Value::AbsoluteLength(0)).to_chars();
        let total: i64 = (ml_v.to_chars() as i64) + (mr_v.to_chars() as i64) + (width_v.to_chars()
            as i64) + (bl.size() as i64) + (br.size() as i64) + (pl as i64) + (pr as i64);
        let parts = content_parts(containing_block);
        let cw = parts.2;
        let w_auto = value_is_auto(&width_v);
        let squeeze = !w_auto && total > cw;
        let ml_auto = value_is_auto(&ml_v) && !squeeze;
        let mr_auto = value_is_auto(&mr_v) && !squeeze;
        let underflow: i64 = cw - total;
        let w0: i64 = width_v.to_chars() as i64;
        let ml0: i64 = ml_v.to_chars() as i64;
        let mr0: i64 = mr_v.to_chars() as i64;
        let (w1, ml1, mr1): (i64, i64, i64) = if !w_auto {
            if !ml_auto && !mr_auto {
                (w0, ml0, mr0 + underflow)
            } else if !ml_auto && mr_auto {
                (w0, ml0, underflow)
            } else if ml_auto && !mr_auto {
                (w0, underflow, mr0)
            } else {
                let l = underflow / 2;
                (w0, l, underflow - l)
            }
        } else {
            let mla: i64 = if ml_auto {
                0
            } else {
                ml0
            };
            let mra: i64 = if mr_auto {
                0
            } else {
                mr0
            };
            if underflow >= 0 {
                (underflow, mla, mra)
            } else {
                (0, mla, mra + underflow)
            }
        };
        let w_f = match to_i32(w1) {
            Ok(v) => v,
            Err(e) => {
                return Err(e);
            },
        };
        let ml_f = match to_i32(ml1) {
            Ok(v) => v,
            Err(e) => {
                return Err(e);
            },
        };
        let mr_f = match to_i32(mr1) {
            Ok(v) => v,
            Err(e) => {
                return Err(e);
            },
        };
        Ok(
            Dimensions {
                border_box: Rect {
                    x: d.border_box.x,
                    y: d.border_box.y,
                    width: w_f,
                    height: d.border_box.height,
                },
                padding: EdgeSizes {
                    left: pl,
                    right: pr,
                    top: d.padding.top,
                    bottom: d.padding.bottom,
                },
                border: Borders { left: bl, right: br, top: d.border.top, bottom: d.border.bottom },
                margin: EdgeSizes {
                    left: ml_f,
                    right: mr_f,
                    top: d.margin.top,
                    bottom: d.margin.bottom,
                },
            },
        )
    }

    /// Position resolution for a block box (the second step of block layout).
    fn calculate_block_position(&self, containing_block: &Dimensions, d: Dimensions) -> (r: Result<
        Dimensions,
        LayoutError,
    >)
        requires
            !(self.box_type is Anonymous),
        ensures
            match r {
                Ok(d2) => sp_block_position(style_of(*self), *containing_block, d) == Some(d2),
                Err(e) => sp_block_position(style_of(*self), *containing_block, d) is None && e
                    == LayoutError::Overflow,
            },
    {
        let style = self.get_style_node();
        let mt = style.lookup("margin-top", "margin", &Value::AbsoluteLength(0)).to_chars();
        let mb = style.lookup("margin-bottom", "margin", &Value::AbsoluteLength(0)).to_chars();
        let bt = border_of_value(&style.lookup("border-top", "border", &Value::Border(Border::Blank)));
        let bb = border_of_value(
            &style.lookup("border-bottom", "border", &Value::Border(Border::Blank)),
        );
        let pt = style.lookup("padding-top", "padding", &Value::AbsoluteLength(0)).to_chars();
        let pb = style.lookup("padding-bottom", "padding", &Value::AbsoluteLength(0)).to_chars();
        let parts = content_parts(containing_block);
        let h = match to_i32((pt as i64) + (pb as i64)) {
            Ok(v) => v,
            Err(e) => {
                return Err(e);
            },
        };
        let x = match to_i32(parts.0 + (d.margin.left as i64)) {
            Ok(v) => v,
            Err(e) => {
                return Err(e);
            },
        };
        let y = match to_i32(parts.1 + parts.3 + (mt as i64)) {
            Ok(v) => v,
            Err(e) => {
                return Err(e);
            },
        };
        Ok(
            Dimensions {
                border_box: Rect { x, y, width: d.border_box.width, height: h },
                padding: EdgeSizes {
                    left: d.padding.left,
                    right: d.padding.right,
                    top: pt,
                    bottom: pb,
                },
                border: Borders { left: d.border.left, right: d.border.right, top: bt, bottom: bb },
                margin: EdgeSizes {
                    left: d.margin.left,
                    right: d.margin.right,
                    top: mt,
                    bottom: mb,
                },
            },
        )
    }

    /// Lays out the children of a block box in order, accumulating this box's
    /// height so each child stacks below the previous content.
    fn layout_block_children(&self, d: Dimensions) -> (r: Result<
        (Vec<LayoutBox>, Dimensions),
        LayoutError,
    >)
        ensures
            match r {
                Ok(p) => sp_block_children(boxes_view(self.children@), d) == Some(
                    (boxes_view(p.0@), p.1),
                ),
                Err(e) => sp_block_children(boxes_view(self.children@), d) is None && e
                    == LayoutError::Overflow,
            },
        decreases *self, 0int,
    {
        let ghost vs = boxes_view(self.children@);
        proof {
            lemma_boxes_view(self.children@);
            assert(vs.take(0) =~= Seq::<BoxV>::empty());
        }
        let mut out: Vec<LayoutBox> = Vec::new();
        let mut cur = d;
        let n = self.children.len();
        for i in 0..n
            invariant
                n == self.children.len(),
                vs == boxes_view(self.children@),
                vs.len() == n,
                forall|k: int| 0 <= k < n ==> vs[k] == box_view(#[trigger] self.children@[k]),
                sp_block_children(vs.take(i as int), d) == Some((boxes_view(out@), cur)),
        {
            proof {
                assert(vs.take(i + 1).drop_last() =~= vs.take(i as int));
                assert(vs.take(i + 1).last() == vs[i as int]);
                assert(decreases_to!(*self => self.children@[i as int]));
            }
            let child = match self.children[i].layout(&cur) {
                Ok(c) => c,
                Err(e) => {
                    proof {
                        assert(sp_block_children(vs.take(i + 1), d) is None);
                        lemma_block_children_none(vs, d, i + 1);
                    }
                    return Err(e);
                },
            };
            let mh: i64 = (child.dimensions.border_box.height as i64) + (child.dimensions.margin.top
                as i64) + (child.dimensions.margin.bottom as i64);
            let h = match to_i32((cur.border_box.height as i64) + mh) {
                Ok(v) => v,
                Err(e) => {
                    proof {
                        assert(sp_block_children(vs.take(i + 1), d) is None);
                        lemma_block_children_none(vs, d, i + 1);
                    }
                    return Err(e);
                },
            };
            let ghost out0 = out@;
            out.push(child);
            cur = Dimensions {
                border_box: Rect {
                    x: cur.border_box.x,
                    y: cur.border_box.y,
                    width: cur.border_box.width,
                    height: h,
                },
                padding: cur.padding,
                border: cur.border,
                margin: cur.margin,
            };
            proof {
                assert(out@.drop_last() =~= out0);
                assert(boxes_view(out@) == boxes_view(out0).push(box_view(out@.last())));
            }
        }
        proof {
            assert(vs.take(n as int) =~= vs);
        }
        Ok((out, cur))
    }

    /// The height step of block layout: an explicit `height` declaration
    /// overrides the accumulated value.
    fn calculate_block_height(&self, d: Dimensions) -> (r: Dimensions)
        requires
            !(self.box_type is Anonymous),
        ensures
            r == sp_block_height(style_of(*self), d),
    {
        let style = self.get_style_node();
        match style.value("height") {
            Some(Value::AbsoluteLength(h)) => Dimensions {
                border_box: Rect {
                    x: d.border_box.x,
                    y: d.border_box.y,
                    width: d.border_box.width,
                    height: h,
                },
                padding: d.padding,
                border: d.border,
                margin: d.margin,
            },
            _ => d,
        }
    }

    /// Inline layout: position, then children, then the text width.
    fn layout_inline(&self, containing_block: &Dimensions) -> (r: Result<LayoutBox, LayoutError>)
        requires
            self.box_type is InlineNode,
        ensures
            match r {
                Ok(b) => layout_v(box_view(*self), *containing_block) == Some(box_view(b)),
                Err(e) => layout_v(box_view(*self), *containing_block) is None && e
                    == LayoutError::Overflow,
            },
        decreases *self, 1int,
    {
        let d1 = match self.calculate_inline_position(containing_block, self.dimensions) {
            Ok(d) => d,
            Err(e) => {
                return Err(e);
            },
        };
        let (kids, _ls, d2) = match self.layout_inline_children(d1, d1) {
            Ok(p) => p,
            Err(e) => {
                return Err(e);
            },
        };
        let d3 = match self.calculate_inline_width(d2) {
            Ok(d) => d,
            Err(e) => {
                return Err(e);
            },
        };
        let leaf = styled_leaf(self.get_style_node());
        Ok(LayoutBox { dimensions: d3, box_type: BoxType::InlineNode(leaf), children: kids })
    }

    /// Position resolution for an inline box: one row high, starting as wide
    /// as its horizontal padding, placed below the content already laid out
    /// in the containing block.
    fn calculate_inline_position(&self, containing_block: &Dimensions, d: Dimensions) -> (r: Result<
        Dimensions,
        LayoutError,
    >)
        requires
            !(self.box_type is Anonymous),
        ensures
            match r {
                Ok(d2) => sp_inline_position(style_of(*self), *containing_block, d) == Some(d2),
                Err(e) => sp_inline_position(style_of(*self), *containing_block, d) is None && e
                    == LayoutError::Overflow,
            },
    {
        let style = self.get_style_node();
        let ml = style.lookup("margin-left", "margin", &Value::AbsoluteLength(0)).to_chars();
        let mr = style.lookup("margin-right", "margin", &Value::AbsoluteLength(0)).to_chars();
        let pl = style.lookup("padding-left", "padding", &Value::AbsoluteLength(0)).to_chars();
        let pr = style.lookup("padding-right", "padding", &Value::AbsoluteLength(0)).to_chars();
        let parts = content_parts(containing_block);
        let w = match to_i32((pl as i64) + (pr as i64)) {
            Ok(v) => v,
            Err(e) => {
                return Err(e);
            },
        };
        let x = match to_i32(parts.0 + (ml as i64)) {
            Ok(v) => v,
            Err(e) => {
                return Err(e);
            },
        };
        let y = match to_i32(parts.1 + parts.3) {
            Ok(v) => v,
            Err(e) => {
                return Err(e);
            },
        };
        Ok(
            Dimensions {
                border_box: Rect { x, y, width: w, height: 1 },
                padding: EdgeSizes {
                    left: pl,
                    right: pr,
                    top: d.padding.top,
                    bottom: d.padding.bottom,
                },
                border: d.border,
                margin: EdgeSizes {
                    left: ml,
                    right: mr,
                    top: d.margin.top,
                    bottom: d.margin.bottom,
                },
            },
        )
    }

    /// Lays out each inline child immediately to the right of the previous
    /// one, growing this box's width by each child's margin-box width.
    fn layout_inline_children(&self, ls: Dimensions, d: Dimensions) -> (r: Result<
        (Vec<LayoutBox>, Dimensions, Dimensions),
        LayoutError,
    >)
        ensures
            match r {
                Ok(p) => sp_inline_children(boxes_view(self.children@), ls, d) == Some(
                    (boxes_view(p.0@), p.1, p.2),
                ),
                Err(e) => sp_inline_children(boxes_view(self.children@), ls, d) is None && e
                    == LayoutError::Overflow,
            },
        decreases *self, 0int,
    {
        let ghost vs = boxes_view(self.children@);
        proof {
            lemma_boxes_view(self.children@);
            assert(vs.take(0) =~= Seq::<BoxV>::empty());
        }
        let mut out: Vec<LayoutBox> = Vec::new();
        let mut left_space = ls;
        let mut cur = d;
        let n = self.children.len();
        for i in 0..n
            invariant
                n == self.children.len(),
                vs == boxes_view(self.children@),
                vs.len() == n,
                forall|k: int| 0 <= k < n ==> vs[k] == box_view(#[trigger] self.children@[k]),
                sp_inline_children(vs.take(i as int), ls, d) == Some(
                    (boxes_view(out@), left_space, cur),
                ),
        {
            proof {
                assert(vs.take(i + 1).drop_last() =~= vs.take(i as int));
                assert(vs.take(i + 1).last() == vs[i as int]);
                assert(decreases_to!(*self => self.children@[i as int]));
            }
            let child = match self.children[i].layout(&left_space) {
                Ok(c) => c,
                Err(e) => {
                    proof {
                        assert(sp_inline_children(vs.take(i + 1), ls, d) is None);
                        lemma_inline_children_none(vs, ls, d, i + 1);
                    }
                    return Err(e);
                },
            };
            let mw: i64 = (child.dimensions.border_box.width as i64) + (child.dimensions.margin.left
                as i64) + (child.dimensions.margin.right as i64);
            let xw = to_i32((left_space.border_box.x as i64) + mw);
            let dw = to_i32((cur.border_box.width as i64) + mw);
            let (x2, w2) = match (xw, dw) {
                (Ok(a), Ok(b)) => (a, b),
                _ => {
                    proof {
                        assert(sp_inline_children(vs.take(i + 1), ls, d) is None);
                        lemma_inline_children_none(vs, ls, d, i + 1);
                    }
                    return Err(LayoutError::Overflow);
                },
            };
            let ghost out0 = out@;
            out.push(child);
            left_space = Dimensions {
                border_box: Rect {
                    x: x2,
                    y: left_space.border_box.y,
                    width: left_space.border_box.width,
                    height: left_space.border_box.height,
                },
                padding: left_space.padding,
                border: left_space.border,
                margin: left_space.margin,
            };
            cur = Dimensions {
                border_box: Rect {
                    x: cur.border_box.x,
                    y: cur.border_box.y,
                    width: w2,
                    height: cur.border_box.height,
                },
                padding: cur.padding,
                border: cur.border,
                margin: cur.margin,
            };
            proof {
                assert(out@.drop_last() =~= out0);
                assert(boxes_view(out@) == boxes_view(out0).push(box_view(out@.last())));
            }
        }
        proof {
            assert(vs.take(n as int) =~= vs);
        }
        Ok((out, left_space, cur))
    }

    /// The width step of inline layout: a text leaf contributes its character
    /// count.
    fn calculate_inline_width(&self, d: Dimensions) -> (r: Result<Dimensions, LayoutError>)
        requires
            !(self.box_type is Anonymous),
        ensures
            match r {
                Ok(d2) => sp_inline_width(style_of(*self), d) == Some(d2),
                Err(e) => sp_inline_width(style_of(*self), d) is None && e == LayoutError::Overflow,
            },
    {
        let style = self.get_style_node();
        match &style.node {
            NodeData::Text(s) => {
                let len = s.as_str().unicode_len();
                if len > (i32::MAX as usize) {
                    return Err(LayoutError::Overflow);
                }
                let w = match to_i32((d.border_box.width as i64) + (len as i64)) {
                    Ok(v) => v,
                    Err(e) => {
                        return Err(e);
                    },
                };
                Ok(
                    Dimensions {
                        border_box: Rect {
                            x: d.border_box.x,
                            y: d.border_box.y,
                            width: w,
                            height: d.border_box.height,
                        },
                        padding: d.padding,
                        border: d.border,
                        margin: d.margin,
                    },
                )
            },
            NodeData::Element(_) => Ok(d),
        }
    }
}


/// Whether every cell of rectangle `a` lies in rectangle `b` (an empty
/// rectangle lies in anything).
pub open spec fn rect_inside(a: RectV, b: RectV) -> bool {
    a.width <= 0 || a.height <= 0 || (b.x <= a.x && a.x + a.width <= b.x + b.width && b.y <= a.y
        && a.y + a.height <= b.y + b.height)
}

/// The width-resolution equation: the resolved horizontal components of a
/// block box sum exactly to the containing block's content width, with no
/// rounding loss — in the over-constrained case the right margin absorbs the
/// difference and may be negative.
pub proof fn lemma_width_equation(sv: StyledV, cbw: int)
    ensures
        ({
            let ws = resolve_width(sv, cbw);
            ws.margin_left + border_size(ws.border_left) + ws.padding_left + ws.width
                + ws.padding_right + border_size(ws.border_right) + ws.margin_right == cbw
        }),
{
}

/// The box-model nesting law: with nonnegative margins and padding, the
/// content box lies in the padding box, the padding box in the border box,
/// and the border box in the margin box; each is the previous one offset
/// exactly by its own edge sizes, with no rounding drift, whenever the
/// contractions do not bottom out at zero.
pub proof fn lemma_box_nesting(d: Dimensions)
    requires
        d.margin.left >= 0,
        d.margin.right >= 0,
        d.margin.top >= 0,
        d.margin.bottom >= 0,
        d.padding.left >= 0,
        d.padding.right >= 0,
        d.padding.top >= 0,
        d.padding.bottom >= 0,
    ensures
        rect_inside(border_box_v(d), margin_box_v(d)),
        rect_inside(padding_box_v(d), border_box_v(d)),
        rect_inside(content_box_v(d), padding_box_v(d)),
        margin_box_v(d) == rect_expanded(border_box_v(d), edges_v(d.margin)),
        padding_box_v(d).x == border_box_v(d).x + border_edges_v(d.border).left,
        padding_box_v(d).y == border_box_v(d).y + border_edges_v(d.border).top,
        border_box_v(d).width - border_edges_v(d.border).left - border_edges_v(d.border).right >= 0
            ==> padding_box_v(d).width == border_box_v(d).width - border_edges_v(d.border).left
            - border_edges_v(d.border).right,
        border_box_v(d).height - border_edges_v(d.border).top - border_edges_v(d.border).bottom
            >= 0 ==> padding_box_v(d).height == border_box_v(d).height - border_edges_v(
            d.border,
        ).top - border_edges_v(d.border).bottom,
        content_box_v(d).x == padding_box_v(d).x + d.padding.left,
        content_box_v(d).y == padding_box_v(d).y + d.padding.top,
        padding_box_v(d).width - d.padding.left - d.padding.right >= 0 ==> content_box_v(d).width
            == padding_box_v(d).width - d.padding.left - d.padding.right,
        padding_box_v(d).height - d.padding.top - d.padding.bottom >= 0 ==> content_box_v(d).height
            == padding_box_v(d).height - d.padding.top - d.padding.bottom,
{
}

/// Laying out the children of a block box changes only its accumulated
/// height; position, width and edges stay as the position step left them.
pub proof fn lemma_block_children_frame(children: Seq<BoxV>, d: Dimensions)
    ensures
        sp_block_children(children, d) matches Some(p) ==> p.1 == (Dimensions {
            border_box: Rect {
                x: d.border_box.x,
                y: d.border_box.y,
                width: d.border_box.width,
                height: p.1.border_box.height,
            },
            padding: d.padding,
            border: d.border,
            margin: d.margin,
        }),
    decreases children,
{
    if children.len() > 0 {
        lemma_block_children_frame(children.drop_last(), d);
    }
}

/// The sibling non-overlap law. Let `a` and `b` be block boxes laid out as
/// consecutive children of the same parent: `a` against the parent's
/// dimensions `d`, and `b` against `d` grown by `a`'s margin-box height. When
/// `b`'s resolved margin-top is at least `a`'s, and the parent's content
/// height does not bottom out at zero at either step, `b`'s border box starts
/// at or below `a`'s border box plus `a`'s margin-box height.
pub proof fn lemma_sibling_stacking(a: BoxV, b: BoxV, d: Dimensions, d2: Dimensions)
    requires
        a.kind is Block,
        b.kind is Block,
        layout_v(a, d) is Some,
        ({
            let la = layout_v(a, d)->0;
            &&& fits_i32(d.border_box.height + margin_box_v(la.dims).height)
            &&& d2 == (Dimensions {
                border_box: Rect {
                    x: d.border_box.x,
                    y: d.border_box.y,
                    width: d.border_box.width,
                    height: (d.border_box.height + margin_box_v(la.dims).height) as i32,
                },
                padding: d.padding,
                border: d.border,
                margin: d.margin,
            })
        }),
        layout_v(b, d2) is Some,
        value_chars(map_lookup(style_v_of(b).props, "margin-top"@, "margin"@, ValueV::AbsoluteLength(0)))
            >= value_chars(
            map_lookup(style_v_of(a).props, "margin-top"@, "margin"@, ValueV::AbsoluteLength(0)),
        ),
        border_box_v(d).height - border_edges_v(d.border).top - border_edges_v(d.border).bottom
            >= 0,
        border_box_v(d).height - border_edges_v(d.border).top - border_edges_v(d.border).bottom
            - d.padding.top - d.padding.bottom >= 0,
        border_box_v(d2).height - border_edges_v(d2.border).top - border_edges_v(d2.border).bottom
            >= 0,
        border_box_v(d2).height - border_edges_v(d2.border).top - border_edges_v(d2.border).bottom
            - d2.padding.top - d2.padding.bottom >= 0,
    ensures
        ({
            let la = layout_v(a, d)->0;
            let lb = layout_v(b, d2)->0;
            border_box_v(lb.dims).y >= border_box_v(la.dims).y + margin_box_v(la.dims).height
        }),
{
    let sva = style_v_of(a);
    let svb = style_v_of(b);
    let la = layout_v(a, d)->0;
    let lb = layout_v(b, d2)->0;
    let d1a = sp_block_width(sva, d, a.dims)->0;
    let dpa = sp_block_position(sva, d, d1a)->0;
    let mta = value_chars(map_lookup(sva.props, "margin-top"@, "margin"@, ValueV::AbsoluteLength(0)));
    lemma_block_children_frame(a.children, dpa);
    assert(la.dims.border_box.y == dpa.border_box.y);
    assert(la.dims.margin == dpa.margin);
    assert(dpa.border_box.y == content_box_v(d).y + content_box_v(d).height + mta);
    let d1b = sp_block_width(svb, d2, b.dims)->0;
    let dpb = sp_block_position(svb, d2, d1b)->0;
    let mtb = value_chars(map_lookup(svb.props, "margin-top"@, "margin"@, ValueV::AbsoluteLength(0)));
    lemma_block_children_frame(b.children, dpb);
    assert(lb.dims.border_box.y == dpb.border_box.y);
    assert(dpb.border_box.y == content_box_v(d2).y + content_box_v(d2).height + mtb);
    assert(content_box_v(d2).y == content_box_v(d).y);
    assert(content_box_v(d2).height == content_box_v(d).height + margin_box_v(la.dims).height);
    assert(margin_box_v(la.dims).height == la.dims.border_box.height + la.dims.margin.top
        + la.dims.margin.bottom);
}

/// The style a block or inline box refers to (anonymous boxes have none).
pub open spec fn style_v_of(b: BoxV) -> StyledV {
    match b.kind {
        BoxKindV::Inline(sv) => sv,
        BoxKindV::Block(sv) => sv,
        BoxKindV::Anon => StyledV { node: NodeDataV::Text(Seq::empty()), props: Map::empty() },
    }
}

} // verus!
