//! The display painter: turns a laid-out box tree into an ordered list of
//! paint commands, and paints them onto a character-grid canvas.
use vstd::prelude::*;

use crate::layout::BoxV;
use crate::layout::Borders;
use crate::layout::LayoutBox;
use crate::layout::LayoutError;
use crate::layout::Rect;
use crate::layout::box_view;
use crate::layout::boxes_view;
use crate::layout::content_box_v;
use crate::layout::lemma_boxes_view;
use crate::layout::rect_fits;
use crate::style::Border;

verus! {

/// One paint command: fill a rectangle with a glyph, or draw a border around
/// a rectangle with per-edge styles.
pub enum DisplayCommand {
    FilledBox(Rect, char),
    BorderBox(Rect, Borders),
}

/// The ordered list of paint commands derived from a layout tree.
pub type DisplayList = Vec<DisplayCommand>;

/// The glyph used to fill the content of the `i`-th box painted: a fixed
/// sixteen-glyph palette cycled by the traversal counter, purely to tell
/// adjacent boxes apart.
pub open spec fn palette(i: nat) -> char {
    let k = i % 16;
    if k == 0 {
        '\u{1FB20}'
    } else if k == 1 {
        '\u{1FB21}'
    } else if k == 2 {
        '\u{1FB22}'
    } else if k == 3 {
        '\u{1FB23}'
    } else if k == 4 {
        '\u{1FB24}'
    } else if k == 5 {
        '\u{1FB25}'
    } else if k == 6 {
        '\u{1FB26}'
    } else if k == 7 {
        '\u{1FB27}'
    } else if k == 8 {
        '\u{1FB28}'
    } else if k == 9 {
        '\u{1FB29}'
    } else if k == 10 {
        '\u{1FB2A}'
    } else if k == 11 {
        '\u{1FB2B}'
    } else if k == 12 {
        '\u{1FB2C}'
    } else if k == 13 {
        '\u{1FB2D}'
    } else if k == 14 {
        '\u{1FB2E}'
    } else {
        '\u{1FB2F}'
    }
}

/// The glyph for the `i`-th painted box.
fn palette_char(i: usize) -> (c: char)
    ensures
        c == palette(i as nat),
{
    let k = i % 16;
    if k == 0 {
        '\u{1FB20}'
    } else if k == 1 {
        '\u{1FB21}'
    } else if k == 2 {
        '\u{1FB22}'
    } else if k == 3 {
        '\u{1FB23}'
    } else if k == 4 {
        '\u{1FB24}'
    } else if k == 5 {
        '\u{1FB25}'
    } else if k == 6 {
        '\u{1FB26}'
    } else if k == 7 {
        '\u{1FB27}'
    } else if k == 8 {
        '\u{1FB28}'
    } else if k == 9 {
        '\u{1FB29}'
    } else if k == 10 {
        '\u{1FB2A}'
    } else if k == 11 {
        '\u{1FB2B}'
    } else if k == 12 {
        '\u{1FB2C}'
    } else if k == 13 {
        '\u{1FB2D}'
    } else if k == 14 {
        '\u{1FB2E}'
    } else {
        '\u{1FB2F}'
    }
}

/// How many boxes a rendered tree paints.
pub open spec fn box_count(b: BoxV) -> nat
    decreases b,
{
    1 + boxes_count(b.children)
}

/// How many boxes a forest paints.
pub open spec fn boxes_count(s: Seq<BoxV>) -> nat
    decreases s,
{
    if s.len() == 0 {
        0nat
    } else {
        boxes_count(s.drop_last()) + box_count(s.last())
    }
}

/// The commands a box emits when it is the `idx`-th box painted: a fill of
/// its content rectangle, its border, then its children in order. `None`
/// exactly when some content rectangle leaves the machine range.
pub open spec fn render_box(b: BoxV, idx: nat) -> Option<Seq<DisplayCommand>>
    decreases b,
{
    if rect_fits(content_box_v(b.dims)) {
        let cb = content_box_v(b.dims);
        let own = seq![
            DisplayCommand::FilledBox(
                Rect {
                    x: cb.x as i32,
                    y: cb.y as i32,
                    width: cb.width as i32,
                    height: cb.height as i32,
                },
                palette(idx),
            ),
            DisplayCommand::BorderBox(b.dims.border_box, b.dims.border),
        ];
        match render_boxes(b.children, idx + 1) {
            Option::None => None,
            Option::Some(cs) => Some(own + cs),
        }
    } else {
        None
    }
}

/// The commands a forest emits, each tree numbered after the boxes of the
/// trees before it.
pub open spec fn render_boxes(s: Seq<BoxV>, idx: nat) -> Option<Seq<DisplayCommand>>
    decreases s,
{
    if s.len() == 0 {
        Some(Seq::empty())
    } else {
        match render_boxes(s.drop_last(), idx) {
            Option::None => None,
            Option::Some(cs) => match render_box(s.last(), idx + boxes_count(s.drop_last())) {
                Option::None => None,
                Option::Some(cb) => Some(cs + cb),
            },
        }
    }
}

/// Emits the paint commands of one box and its subtree. `counter` is the
/// traversal counter modulo the palette size; the ghost `idx` is the
/// unreduced counter.
#[verifier::rlimit(100)]
fn render_layout_box(
    list: &mut Vec<DisplayCommand>,
    layout_box: &LayoutBox,
    counter: usize,
    Ghost(idx): Ghost<nat>,
) -> (r: Result<usize, LayoutError>)
    requires
        counter == idx % 16,
    ensures
        match r {
            Ok(c2) => {
                &&& render_box(box_view(*layout_box), idx) is Some
                &&& final(list)@ == old(list)@ + render_box(box_view(*layout_box), idx)->0
                &&& c2 == (idx + box_count(box_view(*layout_box))) % 16
            },
            Err(e) => render_box(box_view(*layout_box), idx) is None && e == LayoutError::Overflow,
        },
    decreases *layout_box,
{
    let d = &layout_box.dimensions;
    let bl = d.border.left.size() as i64;
    let bt = d.border.top.size() as i64;
    let pw0 = (d.border_box.width as i64) - bl - (d.border.right.size() as i64);
    let pw = if pw0 >= 0 {
        pw0
    } else {
        0
    };
    let ph0 = (d.border_box.height as i64) - bt - (d.border.bottom.size() as i64);
    let ph = if ph0 >= 0 {
        ph0
    } else {
        0
    };
    let cw0 = pw - (d.padding.left as i64) - (d.padding.right as i64);
    let cw = if cw0 >= 0 {
        cw0
    } else {
        0
    };
    let ch0 = ph - (d.padding.top as i64) - (d.padding.bottom as i64);
    let ch = if ch0 >= 0 {
        ch0
    } else {
        0
    };
    let cx = (d.border_box.x as i64) + bl + (d.padding.left as i64);
    let cy = (d.border_box.y as i64) + bt + (d.padding.top as i64);
    let lo = i32::MIN as i64;
    let hi = i32::MAX as i64;
    if !(cx >= lo && cx <= hi && cy >= lo && cy <= hi && cw >= lo && cw <= hi && ch >= lo && ch
        <= hi) {
        return Err(LayoutError::Overflow);
    }
    proof {
        assert(cx as int == content_box_v(*d).x);
        assert(cy as int == content_box_v(*d).y);
        assert(cw as int == content_box_v(*d).width);
        assert(ch as int == content_box_v(*d).height);
        assert(rect_fits(content_box_v(*d)));
    }
    let bg = palette_char(counter);
    let ghost own = seq![
        DisplayCommand::FilledBox(
            Rect { x: cx as i32, y: cy as i32, width: cw as i32, height: ch as i32 },
            bg,
        ),
        DisplayCommand::BorderBox(d.border_box, d.border),
    ];
    list.push(
        DisplayCommand::FilledBox(
            Rect { x: cx as i32, y: cy as i32, width: cw as i32, height: ch as i32 },
            bg,
        ),
    );
    list.push(DisplayCommand::BorderBox(d.border_box, d.border));
    let mut counter2 = if counter >= 15 {
        0
    } else {
        counter + 1
    };
    let ghost vs = boxes_view(layout_box.children@);
    let ghost base = list@;
    let ghost idx0 = idx + 1;
    proof {
        lemma_boxes_view(layout_box.children@);
        assert(vs.take(0) =~= Seq::<BoxV>::empty());
        assert(counter2 == idx0 % 16);
        assert(base =~= old(list)@ + own);
    }
    let n = layout_box.children.len();
    for i in 0..n
        invariant
            n == layout_box.children.len(),
            vs == boxes_view(layout_box.children@),
            vs.len() == n,
            forall|k: int| 0 <= k < n ==> vs[k] == box_view(#[trigger] layout_box.children@[k]),
            idx0 == idx + 1,
            render_boxes(vs.take(i as int), idx0) is Some,
            list@ == base + render_boxes(vs.take(i as int), idx0)->0,
            counter2 == (idx0 + boxes_count(vs.take(i as int))) % 16,
            counter2 < 16,
    {
        proof {
            assert(vs.take(i + 1).drop_last() =~= vs.take(i as int));
            assert(vs.take(i + 1).last() == vs[i as int]);
            assert(decreases_to!(*layout_box => layout_box.children@[i as int]));
        }
        let ghost child_idx = idx0 + boxes_count(vs.take(i as int));
        match render_layout_box(list, &layout_box.children[i], counter2, Ghost(child_idx)) {
            Ok(c) => {
                counter2 = c;
            },
            Err(e) => {
                proof {
                    assert(render_boxes(vs.take(i + 1), idx0) is None);
                    lemma_render_boxes_none(vs, idx0, i + 1);
                }
                return Err(e);
            },
        }
    }
    proof {
        assert(vs.take(n as int) =~= vs);
        assert(render_box(box_view(*layout_box), idx) is Some);
        assert(render_box(box_view(*layout_box), idx)->0 == own + render_boxes(vs, idx0)->0);
        assert(list@ =~= old(list)@ + render_box(box_view(*layout_box), idx)->0);
        assert(box_count(box_view(*layout_box)) == 1 + boxes_count(vs));
    }
    Ok(counter2)
}

/// A failure while rendering any prefix of a forest fails the whole forest.
proof fn lemma_render_boxes_none(s: Seq<BoxV>, idx: nat, k: int)
    requires
        0 <= k <= s.len(),
        render_boxes(s.take(k), idx) is None,
    ensures
        render_boxes(s, idx) is None,
    decreases s.len() - k,
{
    if k < s.len() {
        assert(s.take(k + 1).drop_last() =~= s.take(k));
        assert(render_boxes(s.take(k + 1), idx) is None);
        lemma_render_boxes_none(s, idx, k + 1);
    } else {
        assert(s.take(k) =~= s);
    }
}

/// Derives the ordered paint commands of a laid-out tree: a pre-order walk
/// where each box fills its content rectangle with the next palette glyph and
/// then draws its border. Fails exactly when a content rectangle leaves the
/// machine range.
pub fn build_display_list(layout_root: &LayoutBox) -> (r: Result<DisplayList, LayoutError>)
    ensures
        match r {
            Ok(list) => render_box(box_view(*layout_root), 0) == Some(list@),
            Err(e) => render_box(box_view(*layout_root), 0) is None && e == LayoutError::Overflow,
        },
{
    let mut list: Vec<DisplayCommand> = Vec::new();
    match render_layout_box(&mut list, layout_root, 0, Ghost(0nat)) {
        Ok(_) => {
            proof {
                assert(list@ =~= Seq::<DisplayCommand>::empty() + render_box(
                    box_view(*layout_root),
                    0,
                )->0);
            }
            Ok(list)
        },
        Err(e) => Err(e),
    }
}


/// Writes one glyph at (row `y`, column `x`) when that cell exists; a write
/// outside the grid is discarded.
pub open spec fn put(g: Seq<Seq<char>>, y: int, x: int, c: char) -> Seq<Seq<char>> {
    if 0 <= y < g.len() && 0 <= x < g[y].len() {
        g.update(y, g[y].update(x, c))
    } else {
        g
    }
}

/// Writes a glyph across row `y` from column `x0` up to (excluding) `x1`.
pub open spec fn hspan(g: Seq<Seq<char>>, y: int, x0: int, x1: int, c: char) -> Seq<Seq<char>>
    decreases x1 - x0,
{
    if x0 >= x1 {
        g
    } else {
        hspan(put(g, y, x0, c), y, x0 + 1, x1, c)
    }
}

/// Writes a glyph down column `x` from row `y0` up to (excluding) `y1`.
pub open spec fn vspan(g: Seq<Seq<char>>, x: int, y0: int, y1: int, c: char) -> Seq<Seq<char>>
    decreases y1 - y0,
{
    if y0 >= y1 {
        g
    } else {
        vspan(put(g, y0, x, c), x, y0 + 1, y1, c)
    }
}

/// Fills the rectangle of rows `y0..y1` and columns `x0..x1` with a glyph.
pub open spec fn fill_rows(
    g: Seq<Seq<char>>,
    x0: int,
    x1: int,
    y0: int,
    y1: int,
    c: char,
) -> Seq<Seq<char>>
    decreases y1 - y0,
{
    if y0 >= y1 {
        g
    } else {
        fill_rows(hspan(g, y0, x0, x1, c), x0, x1, y0 + 1, y1, c)
    }
}

/// Writes a glyph when there is one.
pub open spec fn put_opt(g: Seq<Seq<char>>, y: int, x: int, oc: Option<char>) -> Seq<Seq<char>> {
    match oc {
        Option::Some(c) => put(g, y, x, c),
        Option::None => g,
    }
}

/// Clamps a coordinate into `[0, n)`; `n - 1` stands in for anything beyond.
pub open spec fn clamp(v: int, n: int) -> int {
    if v < 0 {
        0
    } else if v >= n {
        n - 1
    } else {
        v
    }
}

/// The glyph of a horizontal border edge.
pub open spec fn h_glyph(b: Border) -> Option<char> {
    match b {
        Border::Blank => None,
        Border::Light => Some('\u{2500}'),
        Border::Heavy => Some('\u{2501}'),
        Border::Double => Some('\u{2550}'),
    }
}

/// The glyph of a vertical border edge.
pub open spec fn v_glyph(b: Border) -> Option<char> {
    match b {
        Border::Blank => None,
        Border::Light => Some('\u{2502}'),
        Border::Heavy => Some('\u{2503}'),
        Border::Double => Some('\u{2551}'),
    }
}

/// The top-left corner glyph for the adjacent edge styles; where the two
/// styles have no precise joint glyph, the visually closest one stands in.
pub open spec fn corner_tl(left: Border, top: Border) -> Option<char> {
    match (left, top) {
        (Border::Blank, _) => h_glyph(top),
        (_, Border::Blank) => v_glyph(left),
        (Border::Light, Border::Light) => Some('\u{250C}'),
        (Border::Heavy, Border::Light) => Some('\u{250E}'),
        (Border::Light, Border::Heavy) => Some('\u{250D}'),
        (Border::Heavy, Border::Heavy) => Some('\u{250F}'),
        (Border::Double, Border::Double) => Some('\u{2554}'),
        (Border::Double, _) => Some('\u{2553}'),
        (_, Border::Double) => Some('\u{2552}'),
    }
}

/// The top-right corner glyph.
pub open spec fn corner_tr(right: Border, top: Border) -> Option<char> {
    match (right, top) {
        (Border::Blank, _) => h_glyph(top),
        (_, Border::Blank) => v_glyph(right),
        (Border::Light, Border::Light) => Some('\u{2510}'),
        (Border::Heavy, Border::Light) => Some('\u{2512}'),
        (Border::Light, Border::Heavy) => Some('\u{2511}'),
        (Border::Heavy, Border::Heavy) => Some('\u{2513}'),
        (Border::Double, Border::Double) => Some('\u{2557}'),
        (Border::Double, _) => Some('\u{2556}'),
        (_, Border::Double) => Some('\u{2555}'),
    }
}

/// The bottom-left corner glyph.
pub open spec fn corner_bl(left: Border, bottom: Border) -> Option<char> {
    match (left, bottom) {
        (Border::Blank, _) => h_glyph(bottom),
        (_, Border::Blank) => v_glyph(left),
        (Border::Light, Border::Light) => Some('\u{2514}'),
        (Border::Heavy, Border::Light) => Some('\u{2516}'),
        (Border::Light, Border::Heavy) => Some('\u{2515}'),
        (Border::Heavy, Border::Heavy) => Some('\u{2517}'),
        (Border::Double, Border::Double) => Some('\u{255A}'),
        (Border::Double, _) => Some('\u{2559}'),
        (_, Border::Double) => Some('\u{2558}'),
    }
}

/// The bottom-right corner glyph.
pub open spec fn corner_br(right: Border, bottom: Border) -> Option<char> {
    match (right, bottom) {
        (Border::Blank, _) => h_glyph(bottom),
        (_, Border::Blank) => v_glyph(right),
        (Border::Light, Border::Light) => Some('\u{2518}'),
        (Border::Heavy, Border::Light) => Some('\u{251A}'),
        (Border::Light, Border::Heavy) => Some('\u{2519}'),
        (Border::Heavy, Border::Heavy) => Some('\u{251B}'),
        (Border::Double, Border::Double) => Some('\u{255D}'),
        (Border::Double, _) => Some('\u{255C}'),
        (_, Border::Double) => Some('\u{255B}'),
    }
}

/// The grid after filling a command's rectangle, clamped to the canvas.
pub open spec fn paint_filled(
    g: Seq<Seq<char>>,
    w: int,
    h: int,
    rect: Rect,
    bg: char,
) -> Seq<Seq<char>> {
    let x0 = clamp(rect.x as int, w);
    let x1 = clamp(rect.x as int + rect.width as int, w);
    let y0 = clamp(rect.y as int, h);
    let y1 = clamp(rect.y as int + rect.height as int, h);
    fill_rows(g, x0, x1, y0, y1, bg)
}

/// The grid after drawing a command's border: the four edges along the
/// clamped rectangle's rim, then the four corners over them.
pub open spec fn paint_border(
    g: Seq<Seq<char>>,
    w: int,
    h: int,
    rect: Rect,
    b: Borders,
) -> Seq<Seq<char>> {
    let x0 = clamp(rect.x as int, w);
    let x1 = clamp(rect.x as int + rect.width as int, w);
    let y0 = clamp(rect.y as int, h);
    let y1 = clamp(rect.y as int + rect.height as int, h);
    let g1 = match h_glyph(b.top) {
        Option::Some(c) => hspan(g, y0, x0 + 1, x1 - 1, c),
        Option::None => g,
    };
    let g2 = match h_glyph(b.bottom) {
        Option::Some(c) => hspan(g1, y1 - 1, x0 + 1, x1 - 1, c),
        Option::None => g1,
    };
    let g3 = match v_glyph(b.left) {
        Option::Some(c) => vspan(g2, x0, y0 + 1, y1 - 1, c),
        Option::None => g2,
    };
    let g4 = match v_glyph(b.right) {
        Option::Some(c) => vspan(g3, x1 - 1, y0 + 1, y1 - 1, c),
        Option::None => g3,
    };
    let g5 = put_opt(g4, y0, x0, corner_tl(b.left, b.top));
    let g6 = put_opt(g5, y0, x1 - 1, corner_tr(b.right, b.top));
    let g7 = put_opt(g6, y1 - 1, x0, corner_bl(b.left, b.bottom));
    put_opt(g7, y1 - 1, x1 - 1, corner_br(b.right, b.bottom))
}

/// The grid after one paint command.
pub open spec fn paint_cmd(g: Seq<Seq<char>>, w: int, h: int, cmd: DisplayCommand) -> Seq<
    Seq<char>,
> {
    match cmd {
        DisplayCommand::FilledBox(rect, bg) => paint_filled(g, w, h, rect, bg),
        DisplayCommand::BorderBox(rect, b) => paint_border(g, w, h, rect, b),
    }
}

/// The grid after a whole display list, applied in order.
pub open spec fn paint_list(
    g: Seq<Seq<char>>,
    w: int,
    h: int,
    cmds: Seq<DisplayCommand>,
) -> Seq<Seq<char>>
    decreases cmds,
{
    if cmds.len() == 0 {
        g
    } else {
        paint_cmd(paint_list(g, w, h, cmds.drop_last()), w, h, cmds.last())
    }
}

/// The blank grid a fresh canvas starts with.
pub open spec fn blank_grid(w: int, h: int) -> Seq<Seq<char>> {
    Seq::new(h as nat, |y: int| Seq::new(w as nat, |x: int| '\u{22C5}'))
}

/// A character-grid canvas that paint commands draw onto; every target
/// rectangle is clamped to the canvas bounds before writing.
pub struct DebugCanvas {
    width: usize,
    height: usize,
    data: Vec<Vec<char>>,
}

impl View for DebugCanvas {
    type V = Seq<Seq<char>>;

    closed spec fn view(&self) -> Seq<Seq<char>> {
        Seq::new(self.data@.len(), |y: int| self.data@[y]@)
    }
}

impl DebugCanvas {
    /// The canvas width in cells.
    pub closed spec fn spec_width(&self) -> usize {
        self.width
    }

    /// The canvas height in cells.
    pub closed spec fn spec_height(&self) -> usize {
        self.height
    }

    /// The canvas is a full `width` by `height` grid of cells.
    pub open spec fn wf(&self) -> bool {
        &&& self@.len() == self.spec_height()
        &&& (forall|y: int| 0 <= y < self@.len() ==> (#[trigger] self@[y]).len() == self.spec_width())
        &&& self.spec_width() <= i32::MAX
        &&& self.spec_height() <= i32::MAX
    }

    /// The canvas width in cells.
    pub fn width(&self) -> (r: usize)
        ensures
            r == self.spec_width(),
    {
        self.width
    }

    /// The canvas height in cells.
    pub fn height(&self) -> (r: usize)
        ensures
            r == self.spec_height(),
    {
        self.height
    }

    /// The rows of the canvas, top to bottom.
    pub fn rows(&self) -> (r: &Vec<Vec<char>>)
        ensures
            r@.len() == self@.len(),
            forall|y: int| 0 <= y < self@.len() ==> (#[trigger] r@[y])@ == self@[y],
    {
        &self.data
    }

    /// A blank canvas of the given size, every cell a dot.
    pub fn new(width: usize, height: usize) -> (r: DebugCanvas)
        requires
            width <= i32::MAX,
            height <= i32::MAX,
        ensures
            r.wf(),
            r.spec_width() == width,
            r.spec_height() == height,
            r@ == blank_grid(width as int, height as int),
    {
        let mut data: Vec<Vec<char>> = Vec::new();
        for y in 0..height
            invariant
                data@.len() == y,
                forall|k: int|
                    0 <= k < y ==> (#[trigger] data@[k])@ == Seq::new(
                        width as nat,
                        |x: int| '\u{22C5}',
                    ),
        {
            let mut row: Vec<char> = Vec::new();
            for x in 0..width
                invariant
                    row@.len() == x,
                    forall|k: int| 0 <= k < x ==> row@[k] == '\u{22C5}',
            {
                row.push('\u{22C5}');
            }
            proof {
                assert(row@ =~= Seq::new(width as nat, |x: int| '\u{22C5}'));
            }
            data.push(row);
        }
        let r = DebugCanvas { width, height, data };
        proof {
            assert(r@ =~= blank_grid(width as int, height as int));
        }
        r
    }

    /// Writes one glyph, discarding writes that fall outside the canvas.
    fn put_cell(&mut self, y: i64, x: i64, c: char)
        requires
            old(self).wf(),
        ensures
            final(self).wf(),
            final(self).spec_width() == old(self).spec_width(),
            final(self).spec_height() == old(self).spec_height(),
            final(self)@ == put(old(self)@, y as int, x as int, c),
    {
        if y >= 0 && x >= 0 && y < (self.height as i64) && x < (self.width as i64) {
            let yu = y as usize;
            let xu = x as usize;
            proof {
                assert(self@[yu as int].len() == self.spec_width());
            }
            self.data[yu][xu] = c;
            proof {
                assert(self.data@[yu as int]@ == old(self).data@[yu as int]@.update(xu as int, c));
                assert(self.data@ =~= old(self).data@.update(yu as int, self.data@[yu as int]));
                assert(self@ =~= put(old(self)@, y as int, x as int, c));
            }
        } else {
            proof {
                assert(self@ =~= put(old(self)@, y as int, x as int, c));
            }
        }
    }

    /// Writes a glyph across part of a row.
    fn hspan_cells(&mut self, y: i64, x0: i64, x1: i64, c: char)
        requires
            old(self).wf(),
        ensures
            final(self).wf(),
            final(self).spec_width() == old(self).spec_width(),
            final(self).spec_height() == old(self).spec_height(),
            final(self)@ == hspan(old(self)@, y as int, x0 as int, x1 as int, c),
    {
        let mut x = x0;
        while x < x1
            invariant
                self.wf(),
                self.spec_width() == old(self).spec_width(),
                self.spec_height() == old(self).spec_height(),
                x0 <= x || x == x0,
                hspan(old(self)@, y as int, x0 as int, x1 as int, c) == hspan(
                    self@,
                    y as int,
                    x as int,
                    x1 as int,
                    c,
                ),
            decreases x1 - x,
        {
            self.put_cell(y, x, c);
            x = x + 1;
        }
    }

    /// Writes a glyph down part of a column.
    fn vspan_cells(&mut self, x: i64, y0: i64, y1: i64, c: char)
        requires
            old(self).wf(),
        ensures
            final(self).wf(),
            final(self).spec_width() == old(self).spec_width(),
            final(self).spec_height() == old(self).spec_height(),
            final(self)@ == vspan(old(self)@, x as int, y0 as int, y1 as int, c),
    {
        let mut y = y0;
        while y < y1
            invariant
                self.wf(),
                self.spec_width() == old(self).spec_width(),
                self.spec_height() == old(self).spec_height(),
                vspan(old(self)@, x as int, y0 as int, y1 as int, c) == vspan(
                    self@,
                    x as int,
                    y as int,
                    y1 as int,
                    c,
                ),
            decreases y1 - y,
        {
            self.put_cell(y, x, c);
            y = y + 1;
        }
    }

    /// Fills rows `y0..y1`, columns `x0..x1`.
    fn fill_cells(&mut self, x0: i64, x1: i64, y0: i64, y1: i64, c: char)
        requires
            old(self).wf(),
        ensures
            final(self).wf(),
            final(self).spec_width() == old(self).spec_width(),
            final(self).spec_height() == old(self).spec_height(),
            final(self)@ == fill_rows(old(self)@, x0 as int, x1 as int, y0 as int, y1 as int, c),
    {
        let mut y = y0;
        while y < y1
            invariant
                self.wf(),
                self.spec_width() == old(self).spec_width(),
                self.spec_height() == old(self).spec_height(),
                fill_rows(old(self)@, x0 as int, x1 as int, y0 as int, y1 as int, c) == fill_rows(
                    self@,
                    x0 as int,
                    x1 as int,
                    y as int,
                    y1 as int,
                    c,
                ),
            decreases y1 - y,
        {
            self.hspan_cells(y, x0, x1, c);
            y = y + 1;
        }
    }

    /// A coordinate clamped into the canvas columns.
    fn clamp_x(&self, v: i64) -> (r: i64)
        requires
            self.wf(),
        ensures
            r == clamp(v as int, self.spec_width() as int),
    {
        if v < 0 {
            0
        } else if v >= self.width as i64 {
            (self.width as i64) - 1
        } else {
            v
        }
    }

    /// A coordinate clamped into the canvas rows.
    fn clamp_y(&self, v: i64) -> (r: i64)
        requires
            self.wf(),
        ensures
            r == clamp(v as int, self.spec_height() as int),
    {
        if v < 0 {
            0
        } else if v >= self.height as i64 {
            (self.height as i64) - 1
        } else {
            v
        }
    }

    /// Paints one command onto the canvas.
    fn paint_item(&mut self, item: &DisplayCommand)
        requires
            old(self).wf(),
        ensures
            final(self).wf(),
            final(self).spec_width() == old(self).spec_width(),
            final(self).spec_height() == old(self).spec_height(),
            final(self)@ == paint_cmd(
                old(self)@,
                old(self).spec_width() as int,
                old(self).spec_height() as int,
                *item,
            ),
    {
        match item {
            DisplayCommand::FilledBox(rect, bg) => {
                let x0 = self.clamp_x(rect.x as i64);
                let x1 = self.clamp_x((rect.x as i64) + (rect.width as i64));
                let y0 = self.clamp_y(rect.y as i64);
                let y1 = self.clamp_y((rect.y as i64) + (rect.height as i64));
                self.fill_cells(x0, x1, y0, y1, *bg);
            },
            DisplayCommand::BorderBox(rect, borders) => {
                let x0 = self.clamp_x(rect.x as i64);
                let x1 = self.clamp_x((rect.x as i64) + (rect.width as i64));
                let y0 = self.clamp_y(rect.y as i64);
                let y1 = self.clamp_y((rect.y as i64) + (rect.height as i64));
                match border_h_glyph(borders.top) {
                    Some(c) => self.hspan_cells(y0, x0 + 1, x1 - 1, c),
                    None => {},
                }
                match border_h_glyph(borders.bottom) {
                    Some(c) => self.hspan_cells(y1 - 1, x0 + 1, x1 - 1, c),
                    None => {},
                }
                match border_v_glyph(borders.left) {
                    Some(c) => self.vspan_cells(x0, y0 + 1, y1 - 1, c),
                    None => {},
                }
                match border_v_glyph(borders.right) {
                    Some(c) => self.vspan_cells(x1 - 1, y0 + 1, y1 - 1, c),
                    None => {},
                }
                match corner_tl_glyph(borders.left, borders.top) {
                    Some(c) => self.put_cell(y0, x0, c),
                    None => {},
                }
                match corner_tr_glyph(borders.right, borders.top) {
                    Some(c) => self.put_cell(y0, x1 - 1, c),
                    None => {},
                }
                match corner_bl_glyph(borders.left, borders.bottom) {
                    Some(c) => self.put_cell(y1 - 1, x0, c),
                    None => {},
                }
                match corner_br_glyph(borders.right, borders.bottom) {
                    Some(c) => self.put_cell(y1 - 1, x1 - 1, c),
                    None => {},
                }
            },
        }
    }

    /// Paints every command of the display list, in order.
    pub fn paint(&mut self, display_list: &DisplayList)
        requires
            old(self).wf(),
        ensures
            final(self).wf(),
            final(self).spec_width() == old(self).spec_width(),
            final(self).spec_height() == old(self).spec_height(),
            final(self)@ == paint_list(
                old(self)@,
                old(self).spec_width() as int,
                old(self).spec_height() as int,
                display_list@,
            ),
    {
        let ghost g0 = self@;
        let ghost w = self.spec_width() as int;
        let ghost h = self.spec_height() as int;
        proof {
            assert(display_list@.take(0) =~= Seq::<DisplayCommand>::empty());
        }
        let n = display_list.len();
        for i in 0..n
            invariant
                n == display_list.len(),
                self.wf(),
                self.spec_width() as int == w,
                self.spec_height() as int == h,
                self@ == paint_list(g0, w, h, display_list@.take(i as int)),
        {
            proof {
                assert(display_list@.take(i + 1).drop_last() =~= display_list@.take(i as int));
                assert(display_list@.take(i + 1).last() == display_list@[i as int]);
            }
            self.paint_item(&display_list[i]);
        }
        proof {
            assert(display_list@.take(n as int) =~= display_list@);
        }
    }
}

/// The glyph of a horizontal border edge.
fn border_h_glyph(b: Border) -> (r: Option<char>)
    ensures
        r == h_glyph(b),
{
    match b {
        Border::Blank => None,
        Border::Light => Some('\u{2500}'),
        Border::Heavy => Some('\u{2501}'),
        Border::Double => Some('\u{2550}'),
    }
}

/// The glyph of a vertical border edge.
fn border_v_glyph(b: Border) -> (r: Option<char>)
    ensures
        r == v_glyph(b),
{
    match b {
        Border::Blank => None,
        Border::Light => Some('\u{2502}'),
        Border::Heavy => Some('\u{2503}'),
        Border::Double => Some('\u{2551}'),
    }
}

/// The top-left corner glyph.
fn corner_tl_glyph(left: Border, top: Border) -> (r: Option<char>)
    ensures
        r == corner_tl(left, top),
{
    match (left, top) {
        (Border::Blank, t) => border_h_glyph(t),
        (l, Border::Blank) => border_v_glyph(l),
        (Border::Light, Border::Light) => Some('\u{250C}'),
        (Border::Heavy, Border::Light) => Some('\u{250E}'),
        (Border::Light, Border::Heavy) => Some('\u{250D}'),
        (Border::Heavy, Border::Heavy) => Some('\u{250F}'),
        (Border::Double, Border::Double) => Some('\u{2554}'),
        (Border::Double, _) => Some('\u{2553}'),
        (_, Border::Double) => Some('\u{2552}'),
    }
}

/// The top-right corner glyph.
fn corner_tr_glyph(right: Border, top: Border) -> (r: Option<char>)
    ensures
        r == corner_tr(right, top),
{
    match (right, top) {
        (Border::Blank, t) => border_h_glyph(t),
        (l, Border::Blank) => border_v_glyph(l),
        (Border::Light, Border::Light) => Some('\u{2510}'),
        (Border::Heavy, Border::Light) => Some('\u{2512}'),
        (Border::Light, Border::Heavy) => Some('\u{2511}'),
        (Border::Heavy, Border::Heavy) => Some('\u{2513}'),
        (Border::Double, Border::Double) => Some('\u{2557}'),
        (Border::Double, _) => Some('\u{2556}'),
        (_, Border::Double) => Some('\u{2555}'),
    }
}

/// The bottom-left corner glyph.
fn corner_bl_glyph(left: Border, bottom: Border) -> (r: Option<char>)
    ensures
        r == corner_bl(left, bottom),
{
    match (left, bottom) {
        (Border::Blank, t) => border_h_glyph(t),
        (l, Border::Blank) => border_v_glyph(l),
        (Border::Light, Border::Light) => Some('\u{2514}'),
        (Border::Heavy, Border::Light) => Some('\u{2516}'),
        (Border::Light, Border::Heavy) => Some('\u{2515}'),
        (Border::Heavy, Border::Heavy) => Some('\u{2517}'),
        (Border::Double, Border::Double) => Some('\u{255A}'),
        (Border::Double, _) => Some('\u{2559}'),
        (_, Border::Double) => Some('\u{2558}'),
    }
}

/// The bottom-right corner glyph.
fn corner_br_glyph(right: Border, bottom: Border) -> (r: Option<char>)
    ensures
        r == corner_br(right, bottom),
{
    match (right, bottom) {
        (Border::Blank, t) => border_h_glyph(t),
        (l, Border::Blank) => border_v_glyph(l),
        (Border::Light, Border::Light) => Some('\u{2518}'),
        (Border::Heavy, Border::Light) => Some('\u{251A}'),
        (Border::Light, Border::Heavy) => Some('\u{2519}'),
        (Border::Heavy, Border::Heavy) => Some('\u{251B}'),
        (Border::Double, Border::Double) => Some('\u{255D}'),
        (Border::Double, _) => Some('\u{255C}'),
        (_, Border::Double) => Some('\u{255B}'),
    }
}

} // verus!
