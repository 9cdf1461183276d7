//! Rectangles, split directions and the viewports that a layout yields.
//!
//! Coordinates are fixed-point fractions of the drawable area: `UNIT` stands
//! for its full extent, so a coordinate `c` lies at `c / UNIT` of the way
//! from the left (or bottom) edge. Split ratios use the same scale.

use crate::evec::{next_generation, Evec};
use crate::state::mutation::{collapsed, divided};
use crate::state::tree::{
    can_walk, descendants, freed_order, is_subtree, leaves, lemma_descendant_in_range,
    lemma_root_not_below, lemma_siblings_apart, lemma_subtree_frame, lemma_subtree_height,
    lemma_viewports_of, live, node, subtree_height, subtree_wf, viewports_of, walk_height,
    walkable,
};
use vstd::prelude::*;

verus! {

/// The fixed-point value of 1: the full extent of the drawable area, and the
/// split ratio that gives everything to the first part.
pub const UNIT: i32 = 1_000_000;

/// Where a split at `ratio` parts the span from `lo` to `hi`: at
/// `lo + (hi - lo) * ratio / UNIT`, the quotient rounded towards `lo`.
pub open spec fn split_point(lo: int, hi: int, ratio: int) -> int {
    if hi >= lo {
        lo + ((hi - lo) * ratio) / (UNIT as int)
    } else {
        lo - ((lo - hi) * ratio) / (UNIT as int)
    }
}

/// With a ratio between 0 and 1 the split point lies within the span,
/// whichever way round the span is.
pub proof fn lemma_split_point_within(lo: int, hi: int, ratio: int)
    requires
        0 <= ratio <= UNIT,
    ensures
        lo <= hi ==> lo <= split_point(lo, hi, ratio) <= hi,
        hi <= lo ==> hi <= split_point(lo, hi, ratio) <= lo,
        ratio == 0 ==> split_point(lo, hi, ratio) == lo,
        ratio == UNIT ==> split_point(lo, hi, ratio) == hi,
{
    let d = if hi >= lo {
        hi - lo
    } else {
        lo - hi
    };
    assert(0 <= (d * ratio) / (UNIT as int) <= d && (ratio == 0 ==> (d * ratio) / (UNIT as int)
        == 0) && (ratio == UNIT ==> (d * ratio) / (UNIT as int) == d)) by (nonlinear_arith)
        requires
            0 <= d,
            0 <= ratio <= UNIT,
            UNIT == 1_000_000,
    ;
}

/// A rectangle of the drawable area.
#[derive(Copy, Clone, Debug, PartialEq, Eq, Structural)]
pub struct ViewRect {
    pub left: i32,
    pub right: i32,
    pub bottom: i32,
    pub top: i32,
}

impl ViewRect {
    /// The extent from left to right; negative for a rectangle turned
    /// inside out.
    pub open spec fn spec_width(self) -> int {
        self.right - self.left
    }

    /// The extent from bottom to top.
    pub open spec fn spec_height(self) -> int {
        self.top - self.bottom
    }

    /// Width times height, in squares of the fixed-point scale.
    pub open spec fn area(self) -> int {
        self.spec_width() * self.spec_height()
    }

    /// Whether the rectangle has an inside: `left < right` and
    /// `bottom < top`.
    pub open spec fn renderable(self) -> bool {
        self.left < self.right && self.bottom < self.top
    }

    /// Whether the point `(x, y)` lies strictly inside.
    pub open spec fn spec_contains(self, x: int, y: int) -> bool {
        x < self.right && x > self.left && y < self.top && y > self.bottom
    }

    pub fn height(&self) -> (h: i64)
        ensures
            h == self.spec_height(),
    {
        self.top as i64 - self.bottom as i64
    }

    pub fn width(&self) -> (w: i64)
        ensures
            w == self.spec_width(),
    {
        self.right as i64 - self.left as i64
    }

    /// The rectangle between a bottom-left and a top-right corner, each
    /// given as `[x, y]`.
    pub fn from_corners(bl: [i32; 2], tr: [i32; 2]) -> (r: ViewRect)
        ensures
            r == (ViewRect { left: bl[0], right: tr[0], bottom: bl[1], top: tr[1] }),
    {
        ViewRect { left: bl[0], right: tr[0], bottom: bl[1], top: tr[1] }
    }

    /// Whether the point `pos`, given as `[x, y]`, lies strictly inside.
    /// A rectangle without an inside contains nothing.
    pub fn contains(&self, pos: [i32; 2]) -> (inside: bool)
        ensures
            inside == self.spec_contains(pos[0] as int, pos[1] as int),
    {
        let x = pos[0];
        let y = pos[1];

        x < self.right && x > self.left && y < self.top && y > self.bottom
    }
}

/// The way a panel is split, with the share of the first part as a
/// fixed-point ratio. `Vertical` puts the parts one above the other, bottom
/// first; `Horizontal` puts them side by side, left first.
#[derive(Copy, Clone, Debug, PartialEq, Eq, Structural)]
pub enum DivDirection {
    Vertical(u32),
    Horizontal(u32),
}

impl DivDirection {
    /// The share of the first part.
    pub open spec fn ratio(self) -> int {
        match self {
            DivDirection::Vertical(r) => r as int,
            DivDirection::Horizontal(r) => r as int,
        }
    }

    /// The ratio is at most 1.
    pub open spec fn wf(self) -> bool {
        self.ratio() <= UNIT
    }

    /// Whether the ratio is at most 1.
    pub fn is_valid(&self) -> (valid: bool)
        ensures
            valid == self.wf(),
    {
        match self {
            DivDirection::Vertical(r) => *r <= UNIT as u32,
            DivDirection::Horizontal(r) => *r <= UNIT as u32,
        }
    }

    /// The two parts of `rect`: bottom and top for a vertical split, left
    /// and right for a horizontal one. They meet at the split point.
    pub open spec fn spec_divide(self, rect: ViewRect) -> (ViewRect, ViewRect) {
        match self {
            DivDirection::Vertical(r) => {
                let mid = split_point(rect.bottom as int, rect.top as int, r as int) as i32;
                (ViewRect { top: mid, ..rect }, ViewRect { bottom: mid, ..rect })
            },
            DivDirection::Horizontal(r) => {
                let mid = split_point(rect.left as int, rect.right as int, r as int) as i32;
                (ViewRect { right: mid, ..rect }, ViewRect { left: mid, ..rect })
            },
        }
    }

    /// Splits `rect` in two. The ratio is used as it is: 0 or 1 leaves one
    /// part without an inside, and the parts of a rectangle without an
    /// inside have none either.
    pub fn divide(&self, rect: ViewRect) -> (parts: (ViewRect, ViewRect))
        requires
            self.wf(),
        ensures
            parts == self.spec_divide(rect),
    {
        match self {
            DivDirection::Vertical(r) => {
                let vert_mid = split_at(rect.bottom, rect.top, *r);
                let b_rect = ViewRect {
                    left: rect.left,
                    right: rect.right,
                    bottom: rect.bottom,
                    top: vert_mid,
                };

                let t_rect = ViewRect {
                    left: rect.left,
                    right: rect.right,
                    bottom: vert_mid,
                    top: rect.top,
                };

                (b_rect, t_rect)
            },
            DivDirection::Horizontal(r) => {
                let horiz_mid = split_at(rect.left, rect.right, *r);
                let l_rect = ViewRect {
                    left: rect.left,
                    right: horiz_mid,
                    bottom: rect.bottom,
                    top: rect.top,
                };

                let r_rect = ViewRect {
                    left: horiz_mid,
                    right: rect.right,
                    bottom: rect.bottom,
                    top: rect.top,
                };

                (l_rect, r_rect)
            },
        }
    }

    /// The two parts of a split have together the area of the whole.
    pub proof fn lemma_divide_keeps_area(self, rect: ViewRect)
        requires
            self.wf(),
        ensures
            self.spec_divide(rect).0.area() + self.spec_divide(rect).1.area() == rect.area(),
    {
        let (a, b) = self.spec_divide(rect);
        match self {
            DivDirection::Vertical(r) => {
                lemma_split_point_within(rect.bottom as int, rect.top as int, r as int);
                let w = rect.spec_width();
                let lo = rect.bottom as int;
                let hi = rect.top as int;
                let mid = a.top as int;
                assert(w * (mid - lo) + w * (hi - mid) == w * (hi - lo)) by (nonlinear_arith);
            },
            DivDirection::Horizontal(r) => {
                lemma_split_point_within(rect.left as int, rect.right as int, r as int);
                let h = rect.spec_height();
                let lo = rect.left as int;
                let hi = rect.right as int;
                let mid = a.right as int;
                assert((mid - lo) * h + (hi - mid) * h == (hi - lo) * h) by (nonlinear_arith);
            },
        }
    }

    /// The two parts of a split do not overlap: no point is inside both.
    pub proof fn lemma_divide_parts_disjoint(self, rect: ViewRect, x: int, y: int)
        ensures
            !(self.spec_divide(rect).0.spec_contains(x, y) && self.spec_divide(
                rect,
            ).1.spec_contains(x, y)),
    {
    }

    /// The parts of a split lie within the whole: a point inside a part is
    /// inside the rectangle that was split.
    pub proof fn lemma_divide_parts_inside(self, rect: ViewRect, x: int, y: int)
        requires
            self.wf(),
        ensures
            self.spec_divide(rect).0.spec_contains(x, y) ==> rect.spec_contains(x, y),
            self.spec_divide(rect).1.spec_contains(x, y) ==> rect.spec_contains(x, y),
    {
        match self {
            DivDirection::Vertical(r) => {
                lemma_split_point_within(rect.bottom as int, rect.top as int, r as int);
            },
            DivDirection::Horizontal(r) => {
                lemma_split_point_within(rect.left as int, rect.right as int, r as int);
            },
        }
    }
}

/// The split point of the span from `lo` to `hi`, computed without
/// overflow.
fn split_at(lo: i32, hi: i32, ratio: u32) -> (mid: i32)
    requires
        ratio <= UNIT,
    ensures
        mid == split_point(lo as int, hi as int, ratio as int),
{
    proof {
        lemma_split_point_within(lo as int, hi as int, ratio as int);
    }
    if hi >= lo {
        let d: u64 = (hi as i64 - lo as i64) as u64;
        assert(d * ratio <= 0xffff_ffff * 1_000_000) by (nonlinear_arith)
            requires
                d <= 0xffff_ffff,
                ratio <= 1_000_000,
        ;
        let step: u64 = d * (ratio as u64) / (UNIT as u64);
        (lo as i64 + step as i64) as i32
    } else {
        let d: u64 = (lo as i64 - hi as i64) as u64;
        assert(d * ratio <= 0xffff_ffff * 1_000_000) by (nonlinear_arith)
            requires
                d <= 0xffff_ffff,
                ratio <= 1_000_000,
        ;
        let step: u64 = d * (ratio as u64) / (UNIT as u64);
        (lo as i64 - step as i64) as i32
    }
}

/// One node of the layout tree, stored in the arena under its `id`. A leaf
/// is a panel and shows the field `selected`; a ratio node is split into the
/// nodes `a` and `b` and shows nothing itself.
#[derive(Copy, Clone, Debug, PartialEq, Eq, Structural)]
pub enum Division {
    Leaf { selected: i32, parent: Option<usize>, id: usize },
    Ratio { parent: Option<usize>, id: usize, direction: DivDirection, a: usize, b: usize },
}

impl Division {
    pub open spec fn spec_id(self) -> usize {
        match self {
            Division::Leaf { id, .. } => id,
            Division::Ratio { id, .. } => id,
        }
    }

    pub open spec fn spec_parent(self) -> Option<usize> {
        match self {
            Division::Leaf { parent, .. } => parent,
            Division::Ratio { parent, .. } => parent,
        }
    }

    pub open spec fn spec_selected(self) -> Option<i32> {
        match self {
            Division::Leaf { selected, .. } => Some(selected),
            Division::Ratio { .. } => None,
        }
    }

    /// The leaf that a node becomes when it is collapsed: same place in the
    /// tree, showing `selected`.
    pub open spec fn as_leaf(self, selected: i32) -> Division {
        Division::Leaf { selected, parent: self.spec_parent(), id: self.spec_id() }
    }

    pub fn get_id(&self) -> (id: usize)
        ensures
            id == self.spec_id(),
    {
        match self {
            Division::Leaf { id, .. } => *id,
            Division::Ratio { id, .. } => *id,
        }
    }

    pub fn is_ratio(&self) -> (ratio: bool)
        ensures
            ratio == (*self is Ratio),
    {
        match self {
            Division::Leaf { .. } => false,
            Division::Ratio { .. } => true,
        }
    }

    pub fn get_parent(&self) -> (parent: Option<usize>)
        ensures
            parent == self.spec_parent(),
    {
        match self {
            Division::Leaf { parent, .. } => *parent,
            Division::Ratio { parent, .. } => *parent,
        }
    }

    /// The field that a leaf shows; a ratio node shows none.
    pub fn get_selected(&self) -> (selected: Option<i32>)
        ensures
            selected == self.spec_selected(),
    {
        match self {
            Division::Leaf { selected, .. } => Some(*selected),
            Division::Ratio { .. } => None,
        }
    }

    /// The selection of a leaf, to be changed in place. Nothing else about
    /// the node can change through it.
    pub fn get_selected_mut(&mut self) -> (selected: Option<&mut i32>)
        ensures
            match selected {
                Some(sel) => old(self).spec_selected() == Some(*sel) && *final(self) == old(
                    self,
                ).as_leaf(*final(sel)),
                None => *old(self) is Ratio && *final(self) == *old(self),
            },
    {
        match self {
            Division::Leaf { selected, .. } => Some(selected),
            Division::Ratio { .. } => None,
        }
    }

    /// The two children of a ratio node, first part first.
    pub fn get_children(&self) -> (children: (usize, usize))
        requires
            *self is Ratio,
        ensures
            *self matches Division::Ratio { a, b, .. } && children == (a, b),
    {
        match self {
            Division::Ratio { a, b, .. } => (*a, *b),
            _ => (0, 0),
        }
    }
}

impl Division {
    /// Walks the tree below this node and appends the viewport of every
    /// leaf to `viewports`, giving this node the rectangle `rect`. The
    /// first part of a split comes before the second. The nodes are looked
    /// up by their place in `divisions`.
    pub fn build_viewports(
        &self,
        rect: ViewRect,
        divisions: &Vec<Division>,
        viewports: &mut Vec<ViewPort>,
    )
        requires
            can_walk(divisions@.map_values(|d: Division| Some(d)), *self),
        ensures
            final(viewports)@ == old(viewports)@ + viewports_of(
                divisions@.map_values(|d: Division| Some(d)),
                *self,
                rect,
            ),
    {
        let ghost slots = divisions@.map_values(|d: Division| Some(d));
        let ghost height = walk_height(slots, *self);
        self.walk_vec(rect, divisions, viewports, Ghost(height));
        proof {
            lemma_viewports_of(slots, *self, rect, height);
        }
    }

    fn walk_vec(
        &self,
        rect: ViewRect,
        divisions: &Vec<Division>,
        viewports: &mut Vec<ViewPort>,
        Ghost(height): Ghost<nat>,
    )
        requires
            walkable(divisions@.map_values(|d: Division| Some(d)), *self, height),
        ensures
            final(viewports)@ == old(viewports)@ + leaves(
                divisions@.map_values(|d: Division| Some(d)),
                *self,
                rect,
                height,
            ),
        decreases height,
    {
        match self {
            Division::Leaf { id, .. } => {
                viewports.push(ViewPort { div_id: *id, rect });
            },
            Division::Ratio { direction, a, b, .. } => {
                let (rect_a, rect_b) = direction.divide(rect);
                let a_division = divisions[*a];
                let b_division = divisions[*b];
                a_division.walk_vec(rect_a, divisions, viewports, Ghost((height - 1) as nat));
                b_division.walk_vec(rect_b, divisions, viewports, Ghost((height - 1) as nat));
            },
        }
    }

    /// Walks the tree below this node and appends the viewport of every
    /// leaf to `viewports`, giving this node the rectangle `rect`. The
    /// first part of a split comes before the second. The nodes are looked
    /// up in the arena `divisions`.
    pub fn build_viewports_evec(
        &self,
        rect: ViewRect,
        divisions: &Evec<Division>,
        viewports: &mut Vec<ViewPort>,
    )
        requires
            can_walk(divisions@.slots, *self),
        ensures
            final(viewports)@ == old(viewports)@ + viewports_of(divisions@.slots, *self, rect),
    {
        let ghost height = walk_height(divisions@.slots, *self);
        self.walk_evec(rect, divisions, viewports, Ghost(height));
        proof {
            lemma_viewports_of(divisions@.slots, *self, rect, height);
        }
    }

    fn walk_evec(
        &self,
        rect: ViewRect,
        divisions: &Evec<Division>,
        viewports: &mut Vec<ViewPort>,
        Ghost(height): Ghost<nat>,
    )
        requires
            walkable(divisions@.slots, *self, height),
        ensures
            final(viewports)@ == old(viewports)@ + leaves(divisions@.slots, *self, rect, height),
        decreases height,
    {
        match self {
            Division::Leaf { id, .. } => {
                viewports.push(ViewPort { div_id: *id, rect });
            },
            Division::Ratio { direction, a, b, .. } => {
                let (rect_a, rect_b) = direction.divide(rect);
                let (a, b): (usize, usize) = (*a, *b);
                let a_division = divisions[a].unwrap();
                let b_division = divisions[b].unwrap();
                a_division.walk_evec(rect_a, divisions, viewports, Ghost((height - 1) as nat));
                b_division.walk_evec(rect_b, divisions, viewports, Ghost((height - 1) as nat));
            },
        }
    }

    /// Collapses this ratio node into a leaf that shows `selected`: every
    /// node below it leaves the arena, and the leaf takes its slot and its
    /// parent.
    pub fn remove_division(&self, divisions: &mut Evec<Division>, selected: i32)
        requires
            *self is Ratio,
            old(divisions).wf(),
            is_subtree(old(divisions)@.slots, *self),
        ensures
            final(divisions)@ == collapsed(old(divisions)@, *self, selected),
            final(divisions).wf(),
    {
        let ghost height = subtree_height(divisions@.slots, *self);
        proof {
            lemma_subtree_height(divisions@.slots, *self, height);
            lemma_root_not_below(divisions@.slots, *self, height);
        }
        match self {
            Division::Ratio { id, parent, .. } => {
                self.remove_children(divisions, Ghost(height));
                divisions.replace(*id, Division::Leaf { parent: *parent, id: *id, selected });
                assert(divisions@.slots =~= collapsed(old(divisions)@, *self, selected).slots);
                assert(divisions@.generations =~= collapsed(
                    old(divisions)@,
                    *self,
                    selected,
                ).generations);
            },
            _ => {},
        }
    }

    /// Removes every node below this one from the arena, children after
    /// what lies below them.
    fn remove_children(&self, divisions: &mut Evec<Division>, Ghost(height): Ghost<nat>)
        requires
            old(divisions).wf(),
            subtree_wf(old(divisions)@.slots, *self, height),
        ensures
            final(divisions).wf(),
            final(divisions)@.slots.len() == old(divisions)@.slots.len(),
            forall|i: int|
                0 <= i < old(divisions)@.slots.len() ==> #[trigger] final(divisions)@.slots[i]
                    == if descendants(old(divisions)@.slots, *self, height).contains(i) {
                    None
                } else {
                    old(divisions)@.slots[i]
                },
            final(divisions)@.free == old(divisions)@.free + freed_order(
                old(divisions)@.slots,
                *self,
                height,
            ),
            forall|i: int|
                0 <= i < old(divisions)@.slots.len() ==> #[trigger] final(divisions)@.generations[i]
                    == if descendants(old(divisions)@.slots, *self, height).contains(i) {
                    next_generation(old(divisions)@.generations[i])
                } else {
                    old(divisions)@.generations[i]
                },
        decreases height,
    {
        match self {
            Division::Ratio { a, b, .. } => {
                let (a, b): (usize, usize) = (*a, *b);
                let ghost s0 = divisions@.slots;
                let ghost h1 = (height - 1) as nat;
                let ghost na = node(s0, a);
                let ghost nb = node(s0, b);
                proof {
                    lemma_siblings_apart(s0, *self, height);
                    assert forall|x: int| descendants(s0, na, h1).contains(x) implies 0 <= x
                        < s0.len() by {
                        lemma_descendant_in_range(s0, na, h1, x);
                    }
                    assert forall|x: int| descendants(s0, nb, h1).contains(x) implies 0 <= x
                        < s0.len() by {
                        lemma_descendant_in_range(s0, nb, h1, x);
                    }
                }
                if let Some(div) = divisions[a] {
                    div.remove_children(divisions, Ghost(h1));
                }
                let ghost s1 = divisions@.slots;
                proof {
                    assert forall|x: int| descendants(s0, nb, h1).contains(x) implies s1[x]
                        == s0[x] by {
                        assert(!descendants(s0, na, h1).contains(x));
                    }
                    lemma_subtree_frame(s0, s1, nb, h1);
                }
                if let Some(div) = divisions[b] {
                    div.remove_children(divisions, Ghost(h1));
                }
                proof {
                    divisions@.lemma_remove_frees_one_handle(a);
                    divisions@.remove(a).lemma_remove_frees_one_handle(b);
                }
                divisions.remove(a);
                divisions.remove(b);
                assert(divisions@.free =~= old(divisions)@.free + freed_order(s0, *self, height));
            },
            _ => (),
        }
    }

    /// Divides this leaf in the direction `dir`: two new leaves that show
    /// what it showed are stored in the arena, and a ratio node over them
    /// takes its slot and its parent.
    pub fn divide(&self, dir: DivDirection, divisions: &mut Evec<Division>)
        requires
            *self is Leaf,
            old(divisions).wf(),
            live(old(divisions)@.slots, self.spec_id()),
            node(old(divisions)@.slots, self.spec_id()) == *self,
        ensures
            final(divisions)@ == divided(old(divisions)@, *self, dir),
            final(divisions).wf(),
    {
        match self {
            Division::Leaf { id, selected, .. } => {
                let a_index = divisions.next_available();
                let a = Division::Leaf { parent: Some(*id), id: a_index, selected: *selected };
                divisions.push(a);
                let b_index = divisions.next_available();
                let b = Division::Leaf { parent: Some(*id), id: b_index, selected: *selected };
                divisions.push(b);
                divisions.replace(
                    *id,
                    Division::Ratio {
                        parent: self.get_parent(),
                        id: *id,
                        direction: dir,
                        a: a_index,
                        b: b_index,
                    },
                );
            },
            _ => {},
        }
    }
}

/// A rectangle of the frame in whole pixels, measured from its bottom-left
/// corner.
#[derive(Copy, Clone, Debug, PartialEq, Eq, Structural)]
pub struct PixelRect {
    pub left: u32,
    pub bottom: u32,
    pub width: u32,
    pub height: u32,
}

/// `extent * frame / scale` rounded to the nearest whole number, halves
/// upwards, and kept within what a `u32` holds: nothing below 0, nothing
/// above `u32::MAX`.
pub open spec fn to_pixels(extent: int, frame: int, scale: int) -> int {
    let scaled = extent * frame;
    let rounded = (scaled + scale / 2) / scale;
    if scaled <= 0 {
        0
    } else if rounded > u32::MAX {
        u32::MAX as int
    } else {
        rounded
    }
}

/// `to_pixels`, computed without overflow.
fn scale_round(extent: i64, frame: u64, scale: u64) -> (px: u32)
    requires
        -0x1_0000_0000 <= extent <= 0x1_0000_0000,
        0 < scale <= 0x1_0000_0000_0000_0000,
    ensures
        px == to_pixels(extent as int, frame as int, scale as int),
{
    if extent <= 0 || frame == 0 {
        assert(extent * frame <= 0) by (nonlinear_arith)
            requires
                extent <= 0 || frame == 0,
                frame >= 0,
        ;
        return 0;
    }
    let e: u128 = extent as u128;
    let f: u128 = frame as u128;
    assert(0 < e * f <= 0x1_0000_0000 * 0xffff_ffff_ffff_ffff) by (nonlinear_arith)
        requires
            0 < e <= 0x1_0000_0000,
            0 < f <= 0xffff_ffff_ffff_ffff,
    ;
    let rounded: u128 = (e * f + (scale as u128) / 2) / (scale as u128);
    if rounded > u32::MAX as u128 {
        u32::MAX
    } else {
        rounded as u32
    }
}

/// A panel ready to be drawn: the leaf it belongs to, and its rectangle.
/// The leaf's id tells panels apart from one frame to the next; the place
/// in a list of viewports does not.
#[derive(Copy, Clone, Debug, PartialEq, Eq, Structural)]
pub struct ViewPort {
    pub div_id: usize,
    pub rect: ViewRect,
}

impl ViewPort {
    /// The pixels that the viewport covers in a frame of width and height
    /// `frame`: each measure of the rectangle times that of the frame,
    /// divided by `scale`. Left, bottom, width and height are rounded each
    /// on its own, so neighbours may miss or overlap each other by a pixel.
    pub open spec fn spec_pixels(self, frame: (int, int), scale: int) -> PixelRect {
        PixelRect {
            left: to_pixels(self.rect.left as int, frame.0, scale) as u32,
            bottom: to_pixels(self.rect.bottom as int, frame.1, scale) as u32,
            width: to_pixels(self.rect.spec_width(), frame.0, scale) as u32,
            height: to_pixels(self.rect.spec_height(), frame.1, scale) as u32,
        }
    }

    /// The viewport's pixels in a frame of `frame_size` pixels, width
    /// first.
    pub fn glium_viewport(&self, frame_size: (u32, u32)) -> (r: PixelRect)
        ensures
            r == self.spec_pixels((frame_size.0 as int, frame_size.1 as int), UNIT as int),
    {
        let horizontal = frame_size.0 as u64;
        let height = frame_size.1 as u64;
        let scale = UNIT as u64;
        PixelRect {
            left: scale_round(self.rect.left as i64, horizontal, scale),
            bottom: scale_round(self.rect.bottom as i64, height, scale),
            width: scale_round(self.rect.width(), horizontal, scale),
            height: scale_round(self.rect.height(), height, scale),
        }
    }

    /// The viewport's place in a window whose logical size is `frame_size`,
    /// width first, in fixed-point logical pixels: `UNIT` for each one. The
    /// result is in whole logical pixels.
    pub fn glium_vp_logicalsize(&self, frame_size: (u64, u64)) -> (r: PixelRect)
        ensures
            r == self.spec_pixels(
                (frame_size.0 as int, frame_size.1 as int),
                UNIT as int * UNIT as int,
            ),
    {
        let horizontal = frame_size.0;
        let height = frame_size.1;
        let scale = UNIT as u64 * UNIT as u64;
        PixelRect {
            left: scale_round(self.rect.left as i64, horizontal, scale),
            bottom: scale_round(self.rect.bottom as i64, height, scale),
            width: scale_round(self.rect.width(), horizontal, scale),
            height: scale_round(self.rect.height(), height, scale),
        }
    }

    /// The field that the viewport's leaf shows, looked up in the slots of
    /// the arena; `None` where the slot is empty or holds a ratio node.
    pub fn get_div_selection(&self, divisions: &[Option<Division>]) -> (selected: Option<i32>)
        requires
            self.div_id < divisions@.len(),
        ensures
            selected == match divisions@[self.div_id as int] {
                Some(div) => div.spec_selected(),
                None => None,
            },
    {
        let value = divisions[self.div_id];
        match value {
            Some(div) => div.get_selected(),
            None => None,
        }
    }

    /// The selection of the viewport's leaf, to be changed in place in the
    /// slots of the arena; `None` where the slot is empty or holds a ratio
    /// node. No other slot changes, and nothing else about the leaf.
    pub fn get_div_selection_mut<'a>(&'a self, divisions: &'a mut [Option<Division>]) -> (selected:
        Option<&'a mut i32>)
        requires
            self.div_id < old(divisions)@.len(),
        ensures
            match selected {
                Some(sel) => {
                    &&& old(divisions)@[self.div_id as int] matches Some(div)
                    &&& div.spec_selected() == Some(*sel)
                    &&& final(divisions)@ =~= old(divisions)@.update(
                        self.div_id as int,
                        Some(div.as_leaf(*final(sel))),
                    )
                },
                None => {
                    &&& old(divisions)@[self.div_id as int] matches Some(div) ==> div is Ratio
                    &&& final(divisions)@ =~= old(divisions)@
                },
            },
    {
        let value = divisions[self.div_id].as_mut();
        match value {
            Some(div) => div.get_selected_mut(),
            None => None,
        }
    }

    /// Whether there is anything to draw: a rectangle turned inside out or
    /// squeezed to nothing is skipped.
    pub fn can_render(&self) -> (ok: bool)
        ensures
            ok == self.rect.renderable(),
    {
        self.rect.left < self.rect.right && self.rect.bottom < self.rect.top
    }
}

/// What is remembered of a panel from frame to frame: whether its menu is
/// open, whether the calibration bar is shown, and its own camera if it has
/// one. A panel without one follows the shared camera.
#[derive(Debug)]
pub struct VPSettings<C> {
    pub menu_open: bool,
    pub show_range: bool,
    pub cam: Option<C>,
}

impl<C: Copy> Copy for VPSettings<C> {

}

impl<C: Copy> Clone for VPSettings<C> {
    fn clone(&self) -> (r: Self)
        ensures
            r == *self,
    {
        *self
    }
}

} // verus!
