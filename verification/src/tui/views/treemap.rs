use vstd::prelude::*;

use crate::model::node::{DiskNode, NodeType};
use crate::tui::filter::{opt_filter_ok, FilterCriteria};
use crate::tui::views::tree::{
    clock_for, clock_reading, filter_visible_child_indices_at, lemma_visible_from,
    visible_children,
};

verus! {

/// A rectangle of terminal cells: its top-left corner and its size.
#[derive(Debug, Clone, Copy, PartialEq, Eq, Structural)]
pub struct Area {
    pub x: u16,
    pub y: u16,
    pub width: u16,
    pub height: u16,
}

/// The empty area at the origin.
pub open spec fn no_area() -> Area {
    Area { x: 0, y: 0, width: 0, height: 0 }
}

impl Area {
    pub fn new(x: u16, y: u16, width: u16, height: u16) -> (a: Area)
        ensures
            a == (Area { x, y, width, height }),
    {
        Area { x, y, width, height }
    }

    /// The empty area at the origin.
    pub fn empty() -> (a: Area)
        ensures
            a == no_area(),
    {
        Area { x: 0, y: 0, width: 0, height: 0 }
    }
}

/// A rectangle in the treemap layout.
#[derive(Debug, Clone)]
pub struct TreemapRect {
    pub x: u16,
    pub y: u16,
    pub width: u16,
    pub height: u16,
    pub child_index: usize,
    pub name: String,
    pub size: u64,
    pub node_type: NodeType,
}

/// The treemap's layout cache: the rectangles last laid out, and the area and visible
/// children they were laid out for.
pub struct TreemapState {
    pub cached_rects: Vec<TreemapRect>,
    pub cached_area: Area,
    pub cached_visible: Vec<usize>,
}

/// The largest coordinate a laid-out rectangle may reach; it keeps every centre and
/// distance that navigation computes within 16-bit and 32-bit signed arithmetic.
pub open spec fn coord_limit() -> int {
    16383
}

/// Every rectangle lies within `coord_limit()` cells of the origin.
pub open spec fn rects_fit(rects: Seq<TreemapRect>) -> bool {
    forall|i: int|
        0 <= i < rects.len() ==> #[trigger] rects[i].x + rects[i].width <= coord_limit()
            && rects[i].y + rects[i].height <= coord_limit()
}

/// The column of the centre of `r`.
pub open spec fn center_x(r: TreemapRect) -> int {
    r.x + r.width / 2
}

/// The row of the centre of `r`.
pub open spec fn center_y(r: TreemapRect) -> int {
    r.y + r.height / 2
}

/// The place of the first rectangle from `i` on that draws child `child`, or -1.
pub open spec fn rect_for_from(rects: Seq<TreemapRect>, child: usize, i: int) -> int
    decreases rects.len() - i,
{
    if i < 0 || i >= rects.len() {
        -1
    } else if rects[i].child_index == child {
        i
    } else {
        rect_for_from(rects, child, i + 1)
    }
}

/// The rectangle navigation starts from: the first one drawing `child`, else the first.
pub open spec fn start_rect(rects: Seq<TreemapRect>, child: usize) -> int {
    let k = rect_for_from(rects, child, 0);
    if k >= 0 {
        k
    } else {
        0
    }
}

/// Whether a centre at (`rx`, `ry`) lies in direction (`dx`, `dy`) from (`cx`, `cy`):
/// the four unit directions test one coordinate; any other step accepts every centre.
pub open spec fn in_direction(dx: int, dy: int, rx: int, ry: int, cx: int, cy: int) -> bool {
    if dx == 1 && dy == 0 {
        rx > cx
    } else if dx == -1 && dy == 0 {
        rx < cx
    } else if dx == 0 && dy == 1 {
        ry > cy
    } else if dx == 0 && dy == -1 {
        ry < cy
    } else {
        true
    }
}

/// The squared distance from the centre of `r` to the point (`tx`, `ty`).
pub open spec fn dist_to(r: TreemapRect, tx: int, ty: int) -> int {
    (center_x(r) - tx) * (center_x(r) - tx) + (center_y(r) - ty) * (center_y(r) - ty)
}

/// The best rectangle among the first `n`, with its distance: the first nearest one to
/// the target point that lies in the direction and is not the start; the start itself
/// when there is none.
pub open spec fn best_upto(rects: Seq<TreemapRect>, start: int, dx: int, dy: int, n: int) -> (int, int)
    decreases n,
{
    if n <= 0 {
        (start, i32::MAX as int)
    } else {
        let prev = best_upto(rects, start, dx, dy, n - 1);
        let s = rects[start];
        let r = rects[n - 1];
        let tx = center_x(s) + dx * 10;
        let ty = center_y(s) + dy * 5;
        if n - 1 != start && in_direction(dx, dy, center_x(r), center_y(r), center_x(s), center_y(s))
            && dist_to(r, tx, ty) < prev.1 {
            (n - 1, dist_to(r, tx, ty))
        } else {
            prev
        }
    }
}

/// The child reached by moving from `child` in direction (`dx`, `dy`).
pub open spec fn navigate_spec(rects: Seq<TreemapRect>, child: usize, dx: int, dy: int) -> usize {
    if rects.len() == 0 {
        child
    } else {
        let start = start_rect(rects, child);
        rects[best_upto(rects, start, dx, dy, rects.len() as int).0].child_index
    }
}

proof fn lemma_rect_for_from(rects: Seq<TreemapRect>, child: usize, i: int)
    requires
        0 <= i <= rects.len(),
    ensures
        rect_for_from(rects, child, i) == -1 || i <= rect_for_from(rects, child, i) < rects.len(),
    decreases rects.len() - i,
{
    if i < rects.len() {
        lemma_rect_for_from(rects, child, i + 1);
    }
}

proof fn lemma_best_in_range(rects: Seq<TreemapRect>, start: int, dx: int, dy: int, n: int)
    requires
        0 <= start < rects.len(),
        0 <= n <= rects.len(),
    ensures
        0 <= best_upto(rects, start, dx, dy, n).0 < rects.len(),
    decreases n,
{
    if n > 0 {
        lemma_best_in_range(rects, start, dx, dy, n - 1);
    }
}

/// The first place of a rectangle drawing `child`.
fn find_rect(rects: &Vec<TreemapRect>, child: usize) -> (r: Option<usize>)
    ensures
        match r {
            Some(k) => rect_for_from(rects@, child, 0) == k,
            None => rect_for_from(rects@, child, 0) == -1,
        },
{
    let mut i: usize = 0;
    while i < rects.len()
        invariant
            i <= rects@.len(),
            rect_for_from(rects@, child, 0) == rect_for_from(rects@, child, i as int),
        decreases rects@.len() - i,
    {
        if rects[i].child_index == child {
            return Some(i);
        }
        i = i + 1;
    }
    None
}

/// Whether every rectangle lies within the coordinate limit, as navigation needs.
pub fn layout_fits(rects: &Vec<TreemapRect>) -> (r: bool)
    ensures
        r == rects_fit(rects@),
{
    let mut i: usize = 0;
    while i < rects.len()
        invariant
            i <= rects@.len(),
            forall|k: int|
                0 <= k < i ==> #[trigger] rects@[k].x + rects@[k].width <= coord_limit()
                    && rects@[k].y + rects@[k].height <= coord_limit(),
        decreases rects@.len() - i,
    {
        let r = &rects[i];
        if r.x as u32 + r.width as u32 > 16383 || r.y as u32 + r.height as u32 > 16383 {
            return false;
        }
        i = i + 1;
    }
    true
}

fn center_of(r: &TreemapRect) -> (c: (i64, i64))
    requires
        r.x + r.width <= coord_limit(),
        r.y + r.height <= coord_limit(),
    ensures
        c.0 == center_x(*r),
        c.1 == center_y(*r),
        0 <= c.0 <= coord_limit(),
        0 <= c.1 <= coord_limit(),
{
    (r.x as i64 + (r.width / 2) as i64, r.y as i64 + (r.height / 2) as i64)
}

impl TreemapState {
    pub fn new() -> (s: Self)
        ensures
            s.cached_rects@.len() == 0,
            s.cached_area == no_area(),
            s.cached_visible@.len() == 0,
    {
        TreemapState {
            cached_rects: Vec::new(),
            cached_area: Area::empty(),
            cached_visible: Vec::new(),
        }
    }

    /// Whether the layout must be computed again: the area or the visible children
    /// changed, or nothing is laid out.
    pub fn needs_layout(&self, area: Area, visible_indices: &[usize]) -> (r: bool)
        ensures
            r == !(self.cached_area == area && self.cached_visible@ == visible_indices@
                && self.cached_rects@.len() > 0),
    {
        if !(self.cached_area == area) || self.cached_rects.len() == 0 {
            return true;
        }
        if self.cached_visible.len() != visible_indices.len() {
            return true;
        }
        let mut i: usize = 0;
        while i < visible_indices.len()
            invariant
                i <= visible_indices@.len() == self.cached_visible@.len(),
                forall|k: int| 0 <= k < i ==> self.cached_visible@[k] == visible_indices@[k],
            decreases visible_indices@.len() - i,
        {
            if self.cached_visible[i] != visible_indices[i] {
                return true;
            }
            i = i + 1;
        }
        proof {
            assert(self.cached_visible@ =~= visible_indices@);
        }
        false
    }

    /// Keep `rects`, laid out for `area` and the children `visible_indices`.
    pub fn store_layout(&mut self, rects: Vec<TreemapRect>, area: Area, visible_indices: &[usize])
        ensures
            final(self).cached_rects@ == rects@,
            final(self).cached_area == area,
            final(self).cached_visible@ == visible_indices@,
    {
        let mut v: Vec<usize> = Vec::new();
        let mut i: usize = 0;
        while i < visible_indices.len()
            invariant
                i <= visible_indices@.len(),
                v@ == visible_indices@.subrange(0, i as int),
            decreases visible_indices@.len() - i,
        {
            v.push(visible_indices[i]);
            proof {
                assert(v@ =~= visible_indices@.subrange(0, i as int + 1));
            }
            i = i + 1;
        }
        proof {
            assert(visible_indices@.subrange(0, i as int) =~= visible_indices@);
        }
        self.cached_rects = rects;
        self.cached_area = area;
        self.cached_visible = v;
    }

    /// Forget the layout, so that the next drawing computes it again.
    pub fn invalidate(&mut self)
        ensures
            final(self).cached_rects@.len() == 0,
            final(self).cached_visible@.len() == 0,
            final(self).cached_area == old(self).cached_area,
    {
        self.cached_rects.clear();
        self.cached_visible.clear();
    }

    /// Spatial navigation from the rect for `selected_child_index` (index into
    /// `node.children`). Returns a child index in `node.children`, not a rect list index.
    pub fn navigate(&self, selected_child_index: usize, dx: i16, dy: i16) -> (r: usize)
        requires
            rects_fit(self.cached_rects@),
            -1000 <= dx <= 1000,
            -1000 <= dy <= 1000,
        ensures
            r == navigate_spec(self.cached_rects@, selected_child_index, dx as int, dy as int),
    {
        let rects = &self.cached_rects;
        if rects.len() == 0 {
            return selected_child_index;
        }
        let start: usize = match find_rect(rects, selected_child_index) {
            Some(k) => k,
            None => 0,
        };
        proof {
            lemma_rect_for_from(rects@, selected_child_index, 0);
        }
        let ghost s = rects@[start as int];
        let (cx, cy) = center_of(&rects[start]);
        let target_x: i64 = cx + (dx as i64) * 10;
        let target_y: i64 = cy + (dy as i64) * 5;
        let mut best: usize = start;
        let mut best_dist: i64 = 2147483647;
        let mut i: usize = 0;
        while i < rects.len()
            invariant
                i <= rects@.len(),
                start < rects@.len(),
                rects_fit(rects@),
                s == rects@[start as int],
                cx == center_x(s),
                cy == center_y(s),
                0 <= cx <= coord_limit(),
                0 <= cy <= coord_limit(),
                -1000 <= dx <= 1000,
                -1000 <= dy <= 1000,
                target_x == center_x(s) + dx * 10,
                target_y == center_y(s) + dy * 5,
                (best as int, best_dist as int) == best_upto(
                    rects@,
                    start as int,
                    dx as int,
                    dy as int,
                    i as int,
                ),
            decreases rects@.len() - i,
        {
            let r = &rects[i];
            if i != start {
                let (rx, ry) = center_of(r);
                let in_dir = if dx == 1 && dy == 0 {
                    rx > cx
                } else if dx == -1 && dy == 0 {
                    rx < cx
                } else if dx == 0 && dy == 1 {
                    ry > cy
                } else if dx == 0 && dy == -1 {
                    ry < cy
                } else {
                    true
                };
                if in_dir {
                    let ddx: i64 = rx - target_x;
                    let ddy: i64 = ry - target_y;
                    assert(ddx * ddx <= 30000 * 30000) by (nonlinear_arith)
                        requires
                            -30000 <= ddx <= 30000,
                    ;
                    assert(ddy * ddy <= 30000 * 30000) by (nonlinear_arith)
                        requires
                            -30000 <= ddy <= 30000,
                    ;
                    assert(ddx * ddx >= 0) by (nonlinear_arith);
                    assert(ddy * ddy >= 0) by (nonlinear_arith);
                    let dist: i64 = ddx * ddx + ddy * ddy;
                    if dist < best_dist {
                        best_dist = dist;
                        best = i;
                    }
                }
            }
            i = i + 1;
        }
        proof {
            lemma_best_in_range(rects@, start as int, dx as int, dy as int, rects@.len() as int);
        }
        rects[best].child_index
    }
}

/// The filter-visible children of `node` with a size above zero, with the clock reading
/// `now`.
pub open spec fn treemap_children(node: DiskNode, filter: Option<&FilterCriteria>, now: int) -> Seq<
    usize,
> {
    visible_children(node, filter, now).filter(|i: usize| node.children@[i as int].size > 0)
}

/// Child indices that are both filter-visible and drawable in the treemap, with the clock
/// reading `now`.
pub fn visible_treemap_child_indices_at(
    node: &DiskNode,
    filter: Option<&FilterCriteria>,
    now: i128,
) -> (out: Vec<usize>)
    requires
        opt_filter_ok(filter),
    ensures
        out@ == treemap_children(*node, filter, now as int),
        forall|k: int| 0 <= k < out@.len() ==> #[trigger] out@[k] < node.children@.len(),
{
    let visible = filter_visible_child_indices_at(node, filter, now);
    let _count = node.children.len();
    proof {
        lemma_visible_from(node.children@, 0, filter, now as int);
    }
    let ghost vs = visible@;
    let mut out: Vec<usize> = Vec::new();
    let mut j: usize = 0;
    proof {
        reveal(Seq::filter);
        assert(vs.subrange(0, 0) =~= Seq::<usize>::empty());
    }
    while j < visible.len()
        invariant
            j <= visible@.len(),
            vs == visible@,
            vs == visible_children(*node, filter, now as int),
            forall|k: int| 0 <= k < vs.len() ==> #[trigger] vs[k] < node.children@.len(),
            out@ == vs.subrange(0, j as int).filter(
                |i: usize| node.children@[i as int].size > 0,
            ),
            forall|k: int| 0 <= k < out@.len() ==> #[trigger] out@[k] < node.children@.len(),
        decreases visible@.len() - j,
    {
        let i = visible[j];
        proof {
            let f = |i: usize| node.children@[i as int].size > 0;
            assert(vs.subrange(0, j as int + 1).drop_last() =~= vs.subrange(0, j as int));
            vs.subrange(0, j as int).lemma_filter_push(i, f);
            assert(vs.subrange(0, j as int + 1) =~= vs.subrange(0, j as int).push(i));
        }
        if node.children[i].size > 0 {
            out.push(i);
        }
        j = j + 1;
    }
    proof {
        assert(vs.subrange(0, vs.len() as int) =~= vs);
    }
    out
}

/// Child indices that are both filter-visible and drawable in the treemap.
/// A modification-time filter reads the clock.
pub fn visible_treemap_child_indices(node: &DiskNode, filter: Option<&FilterCriteria>) -> (out: Vec<
    usize,
>)
    requires
        opt_filter_ok(filter),
    ensures
        exists|t: i128| clock_reading(filter, t) && out@ == treemap_children(*node, filter, t as int),
{
    let now = clock_for(filter);
    visible_treemap_child_indices_at(node, filter, now)
}

/// Whether the centre of `r` lies strictly in the unit direction (`dx`, `dy`) from the
/// centre of `s`: right of it for (1, 0), left of it for (-1, 0), below it for (0, 1),
/// above it for (0, -1). Any other step lets every rectangle count.
pub open spec fn lies_toward(s: TreemapRect, r: TreemapRect, dx: int, dy: int) -> bool {
    let (sx, sy) = (s.x + s.width / 2, s.y + s.height / 2);
    let (rx, ry) = (r.x + r.width / 2, r.y + r.height / 2);
    &&& (dx == 1 && dy == 0 ==> rx > sx)
    &&& (dx == -1 && dy == 0 ==> rx < sx)
    &&& (dx == 0 && dy == 1 ==> ry > sy)
    &&& (dx == 0 && dy == -1 ==> ry < sy)
}

/// The squared distance from the centre of `r` to the point aimed at from `s`: ten
/// columns per horizontal step and five rows per vertical step away from the centre of
/// `s`.
pub open spec fn aim_distance(s: TreemapRect, r: TreemapRect, dx: int, dy: int) -> int {
    let ax = s.x + s.width / 2 + 10 * dx;
    let ay = s.y + s.height / 2 + 5 * dy;
    let ex = r.x + r.width / 2 - ax;
    let ey = r.y + r.height / 2 - ay;
    ex * ex + ey * ey
}

proof fn lemma_best_upto_props(rects: Seq<TreemapRect>, start: int, dx: int, dy: int, n: int)
    requires
        0 <= start < rects.len(),
        0 <= n <= rects.len(),
    ensures
        ({
            let (b, d) = best_upto(rects, start, dx, dy, n);
            let s = rects[start];
            &&& (b == start && d == i32::MAX) || (0 <= b < n && b != start && lies_toward(
                s,
                rects[b],
                dx,
                dy,
            ) && d == aim_distance(s, rects[b], dx, dy) && d < i32::MAX)
            &&& forall|k: int|
                0 <= k < n && k != start && lies_toward(s, #[trigger] rects[k], dx, dy)
                    ==> aim_distance(s, rects[k], dx, dy) >= d
        }),
    decreases n,
{
    if n > 0 {
        lemma_best_upto_props(rects, start, dx, dy, n - 1);
        let s = rects[start];
        let r = rects[n - 1];
        assert(in_direction(dx, dy, center_x(r), center_y(r), center_x(s), center_y(s))
            == lies_toward(s, r, dx, dy));
        assert(dist_to(r, center_x(s) + dx * 10, center_y(s) + dy * 5) == aim_distance(s, r, dx, dy));
    }
}

proof fn lemma_aim_distance_small(s: TreemapRect, r: TreemapRect, dx: int, dy: int)
    requires
        s.x + s.width <= coord_limit(),
        s.y + s.height <= coord_limit(),
        r.x + r.width <= coord_limit(),
        r.y + r.height <= coord_limit(),
        -1000 <= dx <= 1000,
        -1000 <= dy <= 1000,
    ensures
        aim_distance(s, r, dx, dy) < i32::MAX,
{
    let ex = r.x + r.width / 2 - (s.x + s.width / 2 + 10 * dx);
    let ey = r.y + r.height / 2 - (s.y + s.height / 2 + 5 * dy);
    assert(-30000 <= ex <= 30000);
    assert(-30000 <= ey <= 30000);
    assert(ex * ex <= 900000000) by (nonlinear_arith)
        requires
            -30000 <= ex <= 30000,
    ;
    assert(ey * ey <= 900000000) by (nonlinear_arith)
        requires
            -30000 <= ey <= 30000,
    ;
}

proof fn lemma_rect_for_first(rects: Seq<TreemapRect>, child: usize, i: int, k0: int)
    requires
        0 <= i <= k0 < rects.len(),
        rects[k0].child_index == child,
        forall|j: int| 0 <= j < k0 ==> #[trigger] rects[j].child_index != child,
    ensures
        rect_for_from(rects, child, i) == k0,
    decreases k0 - i,
{
    if i < k0 {
        lemma_rect_for_first(rects, child, i + 1, k0);
    }
}

proof fn lemma_rect_for_none(rects: Seq<TreemapRect>, child: usize, i: int)
    requires
        0 <= i <= rects.len(),
        forall|j: int| 0 <= j < rects.len() ==> #[trigger] rects[j].child_index != child,
    ensures
        rect_for_from(rects, child, i) == -1,
    decreases rects.len() - i,
{
    if i < rects.len() {
        lemma_rect_for_none(rects, child, i + 1);
    }
}

/// Spatial navigation in the treemap moves toward the pressed direction. It starts from
/// the first rectangle `k0` drawing the selected child (the first rectangle when none
/// does). When some other rectangle lies in the direction (its centre strictly right of,
/// left of, below or above the start's centre), the result is the child of such a
/// rectangle, one no farther from the aimed-at point than any other such rectangle.
/// When none does, the selection stays on the start's child.
pub proof fn lemma_navigate_moves_toward(
    rects: Seq<TreemapRect>,
    child: usize,
    dx: int,
    dy: int,
    k0: int,
)
    requires
        rects_fit(rects),
        -1000 <= dx <= 1000,
        -1000 <= dy <= 1000,
        0 <= k0 < rects.len(),
        (rects[k0].child_index == child && forall|j: int|
            0 <= j < k0 ==> #[trigger] rects[j].child_index != child) || (k0 == 0 && forall|j: int|
            0 <= j < rects.len() ==> #[trigger] rects[j].child_index != child),
    ensures
        ({
            let res = navigate_spec(rects, child, dx, dy);
            let s = rects[k0];
            ||| (res == s.child_index && forall|k: int|
                0 <= k < rects.len() && k != k0 ==> !lies_toward(s, #[trigger] rects[k], dx, dy))
            ||| exists|kb: int|
                0 <= kb < rects.len() && kb != k0 && #[trigger] rects[kb].child_index == res
                    && lies_toward(s, rects[kb], dx, dy) && forall|k: int|
                    0 <= k < rects.len() && k != k0 && lies_toward(s, #[trigger] rects[k], dx, dy)
                        ==> aim_distance(s, rects[kb], dx, dy) <= aim_distance(s, rects[k], dx, dy)
        }),
{
    if rects[k0].child_index == child && forall|j: int|
        0 <= j < k0 ==> #[trigger] rects[j].child_index != child {
        lemma_rect_for_first(rects, child, 0, k0);
    } else {
        lemma_rect_for_none(rects, child, 0);
    }
    assert(start_rect(rects, child) == k0);
    let n = rects.len() as int;
    lemma_best_upto_props(rects, k0, dx, dy, n);
    let (b, d) = best_upto(rects, k0, dx, dy, n);
    let s = rects[k0];
    if b == k0 {
        assert forall|k: int| 0 <= k < n && k != k0 implies !lies_toward(s, #[trigger] rects[k], dx, dy) by {
            if lies_toward(s, rects[k], dx, dy) {
                lemma_aim_distance_small(s, rects[k], dx, dy);
            }
        }
    } else {
        assert(rects[b].child_index == navigate_spec(rects, child, dx, dy));
    }
}

} // verus!

