//! The spatial index: owns the sampled points of a layout, an index-aligned
//! color buffer, the vertex flags, the declared center and the derived
//! bounding domain, and answers directional and radial queries over them.
use crate::geometry::{
    dist2, dist2_u64, dot, dot_from, in_bounds, Vec2i, MAX_COORD,
};
use crate::layout::{
    layout_accepted, layout_flags_s, layout_points_s, parse_layout, parse_layout_s, sample_chain,
    Layout, LayoutParseError, MAX_POINTS,
};
use vstd::arithmetic::div_mod::{
    lemma_div_is_ordered, lemma_div_pos_is_pos, lemma_fundamental_div_mod,
    lemma_multiply_divide_lt,
};
use vstd::prelude::*;
use vstd::slice::slice_to_vec;
use vstd::string::StringSliceAdditionalSpecFns;

verus! {

/// Column of the grid cell holding `p`, for a grid anchored at `origin` with
/// square cells of side `cs`.
pub open spec fn grid_cx(p: Vec2i, origin: Vec2i, cs: int) -> int {
    (p.x - origin.x) / cs
}

/// Row of the grid cell holding `p`.
pub open spec fn grid_cy(p: Vec2i, origin: Vec2i, cs: int) -> int {
    (p.y - origin.y) / cs
}

/// Row-major index of the grid cell holding `p`.
pub open spec fn grid_cell(p: Vec2i, origin: Vec2i, cs: int, gw: int) -> int {
    grid_cy(p, origin, cs) * gw + grid_cx(p, origin, cs)
}

/// A grid whose cell side is one sixty-fourth of the larger extent, plus
/// one, spans any extent within the domain in at most 65 cells.
proof fn lemma_grid_dim(extent: int, m: int, cs: int)
    requires
        0 <= extent <= m,
        cs == m / 64 + 1,
    ensures
        0 <= extent / cs <= 64,
        1 <= cs,
{
    lemma_div_pos_is_pos(m, 64);
    lemma_div_is_ordered(extent, m, 64);
    lemma_fundamental_div_mod(extent, 64);
    assert(extent < 65 * cs) by (nonlinear_arith)
        requires extent == 64 * (extent / 64) + extent % 64 && 0 <= extent % 64 < 64 && extent / 64
            <= m / 64 && 0 <= extent / 64 && cs == m / 64 + 1;
    lemma_multiply_divide_lt(extent, cs, 65);
    lemma_div_pos_is_pos(extent, cs);
}

/// Row-major cell indices are in range and identify the cell coordinates.
proof fn lemma_cell_index(cx1: int, cy1: int, cx2: int, cy2: int, gw: int, gh: int)
    requires
        0 <= cx1 < gw,
        0 <= cy1 < gh,
        0 <= cx2 < gw,
        0 <= cy2 < gh,
    ensures
        0 <= cy1 * gw + cx1 < gw * gh,
        cy1 * gw + cx1 == cy2 * gw + cx2 ==> cx1 == cx2 && cy1 == cy2,
{
    assert(0 <= cy1 * gw + cx1 < gw * gh) by (nonlinear_arith)
        requires 0 <= cx1 < gw && 0 <= cy1 < gh;
    if cy1 * gw + cx1 == cy2 * gw + cx2 {
        assert(cx1 == cx2 && cy1 == cy2) by (nonlinear_arith)
            requires 0 <= cx1 < gw && 0 <= cx2 < gw && cy1 * gw + cx1 == cy2 * gw + cx2;
    }
}

/// The point index stored at slot `s` of cell `c`.
spec fn cell_slot(cells: Seq<Vec<usize>>, c: int, s: int) -> usize {
    cells[c]@[s]
}

/// Cell `c` of the grid stores the point index `i`.
spec fn cell_contains(cells: Seq<Vec<usize>>, c: int, i: usize) -> bool {
    exists|s: int| 0 <= s < cells[c]@.len() && cells[c]@[s] == i
}

/// The acceleration grid is consistent with the point list: bounded
/// dimensions, every point's cell coordinates in range, every stored index a
/// valid point index stored in the cell of its position, no index stored
/// twice in a cell, and every point index stored in its cell.
spec fn grid_ok(
    points: Seq<Vec2i>,
    origin: Vec2i,
    cs: int,
    gw: int,
    gh: int,
    cells: Seq<Vec<usize>>,
) -> bool {
    &&& 1 <= cs
    &&& 1 <= gw <= 65
    &&& 1 <= gh <= 65
    &&& cells.len() == gw * gh
    &&& forall|i: int|
        0 <= i < points.len() ==> 0 <= grid_cx(#[trigger] points[i], origin, cs) < gw && 0
            <= grid_cy(points[i], origin, cs) < gh
    &&& forall|c: int, s: int|
        0 <= c < cells.len() && 0 <= s < cells[c]@.len() ==> #[trigger] cells[c]@[s]
            < points.len() && grid_cell(points[cells[c]@[s] as int], origin, cs, gw) == c
    &&& forall|c: int, s1: int, s2: int|
        0 <= c < cells.len() && 0 <= s1 < s2 < cells[c]@.len() ==> #[trigger] cells[c]@[s1]
            != #[trigger] cells[c]@[s2]
    &&& forall|i: int|
        0 <= i < points.len() ==> cell_contains(
            cells,
            grid_cell(#[trigger] points[i], origin, cs, gw),
            i as usize,
        )
}

/// Cell coordinate of position `v` along one axis, clamped into the grid:
/// everything left of the grid maps to the first cell, everything right of
/// it to the last.
spec fn clamp_cell_s(v: int, o: int, cs: int, g: int) -> int {
    if v <= o {
        0
    } else if (v - o) / cs >= g {
        g - 1
    } else {
        (v - o) / cs
    }
}

/// A point whose coordinate lies between the query bounds lies in a clamped
/// cell between the bounds' clamped cells.
proof fn lemma_clamp_covers(px: int, qlo: int, qhi: int, o: int, cs: int, g: int)
    requires
        1 <= cs,
        1 <= g,
        qlo <= px <= qhi,
        0 <= px - o,
        (px - o) / cs < g,
    ensures
        clamp_cell_s(qlo, o, cs, g) <= (px - o) / cs <= clamp_cell_s(qhi, o, cs, g),
{
    lemma_div_pos_is_pos(px - o, cs);
    if qlo <= o {
    } else {
        lemma_div_is_ordered(qlo - o, px - o, cs);
    }
    if qhi <= o {
    } else {
        lemma_div_is_ordered(px - o, qhi - o, cs);
    }
}

/// Clamped cell coordinates are ordered and within the grid.
proof fn lemma_clamp_mono(v1: int, v2: int, o: int, cs: int, g: int)
    requires
        v1 <= v2,
        1 <= cs,
        1 <= g,
    ensures
        clamp_cell_s(v1, o, cs, g) <= clamp_cell_s(v2, o, cs, g),
        0 <= clamp_cell_s(v1, o, cs, g) < g,
        0 <= clamp_cell_s(v2, o, cs, g) < g,
{
    if v1 > o {
        lemma_div_pos_is_pos(v1 - o, cs);
    }
    if v2 > o {
        lemma_div_pos_is_pos(v2 - o, cs);
    }
    if v1 > o && v2 > o {
        lemma_div_is_ordered(v1 - o, v2 - o, cs);
    }
}

/// Within a radius, each coordinate stays within the radius.
proof fn lemma_dist_axis(dx: int, dy: int, r: int)
    requires
        0 <= r,
        dx * dx + dy * dy <= r * r,
    ensures
        -r <= dx <= r,
        -r <= dy <= r,
{
    assert(-r <= dx <= r && -r <= dy <= r) by (nonlinear_arith)
        requires 0 <= r && dx * dx + dy * dy <= r * r;
}

/// Why a geometric query was rejected. Queries never clamp their arguments.
#[derive(Clone, Copy, PartialEq, Eq, Structural, Debug)]
pub enum GeometryError {
    /// A negative radius.
    NegativeRadius,
    /// A coordinate, radius or index outside the accepted range.
    OutOfRange,
    /// A zero direction vector, which selects no direction.
    ZeroDirection,
}

/// Axis-aligned bounding range of the point list.
#[derive(Clone, Copy, PartialEq, Eq, Structural, Debug)]
pub struct Domain {
    pub start: Vec2i,
    pub end: Vec2i,
}

/// `d` is the tight bounding box of `ps`: it encloses every point and each of
/// its four sides is attained.
pub open spec fn is_bounding(d: Domain, ps: Seq<Vec2i>) -> bool {
    &&& forall|k: int|
        0 <= k < ps.len() ==> d.start.x <= (#[trigger] ps[k]).x <= d.end.x && d.start.y <= ps[k].y
            <= d.end.y
    &&& exists|k: int| 0 <= k < ps.len() && (#[trigger] ps[k]).x == d.start.x
    &&& exists|k: int| 0 <= k < ps.len() && (#[trigger] ps[k]).x == d.end.x
    &&& exists|k: int| 0 <= k < ps.len() && (#[trigger] ps[k]).y == d.start.y
    &&& exists|k: int| 0 <= k < ps.len() && (#[trigger] ps[k]).y == d.end.y
}

/// The spatial index over a layout's points, generic over the color type the
/// index-aligned color buffer holds.
#[derive(Debug)]
pub struct SpatialIndex<C> {
    points: Vec<Vec2i>,
    vertex_flags: Vec<bool>,
    colors: Vec<C>,
    center: Vec2i,
    domain: Domain,
    cell_size: i64,
    grid_w: usize,
    grid_h: usize,
    cells: Vec<Vec<usize>>,
}

impl<C> SpatialIndex<C> {
    /// Column of the grid cell holding `p`.
    spec fn cx_of(self, p: Vec2i) -> int {
        grid_cx(p, self.domain.start, self.cell_size as int)
    }

    /// Row of the grid cell holding `p`.
    spec fn cy_of(self, p: Vec2i) -> int {
        grid_cy(p, self.domain.start, self.cell_size as int)
    }

    /// Index of the grid cell holding `p` in the row-major cell list.
    spec fn cell_of(self, p: Vec2i) -> int {
        grid_cell(p, self.domain.start, self.cell_size as int, self.grid_w as int)
    }

    /// Structural invariant: the color buffer and the vertex flags stay
    /// index-aligned with the never-empty point list, every coordinate is in
    /// range, the domain is the tight bounding box of the points, and the
    /// acceleration grid partitions the point indices by cell: every point
    /// index appears in the cell holding its position and in no other place.
    #[verifier::type_invariant]
    spec fn wf(self) -> bool {
        &&& self.colors@.len() == self.points@.len()
        &&& self.vertex_flags@.len() == self.points@.len()
        &&& 1 <= self.points@.len() <= MAX_POINTS
        &&& forall|k: int| 0 <= k < self.points@.len() ==> in_bounds(#[trigger] self.points@[k])
        &&& in_bounds(self.center)
        &&& is_bounding(self.domain, self.points@)
        &&& grid_ok(
            self.points@,
            self.domain.start,
            self.cell_size as int,
            self.grid_w as int,
            self.grid_h as int,
            self.cells@,
        )
    }

    /// The positions, in point-index order.
    pub closed spec fn pos_seq(self) -> Seq<Vec2i> {
        self.points@
    }

    /// The colors, in point-index order.
    pub closed spec fn color_seq(self) -> Seq<C> {
        self.colors@
    }

    /// Which points are segment vertices, in point-index order.
    pub closed spec fn vertex_seq(self) -> Seq<bool> {
        self.vertex_flags@
    }

    /// The declared center.
    pub closed spec fn spec_center(self) -> Vec2i {
        self.center
    }

    /// The derived bounding domain.
    pub closed spec fn spec_domain(self) -> Domain {
        self.domain
    }

    /// Everything but the color buffer: what no operation after construction
    /// ever changes.
    pub open spec fn same_layout(self, other: Self) -> bool {
        &&& self.pos_seq() == other.pos_seq()
        &&& self.vertex_seq() == other.vertex_seq()
        &&& self.spec_center() == other.spec_center()
        &&& self.spec_domain() == other.spec_domain()
    }
}

impl<C: Copy> SpatialIndex<C> {
    /// Number of points; equals the length of the color buffer and of the
    /// vertex flags at all times.
    pub fn num_points(&self) -> (r: usize)
        ensures
            r == self.pos_seq().len(),
            r == self.color_seq().len(),
            r == self.vertex_seq().len(),
            1 <= r <= MAX_POINTS,
    {
        proof {
            use_type_invariant(self);
        }
        self.points.len()
    }

    /// The declared center point.
    pub fn center_point(&self) -> (r: Vec2i)
        ensures
            r == self.spec_center(),
            in_bounds(r),
    {
        proof {
            use_type_invariant(self);
        }
        self.center
    }

    /// The bounding domain, tight around the points.
    pub fn domain(&self) -> (r: Domain)
        ensures
            r == self.spec_domain(),
            is_bounding(r, self.pos_seq()),
    {
        proof {
            use_type_invariant(self);
        }
        self.domain
    }

    /// Position of point `i`.
    pub fn position_at(&self, i: usize) -> (r: Vec2i)
        requires
            i < self.pos_seq().len(),
        ensures
            r == self.pos_seq()[i as int],
            in_bounds(r),
    {
        proof {
            use_type_invariant(self);
        }
        self.points[i]
    }

    /// Color of point `i`.
    pub fn color_at(&self, i: usize) -> (r: C)
        requires
            i < self.color_seq().len(),
        ensures
            r == self.color_seq()[i as int],
    {
        proof {
            use_type_invariant(self);
        }
        self.colors[i]
    }

    /// Whether point `i` is a segment vertex.
    pub fn is_vertex(&self, i: usize) -> (r: bool)
        requires
            i < self.vertex_seq().len(),
        ensures
            r == self.vertex_seq()[i as int],
    {
        proof {
            use_type_invariant(self);
        }
        self.vertex_flags[i]
    }

    /// The color buffer itself, index-aligned with the points.
    pub fn colors(&self) -> (r: &Vec<C>)
        ensures
            r@ == self.color_seq(),
            r@.len() == self.pos_seq().len(),
    {
        proof {
            use_type_invariant(self);
        }
        &self.colors
    }

    /// The positions themselves, in point-index order.
    pub fn positions(&self) -> (r: &Vec<Vec2i>)
        ensures
            r@ == self.pos_seq(),
    {
        proof {
            use_type_invariant(self);
        }
        &self.points
    }

    /// A snapshot of every point's position and current color, in
    /// point-index order; always exactly one pair per point.
    pub fn colors_and_positions(&self) -> (r: Vec<(Vec2i, C)>)
        ensures
            r@.len() == self.pos_seq().len(),
            forall|k: int|
                0 <= k < r@.len() ==> #[trigger] r@[k] == (self.pos_seq()[k], self.color_seq()[k]),
    {
        proof {
            use_type_invariant(self);
        }
        let mut out: Vec<(Vec2i, C)> = Vec::new();
        let mut i: usize = 0;
        while i < self.points.len()
            invariant
                self.wf(),
                i <= self.points@.len(),
                out@.len() == i,
                forall|k: int|
                    0 <= k < i ==> #[trigger] out@[k] == (self.points@[k], self.colors@[k]),
            decreases self.points@.len() - i,
        {
            out.push((self.points[i], self.colors[i]));
            i = i + 1;
        }
        out
    }

    /// Overwrite every entry of the color buffer with `c`.
    pub fn set_all(&mut self, c: C)
        ensures
            final(self).same_layout(*old(self)),
            final(self).color_seq() == Seq::new(old(self).color_seq().len(), |k: int| c),
    {
        proof {
            use_type_invariant(&*self);
        }
        let n = self.colors.len();
        let mut i: usize = 0;
        while i < n
            invariant
                self.wf(),
                n == self.colors@.len(),
                i <= n,
                self.same_layout(*old(self)),
                forall|k: int| 0 <= k < i ==> self.colors@[k] == c,
                forall|k: int| i <= k < n ==> self.colors@[k] == old(self).colors@[k],
            decreases n - i,
        {
            self.colors[i] = c;
            i = i + 1;
        }
        proof {
            assert(self.color_seq() =~= Seq::new(old(self).color_seq().len(), |k: int| c));
        }
    }

    /// Overwrite the color of point `i`; rejects an index past the points.
    pub fn set_at(&mut self, i: usize, c: C) -> (r: Result<(), GeometryError>)
        ensures
            final(self).same_layout(*old(self)),
            r is Ok <==> i < old(self).color_seq().len(),
            r is Ok ==> final(self).color_seq() == old(self).color_seq().update(i as int, c),
            r is Err ==> final(self).color_seq() == old(self).color_seq() && r == Err::<
                (),
                GeometryError,
            >(GeometryError::OutOfRange),
    {
        proof {
            use_type_invariant(&*self);
        }
        if i < self.colors.len() {
            self.colors[i] = c;
            Ok(())
        } else {
            Err(GeometryError::OutOfRange)
        }
    }

    /// Overwrite the color of exactly the points that are segment vertices.
    pub fn set_at_vertices(&mut self, c: C)
        ensures
            final(self).same_layout(*old(self)),
            final(self).color_seq().len() == old(self).color_seq().len(),
            forall|k: int|
                0 <= k < old(self).color_seq().len() ==> final(self).color_seq()[k] == (
                if old(self).vertex_seq()[k] {
                    c
                } else {
                    old(self).color_seq()[k]
                }),
    {
        proof {
            use_type_invariant(&*self);
        }
        let n = self.colors.len();
        let mut i: usize = 0;
        while i < n
            invariant
                self.wf(),
                n == self.colors@.len(),
                i <= n,
                self.same_layout(*old(self)),
                forall|k: int|
                    0 <= k < i ==> self.colors@[k] == (if old(self).vertex_flags@[k] {
                        c
                    } else {
                        old(self).colors@[k]
                    }),
                forall|k: int| i <= k < n ==> self.colors@[k] == old(self).colors@[k],
            decreases n - i,
        {
            if self.vertex_flags[i] {
                self.colors[i] = c;
            }
            i = i + 1;
        }
    }
}

/// Dot product of `p - refp` with `dir`: how far `p` lies in direction `dir`
/// from the reference point.
pub open spec fn dir_score(p: Vec2i, refp: Vec2i, dir: Vec2i) -> int {
    dot(Vec2i::spec_new(p.x - refp.x, p.y - refp.y), dir)
}

/// Index of the point with the highest [`dir_score`] among the first `n`,
/// lowest index on ties.
pub open spec fn argmax_upto(ps: Seq<Vec2i>, refp: Vec2i, dir: Vec2i, n: int) -> int
    decreases n,
{
    if n <= 1 {
        0
    } else {
        let prev = argmax_upto(ps, refp, dir, n - 1);
        if dir_score(ps[n - 1], refp, dir) > dir_score(ps[prev], refp, dir) {
            n - 1
        } else {
            prev
        }
    }
}

/// Index of the point the direction `dir` from `refp` selects: the arg-max
/// of the dot-product score, lowest index on ties.
pub open spec fn dir_argmax(ps: Seq<Vec2i>, refp: Vec2i, dir: Vec2i) -> int {
    argmax_upto(ps, refp, dir, ps.len() as int)
}

/// The directional selection law: the selected index is in range, no point
/// scores higher, and every point below the selected index scores strictly
/// lower — so among equally scoring points the lowest index wins, and
/// exactly one point is selected.
pub proof fn lemma_dir_argmax_props(ps: Seq<Vec2i>, refp: Vec2i, dir: Vec2i, n: int)
    requires
        1 <= n <= ps.len(),
    ensures
        0 <= argmax_upto(ps, refp, dir, n) < n,
        forall|j: int|
            0 <= j < n ==> dir_score(#[trigger] ps[j], refp, dir) <= dir_score(
                ps[argmax_upto(ps, refp, dir, n)],
                refp,
                dir,
            ),
        forall|j: int|
            0 <= j < argmax_upto(ps, refp, dir, n) ==> dir_score(#[trigger] ps[j], refp, dir)
                < dir_score(ps[argmax_upto(ps, refp, dir, n)], refp, dir),
    decreases n,
{
    if n > 1 {
        lemma_dir_argmax_props(ps, refp, dir, n - 1);
    }
}

impl<C: Copy> SpatialIndex<C> {
    /// Build an index from a parsed layout: sample the points, flag the
    /// vertices, fill the color buffer with `initial`, and derive the
    /// bounding domain. Fails only when the layout would exceed the point
    /// cap, and then produces nothing.
    pub fn build(layout: &Layout, initial: C) -> (r: Result<SpatialIndex<C>, LayoutParseError>)
        requires
            layout.wf(),
        ensures
            match r {
                Ok(ix) => {
                    &&& ix.pos_seq() == layout_points_s(layout.vertices@, layout.density as int)
                    &&& ix.vertex_seq() == layout_flags_s(layout.vertices@, layout.density as int)
                    &&& ix.color_seq() == Seq::new(ix.pos_seq().len(), |k: int| initial)
                    &&& ix.spec_center() == layout.center
                    &&& 1 + crate::layout::chain_points_s(
                        layout.vertices@,
                        layout.density as int,
                    ).len() <= MAX_POINTS
                },
                Err(e) => {
                    &&& e == LayoutParseError::TooManyPoints
                    &&& 1 + crate::layout::chain_points_s(
                        layout.vertices@,
                        layout.density as int,
                    ).len() > MAX_POINTS
                },
            },
    {
        let (points, vertex_flags) = match sample_chain(&layout.vertices, layout.density) {
            Ok(pf) => pf,
            Err(e) => { return Err(e) },
        };
        let n = points.len();
        let mut colors: Vec<C> = Vec::new();
        let mut i: usize = 0;
        while i < n
            invariant
                i <= n,
                colors@.len() == i,
                forall|k: int| 0 <= k < i ==> colors@[k] == initial,
            decreases n - i,
        {
            colors.push(initial);
            i = i + 1;
        }
        let p0 = points[0];
        let mut dom = Domain { start: p0, end: p0 };
        proof {
            let pre = points@.subrange(0, 1);
            assert(pre.len() == 1 && pre[0] == p0);
            assert(is_bounding(dom, pre));
        }
        let mut t: usize = 1;
        while t < n
            invariant
                1 <= t <= n,
                n == points@.len(),
                forall|k: int| 0 <= k < n ==> in_bounds(#[trigger] points@[k]),
                is_bounding(dom, points@.subrange(0, t as int)),
            decreases n - t,
        {
            let ghost old_dom = dom;
            let p = points[t];
            if p.x < dom.start.x {
                dom.start.x = p.x;
            }
            if p.x > dom.end.x {
                dom.end.x = p.x;
            }
            if p.y < dom.start.y {
                dom.start.y = p.y;
            }
            if p.y > dom.end.y {
                dom.end.y = p.y;
            }
            proof {
                let pre = points@.subrange(0, t as int);
                let cur = points@.subrange(0, t + 1 as int);
                assert(forall|k: int| 0 <= k < pre.len() ==> pre[k] == cur[k]);
                assert(cur[t as int] == p);
                assert(forall|k: int|
                    0 <= k < cur.len() ==> dom.start.x <= (#[trigger] cur[k]).x <= dom.end.x
                        && dom.start.y <= cur[k].y <= dom.end.y);
                if dom.start.x == old_dom.start.x {
                    let witness = choose|k: int| 0 <= k < pre.len() && (#[trigger] pre[k]).x
                        == old_dom.start.x;
                    assert(cur[witness].x == dom.start.x);
                } else {
                    assert(cur[t as int].x == dom.start.x);
                }
                if dom.end.x == old_dom.end.x {
                    let witness = choose|k: int| 0 <= k < pre.len() && (#[trigger] pre[k]).x
                        == old_dom.end.x;
                    assert(cur[witness].x == dom.end.x);
                } else {
                    assert(cur[t as int].x == dom.end.x);
                }
                if dom.start.y == old_dom.start.y {
                    let witness = choose|k: int| 0 <= k < pre.len() && (#[trigger] pre[k]).y
                        == old_dom.start.y;
                    assert(cur[witness].y == dom.start.y);
                } else {
                    assert(cur[t as int].y == dom.start.y);
                }
                if dom.end.y == old_dom.end.y {
                    let witness = choose|k: int| 0 <= k < pre.len() && (#[trigger] pre[k]).y
                        == old_dom.end.y;
                    assert(cur[witness].y == dom.end.y);
                } else {
                    assert(cur[t as int].y == dom.end.y);
                }
            }
            t = t + 1;
        }
        proof {
            assert(points@.subrange(0, n as int) =~= points@);
        }
        let width: i64 = dom.end.x - dom.start.x;
        let height: i64 = dom.end.y - dom.start.y;
        proof {
            assert(dom.start.x <= points@[0].x <= dom.end.x);
            assert(dom.start.y <= points@[0].y <= dom.end.y);
        }
        let mx: i64 = if width > height {
            width
        } else {
            height
        };
        let cs: i64 = mx / 64 + 1;
        let gwq: i64 = width / cs;
        let ghq: i64 = height / cs;
        proof {
            lemma_grid_dim(width as int, mx as int, cs as int);
            lemma_grid_dim(height as int, mx as int, cs as int);
        }
        let gw: usize = (gwq + 1) as usize;
        let gh: usize = (ghq + 1) as usize;
        proof {
            assert(gw * gh <= 4225) by (nonlinear_arith)
                requires 1 <= gw <= 65 && 1 <= gh <= 65;
            assert(1 <= gw * gh) by (nonlinear_arith)
                requires 1 <= gw && 1 <= gh;
        }
        let total: usize = gw * gh;
        let mut cells: Vec<Vec<usize>> = Vec::new();
        while cells.len() < total
            invariant
                cells@.len() <= total,
                forall|c: int| 0 <= c < cells@.len() ==> (#[trigger] cells@[c])@.len() == 0,
            decreases total - cells@.len(),
        {
            cells.push(Vec::new());
        }
        let ghost origin = dom.start;
        proof {
            assert forall|k: int| 0 <= k < points@.len() implies 0 <= grid_cx(
                #[trigger] points@[k],
                origin,
                cs as int,
            ) < gw as int && 0 <= grid_cy(points@[k], origin, cs as int) < gh as int by {
                lemma_div_pos_is_pos(points@[k].x - origin.x, cs as int);
                lemma_div_is_ordered(points@[k].x - origin.x, width as int, cs as int);
                lemma_div_pos_is_pos(points@[k].y - origin.y, cs as int);
                lemma_div_is_ordered(points@[k].y - origin.y, height as int, cs as int);
            }
        }
        let mut t2: usize = 0;
        while t2 < n
            invariant
                t2 <= n,
                n == points@.len(),
                1 <= n,
                forall|k: int| 0 <= k < n ==> in_bounds(#[trigger] points@[k]),
                forall|k: int|
                    0 <= k < n ==> 0 <= grid_cx(#[trigger] points@[k], origin, cs as int)
                        < gw as int && 0 <= grid_cy(points@[k], origin, cs as int) < gh as int,
                is_bounding(dom, points@),
                origin == dom.start,
                width == dom.end.x - dom.start.x,
                height == dom.end.y - dom.start.y,
                1 <= cs,
                gwq == width as int / cs as int,
                ghq == height as int / cs as int,
                0 <= gwq <= 64,
                0 <= ghq <= 64,
                gw == gwq + 1,
                gh == ghq + 1,
                cells@.len() == gw * gh,
                forall|c: int, s: int|
                    0 <= c < cells@.len() && 0 <= s < cells@[c]@.len() ==> #[trigger] cells@[c]@[s]
                        < t2 && grid_cell(
                        points@[cells@[c]@[s] as int],
                        origin,
                        cs as int,
                        gw as int,
                    ) == c,
                forall|c: int, s1: int, s2: int|
                    0 <= c < cells@.len() && 0 <= s1 < s2 < cells@[c]@.len()
                        ==> #[trigger] cells@[c]@[s1] != #[trigger] cells@[c]@[s2],
                forall|j: int|
                    0 <= j < t2 ==> cell_contains(
                        cells@,
                        grid_cell(#[trigger] points@[j], origin, cs as int, gw as int),
                        j as usize,
                    ),
            decreases n - t2,
        {
            let p = points[t2];
            let cx: i64 = (p.x - dom.start.x) / cs;
            let cy: i64 = (p.y - dom.start.y) / cs;
            proof {
                lemma_div_pos_is_pos(p.x - dom.start.x, cs as int);
                lemma_div_is_ordered(p.x - dom.start.x, width as int, cs as int);
                lemma_div_pos_is_pos(p.y - dom.start.y, cs as int);
                lemma_div_is_ordered(p.y - dom.start.y, height as int, cs as int);
                lemma_cell_index(cx as int, cy as int, cx as int, cy as int, gw as int, gh as int);
                assert(0 <= (cy as int) * (gw as int) <= 4160) by (nonlinear_arith)
                    requires 0 <= cy <= 64 && 1 <= gw <= 65;
            }
            let idx: usize = (cy as usize) * gw + (cx as usize);
            let ghost cells_before = cells@;
            let mut inner = slice_to_vec(cells[idx].as_slice());
            inner.push(t2);
            cells[idx] = inner;
            proof {
                assert(cells@ == cells_before.update(
                    idx as int,
                    cells@[idx as int],
                ));
                assert(cells@[idx as int]@ == cells_before[idx as int]@.push(t2 as usize));
                assert(grid_cell(points@[t2 as int], origin, cs as int, gw as int) == idx);
                assert forall|j: int| 0 <= j < t2 + 1 implies cell_contains(
                    cells@,
                    grid_cell(#[trigger] points@[j], origin, cs as int, gw as int),
                    j as usize,
                ) by {
                    let cj = grid_cell(points@[j], origin, cs as int, gw as int);
                    lemma_cell_index(
                        grid_cx(points@[j], origin, cs as int),
                        grid_cy(points@[j], origin, cs as int),
                        grid_cx(points@[j], origin, cs as int),
                        grid_cy(points@[j], origin, cs as int),
                        gw as int,
                        gh as int,
                    );
                    if j < t2 {
                        assert(cell_contains(cells_before, cj, j as usize));
                        let s0 = choose|s: int|
                            0 <= s < cells_before[cj]@.len() && cells_before[cj]@[s] == j as usize;
                        assert(cells@[cj]@[s0] == j as usize);
                    } else {
                        assert(cells@[cj]@[cells@[cj]@.len() - 1] == j as usize);
                    }
                }
            }
            t2 = t2 + 1;
        }
        proof {
            assert forall|i2: int| 0 <= i2 < points@.len() implies 0 <= grid_cell(
                #[trigger] points@[i2],
                origin,
                cs as int,
                gw as int,
            ) < cells@.len() by {
                lemma_cell_index(
                    grid_cx(points@[i2], origin, cs as int),
                    grid_cy(points@[i2], origin, cs as int),
                    grid_cx(points@[i2], origin, cs as int),
                    grid_cy(points@[i2], origin, cs as int),
                    gw as int,
                    gh as int,
                );
            }
            assert(grid_ok(points@, origin, cs as int, gw as int, gh as int, cells@));
        }
        Ok(
            SpatialIndex {
                points,
                vertex_flags,
                colors,
                center: layout.center,
                domain: dom,
                cell_size: cs,
                grid_w: gw,
                grid_h: gh,
                cells,
            },
        )
    }

    /// Build an index straight from a textual layout description. Succeeds
    /// exactly when the text parses, its density is acceptable, it holds at
    /// least one segment, and the sampled points fit the cap; no partial
    /// index is ever produced.
    #[verifier::rlimit(60)]
    pub fn new_from_str(text: &str, initial: C) -> (r: Result<SpatialIndex<C>, LayoutParseError>)
        ensures
            r is Ok ==> {
                let (c, d, vs) = parse_layout_s(text.spec_bytes())->Some_0;
                &&& layout_accepted(text.spec_bytes())
                &&& r->Ok_0.pos_seq() == layout_points_s(vs, d)
                &&& r->Ok_0.vertex_seq() == layout_flags_s(vs, d)
                &&& r->Ok_0.color_seq() == Seq::new(layout_points_s(vs, d).len(), |k: int| initial)
                &&& r->Ok_0.spec_center() == c
            },
            r == Err::<SpatialIndex<C>, LayoutParseError>(LayoutParseError::Malformed)
                <==> parse_layout_s(text.spec_bytes()) is None,
            r == Err::<SpatialIndex<C>, LayoutParseError>(LayoutParseError::BadDensity) <==> (
            parse_layout_s(text.spec_bytes()) is Some && !(0 < parse_layout_s(
                text.spec_bytes(),
            )->Some_0.1 <= crate::geometry::MAX_DENSITY)),
            r == Err::<SpatialIndex<C>, LayoutParseError>(LayoutParseError::EmptySegments) <==> (
            parse_layout_s(text.spec_bytes()) is Some && 0 < parse_layout_s(
                text.spec_bytes(),
            )->Some_0.1 <= crate::geometry::MAX_DENSITY && parse_layout_s(
                text.spec_bytes(),
            )->Some_0.2.len() < 2),
            r == Err::<SpatialIndex<C>, LayoutParseError>(LayoutParseError::TooManyPoints) <==> (
            layout_accepted(text.spec_bytes()) && 1 + crate::layout::chain_points_s(
                parse_layout_s(text.spec_bytes())->Some_0.2,
                parse_layout_s(text.spec_bytes())->Some_0.1,
            ).len() > MAX_POINTS),
    {
        let layout = match parse_layout(text) {
            Ok(l) => l,
            Err(e) => { return Err(e) },
        };
        SpatialIndex::build(&layout, initial)
    }

    /// Index of the single point that lies furthest in direction `dir` from
    /// the reference point `refp` (dot-product arg-max, lowest index on
    /// ties), without touching any color.
    pub fn index_at_direction_from(&self, dir: Vec2i, refp: Vec2i) -> (r: Result<
        usize,
        GeometryError,
    >)
        ensures
            r is Ok <==> ((dir.x != 0 || dir.y != 0) && in_bounds(dir) && in_bounds(refp)),
            r is Ok ==> r->Ok_0 == dir_argmax(self.pos_seq(), refp, dir) && r->Ok_0
                < self.pos_seq().len(),
            dir.x == 0 && dir.y == 0 ==> r == Err::<usize, GeometryError>(
                GeometryError::ZeroDirection,
            ),
            (dir.x != 0 || dir.y != 0) && !(in_bounds(dir) && in_bounds(refp)) ==> r == Err::<
                usize,
                GeometryError,
            >(GeometryError::OutOfRange),
    {
        proof {
            use_type_invariant(self);
        }
        if dir.x == 0 && dir.y == 0 {
            return Err(GeometryError::ZeroDirection);
        }
        if !(-MAX_COORD <= dir.x && dir.x <= MAX_COORD && -MAX_COORD <= dir.y && dir.y <= MAX_COORD
            && -MAX_COORD <= refp.x && refp.x <= MAX_COORD && -MAX_COORD <= refp.y && refp.y
            <= MAX_COORD) {
            return Err(GeometryError::OutOfRange);
        }
        let n = self.points.len();
        let mut best: usize = 0;
        let mut best_score: i128 = dot_from(self.points[0], refp, dir);
        let mut i: usize = 1;
        while i < n
            invariant
                self.wf(),
                1 <= i <= n,
                n == self.points@.len(),
                in_bounds(dir),
                in_bounds(refp),
                best == argmax_upto(self.points@, refp, dir, i as int),
                0 <= best < i,
                best_score == dir_score(self.points@[best as int], refp, dir),
            decreases n - i,
        {
            let s = dot_from(self.points[i], refp, dir);
            if s > best_score {
                best = i;
                best_score = s;
            }
            i = i + 1;
        }
        Ok(best)
    }

    /// Overwrite the color of the single point that lies furthest in
    /// direction `dir` from the reference point `refp` (dot-product arg-max,
    /// lowest index on ties); returns its index.
    pub fn set_at_direction_from(&mut self, dir: Vec2i, refp: Vec2i, c: C) -> (r: Result<
        usize,
        GeometryError,
    >)
        ensures
            final(self).same_layout(*old(self)),
            r is Ok <==> ((dir.x != 0 || dir.y != 0) && in_bounds(dir) && in_bounds(refp)),
            r is Ok ==> r->Ok_0 == dir_argmax(old(self).pos_seq(), refp, dir),
            r is Ok ==> final(self).color_seq() == old(self).color_seq().update(
                r->Ok_0 as int,
                c,
            ),
            r is Err ==> final(self).color_seq() == old(self).color_seq(),
            dir.x == 0 && dir.y == 0 ==> r == Err::<usize, GeometryError>(
                GeometryError::ZeroDirection,
            ),
            (dir.x != 0 || dir.y != 0) && !(in_bounds(dir) && in_bounds(refp)) ==> r == Err::<
                usize,
                GeometryError,
            >(GeometryError::OutOfRange),
    {
        proof {
            use_type_invariant(&*self);
        }
        let best = match self.index_at_direction_from(dir, refp) {
            Ok(b) => b,
            Err(e) => { return Err(e) },
        };
        self.colors[best] = c;
        Ok(best)
    }

    /// Overwrite the color of the single point that lies furthest in
    /// direction `dir` from the declared center; returns its index.
    pub fn set_at_direction(&mut self, dir: Vec2i, c: C) -> (r: Result<usize, GeometryError>)
        ensures
            final(self).same_layout(*old(self)),
            r is Ok <==> ((dir.x != 0 || dir.y != 0) && in_bounds(dir)),
            r is Ok ==> r->Ok_0 == dir_argmax(old(self).pos_seq(), old(self).spec_center(), dir)
                && final(self).color_seq() == old(self).color_seq().update(r->Ok_0 as int, c),
            r is Err ==> final(self).color_seq() == old(self).color_seq(),
            dir.x == 0 && dir.y == 0 ==> r == Err::<usize, GeometryError>(
                GeometryError::ZeroDirection,
            ),
            (dir.x != 0 || dir.y != 0) && !in_bounds(dir) ==> r == Err::<usize, GeometryError>(
                GeometryError::OutOfRange,
            ),
    {
        proof {
            use_type_invariant(&*self);
        }
        let ctr = self.center;
        self.set_at_direction_from(dir, ctr, c)
    }


    /// Clamped cell coordinate of position `v` along one axis.
    fn cell_clamp(v: i64, o: i64, cs: i64, g: usize) -> (r: usize)
        requires
            1 <= cs,
            1 <= g <= 65,
            -2_000_000_000 <= v <= 2_000_000_000,
            -2_000_000_000 <= o <= 2_000_000_000,
        ensures
            r < g,
            r as int == clamp_cell_s(v as int, o as int, cs as int, g as int),
    {
        if v <= o {
            0
        } else {
            let q: i64 = (v - o) / cs;
            proof {
                lemma_div_pos_is_pos(v - o, cs as int);
            }
            if q >= g as i64 {
                g - 1
            } else {
                q as usize
            }
        }
    }

    /// Every point index stored in a grid cell of the given rectangle, each
    /// exactly once.
    fn candidates(&self, xlo: usize, xhi: usize, ylo: usize, yhi: usize) -> (r: Vec<usize>)
        requires
            xlo <= xhi < self.grid_w,
            ylo <= yhi < self.grid_h,
        ensures
            forall|a: int, b: int| 0 <= a < b < r@.len() ==> r@[a] != r@[b],
            forall|k: int|
                0 <= k < r@.len() ==> #[trigger] r@[k] < self.pos_seq().len() && xlo <= self.cx_of(
                    self.pos_seq()[r@[k] as int],
                ) <= xhi && ylo <= self.cy_of(self.pos_seq()[r@[k] as int]) <= yhi,
            forall|i: int|
                0 <= i < self.pos_seq().len() && xlo <= self.cx_of(#[trigger] self.pos_seq()[i])
                    <= xhi && ylo <= self.cy_of(self.pos_seq()[i]) <= yhi ==> r@.contains(
                    i as usize,
                ),
    {
        broadcast use vstd::seq_lib::lemma_seq_contains_after_push;

        proof {
            use_type_invariant(self);
        }
        let n = self.points.len();
        let gw = self.grid_w;
        let total = self.cells.len();
        let mut out: Vec<usize> = Vec::new();
        let mut c: usize = 0;
        while c < total
            invariant
                self.wf(),
                c <= total,
                total == self.cells@.len(),
                gw == self.grid_w,
                n == self.points@.len(),
                xlo <= xhi < self.grid_w,
                ylo <= yhi < self.grid_h,
                forall|a: int, b: int| 0 <= a < b < out@.len() ==> out@[a] != out@[b],
                forall|k: int|
                    0 <= k < out@.len() ==> #[trigger] out@[k] < n && xlo <= self.cx_of(
                        self.points@[out@[k] as int],
                    ) <= xhi && ylo <= self.cy_of(self.points@[out@[k] as int]) <= yhi,
                forall|k: int|
                    0 <= k < out@.len() ==> self.cell_of(self.points@[#[trigger] out@[k] as int])
                        < c,
                forall|i: int|
                    0 <= i < n && xlo <= self.cx_of(#[trigger] self.points@[i]) <= xhi && ylo
                        <= self.cy_of(self.points@[i]) <= yhi && self.cell_of(self.points@[i]) < c
                        ==> out@.contains(i as usize),
            decreases total - c,
        {
            let cgy = c / gw;
            let cgx = c % gw;
            if xlo <= cgx && cgx <= xhi && ylo <= cgy && cgy <= yhi {
                let row = &self.cells[c];
                let m = row.len();
                let mut s: usize = 0;
                while s < m
                    invariant
                        self.wf(),
                        s <= m,
                        c < self.cells@.len(),
                        row@ == self.cells@[c as int]@,
                        m == row@.len(),
                        gw == self.grid_w,
                        n == self.points@.len(),
                        xlo <= xhi < self.grid_w,
                        ylo <= yhi < self.grid_h,
                        xlo <= cgx <= xhi,
                        ylo <= cgy <= yhi,
                        cgy == c as int / gw as int,
                        cgx == c as int % gw as int,
                        forall|a: int, b: int| 0 <= a < b < out@.len() ==> out@[a] != out@[b],
                        forall|k: int|
                            0 <= k < out@.len() ==> #[trigger] out@[k] < n && xlo <= self.cx_of(
                                self.points@[out@[k] as int],
                            ) <= xhi && ylo <= self.cy_of(self.points@[out@[k] as int]) <= yhi,
                        forall|k: int|
                            0 <= k < out@.len() ==> self.cell_of(
                                self.points@[#[trigger] out@[k] as int],
                            ) < c || (self.cell_of(self.points@[out@[k] as int]) == c
                                && exists|s2: int| 0 <= s2 < s && #[trigger] cell_slot(
                                self.cells@,
                                c as int,
                                s2,
                            ) == out@[k]),
                        forall|i: int|
                            0 <= i < n && xlo <= self.cx_of(#[trigger] self.points@[i]) <= xhi
                                && ylo <= self.cy_of(self.points@[i]) <= yhi && self.cell_of(
                                self.points@[i],
                            ) < c ==> out@.contains(i as usize),
                        forall|s2: int|
                            0 <= s2 < s ==> out@.contains(
                                #[trigger] cell_slot(self.cells@, c as int, s2),
                            ),
                    decreases m - s,
                {
                    let e = row[s];
                    let ghost out_before = out@;
                    out.push(e);
                    proof {
                        assert(out@ == out_before.push(e));
                        assert(out@[out@.len() - 1] == e);
                        assert forall|x: usize| out_before.contains(x) implies out@.contains(
                            x,
                        ) by {
                            let w = choose|w: int|
                                0 <= w < out_before.len() && out_before[w] == x;
                            assert(out@[w] == x);
                        }
                        assert(out@.contains(e));
                        let pe = self.points@[e as int];
                        assert(self.cell_of(pe) == c);
                        lemma_cell_index(
                            self.cx_of(pe),
                            self.cy_of(pe),
                            self.cx_of(pe),
                            self.cy_of(pe),
                            self.grid_w as int,
                            self.grid_h as int,
                        );
                        vstd::arithmetic::div_mod::lemma_fundamental_div_mod_converse(
                            c as int,
                            gw as int,
                            self.cy_of(pe),
                            self.cx_of(pe),
                        );
                        assert(cell_slot(self.cells@, c as int, s as int) == e);
                        assert forall|a: int, b: int| 0 <= a < b < out@.len() implies out@[a]
                            != out@[b] by {
                            if b == out@.len() - 1 {
                                if self.cell_of(self.points@[out@[a] as int]) == c {
                                    let s2 = choose|s2: int|
                                        0 <= s2 < s && cell_slot(self.cells@, c as int, s2)
                                            == out@[a];
                                    assert(self.cells@[c as int]@[s2] != self.cells@[c as int]@[
                                        s as int]);
                                }
                            }
                        }
                    }
                    s = s + 1;
                }
                proof {
                    assert forall|i: int|
                        0 <= i < n && xlo <= self.cx_of(#[trigger] self.points@[i]) <= xhi && ylo
                            <= self.cy_of(self.points@[i]) <= yhi && self.cell_of(self.points@[i])
                            < c + 1 implies out@.contains(i as usize) by {
                        let p = self.points@[i];
                        if self.cell_of(p) == c {
                            assert(cell_contains(self.cells@, self.cell_of(p), i as usize));
                            let s0 = choose|s0: int|
                                0 <= s0 < self.cells@[self.cell_of(p)]@.len() && self.cells@[
                                self.cell_of(p)]@[s0] == i as usize;
                            assert(cell_slot(self.cells@, c as int, s0) == i as usize);
                            assert(out@.contains(cell_slot(self.cells@, c as int, s0)));
                        }
                    }
                }
            } else {
                proof {
                    assert forall|i: int|
                        0 <= i < n && xlo <= self.cx_of(#[trigger] self.points@[i]) <= xhi && ylo
                            <= self.cy_of(self.points@[i]) <= yhi && self.cell_of(self.points@[i])
                            < c + 1 implies out@.contains(i as usize) by {
                        let p = self.points@[i];
                        if self.cell_of(p) == c {
                            lemma_cell_index(
                                self.cx_of(p),
                                self.cy_of(p),
                                self.cx_of(p),
                                self.cy_of(p),
                                self.grid_w as int,
                                self.grid_h as int,
                            );
                            vstd::arithmetic::div_mod::lemma_fundamental_div_mod_converse(
                                c as int,
                                gw as int,
                                self.cy_of(p),
                                self.cx_of(p),
                            );
                            assert(cgx == self.cx_of(p) && cgy == self.cy_of(p));
                            assert(false);
                        }
                    }
                }
            }
            c = c + 1;
        }
        proof {
            assert forall|i: int|
                0 <= i < n && xlo <= self.cx_of(#[trigger] self.points@[i]) <= xhi && ylo
                    <= self.cy_of(self.points@[i]) <= yhi implies out@.contains(i as usize) by {
                let p = self.points@[i];
                lemma_cell_index(
                    self.cx_of(p),
                    self.cy_of(p),
                    self.cx_of(p),
                    self.cy_of(p),
                    self.grid_w as int,
                    self.grid_h as int,
                );
            }
        }
        out
    }

    /// Indices of exactly the points whose Euclidean distance to `center` is
    /// at most `radius`, each exactly once. Answered from the cell grid: only
    /// the cells overlapping the query square are visited. A negative radius
    /// is an error, never an empty result.
    pub fn query_within_distance(&self, center: Vec2i, radius: i64) -> (r: Result<
        Vec<usize>,
        GeometryError,
    >)
        ensures
            radius < 0 ==> r == Err::<Vec<usize>, GeometryError>(GeometryError::NegativeRadius),
            radius >= 0 && !(in_bounds(center) && radius <= MAX_COORD) ==> r == Err::<
                Vec<usize>,
                GeometryError,
            >(GeometryError::OutOfRange),
            r is Ok <==> (radius >= 0 && in_bounds(center) && radius <= MAX_COORD),
            r is Ok ==> {
                let v = r->Ok_0@;
                &&& forall|a: int, b: int| 0 <= a < b < v.len() ==> v[a] != v[b]
                &&& forall|k: int|
                    0 <= k < v.len() ==> #[trigger] v[k] < self.pos_seq().len() && dist2(
                        self.pos_seq()[v[k] as int],
                        center,
                    ) <= radius * radius
                &&& forall|i: int|
                    0 <= i < self.pos_seq().len() && dist2(#[trigger] self.pos_seq()[i], center)
                        <= radius * radius ==> v.contains(i as usize)
            },
    {
        broadcast use vstd::seq_lib::lemma_seq_contains_after_push;

        proof {
            use_type_invariant(self);
        }
        if radius < 0 {
            return Err(GeometryError::NegativeRadius);
        }
        if !(-MAX_COORD <= center.x && center.x <= MAX_COORD && -MAX_COORD <= center.y && center.y
            <= MAX_COORD && radius <= MAX_COORD) {
            return Err(GeometryError::OutOfRange);
        }
        proof {
            assert(0 <= (radius as int) * (radius as int) <= 1_000_000_000_000_000_000)
                by (nonlinear_arith)
                requires 0 <= radius <= 1_000_000_000;
        }
        let rr: u64 = ((radius as i128) * (radius as i128)) as u64;
        let ox = self.domain.start.x;
        let oy = self.domain.start.y;
        let cs = self.cell_size;
        let xlo = Self::cell_clamp(center.x - radius, ox, cs, self.grid_w);
        let xhi = Self::cell_clamp(center.x + radius, ox, cs, self.grid_w);
        let ylo = Self::cell_clamp(center.y - radius, oy, cs, self.grid_h);
        let yhi = Self::cell_clamp(center.y + radius, oy, cs, self.grid_h);
        proof {
            lemma_clamp_mono(
                center.x - radius,
                center.x + radius,
                ox as int,
                cs as int,
                self.grid_w as int,
            );
            lemma_clamp_mono(
                center.y - radius,
                center.y + radius,
                oy as int,
                cs as int,
                self.grid_h as int,
            );
        }
        let cands = self.candidates(xlo, xhi, ylo, yhi);
        let ghost cseq = cands@;
        let m = cands.len();
        let mut out: Vec<usize> = Vec::new();
        let mut t: usize = 0;
        while t < m
            invariant
                self.wf(),
                t <= m,
                m == cseq.len(),
                cands@ == cseq,
                in_bounds(center),
                rr == (radius as int) * (radius as int),
                forall|a: int, b: int| 0 <= a < b < cseq.len() ==> cseq[a] != cseq[b],
                forall|k: int| 0 <= k < cseq.len() ==> #[trigger] cseq[k] < self.points@.len(),
                forall|a: int, b: int| 0 <= a < b < out@.len() ==> out@[a] != out@[b],
                forall|k: int|
                    0 <= k < out@.len() ==> #[trigger] out@[k] < self.points@.len() && dist2(
                        self.points@[out@[k] as int],
                        center,
                    ) <= rr,
                forall|j: int|
                    0 <= j < t && dist2(self.points@[#[trigger] cseq[j] as int], center) <= rr
                        ==> out@.contains(cseq[j]),
                forall|k: int|
                    #![trigger out@[k]]
                    0 <= k < out@.len() ==> exists|j: int| 0 <= j < t && cseq[j] == out@[k],
            decreases m - t,
        {
            let e = cands[t];
            let ghost out_before = out@;
            let d2 = dist2_u64(self.points[e], center);
            if d2 <= rr {
                out.push(e);
                proof {
                    assert(out@ == out_before.push(e));
                    assert(out@[out@.len() - 1] == e);
                    assert forall|x: usize| out_before.contains(x) implies out@.contains(x) by {
                        let w = choose|w: int| 0 <= w < out_before.len() && out_before[w] == x;
                        assert(out@[w] == x);
                    }
                    assert(out@.contains(e));
                    assert forall|a: int, b: int| 0 <= a < b < out@.len() implies out@[a]
                        != out@[b] by {
                        if b == out@.len() - 1 {
                            let j0 = choose|j: int| 0 <= j < t && cseq[j] == out@[a];
                            assert(cseq[j0] != cseq[t as int]);
                        }
                    }
                    assert forall|k: int| #![trigger out@[k]] 0 <= k < out@.len() implies exists|
                        j: int,
                    |
                        0 <= j < t + 1 && cseq[j] == out@[k] by {
                        if k < out@.len() - 1 {
                            let j0 = choose|j: int| 0 <= j < t && cseq[j] == out_before[k];
                            assert(cseq[j0] == out@[k]);
                        } else {
                            assert(cseq[t as int] == out@[k]);
                        }
                    }
                }
            }
            t = t + 1;
        }
        proof {
            assert forall|i: int|
                0 <= i < self.points@.len() && dist2(#[trigger] self.points@[i], center) <= (
                radius as int) * (radius as int) implies out@.contains(i as usize) by {
                let p = self.points@[i];
                lemma_dist_axis(p.x - center.x, p.y - center.y, radius as int);
                lemma_clamp_covers(
                    p.x as int,
                    center.x - radius,
                    center.x + radius,
                    ox as int,
                    cs as int,
                    self.grid_w as int,
                );
                lemma_clamp_covers(
                    p.y as int,
                    center.y - radius,
                    center.y + radius,
                    oy as int,
                    cs as int,
                    self.grid_h as int,
                );
                assert(self.pos_seq()[i] == p);
                assert(xlo <= self.cx_of(p) <= xhi);
                assert(ylo <= self.cy_of(p) <= yhi);
                assert(cseq.contains(i as usize));
                let j0 = choose|j: int| 0 <= j < cseq.len() && cseq[j] == i as usize;
                assert(dist2(self.points@[cseq[j0] as int], center) <= rr);
                assert(out@.contains(cseq[j0]));
            }
        }
        Ok(out)
    }


    /// Apply `f` to every point's position and overwrite that point's color
    /// with the result; every point is visited exactly once.
    pub fn map_by_position<F: Fn(Vec2i) -> C>(&mut self, f: F)
        requires
            forall|k: int|
                0 <= k < old(self).pos_seq().len() ==> call_requires(
                    f,
                    (#[trigger] old(self).pos_seq()[k],),
                ),
        ensures
            final(self).same_layout(*old(self)),
            final(self).color_seq().len() == old(self).color_seq().len(),
            forall|k: int|
                0 <= k < old(self).color_seq().len() ==> call_ensures(
                    f,
                    (old(self).pos_seq()[k],),
                    #[trigger] final(self).color_seq()[k],
                ),
    {
        proof {
            use_type_invariant(&*self);
        }
        let n = self.points.len();
        let mut i: usize = 0;
        while i < n
            invariant
                self.wf(),
                i <= n,
                n == self.points@.len(),
                self.same_layout(*old(self)),
                self.colors@.len() == old(self).colors@.len(),
                forall|k: int|
                    0 <= k < n ==> call_requires(f, (#[trigger] old(self).pos_seq()[k],)),
                forall|k: int|
                    0 <= k < i ==> call_ensures(
                        f,
                        (old(self).pos_seq()[k],),
                        #[trigger] self.colors@[k],
                    ),
                forall|k: int| i <= k < n ==> self.colors@[k] == old(self).colors@[k],
            decreases n - i,
        {
            let c = f(self.points[i]);
            self.colors[i] = c;
            i = i + 1;
        }
    }

    /// Read-modify-write restricted to the points within `radius` of
    /// `center`: each such point's color becomes `f` of its position, its
    /// distance to `center` (rounded down to whole sub-units) and its
    /// current color; every other point keeps its color.
    pub fn modulate_within_distance<F: Fn(Vec2i, u64, C) -> C>(
        &mut self,
        radius: i64,
        center: Vec2i,
        f: F,
    ) -> (r: Result<(), GeometryError>)
        requires
            forall|k: int|
                0 <= k < old(self).pos_seq().len() && dist2(
                    #[trigger] old(self).pos_seq()[k],
                    center,
                ) <= radius * radius ==> call_requires(
                    f,
                    (
                        old(self).pos_seq()[k],
                        crate::geometry::sqrt_floor(dist2(old(self).pos_seq()[k], center)) as u64,
                        old(self).color_seq()[k],
                    ),
                ),
        ensures
            final(self).same_layout(*old(self)),
            final(self).color_seq().len() == old(self).color_seq().len(),
            radius < 0 ==> r == Err::<(), GeometryError>(GeometryError::NegativeRadius),
            radius >= 0 && !(in_bounds(center) && radius <= MAX_COORD) ==> r == Err::<
                (),
                GeometryError,
            >(GeometryError::OutOfRange),
            r is Ok <==> (radius >= 0 && in_bounds(center) && radius <= MAX_COORD),
            r is Err ==> final(self).color_seq() == old(self).color_seq(),
            r is Ok ==> forall|k: int|
                0 <= k < old(self).color_seq().len() && dist2(
                    #[trigger] old(self).pos_seq()[k],
                    center,
                ) <= radius * radius ==> call_ensures(
                    f,
                    (
                        old(self).pos_seq()[k],
                        crate::geometry::sqrt_floor(dist2(old(self).pos_seq()[k], center)) as u64,
                        old(self).color_seq()[k],
                    ),
                    final(self).color_seq()[k],
                ),
            r is Ok ==> forall|k: int|
                0 <= k < old(self).color_seq().len() && dist2(
                    #[trigger] old(self).pos_seq()[k],
                    center,
                ) > radius * radius ==> final(self).color_seq()[k] == old(self).color_seq()[k],
    {
        proof {
            use_type_invariant(&*self);
        }
        if radius < 0 {
            return Err(GeometryError::NegativeRadius);
        }
        if !(-MAX_COORD <= center.x && center.x <= MAX_COORD && -MAX_COORD <= center.y && center.y
            <= MAX_COORD && radius <= MAX_COORD) {
            return Err(GeometryError::OutOfRange);
        }
        proof {
            assert(0 <= (radius as int) * (radius as int) <= 1_000_000_000_000_000_000)
                by (nonlinear_arith)
                requires 0 <= radius <= 1_000_000_000;
        }
        let rr: u64 = ((radius as i128) * (radius as i128)) as u64;
        let n = self.points.len();
        let mut i: usize = 0;
        while i < n
            invariant
                self.wf(),
                i <= n,
                n == self.points@.len(),
                in_bounds(center),
                0 <= radius <= MAX_COORD,
                rr == (radius as int) * (radius as int),
                self.same_layout(*old(self)),
                self.colors@.len() == old(self).colors@.len(),
                forall|k: int|
                    0 <= k < n && dist2(#[trigger] old(self).pos_seq()[k], center) <= radius
                        * radius ==> call_requires(
                        f,
                        (
                            old(self).pos_seq()[k],
                            crate::geometry::sqrt_floor(
                                dist2(old(self).pos_seq()[k], center),
                            ) as u64,
                            old(self).color_seq()[k],
                        ),
                    ),
                forall|k: int|
                    0 <= k < i && dist2(#[trigger] old(self).pos_seq()[k], center) <= rr
                        ==> call_ensures(
                        f,
                        (
                            old(self).pos_seq()[k],
                            crate::geometry::sqrt_floor(
                                dist2(old(self).pos_seq()[k], center),
                            ) as u64,
                            old(self).color_seq()[k],
                        ),
                        self.colors@[k],
                    ),
                forall|k: int|
                    0 <= k < i && dist2(#[trigger] old(self).pos_seq()[k], center) > rr
                        ==> self.colors@[k] == old(self).colors@[k],
                forall|k: int| i <= k < n ==> self.colors@[k] == old(self).colors@[k],
            decreases n - i,
        {
            let d2 = dist2_u64(self.points[i], center);
            if d2 <= rr {
                let dfull = crate::geometry::isqrt(d2 as u128);
                proof {
                    assert(dfull < 4_000_000_000) by (nonlinear_arith)
                        requires (dfull as int) * (dfull as int) <= d2 && d2 <= (radius as int) * (
                        radius as int) && 0 <= radius <= 1_000_000_000 && dfull >= 0;
                }
                let dist: u64 = dfull as u64;
                let c = f(self.points[i], dist, self.colors[i]);
                self.colors[i] = c;
            }
            i = i + 1;
        }
        Ok(())
    }

    /// Distance from point `i` to the declared center, rounded down to whole
    /// fixed-point sub-units.
    pub fn distance_from_center(&self, i: usize) -> (r: u64)
        requires
            i < self.pos_seq().len(),
        ensures
            r == crate::geometry::sqrt_floor(dist2(self.pos_seq()[i as int], self.spec_center())),
    {
        proof {
            use_type_invariant(self);
            assert(0 <= dist2(self.pos_seq()[i as int], self.spec_center())
                <= 8_000_000_000_000_000_000) by (nonlinear_arith)
                requires in_bounds(self.pos_seq()[i as int]) && in_bounds(self.spec_center());
        }
        let d2 = dist2_u64(self.points[i], self.center);
        let rfull = crate::geometry::isqrt(d2 as u128);
        proof {
            assert(rfull < 4_000_000_000) by (nonlinear_arith)
                requires (rfull as int) * (rfull as int) <= d2
                    <= 8_000_000_000_000_000_000u64 && rfull >= 0;
        }
        rfull as u64
    }

    /// Squared Euclidean distance from point `i` to the declared center.
    pub fn distance_squared_from_center(&self, i: usize) -> (r: u64)
        requires
            i < self.pos_seq().len(),
        ensures
            r == dist2(self.pos_seq()[i as int], self.spec_center()),
    {
        proof {
            use_type_invariant(self);
        }
        dist2_u64(self.points[i], self.center)
    }
}

} // verus!
