//! Curve fitting over windows of four samples, the width profile along a
//! curve, and the fragments a stroke is drawn with.
use vstd::prelude::*;
use crate::aabb::{Aabb, Point, COORD_MAX, max_int};
use crate::element::{Element, PRESSURE_FULL};
use crate::stroke::{BrushStroke, all_valid};

verus! {

/// Number of straight pieces a curve is split into by the subdividing strategy.
pub const N_SPLITS: i64 = 7;

#[derive(Clone, Copy, Debug, PartialEq, Eq, Structural)]
pub struct Line {
    pub start: Point,
    pub end: Point,
}

/// A cubic Bezier curve from `start` to `end` with two control points.
#[derive(Clone, Copy, Debug, PartialEq, Eq, Structural)]
pub struct CubicBez {
    pub start: Point,
    pub cp1: Point,
    pub cp2: Point,
    pub end: Point,
}

/// What the fitter made of a window: a cubic curve, or a straight line where
/// no curve could be fitted.
#[derive(Clone, Copy, Debug, PartialEq, Eq, Structural)]
pub enum Curve {
    Cubic(CubicBez),
    Line(Line),
}

/// How a fragment's outline is drawn.
#[derive(Clone, Copy, Debug, PartialEq, Eq, Structural)]
pub enum Strategy {
    /// Split into straight pieces, each filled on its own, with no stroke.
    Subdivided,
    /// Filled as one ribbon along the curve and outlined with a thin rounded stroke.
    Direct,
}

/// A straight piece of a ribbon with the widths at its two ends.
#[derive(Clone, Copy, Debug, PartialEq, Eq, Structural)]
pub struct Piece {
    pub line: Line,
    pub start_width: i64,
    pub end_width: i64,
}

/// The part of a stroke drawn from one window of four samples.
#[derive(Clone, Copy, Debug, PartialEq, Eq, Structural)]
pub struct Fragment {
    pub curve: Curve,
    pub start_width: i64,
    pub end_width: i64,
    /// The curve's control points grown by half the larger width, on the pixel grid.
    pub bounds: Aabb,
    pub strategy: Strategy,
}

/// Within twice the sample range: a sample moved by an offset in range.
pub open spec fn near(p: Point) -> bool {
    -2 * COORD_MAX <= p.x <= 2 * COORD_MAX && -2 * COORD_MAX <= p.y <= 2 * COORD_MAX
}

pub open spec fn within3(p: Point) -> bool {
    -3 * COORD_MAX <= p.x <= 3 * COORD_MAX && -3 * COORD_MAX <= p.y <= 3 * COORD_MAX
}

/// The cubic through `p1` and `p2` whose tangents there are those of
/// Catmull-Rom, `(p2 - p0) / 2` and `(p3 - p1) / 2`, in Bezier form.
pub open spec fn catmull_rom(p0: Point, p1: Point, p2: Point, p3: Point) -> CubicBez {
    CubicBez {
        start: p1,
        cp1: Point { x: (p1.x + (p2.x - p0.x) / 6) as i64, y: (p1.y + (p2.y - p0.y) / 6) as i64 },
        cp2: Point { x: (p2.x + (p1.x - p3.x) / 6) as i64, y: (p2.y + (p1.y - p3.y) / 6) as i64 },
        end: p2,
    }
}

/// A window for which no cubic can be fitted: the segment has no length or a
/// tangent is zero.
pub open spec fn cubic_degenerate(p0: Point, p1: Point, p2: Point, p3: Point) -> bool {
    p1 == p2 || p0 == p2 || p1 == p3
}

/// The curve covering the segment from `p1` to `p2`: the Catmull-Rom cubic,
/// else the straight line, else nothing when the segment has no length.
pub open spec fn fit(p0: Point, p1: Point, p2: Point, p3: Point) -> Option<Curve> {
    if !cubic_degenerate(p0, p1, p2, p3) {
        Some(Curve::Cubic(catmull_rom(p0, p1, p2, p3)))
    } else if p1 != p2 {
        Some(Curve::Line(Line { start: p1, end: p2 }))
    } else {
        None
    }
}

/// Stroke width at a sample of the given pressure.
pub open spec fn pressure_width(pressure: int, w: int) -> int {
    pressure * w / PRESSURE_FULL as int
}

/// Width at the `i`-th of the split points between widths `sw` and `ew`.
pub open spec fn width_at(sw: int, ew: int, i: int) -> int {
    sw + (ew - sw) * i / N_SPLITS as int
}

/// Box of a curve's defining points.
pub open spec fn curve_box(c: Curve) -> Aabb {
    match c {
        Curve::Cubic(b) => Aabb::spanned(b.start, b.end).union(Aabb::spanned(b.cp1, b.cp2)),
        Curve::Line(l) => Aabb::spanned(l.start, l.end),
    }
}

/// Half of `v`, rounded up.
pub open spec fn half_up(v: int) -> int {
    (v + 1) / 2
}

pub open spec fn fragment_bounds(c: Curve, sw: int, ew: int) -> Aabb {
    curve_box(c).loosened(half_up(max_int(sw, ew))).on_grid()
}

pub open spec fn shifted(p: Point, off: Point) -> Point {
    Point { x: (p.x + off.x) as i64, y: (p.y + off.y) as i64 }
}

/// The fragment of the window of `s` that starts at sample `i`, moved by `off`.
pub open spec fn window_fragment(s: Seq<Element>, w: int, off: Point, i: int, strategy: Strategy) -> Option<Fragment> {
    let sw = pressure_width(s[i + 1].pressure as int, w);
    let ew = pressure_width(s[i + 2].pressure as int, w);
    match fit(shifted(s[i].pos, off), shifted(s[i + 1].pos, off), shifted(s[i + 2].pos, off), shifted(s[i + 3].pos, off)) {
        Some(c) => Some(Fragment { curve: c, start_width: sw as i64, end_width: ew as i64, bounds: fragment_bounds(c, sw, ew), strategy }),
        None => None,
    }
}

/// Number of windows of four consecutive samples among `n`.
pub open spec fn n_windows(n: int) -> int {
    if n >= 4 { n - 3 } else { 0 }
}

/// The fragments of the first `k` windows, in window order, those that were
/// dropped left out.
pub open spec fn fragments_upto(s: Seq<Element>, w: int, off: Point, strategy: Strategy, k: int) -> Seq<Fragment>
    decreases k,
{
    if k <= 0 {
        Seq::empty()
    } else {
        let prev = fragments_upto(s, w, off, strategy, k - 1);
        match window_fragment(s, w, off, k - 1, strategy) {
            Some(f) => prev.push(f),
            None => prev,
        }
    }
}

/// All fragments of a stroke's samples.
pub open spec fn fragments_of(s: Seq<Element>, w: int, off: Point, strategy: Strategy) -> Seq<Fragment> {
    fragments_upto(s, w, off, strategy, n_windows(s.len() as int))
}

/// Bernstein weight `k` of a cubic at `t = i / 7`, times `7^3`.
pub open spec fn bezier_weight(i: int, k: int) -> int {
    let a = N_SPLITS - i;
    if k == 0 {
        a * a * a
    } else if k == 1 {
        3 * a * a * i
    } else if k == 2 {
        3 * a * i * i
    } else {
        i * i * i
    }
}

pub open spec fn bezier_coord(i: int, x0: int, x1: int, x2: int, x3: int) -> int {
    (bezier_weight(i, 0) * x0 + bezier_weight(i, 1) * x1 + bezier_weight(i, 2) * x2 + bezier_weight(i, 3) * x3) / 343
}

/// The point of the curve at `t = i / 7`, rounded down.
pub open spec fn bezier_point(b: CubicBez, i: int) -> Point {
    Point {
        x: bezier_coord(i, b.start.x as int, b.cp1.x as int, b.cp2.x as int, b.end.x as int) as i64,
        y: bezier_coord(i, b.start.y as int, b.cp1.y as int, b.cp2.y as int, b.end.y as int) as i64,
    }
}

/// The straight pieces a curve is drawn with by the subdividing strategy.
pub open spec fn subdivided(c: Curve, sw: int, ew: int) -> Seq<Piece> {
    match c {
        Curve::Cubic(b) => Seq::new(
            N_SPLITS as nat,
            |i: int| Piece {
                line: Line { start: bezier_point(b, i), end: bezier_point(b, i + 1) },
                start_width: width_at(sw, ew, i) as i64,
                end_width: width_at(sw, ew, i + 1) as i64,
            },
        ),
        Curve::Line(l) => seq![Piece { line: l, start_width: sw as i64, end_width: ew as i64 }],
    }
}

/// `(a - b) / 6`, rounded down.
fn sixth_of_diff(a: i64, b: i64) -> (r: i64)
    requires
        -2 * COORD_MAX <= a <= 2 * COORD_MAX,
        -2 * COORD_MAX <= b <= 2 * COORD_MAX,
    ensures
        r == (a - b) / 6,
        -COORD_MAX <= r <= COORD_MAX,
{
    (a - b).checked_div_euclid(6).unwrap()
}

/// Fits the curve covering the segment from `p1` to `p2`.
pub fn fit_window(p0: Point, p1: Point, p2: Point, p3: Point) -> (r: Option<Curve>)
    requires
        near(p0),
        near(p1),
        near(p2),
        near(p3),
    ensures
        r == fit(p0, p1, p2, p3),
        r matches Some(c) ==> curve_in_range(c),
{
    if p1 == p2 || p0 == p2 || p1 == p3 {
        if p1 != p2 {
            Some(Curve::Line(Line { start: p1, end: p2 }))
        } else {
            None
        }
    } else {
        let cp1 = Point { x: p1.x + sixth_of_diff(p2.x, p0.x), y: p1.y + sixth_of_diff(p2.y, p0.y) };
        let cp2 = Point { x: p2.x + sixth_of_diff(p1.x, p3.x), y: p2.y + sixth_of_diff(p1.y, p3.y) };
        Some(Curve::Cubic(CubicBez { start: p1, cp1, cp2, end: p2 }))
    }
}

/// Every defining point of the curve lies within three times the sample range.
pub open spec fn curve_in_range(c: Curve) -> bool {
    match c {
        Curve::Cubic(b) => within3(b.start) && within3(b.cp1) && within3(b.cp2) && within3(b.end),
        Curve::Line(l) => within3(l.start) && within3(l.end),
    }
}

/// Stroke width at a sample of the given pressure.
pub fn element_width(pressure: u32, w: u32) -> (r: i64)
    requires
        pressure <= PRESSURE_FULL,
    ensures
        r == pressure_width(pressure as int, w as int),
        0 <= r <= w,
{
    let p = pressure as u64;
    assert(p * (w as u64) <= 1000 * (w as u64)) by (nonlinear_arith)
        requires
            p <= 1000,
    ;
    assert((p * (w as u64)) / 1000 <= w) by (nonlinear_arith)
        requires
            p <= 1000,
    ;
    ((p * w as u64) / PRESSURE_FULL as u64) as i64
}

/// Local bounds of a fragment: the curve's defining points grown by half the
/// larger of the two widths, moved outward onto the pixel grid.
pub fn gen_fragment_bounds(c: &Curve, sw: i64, ew: i64) -> (r: Aabb)
    requires
        curve_in_range(*c),
        0 <= sw <= u32::MAX,
        0 <= ew <= u32::MAX,
    ensures
        r == fragment_bounds(*c, sw as int, ew as int),
{
    let b = match c {
        Curve::Cubic(b) => Aabb::new_positive(b.start, b.end).merged(&Aabb::new_positive(b.cp1, b.cp2)),
        Curve::Line(l) => Aabb::new_positive(l.start, l.end),
    };
    let m = if sw >= ew { sw } else { ew };
    b.loosen((m + 1) / 2).ceil_to_grid()
}

impl Fragment {
    /// Well-formed: the curve in range and the widths no larger than a brush.
    pub open spec fn is_valid(self) -> bool {
        curve_in_range(self.curve) && 0 <= self.start_width <= u32::MAX && 0 <= self.end_width
            <= u32::MAX
    }

    /// The straight pieces the subdividing strategy fills: seven for a cubic,
    /// with widths interpolated linearly along it; the line itself otherwise.
    pub fn pieces(&self) -> (r: Vec<Piece>)
        requires
            self.is_valid(),
        ensures
            r@ == subdivided(self.curve, self.start_width as int, self.end_width as int),
    {
        match self.curve {
            Curve::Line(l) => {
                let r = vec![Piece { line: l, start_width: self.start_width, end_width: self.end_width }];
                assert(r@ =~= subdivided(self.curve, self.start_width as int, self.end_width as int));
                r
            },
            Curve::Cubic(b) => {
                let mut r: Vec<Piece> = Vec::new();
                let mut i: i64 = 0;
                while i < N_SPLITS
                    invariant
                        0 <= i <= N_SPLITS,
                        self.is_valid(),
                        self.curve == Curve::Cubic(b),
                        r@ =~= subdivided(self.curve, self.start_width as int, self.end_width as int).subrange(0, i as int),
                    decreases N_SPLITS - i,
                {
                    let start = split_point(&b, i);
                    let end = split_point(&b, i + 1);
                    let sw = split_width(self.start_width, self.end_width, i);
                    let ew = split_width(self.start_width, self.end_width, i + 1);
                    r.push(Piece { line: Line { start, end }, start_width: sw, end_width: ew });
                    i = i + 1;
                }
                r
            },
        }
    }
}

fn split_width(sw: i64, ew: i64, i: i64) -> (r: i64)
    requires
        0 <= sw <= u32::MAX,
        0 <= ew <= u32::MAX,
        0 <= i <= N_SPLITS,
    ensures
        r == width_at(sw as int, ew as int, i as int),
{
    let d = ew - sw;
    assert(-7 * 0x1_0000_0000 <= d * i <= 7 * 0x1_0000_0000) by (nonlinear_arith)
        requires
            -0x1_0000_0000 <= d <= 0x1_0000_0000,
            0 <= i <= 7,
    ;
    assert(-0x1_0000_0000 <= (d * i) / 7 <= 0x1_0000_0000) by (nonlinear_arith)
        requires
            -7 * 0x1_0000_0000 <= d * i <= 7 * 0x1_0000_0000,
    ;
    sw + (d * i).checked_div_euclid(N_SPLITS).unwrap()
}

fn bezier_weights(i: i64) -> (r: (i64, i64, i64, i64))
    requires
        0 <= i <= N_SPLITS,
    ensures
        r.0 == bezier_weight(i as int, 0),
        r.1 == bezier_weight(i as int, 1),
        r.2 == bezier_weight(i as int, 2),
        r.3 == bezier_weight(i as int, 3),
        0 <= r.0 <= 343 && 0 <= r.1 <= 343 && 0 <= r.2 <= 343 && 0 <= r.3 <= 343,
{
    let a = N_SPLITS - i;
    assert(0 <= a * a <= 49 && 0 <= a * a * a <= 343 && 0 <= 3 * a * a * i <= 343 && 0 <= 3 * a * i * i <= 343
        && 0 <= 3 * a <= 21 && 0 <= 3 * a * a <= 147 && 0 <= 3 * a * i <= 147
        && 0 <= i * i <= 49 && 0 <= i * i * i <= 343 && 0 <= a * i <= 49 && 0 <= a * a * i <= 343 && 0 <= a * i * i <= 343) by (nonlinear_arith)
        requires
            0 <= i <= 7,
            a == 7 - i,
    ;
    (a * a * a, 3 * a * a * i, 3 * a * i * i, i * i * i)
}

fn weighted_coord(k: (i64, i64, i64, i64), x0: i64, x1: i64, x2: i64, x3: i64) -> (r: i64)
    requires
        0 <= k.0 <= 343 && 0 <= k.1 <= 343 && 0 <= k.2 <= 343 && 0 <= k.3 <= 343,
        -3 * COORD_MAX <= x0 <= 3 * COORD_MAX,
        -3 * COORD_MAX <= x1 <= 3 * COORD_MAX,
        -3 * COORD_MAX <= x2 <= 3 * COORD_MAX,
        -3 * COORD_MAX <= x3 <= 3 * COORD_MAX,
    ensures
        r == (k.0 * x0 + k.1 * x1 + k.2 * x2 + k.3 * x3) / 343,
{
    let m: i64 = 343 * 3 * COORD_MAX;
    assert(-m <= k.0 * x0 <= m) by (nonlinear_arith) requires 0 <= k.0 <= 343, -3 * COORD_MAX <= x0 <= 3 * COORD_MAX, m == 343 * 3 * COORD_MAX;
    assert(-m <= k.1 * x1 <= m) by (nonlinear_arith) requires 0 <= k.1 <= 343, -3 * COORD_MAX <= x1 <= 3 * COORD_MAX, m == 343 * 3 * COORD_MAX;
    assert(-m <= k.2 * x2 <= m) by (nonlinear_arith) requires 0 <= k.2 <= 343, -3 * COORD_MAX <= x2 <= 3 * COORD_MAX, m == 343 * 3 * COORD_MAX;
    assert(-m <= k.3 * x3 <= m) by (nonlinear_arith) requires 0 <= k.3 <= 343, -3 * COORD_MAX <= x3 <= 3 * COORD_MAX, m == 343 * 3 * COORD_MAX;
    let sum = k.0 * x0 + k.1 * x1 + k.2 * x2 + k.3 * x3;
    sum.checked_div_euclid(343).unwrap()
}

fn split_point(b: &CubicBez, i: i64) -> (r: Point)
    requires
        within3(b.start) && within3(b.cp1) && within3(b.cp2) && within3(b.end),
        0 <= i <= N_SPLITS,
    ensures
        r == bezier_point(*b, i as int),
{
    let k = bezier_weights(i);
    Point {
        x: weighted_coord(k, b.start.x, b.cp1.x, b.cp2.x, b.end.x),
        y: weighted_coord(k, b.start.y, b.cp1.y, b.cp2.y, b.end.y),
    }
}

impl BrushStroke {
    /// Fragments of every window of four consecutive samples, in window
    /// order, moved by `offset`; windows whose segment has no length give none.
    /// The windows are not padded: the first and the last segment of a stroke
    /// are not drawn.
    fn window_fragments(&self, offset: Point, strategy: Strategy) -> (r: Vec<Fragment>)
        requires
            self.is_valid(),
            crate::aabb::point_in_range(offset),
        ensures
            r@ == fragments_of(self.elements@, self.brush.width as int, offset, strategy),
            forall|i: int| 0 <= i < r@.len() ==> #[trigger] r@[i].is_valid(),
    {
        let n = self.elements.len();
        let ghost s = self.elements@;
        let ghost w = self.brush.width as int;
        let mut out: Vec<Fragment> = Vec::new();
        if n < 4 {
            return out;
        }
        let mut i: usize = 0;
        while i + 3 < n
            invariant
                n == s.len(),
                s == self.elements@,
                w == self.brush.width as int,
                n >= 4,
                i <= n - 3,
                all_valid(s),
                crate::aabb::point_in_range(offset),
                out@ == fragments_upto(s, w, offset, strategy, i as int),
                forall|j: int| 0 <= j < out@.len() ==> #[trigger] out@[j].is_valid(),
            decreases n - i,
        {
            let e0 = self.elements[i];
            let e1 = self.elements[i + 1];
            let e2 = self.elements[i + 2];
            let e3 = self.elements[i + 3];
            assert(s[i as int].is_valid() && s[i + 1].is_valid() && s[i + 2].is_valid() && s[i + 3].is_valid());
            let sw = element_width(e1.pressure, self.brush.width);
            let ew = element_width(e2.pressure, self.brush.width);
            let fitted = fit_window(shift(e0.pos, offset), shift(e1.pos, offset), shift(e2.pos, offset), shift(e3.pos, offset));
            match fitted {
                Some(c) => {
                    let bounds = gen_fragment_bounds(&c, sw, ew);
                    out.push(Fragment { curve: c, start_width: sw, end_width: ew, bounds, strategy });
                },
                None => {},
            }
            i = i + 1;
        }
        out
    }

    /// The fragments drawn by the subdividing strategy.
    pub fn linear_svg_data(&self, offset: Point) -> (r: Vec<Fragment>)
        requires
            self.is_valid(),
            crate::aabb::point_in_range(offset),
        ensures
            r@ == fragments_of(self.elements@, self.brush.width as int, offset, Strategy::Subdivided),
            forall|i: int| 0 <= i < r@.len() ==> #[trigger] r@[i].is_valid(),
    {
        self.window_fragments(offset, Strategy::Subdivided)
    }

    /// The fragments drawn by the direct strategy.
    pub fn cubbez_svg_data(&self, offset: Point) -> (r: Vec<Fragment>)
        requires
            self.is_valid(),
            crate::aabb::point_in_range(offset),
        ensures
            r@ == fragments_of(self.elements@, self.brush.width as int, offset, Strategy::Direct),
            forall|i: int| 0 <= i < r@.len() ==> #[trigger] r@[i].is_valid(),
    {
        self.window_fragments(offset, Strategy::Direct)
    }
}

fn shift(p: Point, off: Point) -> (r: Point)
    requires
        crate::aabb::point_in_range(p),
        crate::aabb::point_in_range(off),
    ensures
        r == shifted(p, off),
        near(r),
{
    Point { x: p.x + off.x, y: p.y + off.y }
}

/// A stroke whose samples all stand at one position has no fragments, for
/// either strategy.
pub proof fn lemma_degenerate_stroke_has_no_fragments(s: Seq<Element>, w: int, off: Point, strategy: Strategy)
    requires
        forall|i: int, j: int| 0 <= i < s.len() && 0 <= j < s.len() ==> s[i].pos == s[j].pos,
    ensures
        fragments_of(s, w, off, strategy) == Seq::<Fragment>::empty(),
{
    lemma_no_fragments_upto(s, w, off, strategy, n_windows(s.len() as int));
}

proof fn lemma_no_fragments_upto(s: Seq<Element>, w: int, off: Point, strategy: Strategy, k: int)
    requires
        forall|i: int, j: int| 0 <= i < s.len() && 0 <= j < s.len() ==> s[i].pos == s[j].pos,
        k <= n_windows(s.len() as int),
    ensures
        fragments_upto(s, w, off, strategy, k) == Seq::<Fragment>::empty(),
    decreases k,
{
    if k > 0 {
        lemma_no_fragments_upto(s, w, off, strategy, k - 1);
        assert(s[k].pos == s[k + 1].pos);
    }
}

} // verus!
