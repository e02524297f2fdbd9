//! A brush stroke: its samples, its bounding box and its hit-test boxes.
use vstd::prelude::*;
use vstd::arithmetic::div_mod::{lemma_div_is_ordered, lemma_div_pos_is_pos, lemma_div_by_multiple};
use crate::aabb::{Aabb, Point, UNITS_PER_PIXEL, COORD_MAX, point_in_range};
use crate::element::{Brush, Element};

verus! {

/// Side of the box around an isolated sample, before the brush width is added.
pub const HITBOX_DEFAULT: i64 = 10 * UNITS_PER_PIXEL;

/// The box that a sample reserves in the stroke bounds: the brush width on each side.
pub open spec fn elem_box(e: Element, w: int) -> Aabb {
    Aabb::around(e.pos, w)
}

/// Union of the boxes of all samples, taken in order.
pub open spec fn hull(s: Seq<Element>, w: int) -> Aabb
    decreases s.len(),
{
    if s.len() <= 1 {
        elem_box(s[0], w)
    } else {
        hull(s.drop_last(), w).union(elem_box(s.last(), w))
    }
}

pub open spec fn all_valid(s: Seq<Element>) -> bool {
    forall|i: int| 0 <= i < s.len() ==> #[trigger] s[i].is_valid()
}

/// Half the width, signed toward the direction of travel `d` on one axis.
pub open spec fn signed_half(d: int, w: int) -> int {
    if d < 0 { -(w / 2) } else { w / 2 }
}

/// Hit-test box of the segment from `a` to `b`: it follows the direction of travel.
pub open spec fn segment_hitbox(a: Point, b: Point, w: int) -> Aabb {
    let hx = signed_half(b.x - a.x, w);
    let hy = signed_half(b.y - a.y, w);
    Aabb::spanned(
        Point { x: (a.x - hx) as i64, y: (a.y - hy) as i64 },
        Point { x: (b.x + hx) as i64, y: (b.y + hy) as i64 },
    )
}

/// Hit-test box of a sample with no successor.
pub open spec fn endpoint_hitbox(a: Point, w: int) -> Aabb {
    Aabb::around(a, (HITBOX_DEFAULT + w) / 2)
}

/// Hit-test box of the `i`-th sample of `s`.
pub open spec fn hitbox_at(s: Seq<Element>, w: int, i: int) -> Aabb {
    if i + 1 < s.len() {
        segment_hitbox(s[i].pos, s[i + 1].pos, w)
    } else {
        endpoint_hitbox(s[i].pos, w)
    }
}

/// The samples moved by `(dx, dy)`.
pub open spec fn translate_all(s: Seq<Element>, dx: int, dy: int) -> Seq<Element> {
    s.map_values(|e: Element| Element { pos: Point { x: (e.pos.x + dx) as i64, y: (e.pos.y + dy) as i64 }, pressure: e.pressure })
}

/// Whether every sample stays in range when moved by `(dx, dy)`.
pub open spec fn translation_fits(s: Seq<Element>, dx: int, dy: int) -> bool {
    forall|i: int| 0 <= i < s.len() ==> -COORD_MAX <= #[trigger] s[i].pos.x + dx <= COORD_MAX
        && -COORD_MAX <= s[i].pos.y + dy <= COORD_MAX
}

/// The hit-test box of a segment covers both of its ends.
pub proof fn lemma_segment_hitbox_covers_ends(a: Point, b: Point, w: int)
    requires
        point_in_range(a),
        point_in_range(b),
        0 < w <= u32::MAX,
    ensures
        segment_hitbox(a, b, w).contains_point(a),
        segment_hitbox(a, b, w).contains_point(b),
{
}

pub proof fn lemma_hull_sides(s: Seq<Element>, w: int)
    requires
        s.len() >= 1,
        all_valid(s),
        0 < w <= u32::MAX,
    ensures
        forall|i: int| 0 <= i < s.len() ==> hull(s, w).contains_box(#[trigger] elem_box(s[i], w)),
        exists|i: int| 0 <= i < s.len() && hull(s, w).mins.x == s[i].pos.x - w,
        exists|i: int| 0 <= i < s.len() && hull(s, w).mins.y == s[i].pos.y - w,
        exists|i: int| 0 <= i < s.len() && hull(s, w).maxs.x == s[i].pos.x + w,
        exists|i: int| 0 <= i < s.len() && hull(s, w).maxs.y == s[i].pos.y + w,
    decreases s.len(),
{
    assert(s[0].is_valid());
    if s.len() > 1 {
        let p = s.drop_last();
        assert forall|i: int| 0 <= i < p.len() implies #[trigger] p[i].is_valid() by {
            assert(p[i] == s[i]);
            assert(s[i].is_valid());
        }
        lemma_hull_sides(p, w);
        let l = s.len() - 1;
        assert(s[l].is_valid());
        assert forall|i: int| 0 <= i < s.len() implies hull(s, w).contains_box(#[trigger] elem_box(s[i], w)) by {
            if i < l {
                assert(p[i] == s[i]);
                assert(hull(p, w).contains_box(elem_box(p[i], w)));
            }
        }
        let i1 = choose|i: int| 0 <= i < p.len() && hull(p, w).mins.x == p[i].pos.x - w;
        let i2 = choose|i: int| 0 <= i < p.len() && hull(p, w).mins.y == p[i].pos.y - w;
        let i3 = choose|i: int| 0 <= i < p.len() && hull(p, w).maxs.x == p[i].pos.x + w;
        let i4 = choose|i: int| 0 <= i < p.len() && hull(p, w).maxs.y == p[i].pos.y + w;
        assert(p[i1] == s[i1] && p[i2] == s[i2] && p[i3] == s[i3] && p[i4] == s[i4]);
        assert(s[i1].is_valid() && s[i2].is_valid() && s[i3].is_valid() && s[i4].is_valid());
    }
}


/// Maps `v` from the span `a..=b` onto `c..=d`, rounding down; an empty
/// source span maps onto `c`.
pub open spec fn rescale(v: int, a: int, b: int, c: int, d: int) -> int {
    if a < b {
        c + (v - a) * (d - c) / (b - a)
    } else {
        c
    }
}

/// The samples moved so that the samples' span inside `from` (the box less
/// the width `w` on each side) is stretched onto the same span inside `to`.
pub open spec fn resize_all(s: Seq<Element>, from: Aabb, to: Aabb, w: int) -> Seq<Element> {
    s.map_values(|e: Element| Element {
        pos: Point {
            x: rescale(e.pos.x as int, from.mins.x + w, from.maxs.x - w, to.mins.x + w, to.maxs.x - w) as i64,
            y: rescale(e.pos.y as int, from.mins.y + w, from.maxs.y - w, to.mins.y + w, to.maxs.y - w) as i64,
        },
        pressure: e.pressure,
    })
}

/// A target box that a stroke of width `w` can be resized to.
pub open spec fn resize_target_fits(to: Aabb, w: int) -> bool {
    &&& to.maxs.x - to.mins.x >= 2 * w
    &&& to.maxs.y - to.mins.y >= 2 * w
    &&& -COORD_MAX <= to.mins.x + w
    &&& -COORD_MAX <= to.mins.y + w
    &&& to.maxs.x - w <= COORD_MAX
    &&& to.maxs.y - w <= COORD_MAX
}

proof fn lemma_rescale_bounds(v: int, a: int, b: int, c: int, d: int)
    requires
        a <= v <= b,
        c <= d,
    ensures
        c <= rescale(v, a, b, c, d) <= d,
        v == a ==> rescale(v, a, b, c, d) == c,
        v == b && a < b ==> rescale(v, a, b, c, d) == d,
{
    if a < b {
        let p = (v - a) * (d - c);
        assert(0 <= p <= (d - c) * (b - a)) by (nonlinear_arith)
            requires
                a <= v <= b,
                c <= d,
                p == (v - a) * (d - c),
        ;
        lemma_div_pos_is_pos(p, b - a);
        lemma_div_is_ordered(p, (d - c) * (b - a), b - a);
        lemma_div_by_multiple(d - c, b - a);
        if v == b {
            assert(p == (d - c) * (b - a)) by (nonlinear_arith)
                requires
                    v == b,
                    p == (v - a) * (d - c),
            ;
        }
        if v == a {
            assert(p == 0) by (nonlinear_arith)
                requires
                    v == a,
                    p == (v - a) * (d - c),
            ;
        }
    }
}

fn rescale_exec(v: i64, a: i64, b: i64, c: i64, d: i64) -> (r: i64)
    requires
        a <= v <= b,
        c <= d,
        -2 * COORD_MAX <= a,
        b <= 2 * COORD_MAX,
        -2 * COORD_MAX <= c,
        d <= 2 * COORD_MAX,
    ensures
        r == rescale(v as int, a as int, b as int, c as int, d as int),
        c <= r <= d,
{
    proof {
        lemma_rescale_bounds(v as int, a as int, b as int, c as int, d as int);
    }
    if a < b {
        let dv = (v - a) as i128;
        let dt = (d - c) as i128;
        assert(0 <= dv * dt <= 0x100_0000_0000_0000_0000_0000) by (nonlinear_arith)
            requires
                0 <= dv <= 4 * COORD_MAX,
                0 <= dt <= 4 * COORD_MAX,
        ;
        let q = (dv * dt) / ((b - a) as i128);
        (c as i128 + q) as i64
    } else {
        c
    }
}

pub proof fn lemma_hull_in_range(s: Seq<Element>, w: int)
    requires
        s.len() >= 1,
        all_valid(s),
        0 < w <= u32::MAX,
    ensures
        -COORD_MAX - w <= hull(s, w).mins.x <= COORD_MAX - w,
        -COORD_MAX - w <= hull(s, w).mins.y <= COORD_MAX - w,
        -COORD_MAX + w <= hull(s, w).maxs.x <= COORD_MAX + w,
        -COORD_MAX + w <= hull(s, w).maxs.y <= COORD_MAX + w,
        forall|i: int| 0 <= i < s.len() ==> hull(s, w).mins.x + w <= #[trigger] s[i].pos.x <= hull(s, w).maxs.x - w
            && hull(s, w).mins.y + w <= s[i].pos.y <= hull(s, w).maxs.y - w,
{
    lemma_hull_sides(s, w);
    assert forall|i: int| 0 <= i < s.len() implies hull(s, w).mins.x + w <= #[trigger] s[i].pos.x <= hull(s, w).maxs.x - w
            && hull(s, w).mins.y + w <= s[i].pos.y <= hull(s, w).maxs.y - w by {
        assert(s[i].is_valid());
        assert(hull(s, w).contains_box(elem_box(s[i], w)));
    }
    let i1 = choose|i: int| 0 <= i < s.len() && hull(s, w).mins.x == s[i].pos.x - w;
    let i2 = choose|i: int| 0 <= i < s.len() && hull(s, w).mins.y == s[i].pos.y - w;
    let i3 = choose|i: int| 0 <= i < s.len() && hull(s, w).maxs.x == s[i].pos.x + w;
    let i4 = choose|i: int| 0 <= i < s.len() && hull(s, w).maxs.y == s[i].pos.y + w;
    assert(s[i1].is_valid() && s[i2].is_valid() && s[i3].is_valid() && s[i4].is_valid());
}

/// Every operation leaves the bounds holding, for every sample, the square of
/// side the brush width centred on it.
pub proof fn lemma_bounds_contain_samples(st: BrushStroke)
    requires
        st.is_valid(),
    ensures
        forall|i: int| 0 <= i < st.elements@.len() ==> st.bounds.contains_box(
            #[trigger] Aabb::around(st.elements@[i].pos, st.brush.width as int / 2),
        ),
{
    assert forall|i: int| 0 <= i < st.elements@.len() implies st.bounds.contains_box(
        #[trigger] Aabb::around(st.elements@[i].pos, st.brush.width as int / 2),
    ) by {
        assert(st.elements@[i].is_valid());
        assert(st.bounds.contains_box(elem_box(st.elements@[i], st.brush.width as int)));
    }
}

/// Two completed strokes with the same samples and brush width have the same
/// bounds and hit-test boxes, however they were built: sample by sample with
/// `push_elem` and one `complete_stroke`, or at once by `validation_stroke`.
pub proof fn lemma_completed_strokes_agree(a: BrushStroke, b: BrushStroke)
    requires
        a.is_completed(),
        b.is_completed(),
        a.elements@ == b.elements@,
        a.elements@.len() > 0,
        a.brush.width == b.brush.width,
    ensures
        a.bounds == b.bounds,
        a.hitbox@ == b.hitbox@,
{
    assert(a.hitbox@ =~= b.hitbox@);
}

/// The bounds of translated samples are the bounds of the samples, translated.
pub proof fn lemma_hull_translate(s: Seq<Element>, w: int, dx: int, dy: int)
    requires
        s.len() >= 1,
        all_valid(s),
        0 < w <= u32::MAX,
        translation_fits(s, dx, dy),
    ensures
        hull(translate_all(s, dx, dy), w) == hull(s, w).translated(dx, dy),
    decreases s.len(),
{
    let t = translate_all(s, dx, dy);
    assert(s[0].is_valid());
    assert(-COORD_MAX <= s[0].pos.x + dx <= COORD_MAX);
    if s.len() > 1 {
        let p = s.drop_last();
        assert forall|i: int| 0 <= i < p.len() implies #[trigger] p[i].is_valid() by {
            assert(p[i] == s[i]);
        }
        assert forall|i: int| 0 <= i < p.len() implies -COORD_MAX <= #[trigger] p[i].pos.x + dx <= COORD_MAX
            && -COORD_MAX <= p[i].pos.y + dy <= COORD_MAX by {
            assert(p[i] == s[i]);
        }
        lemma_hull_translate(p, w, dx, dy);
        assert(t.drop_last() =~= translate_all(p, dx, dy));
        let l = s.len() - 1;
        assert(s[l].is_valid());
        assert(-COORD_MAX <= s[l].pos.x + dx <= COORD_MAX);
        lemma_hull_in_range(p, w);
    }
}

/// Translating by an offset and then by its opposite restores every sample
/// and the recomputed bounds.
pub proof fn lemma_translate_round_trip(s: Seq<Element>, w: int, dx: int, dy: int)
    requires
        all_valid(s),
        0 < w <= u32::MAX,
        translation_fits(s, dx, dy),
    ensures
        translation_fits(translate_all(s, dx, dy), -dx, -dy),
        translate_all(translate_all(s, dx, dy), -dx, -dy) == s,
        s.len() > 0 ==> hull(translate_all(s, dx, dy), w) == hull(s, w).translated(dx, dy),
        s.len() > 0 ==> hull(translate_all(translate_all(s, dx, dy), -dx, -dy), w) == hull(s, w),
{
    let t = translate_all(s, dx, dy);
    assert forall|i: int| 0 <= i < t.len() implies -COORD_MAX <= #[trigger] t[i].pos.x + -dx <= COORD_MAX
        && -COORD_MAX <= t[i].pos.y + -dy <= COORD_MAX by {
        assert(s[i].is_valid());
        assert(-COORD_MAX <= s[i].pos.x + dx <= COORD_MAX);
    }
    assert forall|i: int| 0 <= i < s.len() implies #[trigger] translate_all(t, -dx, -dy)[i] == s[i] by {
        assert(s[i].is_valid());
        assert(-COORD_MAX <= s[i].pos.x + dx <= COORD_MAX);
    }
    assert(translate_all(t, -dx, -dy) =~= s);
    if s.len() > 0 {
        lemma_hull_translate(s, w, dx, dy);
    }
}

/// Resizing to a box and recomputing the bounds gives that box, unless the
/// samples all share one coordinate on an axis where the box is wider than
/// the brush alone.
pub proof fn lemma_resize_fills_target(s: Seq<Element>, w: int, to: Aabb)
    requires
        s.len() > 0,
        all_valid(s),
        0 < w <= u32::MAX,
        resize_target_fits(to, w),
        hull(s, w).maxs.x - hull(s, w).mins.x > 2 * w || to.maxs.x - to.mins.x == 2 * w,
        hull(s, w).maxs.y - hull(s, w).mins.y > 2 * w || to.maxs.y - to.mins.y == 2 * w,
    ensures
        hull(resize_all(s, hull(s, w), to, w), w) == to,
{
    let from = hull(s, w);
    let r = resize_all(s, from, to, w);
    lemma_hull_in_range(s, w);
    lemma_hull_sides(s, w);
    let (a_x, b_x, c_x, d_x) = (from.mins.x + w, from.maxs.x - w, to.mins.x + w, to.maxs.x - w);
    let (a_y, b_y, c_y, d_y) = (from.mins.y + w, from.maxs.y - w, to.mins.y + w, to.maxs.y - w);
    assert forall|i: int| 0 <= i < r.len() implies #[trigger] r[i].is_valid()
        && c_x <= r[i].pos.x <= d_x && c_y <= r[i].pos.y <= d_y by {
        assert(s[i].is_valid());
        lemma_rescale_bounds(s[i].pos.x as int, a_x, b_x, c_x, d_x);
        lemma_rescale_bounds(s[i].pos.y as int, a_y, b_y, c_y, d_y);
    }
    lemma_hull_sides(r, w);
    let h = hull(r, w);
    let i1 = choose|i: int| 0 <= i < s.len() && from.mins.x == s[i].pos.x - w;
    let i2 = choose|i: int| 0 <= i < s.len() && from.mins.y == s[i].pos.y - w;
    let i3 = choose|i: int| 0 <= i < s.len() && from.maxs.x == s[i].pos.x + w;
    let i4 = choose|i: int| 0 <= i < s.len() && from.maxs.y == s[i].pos.y + w;
    lemma_rescale_bounds(s[i1].pos.x as int, a_x, b_x, c_x, d_x);
    lemma_rescale_bounds(s[i2].pos.y as int, a_y, b_y, c_y, d_y);
    lemma_rescale_bounds(s[i3].pos.x as int, a_x, b_x, c_x, d_x);
    lemma_rescale_bounds(s[i4].pos.y as int, a_y, b_y, c_y, d_y);
    assert(r[i1].is_valid() && r[i2].is_valid() && r[i3].is_valid() && r[i4].is_valid());
    assert(h.contains_box(elem_box(r[i1], w)));
    assert(h.contains_box(elem_box(r[i2], w)));
    assert(h.contains_box(elem_box(r[i3], w)));
    assert(h.contains_box(elem_box(r[i4], w)));
    let j1 = choose|i: int| 0 <= i < r.len() && h.mins.x == r[i].pos.x - w;
    let j2 = choose|i: int| 0 <= i < r.len() && h.mins.y == r[i].pos.y - w;
    let j3 = choose|i: int| 0 <= i < r.len() && h.maxs.x == r[i].pos.x + w;
    let j4 = choose|i: int| 0 <= i < r.len() && h.maxs.y == r[i].pos.y + w;
    assert(r[j1].is_valid() && r[j2].is_valid() && r[j3].is_valid() && r[j4].is_valid());
}

/// A stroke: samples in the order drawn, the brush, the bounding box of all
/// samples, and one hit-test box per sample.
#[derive(Clone, Debug)]
pub struct BrushStroke {
    pub elements: Vec<Element>,
    pub brush: Brush,
    /// Holds, for every sample, the brush width on each side of it.
    pub bounds: Aabb,
    /// One box per sample; current only after completion.
    pub hitbox: Vec<Aabb>,
}

impl BrushStroke {
    /// The invariant every operation keeps: valid samples and brush, and
    /// bounds that contain every sample's box.
    pub open spec fn is_valid(&self) -> bool {
        &&& self.brush.is_valid()
        &&& all_valid(self.elements@)
        &&& forall|i: int|
            0 <= i < self.elements@.len() ==> self.bounds.contains_box(
                #[trigger] elem_box(self.elements@[i], self.brush.width as int),
            )
    }

    /// Bounds and hit-test boxes are recomputed from the samples.
    pub open spec fn is_completed(&self) -> bool {
        &&& self.elements@.len() > 0 ==> self.bounds == hull(self.elements@, self.brush.width as int)
        &&& self.hitbox@.len() == self.elements@.len()
        &&& forall|i: int|
            0 <= i < self.hitbox@.len() ==> #[trigger] self.hitbox@[i] == hitbox_at(
                self.elements@,
                self.brush.width as int,
                i,
            )
    }

    /// Starts a stroke at one sample.
    pub fn new(element: Element, brush: Brush) -> (r: BrushStroke)
        requires
            element.is_valid(),
            brush.is_valid(),
        ensures
            r.is_valid(),
            r.elements@ == seq![element],
            r.brush == brush,
            r.bounds == hull(seq![element], brush.width as int),
            r.hitbox@.len() == 0,
    {
        let elements: Vec<Element> = Vec::new();
        let bounds = Aabb { mins: element.pos, maxs: element.pos };
        let hitbox: Vec<Aabb> = Vec::new();
        let mut brushstroke = BrushStroke { elements, brush, bounds, hitbox };
        brushstroke.push_elem(element);
        assert(brushstroke.elements@ =~= seq![element]);
        brushstroke
    }

    /// The bounding box of the stroke.
    pub fn bounds(&self) -> (r: Aabb)
        ensures
            r == self.bounds,
    {
        self.bounds
    }

    /// Appends a sample and grows the bounds to hold it; the hit-test boxes
    /// are left as they were until the next completion.
    pub fn push_elem(&mut self, element: Element)
        requires
            old(self).is_valid(),
            element.is_valid(),
        ensures
            final(self).is_valid(),
            final(self).elements@ == old(self).elements@.push(element),
            final(self).brush == old(self).brush,
            final(self).hitbox == old(self).hitbox,
            final(self).bounds == old(self).bounds.union(elem_box(element, old(self).brush.width as int)),
    {
        self.elements.push(element);
        proof {
            let s = self.elements@;
            assert forall|i: int| 0 <= i < s.len() implies #[trigger] s[i].is_valid() by {
                if i < s.len() - 1 {
                    assert(s[i] == old(self).elements@[i]);
                }
            }
            assert forall|i: int| 0 <= i < s.len() - 1 implies self.bounds.contains_box(
                #[trigger] elem_box(s[i], self.brush.width as int),
            ) by {
                assert(s[i] == old(self).elements@[i]);
            }
        }
        self.update_bounds_to_last_elem();
    }

    fn update_bounds_to_last_elem(&mut self)
        requires
            old(self).elements@.len() > 0,
            old(self).brush.is_valid(),
            all_valid(old(self).elements@),
            forall|i: int|
                0 <= i < old(self).elements@.len() - 1 ==> old(self).bounds.contains_box(
                    #[trigger] elem_box(old(self).elements@[i], old(self).brush.width as int),
                ),
        ensures
            final(self).is_valid(),
            final(self).elements == old(self).elements,
            final(self).brush == old(self).brush,
            final(self).hitbox == old(self).hitbox,
            final(self).bounds == old(self).bounds.union(
                elem_box(old(self).elements@.last(), old(self).brush.width as int),
            ),
    {
        let n = self.elements.len();
        let last = self.elements[n - 1];
        assert(self.elements@[n - 1].is_valid());
        let b = elem_box_exec(&last, self.brush.width);
        let ghost ob = self.bounds;
        self.bounds = self.bounds.merged(&b);
        proof {
            let s = self.elements@;
            let w = self.brush.width as int;
            assert forall|i: int| 0 <= i < s.len() implies self.bounds.contains_box(
                #[trigger] elem_box(s[i], w),
            ) by {
                if i < s.len() - 1 {
                    assert(ob.contains_box(elem_box(s[i], w)));
                }
            }
        }
    }

    /// Removes the last sample, if any, and completes the stroke.
    pub fn pop_elem(&mut self) -> (r: Option<Element>)
        requires
            old(self).is_valid(),
        ensures
            final(self).is_valid(),
            final(self).is_completed(),
            final(self).brush == old(self).brush,
            old(self).elements@.len() == 0 ==> r.is_none() && final(self).elements@
                == old(self).elements@ && final(self).bounds == old(self).bounds,
            old(self).elements@.len() > 0 ==> r == Some(old(self).elements@.last())
                && final(self).elements@ == old(self).elements@.drop_last(),
    {
        let element = self.elements.pop();
        proof {
            if old(self).elements@.len() > 0 {
                let s = self.elements@;
                assert forall|i: int| 0 <= i < s.len() implies #[trigger] s[i].is_valid() by {
                    assert(s[i] == old(self).elements@[i]);
                }
                assert forall|i: int| 0 <= i < s.len() implies self.bounds.contains_box(
                    #[trigger] elem_box(s[i], self.brush.width as int),
                ) by {
                    assert(s[i] == old(self).elements@[i]);
                    assert(old(self).bounds.contains_box(elem_box(old(self).elements@[i], self.brush.width as int)));
                }
            }
        }
        self.complete_stroke();
        element
    }

    /// Recomputes the bounds from all samples and regenerates the hit-test boxes.
    pub fn complete_stroke(&mut self)
        requires
            old(self).is_valid(),
        ensures
            final(self).is_valid(),
            final(self).is_completed(),
            final(self).elements == old(self).elements,
            final(self).brush == old(self).brush,
            old(self).elements@.len() == 0 ==> final(self).bounds == old(self).bounds,
    {
        self.update_bounds();
        self.hitbox = self.gen_hitbox();
    }

    /// Builds a completed stroke from a whole list of samples at once, or
    /// nothing when the list is empty.
    pub fn validation_stroke(elements: &[Element], brush: Brush) -> (r: Option<BrushStroke>)
        requires
            all_valid(elements@),
            brush.is_valid(),
        ensures
            elements@.len() == 0 <==> r.is_none(),
            r matches Some(st) ==> st.is_valid() && st.is_completed() && st.elements@ == elements@
                && st.brush == brush,
    {
        if elements.len() == 0 {
            return None;
        }
        assert(elements@[0].is_valid());
        let mut stroke = BrushStroke::new(elements[0], brush);
        let mut i: usize = 1;
        while i < elements.len()
            invariant
                1 <= i <= elements@.len(),
                all_valid(elements@),
                stroke.is_valid(),
                stroke.brush == brush,
                stroke.elements@ == elements@.subrange(0, i as int),
            decreases elements@.len() - i,
        {
            assert(elements@[i as int].is_valid());
            stroke.push_elem(elements[i]);
            assert(stroke.elements@ =~= elements@.subrange(0, i as int + 1));
            i = i + 1;
        }
        assert(stroke.elements@ =~= elements@);
        stroke.complete_stroke();
        Some(stroke)
    }

    /// Moves every sample by `offset`, then recomputes bounds and hit-test boxes.
    pub fn translate(&mut self, offset: Point)
        requires
            old(self).is_valid(),
            translation_fits(old(self).elements@, offset.x as int, offset.y as int),
        ensures
            final(self).is_valid(),
            final(self).is_completed(),
            final(self).brush == old(self).brush,
            final(self).elements@ == translate_all(old(self).elements@, offset.x as int, offset.y as int),
            old(self).elements@.len() == 0 ==> final(self).bounds == old(self).bounds,
    {
        let n = self.elements.len();
        let ghost s = self.elements@;
        let mut moved: Vec<Element> = Vec::new();
        let mut i: usize = 0;
        while i < n
            invariant
                i <= n,
                n == s.len(),
                s == self.elements@,
                translation_fits(s, offset.x as int, offset.y as int),
                all_valid(s),
                moved@ == translate_all(s, offset.x as int, offset.y as int).subrange(0, i as int),
                all_valid(moved@),
            decreases n - i,
        {
            let e = self.elements[i];
            assert(-COORD_MAX <= s[i as int].pos.x + offset.x <= COORD_MAX);
            assert(s[i as int].is_valid());
            let m = Element {
                pos: Point { x: e.pos.x + offset.x, y: e.pos.y + offset.y },
                pressure: e.pressure,
            };
            moved.push(m);
            assert(moved@ =~= translate_all(s, offset.x as int, offset.y as int).subrange(0, i as int + 1));
            proof {
                assert forall|j: int| 0 <= j < moved@.len() implies #[trigger] moved@[j].is_valid() by {
                    if j < i {
                        assert(moved@[j] == moved@.drop_last()[j]);
                    }
                }
            }
            i = i + 1;
        }
        assert(moved@ =~= translate_all(s, offset.x as int, offset.y as int));
        self.elements = moved;
        if n > 0 {
            self.cover_all();
        }
        self.complete_stroke();
    }

    /// Whether every sample stays in range when moved by `offset`.
    pub fn can_translate(&self, offset: Point) -> (r: bool)
        requires
            all_valid(self.elements@),
        ensures
            r == (point_in_range(offset) && translation_fits(self.elements@, offset.x as int, offset.y as int)),
    {
        if offset.x < -COORD_MAX || offset.x > COORD_MAX || offset.y < -COORD_MAX || offset.y > COORD_MAX {
            return false;
        }
        let n = self.elements.len();
        let mut i: usize = 0;
        while i < n
            invariant
                i <= n,
                n == self.elements@.len(),
                all_valid(self.elements@),
                point_in_range(offset),
                translation_fits(self.elements@.subrange(0, i as int), offset.x as int, offset.y as int),
            decreases n - i,
        {
            let p = self.elements[i].pos;
            assert(self.elements@[i as int].is_valid());
            let x = p.x + offset.x;
            let y = p.y + offset.y;
            if x < -COORD_MAX || x > COORD_MAX || y < -COORD_MAX || y > COORD_MAX {
                return false;
            }
            assert forall|j: int| 0 <= j < i + 1 implies -COORD_MAX <= #[trigger] self.elements@.subrange(0, i + 1)[j].pos.x + offset.x <= COORD_MAX
                && -COORD_MAX <= self.elements@.subrange(0, i + 1)[j].pos.y + offset.y <= COORD_MAX by {
                if j < i {
                    assert(self.elements@.subrange(0, i + 1)[j] == self.elements@.subrange(0, i as int)[j]);
                }
            }
            i = i + 1;
        }
        assert(self.elements@.subrange(0, n as int) =~= self.elements@);
        true
    }

    /// Whether the stroke can be resized to `new_bounds`.
    pub fn can_resize_to(&self, new_bounds: Aabb) -> (r: bool)
        ensures
            r == resize_target_fits(new_bounds, self.brush.width as int),
    {
        let w = self.brush.width as i128;
        let (x0, y0) = (new_bounds.mins.x as i128, new_bounds.mins.y as i128);
        let (x1, y1) = (new_bounds.maxs.x as i128, new_bounds.maxs.y as i128);
        let m = COORD_MAX as i128;
        x1 - x0 >= 2 * w && y1 - y0 >= 2 * w && -m <= x0 + w && -m <= y0 + w && x1 - w <= m && y1 - w <= m
    }

    /// Stretches the samples so that the recomputed bounds fill `new_bounds`,
    /// then recomputes bounds and hit-test boxes.
    pub fn resize(&mut self, new_bounds: Aabb)
        requires
            old(self).is_valid(),
            resize_target_fits(new_bounds, old(self).brush.width as int),
        ensures
            final(self).is_valid(),
            final(self).is_completed(),
            final(self).brush == old(self).brush,
            final(self).elements@ == resize_all(
                old(self).elements@,
                hull(old(self).elements@, old(self).brush.width as int),
                new_bounds,
                old(self).brush.width as int,
            ),
            old(self).elements@.len() == 0 ==> final(self).bounds == new_bounds,
    {
        let n = self.elements.len();
        if n == 0 {
            self.bounds = new_bounds;
            self.hitbox = Vec::new();
            return;
        }
        self.update_bounds();
        let w = self.brush.width as i64;
        let ghost s = self.elements@;
        let ghost from = self.bounds;
        proof {
            lemma_hull_in_range(s, w as int);
        }
        let a_x = self.bounds.mins.x + w;
        let b_x = self.bounds.maxs.x - w;
        let a_y = self.bounds.mins.y + w;
        let b_y = self.bounds.maxs.y - w;
        let c_x = new_bounds.mins.x + w;
        let d_x = new_bounds.maxs.x - w;
        let c_y = new_bounds.mins.y + w;
        let d_y = new_bounds.maxs.y - w;
        let mut moved: Vec<Element> = Vec::new();
        let mut i: usize = 0;
        while i < n
            invariant
                i <= n,
                n == s.len(),
                s == self.elements@,
                from == hull(s, w as int),
                0 < w <= u32::MAX,
                a_x == from.mins.x + w && b_x == from.maxs.x - w,
                a_y == from.mins.y + w && b_y == from.maxs.y - w,
                c_x == new_bounds.mins.x + w && d_x == new_bounds.maxs.x - w,
                c_y == new_bounds.mins.y + w && d_y == new_bounds.maxs.y - w,
                resize_target_fits(new_bounds, w as int),
                all_valid(s),
                -COORD_MAX <= a_x && b_x <= COORD_MAX && -COORD_MAX <= a_y && b_y <= COORD_MAX,
                forall|j: int| 0 <= j < s.len() ==> a_x <= #[trigger] s[j].pos.x <= b_x && a_y <= s[j].pos.y <= b_y,
                moved@ == resize_all(s, from, new_bounds, w as int).subrange(0, i as int),
                all_valid(moved@),
            decreases n - i,
        {
            let e = self.elements[i];
            assert(s[i as int].is_valid());
            assert(a_x <= s[i as int].pos.x <= b_x);
            let x = rescale_exec(e.pos.x, a_x, b_x, c_x, d_x);
            let y = rescale_exec(e.pos.y, a_y, b_y, c_y, d_y);
            moved.push(Element { pos: Point { x, y }, pressure: e.pressure });
            assert(moved@ =~= resize_all(s, from, new_bounds, w as int).subrange(0, i as int + 1));
            proof {
                assert forall|j: int| 0 <= j < moved@.len() implies #[trigger] moved@[j].is_valid() by {
                    if j < i {
                        assert(moved@[j] == moved@.drop_last()[j]);
                    }
                }
            }
            i = i + 1;
        }
        assert(moved@ =~= resize_all(s, from, new_bounds, w as int));
        self.elements = moved;
        self.cover_all();
        self.complete_stroke();
    }

    /// Sets the bounds to the box that holds every sample box there can be.
    fn cover_all(&mut self)
        requires
            old(self).brush.is_valid(),
            all_valid(old(self).elements@),
        ensures
            final(self).is_valid(),
            final(self).elements == old(self).elements,
            final(self).brush == old(self).brush,
    {
        let w = self.brush.width as i64;
        self.bounds = Aabb {
            mins: Point { x: -COORD_MAX - w, y: -COORD_MAX - w },
            maxs: Point { x: COORD_MAX + w, y: COORD_MAX + w },
        };
        assert forall|i: int| 0 <= i < self.elements@.len() implies self.bounds.contains_box(
            #[trigger] elem_box(self.elements@[i], self.brush.width as int),
        ) by {
            assert(self.elements@[i].is_valid());
        }
    }

    fn update_bounds(&mut self)
        requires
            old(self).is_valid(),
        ensures
            final(self).is_valid(),
            final(self).elements == old(self).elements,
            final(self).brush == old(self).brush,
            final(self).hitbox == old(self).hitbox,
            old(self).elements@.len() > 0 ==> final(self).bounds == hull(old(self).elements@, old(self).brush.width as int),
            old(self).elements@.len() == 0 ==> final(self).bounds == old(self).bounds,
    {
        let n = self.elements.len();
        if n > 0 {
            let w = self.brush.width;
            let ghost s = self.elements@;
            assert(s[0].is_valid());
            let mut b = elem_box_exec(&self.elements[0], w);
            assert(s.subrange(0, 1).len() == 1);
            assert(s.subrange(0, 1)[0] == s[0]);
            let mut i: usize = 1;
            while i < n
                invariant
                    1 <= i <= n,
                    n == s.len(),
                    s == self.elements@,
                    w == self.brush.width,
                    0 < w,
                    all_valid(s),
                    b == hull(s.subrange(0, i as int), w as int),
                decreases n - i,
            {
                assert(s[i as int].is_valid());
                let e = elem_box_exec(&self.elements[i], w);
                assert(s.subrange(0, i as int + 1).drop_last() =~= s.subrange(0, i as int));
                b = b.merged(&e);
                i = i + 1;
            }
            assert(s.subrange(0, n as int) =~= s);
            proof {
                lemma_hull_sides(s, w as int);
            }
            self.bounds = b;
        }
    }

    fn gen_hitbox(&self) -> (r: Vec<Aabb>)
        requires
            self.is_valid(),
        ensures
            r@.len() == self.elements@.len(),
            forall|i: int| 0 <= i < r@.len() ==> #[trigger] r@[i] == hitbox_at(self.elements@, self.brush.width as int, i),
    {
        let n = self.elements.len();
        let mut hitbox: Vec<Aabb> = Vec::new();
        let mut i: usize = 0;
        while i < n
            invariant
                i <= n,
                n == self.elements@.len(),
                self.is_valid(),
                hitbox@.len() == i,
                forall|j: int| 0 <= j < i ==> #[trigger] hitbox@[j] == hitbox_at(self.elements@, self.brush.width as int, j),
            decreases n - i,
        {
            assert(self.elements@[i as int].is_valid());
            let h = if i + 1 < n {
                assert(self.elements@[i as int + 1].is_valid());
                self.gen_last_hitbox(&self.elements[i], Some(&self.elements[i + 1]))
            } else {
                self.gen_last_hitbox(&self.elements[i], None)
            };
            hitbox.push(h);
            i = i + 1;
        }
        hitbox
    }

    fn gen_last_hitbox(&self, first: &Element, second: Option<&Element>) -> (r: Aabb)
        requires
            self.brush.is_valid(),
            first.is_valid(),
            second.is_some() ==> second.unwrap().is_valid(),
        ensures
            second.is_some() ==> r == segment_hitbox(first.pos, second.unwrap().pos, self.brush.width as int),
            second.is_none() ==> r == endpoint_hitbox(first.pos, self.brush.width as int),
    {
        let w = self.brush.width as i64;
        let a = first.pos;
        match second {
            Some(second) => {
                let b = second.pos;
                let hx = if b.x - a.x < 0 { -(w / 2) } else { w / 2 };
                let hy = if b.y - a.y < 0 { -(w / 2) } else { w / 2 };
                Aabb::new_positive(
                    Point { x: a.x - hx, y: a.y - hy },
                    Point { x: b.x + hx, y: b.y + hy },
                )
            },
            None => {
                let r = (HITBOX_DEFAULT + w) / 2;
                Aabb {
                    mins: Point { x: a.x - r, y: a.y - r },
                    maxs: Point { x: a.x + r, y: a.y + r },
                }
            },
        }
    }
}

/// The box a sample reserves in the stroke bounds.
fn elem_box_exec(e: &Element, w: u32) -> (r: Aabb)
    requires
        e.is_valid(),
    ensures
        r == elem_box(*e, w as int),
{
    let w = w as i64;
    Aabb {
        mins: Point { x: e.pos.x - w, y: e.pos.y - w },
        maxs: Point { x: e.pos.x + w, y: e.pos.y + w },
    }
}

} // verus!
