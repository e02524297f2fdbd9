//! What a user template is given to draw a stroke with.
use vstd::prelude::*;
use crate::aabb::{Aabb, Point, UNITS_PER_PIXEL, point_in_range};
use crate::curve::{Fragment, n_windows};
use crate::element::{BrushStyle, Color, Element};
use crate::stroke::{BrushStroke, all_valid};

verus! {

/// Room left around each window of samples drawn by a template.
pub const TEMPLATE_BOUNDS_PADDING: i64 = 50 * UNITS_PER_PIXEL;

/// One sample as a template sees it: its pressure and its moved position.
#[derive(Clone, Copy, Debug, PartialEq, Eq, Structural)]
pub struct TeraElement {
    pub pressure: u32,
    pub x: i64,
    pub y: i64,
}

/// Four consecutive samples as a template sees them.
pub type TeraWindow = (TeraElement, TeraElement, TeraElement, TeraElement);

/// Everything a template is rendered with, for one stroke.
#[derive(Clone, Debug)]
pub struct TemplateBundle {
    pub template: String,
    pub color: Color,
    pub width: u32,
    pub sensitivity: u32,
    /// One entry per window of four consecutive samples, in order.
    pub elements: Vec<TeraWindow>,
    /// Union of the windows' padded boxes; none when there is no window.
    pub bounds: Option<Aabb>,
}

/// Why a template could not be prepared.
#[derive(Clone, Copy, Debug, PartialEq, Eq, Structural)]
pub enum TemplateError {
    /// The brush does not draw with a template.
    NotTemplateStyle,
}

pub open spec fn tera_element(e: Element, off: Point) -> TeraElement {
    TeraElement { pressure: e.pressure, x: (e.pos.x + off.x) as i64, y: (e.pos.y + off.y) as i64 }
}

pub open spec fn tera_window(s: Seq<Element>, off: Point, i: int) -> TeraWindow {
    (tera_element(s[i], off), tera_element(s[i + 1], off), tera_element(s[i + 2], off), tera_element(s[i + 3], off))
}

/// Box of a window's positions, padded, on the pixel grid.
pub open spec fn window_box(s: Seq<Element>, i: int) -> Aabb {
    Aabb::spanned(s[i].pos, s[i + 1].pos).union(Aabb::spanned(s[i + 2].pos, s[i + 3].pos)).loosened(
        TEMPLATE_BOUNDS_PADDING as int,
    ).on_grid()
}

/// Union of the boxes of the first `k` windows.
pub open spec fn template_bounds_upto(s: Seq<Element>, k: int) -> Option<Aabb>
    decreases k,
{
    if k <= 0 {
        None
    } else {
        match template_bounds_upto(s, k - 1) {
            None => Some(window_box(s, k - 1)),
            Some(b) => Some(b.union(window_box(s, k - 1))),
        }
    }
}

fn gen_window_box(a: Point, b: Point, c: Point, d: Point) -> (r: Aabb)
    requires
        point_in_range(a),
        point_in_range(b),
        point_in_range(c),
        point_in_range(d),
    ensures
        r == Aabb::spanned(a, b).union(Aabb::spanned(c, d)).loosened(TEMPLATE_BOUNDS_PADDING as int).on_grid(),
        -3 * crate::aabb::COORD_MAX <= r.mins.x && r.maxs.x <= 3 * crate::aabb::COORD_MAX,
        -3 * crate::aabb::COORD_MAX <= r.mins.y && r.maxs.y <= 3 * crate::aabb::COORD_MAX,
{
    let r = Aabb::new_positive(a, b).merged(&Aabb::new_positive(c, d)).loosen(TEMPLATE_BOUNDS_PADDING).ceil_to_grid();
    proof {
        crate::aabb::lemma_floor_to_grid(r.mins.x as int);
    }
    r
}

impl BrushStroke {
    /// Prepares what the brush's template draws the stroke with: nothing for
    /// a stroke of one sample or none, and an error when the brush has no
    /// template.
    pub fn templates_svg_data(&self, offset: Point) -> (r: Result<Option<TemplateBundle>, TemplateError>)
        requires
            self.is_valid(),
            point_in_range(offset),
        ensures
            self.elements@.len() <= 1 ==> r matches Ok(None),
            self.elements@.len() > 1 && !(self.brush.current_style is CustomTemplate) ==> r == Err::<
                Option<TemplateBundle>,
                TemplateError,
            >(TemplateError::NotTemplateStyle),
            self.elements@.len() > 1 && self.brush.current_style is CustomTemplate ==> (r matches Ok(Some(b))
                && b.template == self.brush.current_style->CustomTemplate_0
                && b.color == self.brush.color
                && b.width == self.brush.width
                && b.sensitivity == self.brush.sensitivity
                && b.elements@ == Seq::new(n_windows(self.elements@.len() as int) as nat, |i: int| tera_window(self.elements@, offset, i))
                && b.bounds == template_bounds_upto(self.elements@, n_windows(self.elements@.len() as int))),
    {
        let n = self.elements.len();
        if n <= 1 {
            return Ok(None);
        }
        let ghost s = self.elements@;
        let mut windows: Vec<TeraWindow> = Vec::new();
        let mut bounds: Option<Aabb> = None;
        let mut i: usize = 0;
        while i + 3 < n
            invariant
                n == s.len(),
                s == self.elements@,
                i <= n,
                i + 3 <= n || i == 0,
                all_valid(s),
                point_in_range(offset),
                windows@ == Seq::new(i as nat, |j: int| tera_window(s, offset, j)),
                bounds == template_bounds_upto(s, i as int),
                bounds matches Some(b) ==> -3 * crate::aabb::COORD_MAX <= b.mins.x && b.maxs.x <= 3 * crate::aabb::COORD_MAX
                    && -3 * crate::aabb::COORD_MAX <= b.mins.y && b.maxs.y <= 3 * crate::aabb::COORD_MAX,
            decreases n - i,
        {
            let e0 = self.elements[i];
            let e1 = self.elements[i + 1];
            let e2 = self.elements[i + 2];
            let e3 = self.elements[i + 3];
            assert(s[i as int].is_valid() && s[i + 1].is_valid() && s[i + 2].is_valid() && s[i + 3].is_valid());
            let wb = gen_window_box(e0.pos, e1.pos, e2.pos, e3.pos);
            bounds = match bounds {
                None => Some(wb),
                Some(b) => Some(b.merged(&wb)),
            };
            windows.push((to_tera(e0, offset), to_tera(e1, offset), to_tera(e2, offset), to_tera(e3, offset)));
            assert(windows@ =~= Seq::new((i + 1) as nat, |j: int| tera_window(s, offset, j)));
            i = i + 1;
        }
        assert(i as int == n_windows(n as int));
        match &self.brush.current_style {
            BrushStyle::CustomTemplate(templ) => Ok(Some(TemplateBundle {
                template: templ.clone(),
                color: self.brush.color,
                width: self.brush.width,
                sensitivity: self.brush.sensitivity,
                elements: windows,
                bounds,
            })),
            _ => Err(TemplateError::NotTemplateStyle),
        }
    }

    /// The experimental style draws nothing yet.
    pub fn experimental_svg_data(&self, _offset: Point) -> (r: Option<Fragment>)
        ensures
            r.is_none(),
    {
        None
    }
}

fn to_tera(e: Element, off: Point) -> (r: TeraElement)
    requires
        point_in_range(e.pos),
        point_in_range(off),
    ensures
        r == tera_element(e, off),
{
    TeraElement { pressure: e.pressure, x: e.pos.x + off.x, y: e.pos.y + off.y }
}

} // verus!
