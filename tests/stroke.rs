use brushstroke::aabb::{Aabb, Point};
use brushstroke::element::{Brush, BrushStyle, Color, Element};
use brushstroke::stroke::{BrushStroke, HITBOX_DEFAULT};

fn px(v: i64) -> i64 {
    v * 1000
}

fn brush(width: u32, style: BrushStyle) -> Brush {
    Brush { width, color: Color { r: 0, g: 0, b: 0, a: 255 }, sensitivity: 500, current_style: style }
}

fn el(x: i64, y: i64, pressure: u32) -> Element {
    Element::new(Point { x, y }, pressure)
}

fn contains_square(b: &Aabb, e: &Element, side: i64) -> bool {
    let h = side / 2;
    b.mins.x <= e.pos.x - h && b.mins.y <= e.pos.y - h && e.pos.x + h <= b.maxs.x && e.pos.y + h <= b.maxs.y
}

fn wavy() -> Vec<Element> {
    vec![el(0, 0, 1000), el(px(3), px(5), 800), el(px(-7), px(2), 600), el(px(12), px(-4), 900), el(px(4), px(9), 300)]
}

#[test]
fn new_stroke_bounds_are_width_around_sample() {
    let s = BrushStroke::new(el(px(5), px(-3), 1000), brush(2000, BrushStyle::Linear));
    let b = s.bounds();
    assert_eq!(b, Aabb { mins: Point { x: 3000, y: -5000 }, maxs: Point { x: 7000, y: -1000 } });
    assert!(s.hitbox.is_empty());
}

#[test]
fn bounds_contain_every_sample_after_each_mutation() {
    let w: u32 = 2000;
    let mut s = BrushStroke::new(el(0, 0, 1000), brush(w, BrushStyle::Linear));
    for e in wavy() {
        s.push_elem(e);
        assert!(s.elements.iter().all(|e| contains_square(&s.bounds, e, w as i64)));
    }
    s.translate(Point { x: px(2), y: px(-1) });
    assert!(s.elements.iter().all(|e| contains_square(&s.bounds, e, w as i64)));
    s.resize(Aabb { mins: Point { x: 0, y: 0 }, maxs: Point { x: px(100), y: px(50) } });
    assert!(s.elements.iter().all(|e| contains_square(&s.bounds, e, w as i64)));
    s.pop_elem();
    assert!(s.elements.iter().all(|e| contains_square(&s.bounds, e, w as i64)));
}

#[test]
fn hitbox_has_one_box_per_sample_after_completion() {
    let mut s = BrushStroke::validation_stroke(&wavy(), brush(2000, BrushStyle::Linear)).unwrap();
    assert_eq!(s.hitbox.len(), s.elements.len());
    s.push_elem(el(px(1), px(1), 1000));
    s.complete_stroke();
    assert_eq!(s.hitbox.len(), 6);
    s.pop_elem();
    assert_eq!(s.hitbox.len(), 5);
}

#[test]
fn appending_then_completing_matches_building_at_once() {
    let samples = wavy();
    let mut built = BrushStroke::new(samples[0], brush(3000, BrushStyle::CubicBezier));
    for e in &samples[1..] {
        built.push_elem(*e);
    }
    built.complete_stroke();
    let direct = BrushStroke::validation_stroke(&samples, brush(3000, BrushStyle::CubicBezier)).unwrap();
    assert_eq!(built.bounds, direct.bounds);
    assert_eq!(built.hitbox, direct.hitbox);
    assert_eq!(built.elements, direct.elements);
}

#[test]
fn validation_stroke_of_nothing_is_none() {
    assert!(BrushStroke::validation_stroke(&[], brush(2000, BrushStyle::Linear)).is_none());
}

#[test]
fn translate_there_and_back_restores_samples_and_bounds() {
    let mut s = BrushStroke::validation_stroke(&wavy(), brush(2000, BrushStyle::Linear)).unwrap();
    let before = s.clone();
    s.translate(Point { x: px(17), y: -2345 });
    assert_eq!(s.bounds.mins.x, before.bounds.mins.x + px(17));
    assert_eq!(s.bounds.maxs.y, before.bounds.maxs.y - 2345);
    s.translate(Point { x: px(-17), y: 2345 });
    assert_eq!(s.elements, before.elements);
    assert_eq!(s.bounds, before.bounds);
    assert_eq!(s.hitbox, before.hitbox);
}

#[test]
fn resize_then_recompute_gives_the_target() {
    let mut s = BrushStroke::validation_stroke(&wavy(), brush(2000, BrushStyle::Linear)).unwrap();
    let target = Aabb { mins: Point { x: px(-40), y: px(10) }, maxs: Point { x: px(60), y: px(33) } };
    assert!(s.can_resize_to(target));
    s.resize(target);
    s.complete_stroke();
    assert_eq!(s.bounds, target);
}

#[test]
fn resize_maps_extreme_samples_onto_target_edges() {
    let mut s = BrushStroke::validation_stroke(&[el(0, 0, 1000), el(px(10), px(20), 1000)], brush(1000, BrushStyle::Linear)).unwrap();
    s.resize(Aabb { mins: Point { x: 0, y: 0 }, maxs: Point { x: px(22), y: px(42) } });
    assert_eq!(s.elements[0].pos, Point { x: px(1), y: px(1) });
    assert_eq!(s.elements[1].pos, Point { x: px(21), y: px(41) });
}

#[test]
fn resize_too_small_for_brush_is_refused() {
    let s = BrushStroke::validation_stroke(&wavy(), brush(2000, BrushStyle::Linear)).unwrap();
    assert!(!s.can_resize_to(Aabb { mins: Point { x: 0, y: 0 }, maxs: Point { x: 3999, y: px(10) } }));
}

#[test]
fn single_sample_stroke_has_isolated_point_hitbox() {
    let w: u32 = 2000;
    let s = BrushStroke::validation_stroke(&[el(px(4), px(4), 700)], brush(w, BrushStyle::Linear)).unwrap();
    assert_eq!(s.hitbox.len(), 1);
    let r = (HITBOX_DEFAULT + w as i64) / 2;
    assert_eq!(r, 6000);
    assert_eq!(s.hitbox[0], Aabb { mins: Point { x: px(4) - r, y: px(4) - r }, maxs: Point { x: px(4) + r, y: px(4) + r } });
    assert!(s.linear_svg_data(Point { x: 0, y: 0 }).is_empty());
    assert!(s.cubbez_svg_data(Point { x: 0, y: 0 }).is_empty());
}

#[test]
fn hitbox_extends_toward_direction_of_travel() {
    let s = BrushStroke::validation_stroke(&[el(0, 0, 1000), el(px(-10), 0, 1000)], brush(2000, BrushStyle::Linear)).unwrap();
    let h = s.hitbox[0];
    assert_eq!(h, Aabb { mins: Point { x: -11000, y: -1000 }, maxs: Point { x: 1000, y: 1000 } });
    assert!(-h.mins.x > h.maxs.x);
}

#[test]
fn hitbox_of_segment_going_up_and_right() {
    let s = BrushStroke::validation_stroke(&[el(0, 0, 1000), el(px(5), px(-5), 1000), el(px(5), px(-5), 1000)], brush(3000, BrushStyle::Linear)).unwrap();
    assert_eq!(s.hitbox[0], Aabb { mins: Point { x: -1500, y: -6500 }, maxs: Point { x: 6500, y: 1500 } });
    assert_eq!(s.hitbox[1], Aabb { mins: Point { x: 3500, y: -6500 }, maxs: Point { x: 6500, y: -3500 } });
}

#[test]
fn pop_returns_last_and_empties_without_panicking() {
    let mut s = BrushStroke::validation_stroke(&[el(0, 0, 1000), el(px(1), 0, 500)], brush(2000, BrushStyle::Linear)).unwrap();
    assert_eq!(s.pop_elem(), Some(el(px(1), 0, 500)));
    assert_eq!(s.bounds, Aabb { mins: Point { x: -2000, y: -2000 }, maxs: Point { x: 2000, y: 2000 } });
    assert_eq!(s.pop_elem(), Some(el(0, 0, 1000)));
    assert_eq!(s.pop_elem(), None);
    assert!(s.hitbox.is_empty());
}

#[test]
fn translate_out_of_range_is_refused() {
    let s = BrushStroke::validation_stroke(&wavy(), brush(2000, BrushStyle::Linear)).unwrap();
    assert!(s.can_translate(Point { x: px(1), y: px(1) }));
    assert!(!s.can_translate(Point { x: brushstroke::aabb::COORD_MAX, y: 0 }));
}

#[test]
fn element_check_rejects_overfull_pressure() {
    assert!(el(0, 0, 1000).check());
    assert!(!el(0, 0, 1001).check());
}

#[test]
fn grid_rounding_goes_outward() {
    let b = Aabb { mins: Point { x: -1500, y: 10 }, maxs: Point { x: 1500, y: 999 } };
    assert_eq!(b.ceil_to_grid(), Aabb { mins: Point { x: -2000, y: 0 }, maxs: Point { x: 2000, y: 1000 } });
    let m = Aabb { mins: Point { x: 0, y: 0 }, maxs: Point { x: 1, y: 1 } }.merged(&Aabb { mins: Point { x: -3, y: 2 }, maxs: Point { x: 0, y: 5 } });
    assert_eq!(m, Aabb { mins: Point { x: -3, y: 0 }, maxs: Point { x: 1, y: 5 } });
    assert_eq!(Aabb::new_positive(Point { x: 5, y: -1 }, Point { x: -2, y: 3 }), Aabb { mins: Point { x: -2, y: -1 }, maxs: Point { x: 5, y: 3 } });
    assert_eq!(m.loosen(2), Aabb { mins: Point { x: -5, y: -2 }, maxs: Point { x: 3, y: 7 } });
}
