use brushstroke::aabb::{Aabb, Point};
use brushstroke::curve::{element_width, fit_window, CubicBez, Curve, Line, Strategy};
use brushstroke::element::{Brush, BrushStyle, Color, Element};
use brushstroke::stroke::BrushStroke;
use brushstroke::template::{TeraElement, TemplateError};

fn px(v: i64) -> i64 {
    v * 1000
}

fn brush(width: u32, style: BrushStyle) -> Brush {
    Brush { width, color: Color { r: 10, g: 20, b: 30, a: 255 }, sensitivity: 700, current_style: style }
}

fn el(x: i64, y: i64, pressure: u32) -> Element {
    Element::new(Point { x, y }, pressure)
}

fn colinear() -> Vec<Element> {
    vec![el(0, 0, 1000), el(px(10), 0, 1000), el(px(20), 0, 1000), el(px(30), 0, 1000)]
}

const ORIGIN: Point = Point { x: 0, y: 0 };

#[test]
fn colinear_window_gives_one_fragment_bounded_by_half_width() {
    let s = BrushStroke::validation_stroke(&colinear(), brush(2000, BrushStyle::Linear)).unwrap();
    let frags = s.linear_svg_data(ORIGIN);
    assert_eq!(frags.len(), 1);
    let f = frags[0];
    assert_eq!(
        f.curve,
        Curve::Cubic(CubicBez {
            start: Point { x: px(10), y: 0 },
            cp1: Point { x: 13333, y: 0 },
            cp2: Point { x: 16666, y: 0 },
            end: Point { x: px(20), y: 0 },
        })
    );
    assert_eq!(f.start_width, 2000);
    assert_eq!(f.end_width, 2000);
    assert_eq!(f.bounds, Aabb { mins: Point { x: px(9), y: px(-1) }, maxs: Point { x: px(21), y: px(1) } });
    assert_eq!(f.strategy, Strategy::Subdivided);
    let direct = s.cubbez_svg_data(ORIGIN);
    assert_eq!(direct.len(), 1);
    assert_eq!(direct[0].bounds, f.bounds);
    assert_eq!(direct[0].strategy, Strategy::Direct);
}

#[test]
fn colinear_window_splits_into_seven_pieces_along_the_segment() {
    let s = BrushStroke::validation_stroke(&colinear(), brush(2000, BrushStyle::Linear)).unwrap();
    let pieces = s.linear_svg_data(ORIGIN)[0].pieces();
    assert_eq!(pieces.len(), 7);
    assert_eq!(pieces[0].line.start, Point { x: px(10), y: 0 });
    assert_eq!(pieces[6].line.end, Point { x: px(20), y: 0 });
    for i in 0..6 {
        assert_eq!(pieces[i].line.end, pieces[i + 1].line.start);
        assert!(pieces[i].line.start.x < pieces[i].line.end.x);
    }
    assert!(pieces.iter().all(|p| p.start_width == 2000 && p.end_width == 2000));
}

#[test]
fn offset_moves_fragments() {
    let s = BrushStroke::validation_stroke(&colinear(), brush(2000, BrushStyle::Linear)).unwrap();
    let f = s.linear_svg_data(Point { x: px(5), y: px(-2) })[0];
    assert_eq!(f.bounds, Aabb { mins: Point { x: px(14), y: px(-3) }, maxs: Point { x: px(26), y: px(-1) } });
}

#[test]
fn piece_widths_interpolate_between_pressures() {
    let samples = vec![el(0, 0, 0), el(px(10), 0, 500), el(px(20), px(3), 1000), el(px(30), 0, 0)];
    let s = BrushStroke::validation_stroke(&samples, brush(2000, BrushStyle::Linear)).unwrap();
    let f = s.linear_svg_data(ORIGIN)[0];
    assert_eq!((f.start_width, f.end_width), (1000, 2000));
    let pieces = f.pieces();
    let starts: Vec<i64> = pieces.iter().map(|p| p.start_width).collect();
    assert_eq!(starts, vec![1000, 1142, 1285, 1428, 1571, 1714, 1857]);
    assert_eq!(pieces[6].end_width, 2000);
}

#[test]
fn zero_tangent_falls_back_to_line() {
    let c = fit_window(Point { x: 0, y: 0 }, Point { x: px(10), y: 0 }, Point { x: 0, y: 0 }, Point { x: px(20), y: 0 });
    assert_eq!(c, Some(Curve::Line(Line { start: Point { x: px(10), y: 0 }, end: Point { x: 0, y: 0 } })));
    let samples = vec![el(0, 0, 1000), el(px(10), 0, 500), el(0, 0, 500), el(px(20), 0, 1000)];
    let s = BrushStroke::validation_stroke(&samples, brush(2000, BrushStyle::CubicBezier)).unwrap();
    let frags = s.cubbez_svg_data(ORIGIN);
    assert_eq!(frags.len(), 1);
    assert_eq!(frags[0].bounds, Aabb { mins: Point { x: -1000, y: -1000 }, maxs: Point { x: 11000, y: 1000 } });
    assert_eq!(frags[0].pieces().len(), 1);
}

#[test]
fn zero_length_segment_is_dropped() {
    let p = Point { x: px(3), y: px(3) };
    assert_eq!(fit_window(Point { x: 0, y: 0 }, p, p, Point { x: px(9), y: 0 }), None);
}

#[test]
fn same_position_samples_give_no_fragments() {
    let samples: Vec<Element> = (0..6).map(|i| el(px(7), px(7), 100 * i)).collect();
    let s = BrushStroke::validation_stroke(&samples, brush(2000, BrushStyle::Linear)).unwrap();
    assert!(s.linear_svg_data(ORIGIN).is_empty());
    assert!(s.cubbez_svg_data(ORIGIN).is_empty());
}

#[test]
fn windows_are_kept_in_order() {
    let samples = vec![el(0, 0, 1000), el(px(10), px(1), 1000), el(px(20), 0, 1000), el(px(30), px(2), 1000), el(px(40), 0, 1000)];
    let s = BrushStroke::validation_stroke(&samples, brush(2000, BrushStyle::Linear)).unwrap();
    let frags = s.linear_svg_data(ORIGIN);
    assert_eq!(frags.len(), 2);
    match (frags[0].curve, frags[1].curve) {
        (Curve::Cubic(a), Curve::Cubic(b)) => {
            assert_eq!(a.start, Point { x: px(10), y: px(1) });
            assert_eq!(b.start, Point { x: px(20), y: 0 });
        }
        _ => panic!("expected two cubic curves"),
    }
}

#[test]
fn width_from_pressure() {
    assert_eq!(element_width(500, 2000), 1000);
    assert_eq!(element_width(333, 10), 3);
    assert_eq!(element_width(1000, 7), 7);
}

#[test]
fn template_refused_for_other_styles() {
    let s = BrushStroke::validation_stroke(&colinear(), brush(2000, BrushStyle::Linear)).unwrap();
    assert_eq!(s.templates_svg_data(ORIGIN).unwrap_err(), TemplateError::NotTemplateStyle);
}

#[test]
fn template_of_single_sample_is_nothing() {
    let s = BrushStroke::validation_stroke(&[el(0, 0, 1000)], brush(2000, BrushStyle::Linear)).unwrap();
    assert!(s.templates_svg_data(ORIGIN).unwrap().is_none());
}

#[test]
fn template_bundle_holds_windows_and_brush() {
    let style = BrushStyle::CustomTemplate(String::from("<g>{{ width }}</g>"));
    let s = BrushStroke::validation_stroke(&colinear(), brush(2000, style)).unwrap();
    let b = s.templates_svg_data(Point { x: 1, y: 2 }).unwrap().unwrap();
    assert_eq!(b.template, "<g>{{ width }}</g>");
    assert_eq!((b.width, b.sensitivity), (2000, 700));
    assert_eq!(b.color, Color { r: 10, g: 20, b: 30, a: 255 });
    assert_eq!(b.elements.len(), 1);
    assert_eq!(b.elements[0].0, TeraElement { pressure: 1000, x: 1, y: 2 });
    assert_eq!(b.elements[0].3, TeraElement { pressure: 1000, x: px(30) + 1, y: 2 });
    assert_eq!(b.bounds, Some(Aabb { mins: Point { x: px(-50), y: px(-50) }, maxs: Point { x: px(80), y: px(50) } }));
}

#[test]
fn template_of_three_samples_has_no_window() {
    let style = BrushStyle::CustomTemplate(String::from("t"));
    let s = BrushStroke::validation_stroke(&colinear()[..3], brush(2000, style)).unwrap();
    let b = s.templates_svg_data(ORIGIN).unwrap().unwrap();
    assert!(b.elements.is_empty());
    assert_eq!(b.bounds, None);
}

#[test]
fn experimental_style_draws_nothing() {
    let s = BrushStroke::validation_stroke(&colinear(), brush(2000, BrushStyle::Experimental)).unwrap();
    assert!(s.experimental_svg_data(ORIGIN).is_none());
}
