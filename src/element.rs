//! Pointer samples and brush parameters.
use vstd::prelude::*;
use crate::aabb::{Point, point_in_range};

verus! {

/// Pressure of a sample pressed all the way down.
pub const PRESSURE_FULL: u32 = 1000;

/// One pointer reading: a position and a pressure in `0..=PRESSURE_FULL`.
#[derive(Clone, Copy, Debug, PartialEq, Eq, Structural)]
pub struct Element {
    pub pos: Point,
    pub pressure: u32,
}

impl Element {
    pub open spec fn is_valid(self) -> bool {
        point_in_range(self.pos) && self.pressure <= PRESSURE_FULL
    }

    /// Whether the position is in range and the pressure at most full.
    pub fn check(&self) -> (r: bool)
        ensures
            r == self.is_valid(),
    {
        let m = crate::aabb::COORD_MAX;
        -m <= self.pos.x && self.pos.x <= m && -m <= self.pos.y && self.pos.y <= m && self.pressure <= PRESSURE_FULL
    }

    pub fn new(pos: Point, pressure: u32) -> (r: Element)
        ensures
            r.pos == pos,
            r.pressure == pressure,
    {
        Element { pos, pressure }
    }
}

/// A colour with red, green, blue and alpha channels.
#[derive(Clone, Copy, Debug, PartialEq, Eq, Structural)]
pub struct Color {
    pub r: u8,
    pub g: u8,
    pub b: u8,
    pub a: u8,
}

/// How the outline of a stroke is drawn.
#[derive(Clone, Debug, PartialEq, Eq)]
pub enum BrushStyle {
    /// Each curve is split into straight pieces, each filled as a trapezoid.
    Linear,
    /// Each curve is filled directly and outlined with a thin rounded stroke.
    CubicBezier,
    /// A user template, given as its source text, draws the stroke.
    CustomTemplate(String),
    Experimental,
}

/// The brush a stroke is drawn with.
#[derive(Clone, Debug)]
pub struct Brush {
    /// Width in units; positive.
    pub width: u32,
    pub color: Color,
    /// Pressure sensitivity, in thousandths.
    pub sensitivity: u32,
    pub current_style: BrushStyle,
}

impl Brush {
    pub open spec fn is_valid(self) -> bool {
        0 < self.width
    }

    pub fn width(&self) -> (r: u32)
        ensures
            r == self.width,
    {
        self.width
    }

    pub fn sensitivity(&self) -> (r: u32)
        ensures
            r == self.sensitivity,
    {
        self.sensitivity
    }
}

} // verus!
