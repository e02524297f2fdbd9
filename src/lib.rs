//! Geometry core of a pressure-sensitive brush stroke.
//!
//! Positions and widths are fixed-point integers: one pixel is
//! [`aabb::UNITS_PER_PIXEL`] units. Pressure is an integer between zero and
//! [`element::PRESSURE_FULL`].
pub mod aabb;
pub mod curve;
pub mod element;
pub mod stroke;
pub mod template;
