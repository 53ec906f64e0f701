//! A value-formatting engine for a status-bar display: a typed runtime value
//! (text, numeric quantity with a physical unit, icon, or flag) plus a named
//! formatter specification with keyword arguments is turned into a display
//! string. Magnitudes are decimal fixed-point numbers; prefix selection,
//! width budgeting, rounding, text rotation and markup escaping are all
//! verified against the contracts below.

pub mod error;
pub mod fixed;
pub mod prefix;
pub mod unit;
pub mod escape;
pub mod value;
pub mod args;
pub mod formatter;
pub mod pacman;
pub mod text;
pub mod clock;
pub mod laws;
