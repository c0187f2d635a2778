//! Renders a collection of positioned diagram elements (rectangles, lines,
//! arrows, text labels) into one block of monospaced box-drawing text.

pub mod draw;
pub mod element;
pub mod shape;
