//! The element model: the four diagram primitives, their positions and the
//! width and height of the cells they occupy on the global grid.

use vstd::prelude::*;

verus! {

/// An axis-aligned box drawn with corner and rule glyphs.
/// `width` and `height` are the occupied extents in character cells.
pub struct Rectangle {
    pub id: String,
    pub x: usize,
    pub y: usize,
    pub width: usize,
    pub height: usize,
}

/// One of the four cardinal directions a line or arrow can run in.
pub enum Direction {
    Left,
    Right,
    Down,
    Up,
}

/// A straight rule of `len` cells starting at (x, y), running in `direction`.
pub struct Line {
    pub id: String,
    pub x: usize,
    pub y: usize,
    pub len: usize,
    pub direction: Direction,
}

/// Like a line, but with an arrowhead glyph at the pointed end.
pub struct Arrow {
    pub id: String,
    pub x: usize,
    pub y: usize,
    pub len: usize,
    pub direction: Direction,
}

/// A one-row label: the characters of `content`, one cell per character.
pub struct Text {
    pub id: String,
    pub x: usize,
    pub y: usize,
    pub content: String,
}

/// One positioned diagram primitive. The `id` fields identify elements in
/// input documents; rendering never reads them.
pub enum Element {
    Rectangle(Rectangle),
    Line(Line),
    Arrow(Arrow),
    Text(Text),
}

/// The global column of the element's top-left anchor.
pub open spec fn spec_x(e: Element) -> int {
    match e {
        Element::Rectangle(v) => v.x as int,
        Element::Line(v) => v.x as int,
        Element::Arrow(v) => v.x as int,
        Element::Text(v) => v.x as int,
    }
}

/// The global row of the element's top-left anchor.
pub open spec fn spec_y(e: Element) -> int {
    match e {
        Element::Rectangle(v) => v.y as int,
        Element::Line(v) => v.y as int,
        Element::Arrow(v) => v.y as int,
        Element::Text(v) => v.y as int,
    }
}

/// The number of columns the element occupies: horizontal lines and arrows
/// span `len` cells, vertical ones a single column, and a text label one
/// column per character of its content.
pub open spec fn spec_width(e: Element) -> int {
    match e {
        Element::Rectangle(v) => v.width as int,
        Element::Line(v) => match v.direction {
            Direction::Left | Direction::Right => v.len as int,
            Direction::Down | Direction::Up => 1,
        },
        Element::Arrow(v) => match v.direction {
            Direction::Left | Direction::Right => v.len as int,
            Direction::Down | Direction::Up => 1,
        },
        Element::Text(v) => v.content@.len() as int,
    }
}

/// The number of rows the element occupies: vertical lines and arrows claim
/// `len` rows, horizontal ones and text labels a single row.
pub open spec fn spec_height(e: Element) -> int {
    match e {
        Element::Rectangle(v) => v.height as int,
        Element::Line(v) => match v.direction {
            Direction::Left | Direction::Right => 1,
            Direction::Down | Direction::Up => v.len as int,
        },
        Element::Arrow(v) => match v.direction {
            Direction::Left | Direction::Right => 1,
            Direction::Down | Direction::Up => v.len as int,
        },
        Element::Text(_) => 1,
    }
}

/// An extent too small for the element's glyph rules: a rectangle narrower
/// than its two corner glyphs or with no rows at all, or a line or arrow of
/// zero length. Text is never degenerate (empty content merely occupies no
/// columns).
pub open spec fn is_degenerate(e: Element) -> bool {
    match e {
        Element::Rectangle(v) => v.width < 2 || v.height < 1,
        Element::Line(v) => v.len < 1,
        Element::Arrow(v) => v.len < 1,
        Element::Text(_) => false,
    }
}

/// The global column of the element's top-left anchor.
pub fn x(element: &Element) -> (r: usize)
    ensures
        r == spec_x(*element),
{
    match element {
        Element::Rectangle(val) => val.x,
        Element::Line(val) => val.x,
        Element::Arrow(val) => val.x,
        Element::Text(val) => val.x,
    }
}

/// The global row of the element's top-left anchor.
pub fn y(element: &Element) -> (r: usize)
    ensures
        r == spec_y(*element),
{
    match element {
        Element::Rectangle(val) => val.y,
        Element::Line(val) => val.y,
        Element::Arrow(val) => val.y,
        Element::Text(val) => val.y,
    }
}

/// The number of columns the element occupies.
pub fn width(element: &Element) -> (r: usize)
    ensures
        r == spec_width(*element),
{
    match element {
        Element::Rectangle(val) => val.width,
        Element::Line(val) => match val.direction {
            Direction::Left | Direction::Right => val.len,
            Direction::Down | Direction::Up => 1,
        },
        Element::Arrow(val) => match val.direction {
            Direction::Left | Direction::Right => val.len,
            Direction::Down | Direction::Up => 1,
        },
        Element::Text(val) => val.content.as_str().unicode_len(),
    }
}

/// The number of rows the element occupies.
pub fn height(element: &Element) -> (r: usize)
    ensures
        r == spec_height(*element),
{
    match element {
        Element::Rectangle(val) => val.height,
        Element::Line(val) => match val.direction {
            Direction::Left | Direction::Right => 1,
            Direction::Down | Direction::Up => val.len,
        },
        Element::Arrow(val) => match val.direction {
            Direction::Left | Direction::Right => 1,
            Direction::Down | Direction::Up => val.len,
        },
        Element::Text(_) => 1,
    }
}

} // verus!
