//! Rasterization: each element produces a local patch of glyphs, a rectangular
//! grid of characters in which a space cell means "not drawn".

use vstd::prelude::*;

use crate::element::{Arrow, Direction, Element, Line, Rectangle, Text};
use crate::element::is_degenerate;

verus! {

pub const LEFT_TOP: char = '┌';

pub const RIGHT_TOP: char = '┐';

pub const LEFT_BOTTOM: char = '└';

pub const RIGHT_BOTTOM: char = '┘';

pub const HORIZONTAL: char = '─';

pub const VERTICAL: char = '│';

pub const ARROW_LEFT: char = '◀';

pub const ARROW_RIGHT: char = '▶';

pub const ARROW_UP: char = '▲';

pub const ARROW_DOWN: char = '▼';

pub const SPACE: char = ' ';

/// A local glyph patch: a sequence of rows of characters.
pub type Shape = Vec<Vec<char>>;

/// A border row of `width` cells: `left`, then `inside` repeated, then
/// `right`. Meaningful for `width >= 2`; at exactly 2 the two end glyphs
/// stand side by side with no interior.
pub open spec fn spec_row(width: int, left: char, inside: char, right: char) -> Seq<char> {
    Seq::new(width as nat, |i: int| if i == 0 {
        left
    } else if i == width - 1 {
        right
    } else {
        inside
    })
}

/// A rectangle's patch: a corner-to-corner top border, `height - 2` interior
/// rows of vertical rules around spaces, and a bottom border. A height of 1
/// leaves only the top border row; a height of 2 leaves the two border rows
/// with no interior.
pub open spec fn spec_rectangle_shape(width: int, height: int) -> Seq<Seq<char>> {
    Seq::new(height as nat, |r: int| if r == 0 {
        spec_row(width, LEFT_TOP, HORIZONTAL, RIGHT_TOP)
    } else if r == height - 1 {
        spec_row(width, LEFT_BOTTOM, HORIZONTAL, RIGHT_BOTTOM)
    } else {
        spec_row(width, VERTICAL, SPACE, VERTICAL)
    })
}

/// A line's patch. Horizontal: one row of `len` rule glyphs. Vertical: a
/// single column of `len - 1` rule glyphs — one row fewer than the `len` rows
/// the line claims, so the remaining claimed row stays blank.
pub open spec fn spec_line_shape(len: int, direction: Direction) -> Seq<Seq<char>> {
    match direction {
        Direction::Left | Direction::Right => seq![
            Seq::new(len as nat, |i: int| HORIZONTAL),
        ],
        Direction::Down | Direction::Up => Seq::new((len - 1) as nat, |r: int| seq![VERTICAL]),
    }
}

/// An arrow's patch. Left: the arrowhead in the start column, rules filling
/// the remaining `len - 1` cells; Right mirrors it with the arrowhead in the
/// end column. Down and Up share the vertical line's one-row-short extent:
/// `len - 1` drawn rows (a single arrowhead row when `len` is 1), rules
/// everywhere but the arrowhead row, which sits at the pointed end.
pub open spec fn spec_arrow_shape(len: int, direction: Direction) -> Seq<Seq<char>> {
    match direction {
        Direction::Left => seq![
            Seq::new(len as nat, |i: int| if i == 0 { ARROW_LEFT } else { HORIZONTAL }),
        ],
        Direction::Right => seq![
            Seq::new(len as nat, |i: int| if i == len - 1 { ARROW_RIGHT } else { HORIZONTAL }),
        ],
        Direction::Down => {
            let rows: int = if len == 1 { 1 } else { len - 1 };
            Seq::new(rows as nat, |r: int| if r == rows - 1 { seq![ARROW_DOWN] } else { seq![VERTICAL] })
        },
        Direction::Up => {
            let rows: int = if len == 1 { 1 } else { len - 1 };
            Seq::new(rows as nat, |r: int| if r == 0 { seq![ARROW_UP] } else { seq![VERTICAL] })
        },
    }
}

/// The local patch of any element: a rectangle's borders, a line's or arrow's
/// run of rule glyphs, or the characters of a text label in one row.
pub open spec fn spec_shape(e: Element) -> Seq<Seq<char>> {
    match e {
        Element::Rectangle(v) => spec_rectangle_shape(v.width as int, v.height as int),
        Element::Line(v) => spec_line_shape(v.len as int, v.direction),
        Element::Arrow(v) => spec_arrow_shape(v.len as int, v.direction),
        Element::Text(v) => seq![v.content@],
    }
}

/// A border row of `width` cells: the two end glyphs with `inside` between.
pub fn row(width: usize, left: char, inside: char, right: char) -> (r: Vec<char>)
    requires
        width >= 2,
    ensures
        r@ == spec_row(width as int, left, inside, right),
{
    let mut r: Vec<char> = Vec::new();
    r.push(left);
    let mut i: usize = 1;
    while i < width - 1
        invariant
            width >= 2,
            1 <= i <= width - 1,
            r@.len() == i,
            forall|j: int| 0 <= j < i ==> r@[j] == spec_row(width as int, left, inside, right)[j],
        decreases width - i,
    {
        r.push(inside);
        i = i + 1;
    }
    r.push(right);
    assert(r@ =~= spec_row(width as int, left, inside, right));
    r
}

/// The rectangle's glyph patch.
pub fn rectangle(rect: &Rectangle) -> (s: Shape)
    requires
        rect.width >= 2,
        rect.height >= 1,
    ensures
        s.deep_view() == spec_rectangle_shape(rect.width as int, rect.height as int),
{
    let ghost expected = spec_rectangle_shape(rect.width as int, rect.height as int);
    let mut s: Shape = Vec::new();

    s.push(row(rect.width, LEFT_TOP, HORIZONTAL, RIGHT_TOP));
    let mut r: usize = 1;
    while r < rect.height - 1
        invariant
            rect.height >= 1,
            1 <= r,
            rect.height >= 2 ==> r <= rect.height - 1,
            rect.height == 1 ==> r == 1,
            rect.width >= 2,
            s@.len() == r,
            s@[0]@ == spec_row(rect.width as int, LEFT_TOP, HORIZONTAL, RIGHT_TOP),
            forall|j: int| 1 <= j < r ==> s@[j]@ == spec_row(
                rect.width as int,
                VERTICAL,
                SPACE,
                VERTICAL,
            ),
        decreases rect.height - r,
    {
        s.push(row(rect.width, VERTICAL, SPACE, VERTICAL));
        r = r + 1;
    }
    if rect.height >= 2 {
        s.push(row(rect.width, LEFT_BOTTOM, HORIZONTAL, RIGHT_BOTTOM));
    }
    assert(s.deep_view() =~~= expected);
    s
}

/// The line's glyph patch.
pub fn line(ln: &Line) -> (s: Shape)
    requires
        ln.len >= 1,
    ensures
        s.deep_view() == spec_line_shape(ln.len as int, ln.direction),
{
    let ghost expected = spec_line_shape(ln.len as int, ln.direction);
    match ln.direction {
        Direction::Left | Direction::Right => {
            let mut r: Vec<char> = Vec::new();
            let mut i: usize = 0;
            while i < ln.len
                invariant
                    i <= ln.len,
                    r@.len() == i,
                    forall|j: int| 0 <= j < i ==> r@[j] == HORIZONTAL,
                decreases ln.len - i,
            {
                r.push(HORIZONTAL);
                i = i + 1;
            }
            assert(r@ =~= expected[0]);
            let s: Shape = vec![r];
            assert(s.deep_view() =~~= expected);
            s
        },
        Direction::Down | Direction::Up => {
            let mut s: Shape = Vec::new();
            let mut i: usize = 1;
            while i < ln.len
                invariant
                    ln.len >= 1,
                    1 <= i,
                    i <= ln.len || i == 1,
                    s@.len() == i - 1,
                    forall|j: int| 0 <= j < i - 1 ==> s@[j]@ =~= seq![VERTICAL],
                decreases ln.len - i,
            {
                s.push(vec![VERTICAL]);
                i = i + 1;
            }
            assert(s.deep_view() =~~= expected);
            s
        },
    }
}

/// The arrow's glyph patch.
pub fn arrow(ar: &Arrow) -> (s: Shape)
    requires
        ar.len >= 1,
    ensures
        s.deep_view() == spec_arrow_shape(ar.len as int, ar.direction),
{
    let ghost expected = spec_arrow_shape(ar.len as int, ar.direction);
    match ar.direction {
        Direction::Left => {
            let mut r: Vec<char> = Vec::new();
            r.push(ARROW_LEFT);
            let mut i: usize = 1;
            while i < ar.len
                invariant
                    1 <= i,
                    i <= ar.len || i == 1,
                    r@.len() == i,
                    r@[0] == ARROW_LEFT,
                    forall|j: int| 1 <= j < i ==> r@[j] == HORIZONTAL,
                decreases ar.len - i,
            {
                r.push(HORIZONTAL);
                i = i + 1;
            }
            assert(r@ =~= expected[0]);
            let s: Shape = vec![r];
            assert(s.deep_view() =~~= expected);
            s
        },
        Direction::Right => {
            let mut r: Vec<char> = Vec::new();
            let mut i: usize = 1;
            while i < ar.len
                invariant
                    1 <= i,
                    i <= ar.len || i == 1,
                    r@.len() == i - 1,
                    forall|j: int| 0 <= j < i - 1 ==> r@[j] == HORIZONTAL,
                decreases ar.len - i,
            {
                r.push(HORIZONTAL);
                i = i + 1;
            }
            r.push(ARROW_RIGHT);
            assert(r@ =~= expected[0]);
            let s: Shape = vec![r];
            assert(s.deep_view() =~~= expected);
            s
        },
        Direction::Down => {
            let mut s: Shape = Vec::new();
            let mut i: usize = 1;
            while i < ar.len
                invariant
                    ar.len >= 1,
                    1 <= i,
                    i <= ar.len || i == 1,
                    s@.len() == i - 1,
                    forall|j: int| 0 <= j < i - 1 ==> s@[j]@ =~= (if j == ar.len - 2 {
                        seq![ARROW_DOWN]
                    } else {
                        seq![VERTICAL]
                    }),
                decreases ar.len - i,
            {
                if i < ar.len - 1 {
                    s.push(vec![VERTICAL]);
                } else {
                    s.push(vec![ARROW_DOWN]);
                }
                i = i + 1;
            }
            if ar.len == 1 {
                s.push(vec![ARROW_DOWN]);
            }
            assert(s.deep_view() =~~= expected);
            s
        },
        Direction::Up => {
            let mut s: Shape = Vec::new();
            s.push(vec![ARROW_UP]);
            let mut i: usize = 1;
            while i + 1 < ar.len
                invariant
                    ar.len >= 1,
                    1 <= i,
                    i + 1 <= ar.len || i == 1,
                    s@.len() == i,
                    s@[0]@ =~= seq![ARROW_UP],
                    forall|j: int| 1 <= j < i ==> s@[j]@ =~= seq![VERTICAL],
                decreases ar.len - i,
            {
                s.push(vec![VERTICAL]);
                i = i + 1;
            }
            assert(s.deep_view() =~~= expected);
            s
        },
    }
}

/// The text label's glyph patch: a single row holding the characters of
/// `content` in order.
pub fn text(label: &Text) -> (s: Shape)
    ensures
        s.deep_view() == seq![label.content@],
{
    let n: usize = label.content.as_str().unicode_len();
    let mut r: Vec<char> = Vec::new();
    let mut i: usize = 0;
    while i < n
        invariant
            n == label.content@.len(),
            i <= n,
            r@.len() == i,
            forall|j: int| 0 <= j < i ==> r@[j] == label.content@[j],
        decreases n - i,
    {
        r.push(label.content.as_str().get_char(i));
        i = i + 1;
    }
    assert(r@ =~= label.content@);
    let s: Shape = vec![r];
    assert(s.deep_view() =~~= seq![label.content@]);
    s
}

/// The local patch of any element, dispatching on its variant.
pub fn shape(element: &Element) -> (s: Shape)
    requires
        !is_degenerate(*element),
    ensures
        s.deep_view() == spec_shape(*element),
{
    match element {
        Element::Rectangle(val) => rectangle(val),
        Element::Line(val) => line(val),
        Element::Arrow(val) => arrow(val),
        Element::Text(val) => text(val),
    }
}

} // verus!
