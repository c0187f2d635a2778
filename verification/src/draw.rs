//! The compositor: global bounds over a collection of elements, placement of
//! each element's patch on a shared canvas with last-writer-wins merging of
//! non-space glyphs, and serialization of the canvas to text.

use vstd::prelude::*;

use crate::element::{Element, is_degenerate, spec_height, spec_width, spec_x, spec_y};
use crate::element::{height, width, x, y};
use crate::shape::{SPACE, Shape, shape, spec_shape};

verus! {

/// Why a render call failed.
#[derive(Debug, PartialEq, Eq, Structural)]
pub enum DrawError {
    /// The non-empty collection yields a canvas with a zero extent, or an
    /// extent that does not fit the machine's word size.
    Bounds,
    /// An element's patch would not fit the canvas at its offset.
    Placement,
    /// An element declares an extent too small for its glyph rules.
    DegenerateShape,
}

/// The minimal global rectangle enclosing every element's occupied cells:
/// anchor (x, y) and extent width x height.
pub struct Bounds {
    pub x: usize,
    pub y: usize,
    pub width: usize,
    pub height: usize,
}

/// The least anchor column over the collection (0 when it is empty).
pub open spec fn x_min_of(s: Seq<Element>) -> int
    decreases s.len(),
{
    if s.len() == 0 {
        0
    } else if s.len() == 1 {
        spec_x(s[0])
    } else {
        let m = x_min_of(s.drop_last());
        let v = spec_x(s.last());
        if v < m {
            v
        } else {
            m
        }
    }
}

/// The greatest column one past any element's occupied cells (0 when empty).
pub open spec fn x_max_of(s: Seq<Element>) -> int
    decreases s.len(),
{
    if s.len() == 0 {
        0
    } else if s.len() == 1 {
        spec_x(s[0]) + spec_width(s[0])
    } else {
        let m = x_max_of(s.drop_last());
        let v = spec_x(s.last()) + spec_width(s.last());
        if v > m {
            v
        } else {
            m
        }
    }
}

/// The least anchor row over the collection (0 when it is empty).
pub open spec fn y_min_of(s: Seq<Element>) -> int
    decreases s.len(),
{
    if s.len() == 0 {
        0
    } else if s.len() == 1 {
        spec_y(s[0])
    } else {
        let m = y_min_of(s.drop_last());
        let v = spec_y(s.last());
        if v < m {
            v
        } else {
            m
        }
    }
}

/// The greatest row one past any element's occupied cells (0 when empty).
pub open spec fn y_max_of(s: Seq<Element>) -> int
    decreases s.len(),
{
    if s.len() == 0 {
        0
    } else if s.len() == 1 {
        spec_y(s[0]) + spec_height(s[0])
    } else {
        let m = y_max_of(s.drop_last());
        let v = spec_y(s.last()) + spec_height(s.last());
        if v > m {
            v
        } else {
            m
        }
    }
}

/// The canvas column count: the horizontal span of the bounds.
pub open spec fn canvas_width(s: Seq<Element>) -> int {
    x_max_of(s) - x_min_of(s)
}

/// The canvas row count: the vertical span of the bounds.
pub open spec fn canvas_height(s: Seq<Element>) -> int {
    y_max_of(s) - y_min_of(s)
}

/// Occupied extents are never negative.
pub proof fn lemma_extent_nonneg(e: Element)
    ensures
        spec_width(e) >= 0,
        spec_height(e) >= 0,
{
}

/// Every element's occupied rectangle lies inside the collection's bounds.
pub proof fn lemma_bounds_contain(s: Seq<Element>, i: int)
    requires
        0 <= i < s.len(),
    ensures
        x_min_of(s) <= spec_x(s[i]),
        spec_x(s[i]) + spec_width(s[i]) <= x_max_of(s),
        y_min_of(s) <= spec_y(s[i]),
        spec_y(s[i]) + spec_height(s[i]) <= y_max_of(s),
    decreases s.len(),
{
    if s.len() > 1 && i < s.len() - 1 {
        lemma_bounds_contain(s.drop_last(), i);
        assert(s.drop_last()[i] == s[i]);
    }
}

/// Global bounds over the collection: least anchor and enclosing extent, all
/// zero for an empty collection.
pub fn bounds(elements: &Vec<Element>) -> (b: Bounds)
    requires
        forall|i: int| 0 <= i < elements@.len() ==> spec_x(#[trigger] elements@[i]) + spec_width(
            elements@[i],
        ) <= usize::MAX && spec_y(elements@[i]) + spec_height(elements@[i]) <= usize::MAX,
    ensures
        elements@.len() == 0 ==> b.x == 0 && b.y == 0 && b.width == 0 && b.height == 0,
        elements@.len() > 0 ==> b.x == x_min_of(elements@) && b.y == y_min_of(elements@) && b.x
            + b.width == x_max_of(elements@) && b.y + b.height == y_max_of(elements@),
{
    let ghost s = elements@;
    if elements.len() == 0 {
        return Bounds { x: 0, y: 0, width: 0, height: 0 };
    }
    let first = &elements[0];
    let mut x_min: usize = x(first);
    let mut x_max: usize = x(first) + width(first);
    let mut y_min: usize = y(first);
    let mut y_max: usize = y(first) + height(first);
    let mut i: usize = 1;
    assert(s.take(1) =~= seq![s[0]]);
    while i < elements.len()
        invariant
            1 <= i <= s.len(),
            s == elements@,
            s.len() == elements@.len(),
            forall|k: int| 0 <= k < s.len() ==> spec_x(#[trigger] s[k]) + spec_width(s[k])
                <= usize::MAX && spec_y(s[k]) + spec_height(s[k]) <= usize::MAX,
            x_min == x_min_of(s.take(i as int)),
            x_max == x_max_of(s.take(i as int)),
            y_min == y_min_of(s.take(i as int)),
            y_max == y_max_of(s.take(i as int)),
        decreases s.len() - i,
    {
        let e = &elements[i];
        proof {
            lemma_extent_nonneg(s[i as int]);
            assert(s.take(i + 1).drop_last() =~= s.take(i as int));
            assert(s.take(i + 1).last() == s[i as int]);
        }
        let ex: usize = x(e);
        let ey: usize = y(e);
        let exw: usize = ex + width(e);
        let eyh: usize = ey + height(e);
        if ex < x_min {
            x_min = ex;
        }
        if exw > x_max {
            x_max = exw;
        }
        if ey < y_min {
            y_min = ey;
        }
        if eyh > y_max {
            y_max = eyh;
        }
        i = i + 1;
    }
    assert(s.take(s.len() as int) =~= s);
    proof {
        lemma_bounds_contain(s, 0);
        lemma_extent_nonneg(s[0]);
    }
    Bounds { x: x_min, y: y_min, width: x_max - x_min, height: y_max - y_min }
}

/// No element in the collection has a degenerate extent.
pub open spec fn all_well_formed(s: Seq<Element>) -> bool {
    forall|i: int| 0 <= i < s.len() ==> !is_degenerate(#[trigger] s[i])
}

/// Every element's far edge fits the machine's word size.
pub open spec fn fits_usize(s: Seq<Element>) -> bool {
    forall|i: int| 0 <= i < s.len() ==> spec_x(#[trigger] s[i]) + spec_width(s[i]) <= usize::MAX
        && spec_y(s[i]) + spec_height(s[i]) <= usize::MAX
}

/// A render succeeds exactly when no element is degenerate, every extent fits
/// the machine, and a non-empty collection spans a canvas with both extents
/// positive.
pub open spec fn render_ok(s: Seq<Element>) -> bool {
    &&& all_well_formed(s)
    &&& fits_usize(s)
    &&& (s.len() == 0 || (canvas_width(s) > 0 && canvas_height(s) > 0))
}

/// The error a failed render reports: a degenerate element anywhere in the
/// collection wins over a bounds failure.
pub open spec fn render_err(s: Seq<Element>) -> DrawError {
    if !all_well_formed(s) {
        DrawError::DegenerateShape
    } else {
        DrawError::Bounds
    }
}

/// Whether element `e`, placed at its anchor relative to the canvas origin
/// (x0, y0), draws a non-space glyph on global cell (r, c).
pub open spec fn draws_at(e: Element, x0: int, y0: int, r: int, c: int) -> bool {
    let lr = r - (spec_y(e) - y0);
    let lc = c - (spec_x(e) - x0);
    let sh = spec_shape(e);
    0 <= lr < sh.len() && 0 <= lc < sh[lr].len() && sh[lr][lc] != SPACE
}

/// The glyph element `e` puts on global cell (r, c), meaningful where
/// `draws_at` holds.
pub open spec fn glyph_at(e: Element, x0: int, y0: int, r: int, c: int) -> char {
    spec_shape(e)[r - (spec_y(e) - y0)][c - (spec_x(e) - x0)]
}

/// One merge step: the glyph at global cell (r, c) after element `e` is
/// drawn over a cell previously holding `base`. A non-space patch glyph
/// overwrites; a space, or a cell outside the patch, leaves `base`.
pub open spec fn overlay_cell(base: char, e: Element, x0: int, y0: int, r: int, c: int) -> char {
    if draws_at(e, x0, y0, r, c) {
        glyph_at(e, x0, y0, r, c)
    } else {
        base
    }
}

/// The glyph at global cell (r, c) after drawing the elements of `s` in
/// order onto a blank canvas with origin (x0, y0): the last element that
/// draws a non-space glyph there wins, and a cell nothing draws on stays a
/// space.
pub open spec fn merged_char(s: Seq<Element>, x0: int, y0: int, r: int, c: int) -> char
    decreases s.len(),
{
    if s.len() == 0 {
        SPACE
    } else {
        overlay_cell(merged_char(s.drop_last(), x0, y0, r, c), s.last(), x0, y0, r, c)
    }
}

/// The merged canvas of the collection: `canvas_height` rows of
/// `canvas_width` merged glyphs, with the canvas origin at the collection's
/// least occupied coordinates.
pub open spec fn canvas_of(s: Seq<Element>) -> Seq<Seq<char>> {
    Seq::new(
        canvas_height(s) as nat,
        |r: int| Seq::new(canvas_width(s) as nat, |c: int| merged_char(s, x_min_of(s), y_min_of(s), r, c)),
    )
}

/// Rows joined into one text: a newline between neighbouring rows, none at
/// the end.
pub open spec fn join_rows(rows: Seq<Seq<char>>) -> Seq<char>
    decreases rows.len(),
{
    if rows.len() == 0 {
        Seq::empty()
    } else if rows.len() == 1 {
        rows[0]
    } else {
        join_rows(rows.drop_last()) + seq!['\n'] + rows.last()
    }
}

/// The full rendered text of the collection.
pub open spec fn render_text(s: Seq<Element>) -> Seq<char> {
    join_rows(canvas_of(s))
}

/// An element's patch never exceeds its reported extent: at most
/// `spec_height` rows, each of at most `spec_width` cells.
pub proof fn lemma_shape_extent(e: Element)
    requires
        !is_degenerate(e),
    ensures
        spec_shape(e).len() <= spec_height(e),
        forall|r: int| 0 <= r < spec_shape(e).len() ==> (#[trigger] spec_shape(e)[r]).len()
            <= spec_width(e),
{
    match e {
        Element::Rectangle(_) => {
        },
        Element::Line(_) => {
        },
        Element::Arrow(_) => {
        },
        Element::Text(v) => {
            assert(spec_shape(e).len() == 1);
            assert(spec_shape(e)[0] == v.content@);
        },
    }
}

/// Drawing one more element changes each cell by one overlay step.
proof fn lemma_merged_char_snoc(s: Seq<Element>, k: int, x0: int, y0: int, r: int, c: int)
    requires
        0 <= k < s.len(),
    ensures
        merged_char(s.take(k + 1), x0, y0, r, c) == overlay_cell(
            merged_char(s.take(k), x0, y0, r, c),
            s[k],
            x0,
            y0,
            r,
            c,
        ),
{
    assert(s.take(k + 1).drop_last() =~= s.take(k));
    assert(s.take(k + 1).last() == s[k]);
}

/// Whether the local cell (lr, lc) of a patch has already been drawn when
/// `rows_done` full rows and `cols_done` cells of the next row are done.
spec fn cell_done(rows_done: int, cols_done: int, lr: int, lc: int) -> bool {
    lr < rows_done || (lr == rows_done && lc < cols_done)
}

/// A cell's glyph in the middle of drawing one element: the patch glyph where
/// the patch has already drawn a non-space, the underlying glyph elsewhere.
spec fn overlay_partial(
    base: char,
    e: Element,
    x0: int,
    y0: int,
    rows_done: int,
    cols_done: int,
    r: int,
    c: int,
) -> char {
    let lr = r - (spec_y(e) - y0);
    let lc = c - (spec_x(e) - x0);
    let sh = spec_shape(e);
    if 0 <= lr < sh.len() && 0 <= lc < sh[lr].len() && cell_done(rows_done, cols_done, lr, lc)
        && sh[lr][lc] != SPACE {
        sh[lr][lc]
    } else {
        base
    }
}

/// Whether this element's extent is too small for its glyph rules.
fn element_degenerate(element: &Element) -> (r: bool)
    ensures
        r == is_degenerate(*element),
{
    match element {
        Element::Rectangle(val) => val.width < 2 || val.height < 1,
        Element::Line(val) => val.len < 1,
        Element::Arrow(val) => val.len < 1,
        Element::Text(_) => false,
    }
}

/// Relies on std's String::push: appends the given character to the end of
/// the string.
pub assume_specification[ String::push ](s: &mut String, ch: char)
    ensures
        final(s)@ == old(s)@.push(ch),
;

/// Renders the collection: computes the global bounds, rasterizes each
/// element, merges the patches in input order (later non-space glyphs win,
/// spaces never erase), and joins the canvas rows with newlines. An empty
/// collection renders as empty text; a degenerate element, an extent beyond
/// the machine's word size, or a zero-extent canvas over a non-empty
/// collection fails with the matching error.
pub fn draw_elements(elements: &Vec<Element>) -> (res: Result<String, DrawError>)
    ensures
        res is Ok <==> render_ok(elements@),
        res matches Ok(out) ==> out@ == render_text(elements@),
        res matches Err(e) ==> e == render_err(elements@),
{
    let ghost s = elements@;

    let mut i: usize = 0;
    while i < elements.len()
        invariant
            i <= s.len(),
            s == elements@,
            forall|k: int| 0 <= k < i ==> !is_degenerate(#[trigger] s[k]),
        decreases s.len() - i,
    {
        if element_degenerate(&elements[i]) {
            return Err(DrawError::DegenerateShape);
        }
        i = i + 1;
    }
    assert(all_well_formed(s));

    let mut i: usize = 0;
    while i < elements.len()
        invariant
            i <= s.len(),
            s == elements@,
            all_well_formed(s),
            forall|k: int| 0 <= k < i ==> spec_x(#[trigger] s[k]) + spec_width(s[k]) <= usize::MAX
                && spec_y(s[k]) + spec_height(s[k]) <= usize::MAX,
        decreases s.len() - i,
    {
        let e = &elements[i];
        if width(e) > usize::MAX - x(e) || height(e) > usize::MAX - y(e) {
            return Err(DrawError::Bounds);
        }
        i = i + 1;
    }
    assert(fits_usize(s));

    if elements.len() == 0 {
        proof {
            assert(canvas_of(s).len() == 0);
            assert(render_text(s) == Seq::<char>::empty());
        }
        return Ok(String::new());
    }

    let b = bounds(elements);
    if b.width == 0 || b.height == 0 {
        return Err(DrawError::Bounds);
    }
    let ghost x0 = x_min_of(s);
    let ghost y0 = y_min_of(s);
    let bx: usize = b.x;
    let by: usize = b.y;
    let w: usize = b.width;
    let h: usize = b.height;

    let mut merged: Vec<Vec<char>> = Vec::new();
    let mut r: usize = 0;
    while r < h
        invariant
            r <= h,
            merged@.len() == r,
            forall|a: int| 0 <= a < r ==> (#[trigger] merged@[a])@.len() == w,
            forall|a: int, bb: int| 0 <= a < r && 0 <= bb < w ==> merged@[a]@[bb] == SPACE,
        decreases h - r,
    {
        let mut line: Vec<char> = Vec::new();
        let mut c: usize = 0;
        while c < w
            invariant
                c <= w,
                line@.len() == c,
                forall|bb: int| 0 <= bb < c ==> line@[bb] == SPACE,
            decreases w - c,
        {
            line.push(SPACE);
            c = c + 1;
        }
        merged.push(line);
        r = r + 1;
    }
    proof {
        assert(s.take(0) =~= Seq::<Element>::empty());
    }

    let mut k: usize = 0;
    while k < elements.len()
        invariant
            k <= s.len(),
            s == elements@,
            all_well_formed(s),
            fits_usize(s),
            s.len() > 0,
            x0 == x_min_of(s),
            y0 == y_min_of(s),
            bx == x0,
            by == y0,
            w == canvas_width(s),
            h == canvas_height(s),
            merged@.len() == h,
            forall|a: int| 0 <= a < h ==> (#[trigger] merged@[a])@.len() == w,
            forall|a: int, bb: int| 0 <= a < h && 0 <= bb < w ==> merged@[a]@[bb] == merged_char(
                s.take(k as int),
                x0,
                y0,
                a,
                bb,
            ),
        decreases s.len() - k,
    {
        let e = &elements[k];
        let ghost ee = s[k as int];
        let sh: Shape = shape(e);
        let ghost shv = spec_shape(ee);
        proof {
            lemma_bounds_contain(s, k as int);
            lemma_shape_extent(ee);
            assert forall|a: int| 0 <= a < sh@.len() implies (#[trigger] sh@[a])@ == shv[a] by {
                assert(sh@[a]@ =~= sh@[a].deep_view());
                assert(sh.deep_view()[a] == sh@[a].deep_view());
            }
        }
        let offset_x: usize = x(e) - bx;
        let offset_y: usize = y(e) - by;
        if offset_y + sh.len() > h {
            return Err(DrawError::Placement);
        }

        let mut rr: usize = 0;
        while rr < sh.len()
            invariant
                rr <= sh@.len(),
                s == elements@,
                all_well_formed(s),
                0 <= k < s.len(),
                ee == s[k as int],
                sh.deep_view() == shv,
                shv == spec_shape(ee),
                shv.len() <= spec_height(ee),
                forall|a: int| 0 <= a < shv.len() ==> (#[trigger] shv[a]).len() <= spec_width(ee),
                forall|a: int| 0 <= a < sh@.len() ==> (#[trigger] sh@[a])@ == shv[a],
                offset_x == spec_x(ee) - x0,
                offset_y == spec_y(ee) - y0,
                spec_x(ee) + spec_width(ee) <= x_max_of(s),
                spec_y(ee) + spec_height(ee) <= y_max_of(s),
                x0 == x_min_of(s),
                y0 == y_min_of(s),
                w == canvas_width(s),
                h == canvas_height(s),
                merged@.len() == h,
                forall|a: int| 0 <= a < h ==> (#[trigger] merged@[a])@.len() == w,
                forall|a: int, bb: int| 0 <= a < h && 0 <= bb < w ==> merged@[a]@[bb]
                    == overlay_partial(
                    merged_char(s.take(k as int), x0, y0, a, bb),
                    ee,
                    x0,
                    y0,
                    rr as int,
                    0,
                    a,
                    bb,
                ),
            decreases sh@.len() - rr,
        {
            if offset_x + sh[rr].len() > w {
                return Err(DrawError::Placement);
            }
            let cols: usize = sh[rr].len();
            let mut cc: usize = 0;
            while cc < cols
                invariant
                    cc <= cols,
                    rr < sh@.len(),
                    cols == shv[rr as int].len(),
                    s == elements@,
                    all_well_formed(s),
                    0 <= k < s.len(),
                    ee == s[k as int],
                    sh.deep_view() == shv,
                    shv == spec_shape(ee),
                    forall|a: int| 0 <= a < sh@.len() ==> (#[trigger] sh@[a])@ == shv[a],
                    offset_x == spec_x(ee) - x0,
                    offset_y == spec_y(ee) - y0,
                    offset_y + shv.len() <= h,
                    offset_x + cols <= w,
                    x0 == x_min_of(s),
                    y0 == y_min_of(s),
                    w == canvas_width(s),
                    h == canvas_height(s),
                    merged@.len() == h,
                    forall|a: int| 0 <= a < h ==> (#[trigger] merged@[a])@.len() == w,
                    forall|a: int, bb: int| 0 <= a < h && 0 <= bb < w ==> merged@[a]@[bb]
                        == overlay_partial(
                        merged_char(s.take(k as int), x0, y0, a, bb),
                        ee,
                        x0,
                        y0,
                        rr as int,
                        cc as int,
                        a,
                        bb,
                    ),
                decreases cols - cc,
            {
                let ch: char = sh[rr][cc];
                if ch != SPACE {
                    merged[offset_y + rr][offset_x + cc] = ch;
                }
                cc = cc + 1;
            }
            rr = rr + 1;
        }
        proof {
            assert forall|a: int, bb: int| 0 <= a < h && 0 <= bb < w implies merged@[a]@[bb]
                == merged_char(s.take(k as int + 1), x0, y0, a, bb) by {
                lemma_merged_char_snoc(s, k as int, x0, y0, a, bb);
                assert(merged@[a]@[bb] == overlay_partial(
                    merged_char(s.take(k as int), x0, y0, a, bb),
                    ee,
                    x0,
                    y0,
                    shv.len() as int,
                    0,
                    a,
                    bb,
                ));
            }
        }
        k = k + 1;
    }
    proof {
        assert(s.take(s.len() as int) =~= s);
    }
    let ghost rows = canvas_of(s);
    proof {
        assert(forall|a: int| 0 <= a < h ==> (#[trigger] merged@[a])@ =~= rows[a]);
    }

    let mut out = String::new();
    let mut r: usize = 0;
    while r < h
        invariant
            r <= h,
            h >= 1,
            rows == canvas_of(s),
            w == canvas_width(s),
            h == canvas_height(s),
            rows.len() == h,
            merged@.len() == h,
            forall|a: int| 0 <= a < h ==> (#[trigger] merged@[a])@.len() == w,
            forall|a: int| 0 <= a < h ==> (#[trigger] merged@[a])@ == rows[a],
            out@ == join_rows(rows.take(r as int)),
        decreases h - r,
    {
        if r > 0 {
            out.push('\n');
        }
        let mut c: usize = 0;
        while c < w
            invariant
                c <= w,
                r < h,
                rows == canvas_of(s),
                w == canvas_width(s),
                h == canvas_height(s),
                rows.len() == h,
                merged@.len() == h,
                forall|a: int| 0 <= a < h ==> (#[trigger] merged@[a])@.len() == w,
                forall|a: int| 0 <= a < h ==> (#[trigger] merged@[a])@ == rows[a],
                out@ == join_rows(rows.take(r as int)) + (if r == 0 {
                    Seq::<char>::empty()
                } else {
                    seq!['\n']
                }) + rows[r as int].take(c as int),
            decreases w - c,
        {
            out.push(merged[r][c]);
            proof {
                assert(rows[r as int].take(c + 1) =~= rows[r as int].take(c as int).push(
                    rows[r as int][c as int],
                ));
            }
            c = c + 1;
        }
        proof {
            assert(rows[r as int].take(w as int) =~= rows[r as int]);
            assert(rows.take(r + 1).drop_last() =~= rows.take(r as int));
            assert(rows.take(r + 1).last() == rows[r as int]);
            if r == 0 {
                assert(out@ =~= join_rows(rows.take(1)));
            } else {
                assert(out@ =~= join_rows(rows.take(r + 1)));
            }
        }
        r = r + 1;
    }
    proof {
        assert(rows.take(h as int) =~= rows);
    }
    Ok(out)
}

/// Law: rendering is deterministic. The render contract pins the output text
/// as a function of the element sequence alone, so two outputs that both meet
/// it for the same collection (in the same order) are identical.
pub proof fn lemma_render_deterministic(s: Seq<Element>, out1: Seq<char>, out2: Seq<char>)
    requires
        out1 == render_text(s),
        out2 == render_text(s),
    ensures
        out1 == out2,
{
}

/// Law: the merge is order-sensitive. With element `a` drawn before `b` on a
/// canvas with origin (x0, y0), every cell where `b` puts a non-space glyph
/// shows `b`'s glyph; a cell that `b` leaves alone (space, or outside its
/// patch) but `a` draws on keeps `a`'s glyph.
pub proof fn lemma_merge_order(a: Element, b: Element, x0: int, y0: int, r: int, c: int)
    ensures
        draws_at(b, x0, y0, r, c) ==> merged_char(seq![a, b], x0, y0, r, c) == glyph_at(
            b,
            x0,
            y0,
            r,
            c,
        ),
        !draws_at(b, x0, y0, r, c) && draws_at(a, x0, y0, r, c) ==> merged_char(
            seq![a, b],
            x0,
            y0,
            r,
            c,
        ) == glyph_at(a, x0, y0, r, c),
{
    let p = seq![a, b];
    assert(p.last() == b);
    assert(p.drop_last() =~= seq![a]);
    assert(seq![a].last() == a);
    assert(seq![a].drop_last() =~= Seq::<Element>::empty());
    assert(merged_char(Seq::<Element>::empty(), x0, y0, r, c) == SPACE);
    assert(merged_char(seq![a], x0, y0, r, c) == overlay_cell(SPACE, a, x0, y0, r, c));
    assert(merged_char(p, x0, y0, r, c) == overlay_cell(
        merged_char(seq![a], x0, y0, r, c),
        b,
        x0,
        y0,
        r,
        c,
    ));
}

/// Whether a row of characters is free of newlines.
pub open spec fn nl_free(row: Seq<char>) -> bool {
    forall|i: int| 0 <= i < row.len() ==> row[i] != '\n'
}

/// Whether any character of `s` is a newline.
pub open spec fn has_nl(s: Seq<char>) -> bool {
    exists|i: int| 0 <= i < s.len() && s[i] == '\n'
}

/// The index of the first newline of `s` (its length when it has none).
pub open spec fn first_nl(s: Seq<char>) -> int
    decreases s.len(),
{
    if s.len() == 0 {
        0
    } else if s[0] == '\n' {
        0
    } else {
        1 + first_nl(s.drop_first())
    }
}

/// Where `s` holds a newline, `first_nl` points at the first one.
pub proof fn lemma_first_nl(s: Seq<char>)
    requires
        has_nl(s),
    ensures
        0 <= first_nl(s) < s.len(),
        s[first_nl(s)] == '\n',
        forall|j: int| 0 <= j < first_nl(s) ==> s[j] != '\n',
    decreases s.len(),
{
    if s[0] != '\n' {
        let i = choose|i: int| 0 <= i < s.len() && s[i] == '\n';
        assert(s.drop_first()[i - 1] == '\n');
        lemma_first_nl(s.drop_first());
        assert forall|j: int| 0 <= j < first_nl(s) implies s[j] != '\n' by {
            if j > 0 {
                assert(s.drop_first()[j - 1] != '\n');
            }
        }
    }
}

/// A newline at `k` with none before it makes `k` the first newline.
pub proof fn lemma_first_nl_at(s: Seq<char>, k: int)
    requires
        0 <= k < s.len(),
        s[k] == '\n',
        forall|j: int| 0 <= j < k ==> s[j] != '\n',
    ensures
        has_nl(s),
        first_nl(s) == k,
    decreases s.len(),
{
    if k > 0 {
        assert(s.drop_first()[k - 1] == '\n');
        assert forall|j: int| 0 <= j < k - 1 implies s.drop_first()[j] != '\n' by {
            assert(s[j + 1] != '\n');
        }
        lemma_first_nl_at(s.drop_first(), k - 1);
    }
}

/// The text split at each newline, the separators themselves dropped: one
/// line when there is no newline, else the stretch before the first newline
/// followed by the split of what comes after it.
pub open spec fn split_lines(s: Seq<char>) -> Seq<Seq<char>>
    decreases s.len(),
    via split_lines_decreases
{
    if !has_nl(s) {
        seq![s]
    } else {
        seq![s.take(first_nl(s))] + split_lines(s.skip(first_nl(s) + 1))
    }
}

#[via_fn]
proof fn split_lines_decreases(s: Seq<char>) {
    if has_nl(s) {
        lemma_first_nl(s);
    }
}

/// Joining rows can also be read front-first: the first row, a newline, then
/// the joined rest.
pub proof fn lemma_join_cons(rows: Seq<Seq<char>>)
    requires
        rows.len() >= 2,
    ensures
        join_rows(rows) == rows[0] + seq!['\n'] + join_rows(rows.drop_first()),
    decreases rows.len(),
{
    if rows.len() == 2 {
        assert(rows.drop_last().len() == 1);
        assert(rows.drop_first().len() == 1);
        assert(rows.drop_first()[0] == rows[1]);
        assert(join_rows(rows) == join_rows(rows.drop_last()) + seq!['\n'] + rows.last());
    } else {
        lemma_join_cons(rows.drop_last());
        assert(rows.drop_last().drop_first() =~= rows.drop_first().drop_last());
        assert(rows.drop_last()[0] == rows[0]);
        assert(rows.drop_first().last() == rows.last());
        assert(rows.drop_first().len() >= 2);
        assert(join_rows(rows.drop_first()) == join_rows(rows.drop_first().drop_last()) + seq![
            '\n',
        ] + rows.drop_first().last());
        assert(join_rows(rows) =~= rows[0] + seq!['\n'] + join_rows(rows.drop_first()));
    }
}

/// Splitting the joined text of newline-free rows gives the rows back.
pub proof fn lemma_split_join(rows: Seq<Seq<char>>)
    requires
        rows.len() >= 1,
        forall|i: int| 0 <= i < rows.len() ==> nl_free(#[trigger] rows[i]),
    ensures
        split_lines(join_rows(rows)) == rows,
    decreases rows.len(),
{
    if rows.len() == 1 {
        let j = join_rows(rows);
        assert(j == rows[0]);
        assert(!has_nl(j));
        assert(split_lines(j) =~= rows);
    } else {
        lemma_join_cons(rows);
        let j = join_rows(rows);
        let rest = join_rows(rows.drop_first());
        let k = rows[0].len() as int;
        assert(j[k] == '\n');
        assert forall|idx: int| 0 <= idx < k implies j[idx] != '\n' by {
            assert(j[idx] == rows[0][idx]);
        }
        lemma_first_nl_at(j, k);
        assert(j.take(k) =~= rows[0]);
        assert(j.skip(k + 1) =~= rest);
        assert forall|i: int| 0 <= i < rows.drop_first().len() implies nl_free(
            #[trigger] rows.drop_first()[i],
        ) by {
            assert(rows.drop_first()[i] == rows[i + 1]);
        }
        lemma_split_join(rows.drop_first());
        assert(split_lines(j) =~= rows);
    }
}

/// Whether every text element of the collection has newline-free content.
/// The other variants draw from the fixed glyph palette, which holds no
/// newline.
pub open spec fn texts_single_line(s: Seq<Element>) -> bool {
    forall|i: int| 0 <= i < s.len() ==> ((#[trigger] s[i]) matches Element::Text(t) ==> nl_free(
        t.content@,
    ))
}

/// No cell of a patch holds a newline, provided a text element's content is
/// newline-free.
proof fn lemma_shape_no_nl(e: Element)
    requires
        e matches Element::Text(t) ==> nl_free(t.content@),
    ensures
        forall|lr: int, lc: int| 0 <= lr < spec_shape(e).len() && 0 <= lc < spec_shape(e)[lr].len()
            ==> spec_shape(e)[lr][lc] != '\n',
{
}

/// No merged cell holds a newline when every text element is single-line.
proof fn lemma_merged_char_no_nl(s: Seq<Element>, x0: int, y0: int, r: int, c: int)
    requires
        texts_single_line(s),
    ensures
        merged_char(s, x0, y0, r, c) != '\n',
    decreases s.len(),
{
    if s.len() > 0 {
        assert forall|i: int| 0 <= i < s.drop_last().len() implies ((#[trigger] s.drop_last()[i])
            matches Element::Text(t) ==> nl_free(t.content@)) by {
            assert(s.drop_last()[i] == s[i]);
        }
        lemma_merged_char_no_nl(s.drop_last(), x0, y0, r, c);
        assert(s[s.len() - 1] == s.last());
        lemma_shape_no_nl(s.last());
    }
}

/// Law: the rendered text of a non-empty collection whose text elements are
/// single-line splits into exactly `canvas_height` lines, each exactly
/// `canvas_width` characters long — no ragged rows.
pub proof fn lemma_render_line_structure(s: Seq<Element>)
    requires
        render_ok(s),
        s.len() > 0,
        texts_single_line(s),
    ensures
        split_lines(render_text(s)).len() == canvas_height(s),
        forall|r: int| 0 <= r < canvas_height(s) ==> (#[trigger] split_lines(
            render_text(s),
        )[r]).len() == canvas_width(s),
{
    let rows = canvas_of(s);
    assert(rows.len() == canvas_height(s));
    assert forall|i: int| 0 <= i < rows.len() implies nl_free(#[trigger] rows[i]) by {
        assert forall|c: int| 0 <= c < rows[i].len() implies rows[i][c] != '\n' by {
            lemma_merged_char_no_nl(s, x_min_of(s), y_min_of(s), i, c);
        }
    }
    lemma_split_join(rows);
}

} // verus!
