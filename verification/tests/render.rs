use boxdraw::draw::{bounds, draw_elements, DrawError};
use boxdraw::element::{Arrow, Direction, Element, Line, Rectangle, Text};

fn rect(x: usize, y: usize, width: usize, height: usize) -> Element {
    Element::Rectangle(Rectangle { id: "r".to_string(), x, y, width, height })
}

fn line(x: usize, y: usize, len: usize, direction: Direction) -> Element {
    Element::Line(Line { id: "l".to_string(), x, y, len, direction })
}

fn arrow(x: usize, y: usize, len: usize, direction: Direction) -> Element {
    Element::Arrow(Arrow { id: "a".to_string(), x, y, len, direction })
}

fn text(x: usize, y: usize, content: &str) -> Element {
    Element::Text(Text { id: "t".to_string(), x, y, content: content.to_string() })
}

#[test]
fn rectangle_5_by_3() {
    let out = draw_elements(&vec![rect(0, 0, 5, 3)]);
    assert_eq!(out, Ok("┌───┐\n│   │\n└───┘".to_string()));
}

#[test]
fn horizontal_line_len_4() {
    let out = draw_elements(&vec![line(0, 0, 4, Direction::Right)]);
    assert_eq!(out, Ok("────".to_string()));
}

#[test]
fn arrow_down_len_3_leaves_claimed_row_blank() {
    let out = draw_elements(&vec![arrow(0, 0, 3, Direction::Down)]);
    assert_eq!(out, Ok("│\n▼\n ".to_string()));
}

#[test]
fn text_placed_at_global_offset() {
    let out = draw_elements(&vec![text(0, 0, "."), text(2, 1, "hi")]);
    assert_eq!(out, Ok(".   \n  hi".to_string()));
}

#[test]
fn lone_text_spans_one_row_two_columns() {
    let out = draw_elements(&vec![text(2, 1, "hi")]);
    assert_eq!(out, Ok("hi".to_string()));
}

#[test]
fn bounds_of_rectangle_and_far_text() {
    let b = bounds(&vec![rect(0, 0, 5, 3), text(10, 10, "x")]);
    assert_eq!(b.x, 0);
    assert_eq!(b.y, 0);
    assert_eq!(b.width, 11);
    assert_eq!(b.height, 11);
}

#[test]
fn rectangle_and_far_text_canvas() {
    let out = draw_elements(&vec![rect(0, 0, 5, 3), text(10, 10, "x")]).unwrap();
    let mut expected = String::new();
    expected.push_str("┌───┐      \n");
    expected.push_str("│   │      \n");
    expected.push_str("└───┘      \n");
    for _ in 0..7 {
        expected.push_str("           \n");
    }
    expected.push_str("          x");
    assert_eq!(out, expected);
}

#[test]
fn output_has_height_lines_of_width_chars() {
    let out = draw_elements(&vec![rect(0, 0, 5, 3), text(10, 10, "x")]).unwrap();
    let lines: Vec<&str> = out.split('\n').collect();
    assert_eq!(lines.len(), 11);
    for l in lines {
        assert_eq!(l.chars().count(), 11);
    }
}

#[test]
fn render_is_deterministic() {
    let elements = vec![rect(0, 0, 4, 4), arrow(1, 1, 2, Direction::Right), text(0, 5, "ok")];
    let a = draw_elements(&elements);
    let b = draw_elements(&elements);
    assert_eq!(a, b);
}

#[test]
fn later_element_overwrites_earlier() {
    let out = draw_elements(&vec![text(0, 0, "abc"), text(0, 0, "xy")]);
    assert_eq!(out, Ok("xyc".to_string()));
    let swapped = draw_elements(&vec![text(0, 0, "xy"), text(0, 0, "abc")]);
    assert_eq!(swapped, Ok("abc".to_string()));
}

#[test]
fn later_space_keeps_earlier_glyph() {
    let out = draw_elements(&vec![text(1, 1, "x"), rect(0, 0, 3, 3)]);
    assert_eq!(out, Ok("┌─┐\n│x│\n└─┘".to_string()));
}

#[test]
fn empty_collection_renders_empty_text() {
    let out = draw_elements(&vec![]);
    assert_eq!(out, Ok(String::new()));
}

#[test]
fn rectangle_width_1_is_degenerate() {
    let out = draw_elements(&vec![rect(0, 0, 1, 3)]);
    assert_eq!(out, Err(DrawError::DegenerateShape));
}

#[test]
fn rectangle_height_0_is_degenerate() {
    let out = draw_elements(&vec![rect(0, 0, 5, 0)]);
    assert_eq!(out, Err(DrawError::DegenerateShape));
}

#[test]
fn line_len_0_is_degenerate() {
    let out = draw_elements(&vec![line(0, 0, 0, Direction::Right)]);
    assert_eq!(out, Err(DrawError::DegenerateShape));
}

#[test]
fn arrow_len_0_is_degenerate() {
    let out = draw_elements(&vec![arrow(0, 0, 0, Direction::Up)]);
    assert_eq!(out, Err(DrawError::DegenerateShape));
}

#[test]
fn lone_empty_text_has_zero_width_bounds() {
    let out = draw_elements(&vec![text(5, 5, "")]);
    assert_eq!(out, Err(DrawError::Bounds));
}

#[test]
fn extent_past_machine_word_fails_bounds() {
    let out = draw_elements(&vec![rect(usize::MAX - 1, 0, 2, 1)]);
    assert_eq!(out, Err(DrawError::Bounds));
}

#[test]
fn degenerate_reported_before_bounds() {
    let out = draw_elements(&vec![rect(usize::MAX - 1, 0, 2, 1), line(0, 0, 0, Direction::Up)]);
    assert_eq!(out, Err(DrawError::DegenerateShape));
}

#[test]
fn boxes_joined_by_an_arrow() {
    let elements = vec![
        rect(0, 0, 4, 3),
        rect(7, 0, 4, 3),
        arrow(4, 1, 3, Direction::Right),
        text(1, 1, "a"),
        text(8, 1, "b"),
    ];
    let out = draw_elements(&elements);
    assert_eq!(out, Ok("┌──┐   ┌──┐\n│a │──▶│b │\n└──┘   └──┘".to_string()));
}

#[test]
fn text_width_counts_characters_not_bytes() {
    let out = draw_elements(&vec![text(0, 0, "é"), text(2, 0, "x")]);
    assert_eq!(out, Ok("é x".to_string()));
}
