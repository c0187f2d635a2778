use boxdraw::draw::draw_elements;
use boxdraw::element::{height, width, x, y};
use boxdraw::element::{Arrow, Direction, Element, Line, Rectangle, Text};
use boxdraw::shape;

fn mk_rect(x: usize, y: usize, width: usize, height: usize) -> Rectangle {
    Rectangle { id: "r".to_string(), x, y, width, height }
}

fn mk_line(x: usize, y: usize, len: usize, direction: Direction) -> Line {
    Line { id: "l".to_string(), x, y, len, direction }
}

fn mk_arrow(x: usize, y: usize, len: usize, direction: Direction) -> Arrow {
    Arrow { id: "a".to_string(), x, y, len, direction }
}

fn mk_text(x: usize, y: usize, content: &str) -> Text {
    Text { id: "t".to_string(), x, y, content: content.to_string() }
}

#[test]
fn border_row_glyphs() {
    assert_eq!(shape::row(5, '┌', '─', '┐'), vec!['┌', '─', '─', '─', '┐']);
    assert_eq!(shape::row(2, '└', '─', '┘'), vec!['└', '┘']);
}

#[test]
fn rectangle_patch_rows() {
    assert_eq!(
        shape::rectangle(&mk_rect(0, 0, 4, 3)),
        vec![
            vec!['┌', '─', '─', '┐'],
            vec!['│', ' ', ' ', '│'],
            vec!['└', '─', '─', '┘'],
        ]
    );
}

#[test]
fn rectangle_height_1_draws_only_top_border() {
    assert_eq!(shape::rectangle(&mk_rect(0, 0, 3, 1)), vec![vec!['┌', '─', '┐']]);
    let out = draw_elements(&vec![Element::Rectangle(mk_rect(0, 0, 5, 1))]);
    assert_eq!(out, Ok("┌───┐".to_string()));
}

#[test]
fn rectangle_height_2_draws_both_borders_no_interior() {
    let out = draw_elements(&vec![Element::Rectangle(mk_rect(0, 0, 2, 2))]);
    assert_eq!(out, Ok("┌┐\n└┘".to_string()));
}

#[test]
fn horizontal_line_patch_is_uniform() {
    assert_eq!(shape::line(&mk_line(0, 0, 1, Direction::Left)), vec![vec!['─']]);
    assert_eq!(shape::line(&mk_line(0, 0, 3, Direction::Left)), vec![vec!['─', '─', '─']]);
}

#[test]
fn vertical_line_patch_is_one_short() {
    assert_eq!(shape::line(&mk_line(0, 0, 3, Direction::Down)), vec![vec!['│'], vec!['│']]);
    let empty: Vec<Vec<char>> = Vec::new();
    assert_eq!(shape::line(&mk_line(0, 0, 1, Direction::Up)), empty);
}

#[test]
fn vertical_line_render_leaves_last_row_blank() {
    let out = draw_elements(&vec![Element::Line(mk_line(0, 0, 3, Direction::Down))]);
    assert_eq!(out, Ok("│\n│\n ".to_string()));
}

#[test]
fn arrow_left_patch_points_at_start() {
    assert_eq!(shape::arrow(&mk_arrow(0, 0, 3, Direction::Left)), vec![vec!['◀', '─', '─']]);
    assert_eq!(shape::arrow(&mk_arrow(0, 0, 1, Direction::Left)), vec![vec!['◀']]);
}

#[test]
fn arrow_right_patch_points_at_end() {
    assert_eq!(shape::arrow(&mk_arrow(0, 0, 3, Direction::Right)), vec![vec!['─', '─', '▶']]);
}

#[test]
fn arrow_up_render() {
    let out = draw_elements(&vec![Element::Arrow(mk_arrow(0, 0, 3, Direction::Up))]);
    assert_eq!(out, Ok("▲\n│\n ".to_string()));
}

#[test]
fn arrow_down_len_2_is_only_the_head() {
    assert_eq!(shape::arrow(&mk_arrow(0, 0, 2, Direction::Down)), vec![vec!['▼']]);
}

#[test]
fn text_patch_is_its_characters() {
    assert_eq!(shape::text(&mk_text(0, 0, "hi")), vec![vec!['h', 'i']]);
}

#[test]
fn shape_dispatches_on_variant() {
    assert_eq!(
        shape::shape(&Element::Text(mk_text(4, 4, "ab"))),
        vec![vec!['a', 'b']]
    );
    assert_eq!(
        shape::shape(&Element::Arrow(mk_arrow(0, 0, 2, Direction::Right))),
        vec![vec!['─', '▶']]
    );
}

#[test]
fn accessors_follow_direction() {
    let v = Element::Line(mk_line(3, 7, 5, Direction::Down));
    assert_eq!((x(&v), y(&v), width(&v), height(&v)), (3, 7, 1, 5));
    let h = Element::Arrow(mk_arrow(2, 9, 5, Direction::Left));
    assert_eq!((x(&h), y(&h), width(&h), height(&h)), (2, 9, 5, 1));
    let t = Element::Text(mk_text(1, 2, "héllo"));
    assert_eq!((width(&t), height(&t)), (5, 1));
}
