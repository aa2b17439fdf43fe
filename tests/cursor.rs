use deci::cursor::{move_cursor, scroll, Motion};
use deci::{Document, Position};

fn doc() -> Document {
    Document::from_contents("f.txt", "abc\n日本\n\nxy\n")
}

fn at(x: usize, y: usize) -> Position {
    Position { x, y }
}

#[test]
fn vertical_moves_keep_column() {
    let d = doc();
    assert_eq!(move_cursor(&d, at(2, 0), Motion::Down, 10), at(2, 1));
    assert_eq!(move_cursor(&d, at(2, 1), Motion::Up, 10), at(2, 0));
    assert_eq!(move_cursor(&d, at(0, 0), Motion::Up, 10), at(0, 0));
    assert_eq!(move_cursor(&d, at(0, 4), Motion::Down, 10), at(0, 4));
}

#[test]
fn left_at_row_start_goes_to_end_of_row_above() {
    let d = doc();
    assert_eq!(move_cursor(&d, at(0, 1), Motion::Left, 10), at(3, 0));
    assert_eq!(move_cursor(&d, at(1, 1), Motion::Left, 10), at(0, 1));
    assert_eq!(move_cursor(&d, at(0, 0), Motion::Left, 10), at(0, 0));
}

#[test]
fn right_at_row_end_goes_to_next_row() {
    let d = doc();
    assert_eq!(move_cursor(&d, at(2, 1), Motion::Right, 10), at(0, 2));
    assert_eq!(move_cursor(&d, at(1, 1), Motion::Right, 10), at(2, 1));
    assert_eq!(move_cursor(&d, at(0, 4), Motion::Right, 10), at(0, 4));
}

#[test]
fn pages_and_line_ends() {
    let d = doc();
    assert_eq!(move_cursor(&d, at(1, 3), Motion::PageUp, 2), at(1, 1));
    assert_eq!(move_cursor(&d, at(1, 1), Motion::PageUp, 2), at(1, 0));
    assert_eq!(move_cursor(&d, at(1, 1), Motion::PageDown, 2), at(1, 3));
    assert_eq!(move_cursor(&d, at(1, 3), Motion::PageDown, 2), at(1, 4));
    assert_eq!(move_cursor(&d, at(1, 1), Motion::End, 2), at(2, 1));
    assert_eq!(move_cursor(&d, at(1, 1), Motion::Home, 2), at(0, 1));
}

#[test]
fn scroll_follows_cursor_vertically() {
    let d = doc();
    assert_eq!(scroll(&d, at(0, 3), at(0, 0), 10, 2), at(0, 2));
    assert_eq!(scroll(&d, at(0, 1), at(0, 2), 10, 2), at(0, 1));
    assert_eq!(scroll(&d, at(0, 1), at(0, 0), 10, 2), at(0, 0));
}

#[test]
fn scroll_follows_cursor_across_wide_clusters() {
    let d = Document::from_contents("f.txt", "日本語abc\n");
    assert_eq!(scroll(&d, at(3, 0), at(0, 0), 4, 5), at(1, 0));
    assert_eq!(scroll(&d, at(0, 0), at(2, 0), 4, 5), at(0, 0));
    assert_eq!(scroll(&d, at(1, 0), at(0, 0), 4, 5), at(0, 0));
}
