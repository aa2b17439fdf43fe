//! Cursor motion and scrolling over a document.
use vstd::prelude::*;
use crate::document::Document;
use crate::position::Position;
use crate::row::widths_of;
use crate::width::{columns, fitting};

verus! {

/// A cursor motion.
#[derive(PartialEq, Eq, Structural, Clone, Copy, Debug)]
pub enum Motion {
    Up,
    Down,
    Left,
    Right,
    PageUp,
    PageDown,
    Home,
    End,
}

/// The number of clusters of row `y`, or 0 past the last row.
pub open spec fn row_len(d: Document, y: int) -> int {
    if 0 <= y < d.rows().len() {
        d.rows()[y].graphemes().len() as int
    } else {
        0
    }
}

/// Where `motion` takes the cursor from `at`. Up and down keep the column;
/// left from the start of a row goes to the end of the row above; right
/// from the end of a row goes to the start of the next, up to one past the
/// last row; a page moves `height` rows.
pub open spec fn moved(d: Document, at: Position, motion: Motion, height: int) -> Position {
    let x = at.x as int;
    let y = at.y as int;
    let rows = d.rows().len() as int;
    let width = row_len(d, y);
    let (nx, ny) = match motion {
        Motion::Up => (x, if y > 0 { y - 1 } else { 0 }),
        Motion::Down => (x, if y < rows { y + 1 } else { y }),
        Motion::Left => if x > 0 {
            (x - 1, y)
        } else if y > 0 {
            (row_len(d, y - 1), y - 1)
        } else {
            (x, y)
        },
        Motion::Right => if x < width {
            (x + 1, y)
        } else if y < rows {
            (0, y + 1)
        } else {
            (x, y)
        },
        Motion::PageUp => (x, if y > height { y - height } else { 0 }),
        Motion::PageDown => (x, if y + height < rows { y + height } else { rows }),
        Motion::Home => (0, y),
        Motion::End => (width, y),
    };
    Position { x: nx as usize, y: ny as usize }
}

/// The offset that keeps `cursor` on a screen of `width` columns and
/// `height` rows, moving `offset` as little as needed.
pub open spec fn scrolled(d: Document, cursor: Position, offset: Position, width: int, height: int) -> Position {
    let x = cursor.x as int;
    let y = cursor.y as int;
    let oy = if y < offset.y {
        y
    } else if y >= saturating(offset.y + height) {
        saturating(y - height + 1)
    } else {
        offset.y as int
    };
    let ox = if 0 <= y < d.rows().len() {
        let w = widths_of(d.rows()[y].graphemes());
        let half_cursor = columns(w, 0, x);
        let half_offset = columns(w, 0, offset.x as int);
        if x < offset.x {
            x
        } else if saturating(half_offset + width) <= half_cursor {
            fitting(w, if half_cursor > width { half_cursor - width } else { 0 })
        } else {
            offset.x as int
        }
    } else {
        offset.x as int
    };
    Position { x: ox as usize, y: oy as usize }
}

/// `v` clamped to the `usize` range.
pub open spec fn saturating(v: int) -> int {
    if v > usize::MAX {
        usize::MAX as int
    } else if v < 0 {
        0
    } else {
        v
    }
}

fn row_len_at(d: &Document, y: usize) -> (r: usize)
    requires
        d.wf(),
    ensures
        r == row_len(*d, y as int),
{
    match d.row(y) {
        Some(row) => {
            assert(row.wf());
            row.len()
        },
        None => 0,
    }
}

/// Moves the cursor from `at` by `motion`, a page being `screen_height` rows.
pub fn move_cursor(d: &Document, at: Position, motion: Motion, screen_height: usize) -> (r: Position)
    requires
        d.wf(),
    ensures
        r == moved(*d, at, motion, screen_height as int),
{
    let Position { mut x, mut y } = at;
    let rows = d.len();
    let width = row_len_at(d, y);
    match motion {
        Motion::Up => y = y.saturating_sub(1),
        Motion::Down => {
            if y < rows {
                y += 1;
            }
        },
        Motion::Left => {
            if x > 0 {
                x -= 1;
            } else if y > 0 {
                y -= 1;
                x = row_len_at(d, y);
            }
        },
        Motion::Right => {
            if x < width {
                x += 1;
            } else if y < rows {
                y += 1;
                x = 0;
            }
        },
        Motion::PageUp => {
            y = if y > screen_height {
                y - screen_height
            } else {
                0
            };
        },
        Motion::PageDown => {
            y = if y < rows && screen_height < rows - y {
                y + screen_height
            } else {
                rows
            };
        },
        Motion::Home => x = 0,
        Motion::End => x = width,
    }
    Position { x, y }
}

/// The screen offset after moving the cursor to `cursor`, on a screen of
/// `width` columns and `height` rows.
pub fn scroll(d: &Document, cursor: Position, offset: Position, width: usize, height: usize) -> (r:
    Position)
    requires
        d.wf(),
    ensures
        r == scrolled(*d, cursor, offset, width as int, height as int),
{
    let Position { x, y } = cursor;
    let mut off = offset;
    if y < off.y {
        off.y = y;
    } else if y >= off.y.saturating_add(height) {
        off.y = y.saturating_sub(height).saturating_add(1);
    }
    if let Some(row) = d.row(y) {
        assert(row.wf());
        let half_cursor_x = row.full2half_width(0, x);
        let half_offset_x = row.full2half_width(0, off.x);
        if x < off.x {
            off.x = x;
        } else if half_offset_x.saturating_add(width) <= half_cursor_x {
            off.x = row.half2full_width(half_cursor_x.saturating_sub(width));
        }
    }
    off
}

} // verus!
