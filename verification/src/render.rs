use crate::query::{visual_column, visual_offset, Query, QueryView};
use ratatui::layout::{Constraint, Direction, Layout, Rect};
use vstd::prelude::*;

verus! {

/// The height of the input region, in rows.
pub const INPUT_ROWS: u16 = 1;

/// The height asked for the results region, in rows.
pub const RESULT_ROWS: u16 = 10;

/// A rectangle of terminal cells.
#[derive(Clone, Copy, Debug, PartialEq, Eq)]
pub struct Area {
    pub x: u16,
    pub y: u16,
    pub width: u16,
    pub height: u16,
}

/// How the input line is drawn: the columns by which the text is scrolled,
/// and the cell of the terminal in which the cursor goes.
#[derive(Clone, Copy, Debug, PartialEq, Eq)]
pub struct InputLine {
    pub scroll: u16,
    pub cursor_x: u16,
    pub cursor_y: u16,
}

/// The columns of a region `width` wide that are left for text when one is
/// kept for the cursor.
pub open spec fn text_width(width: u16) -> nat {
    if width > 1 {
        (width - 1) as nat
    } else {
        0
    }
}

/// The distance of the cursor from the left edge of the region, for a text
/// scrolled by `scroll` columns whose cursor stands at `column`.
pub open spec fn cursor_offset(column: nat, scroll: nat) -> nat {
    if column > scroll {
        (column - scroll) as nat
    } else {
        0
    }
}

/// Whether the scroll and the cursor's column can be written as terminal
/// coordinates.
pub open spec fn fits(x: u16, column: nat, scroll: nat) -> bool {
    scroll <= u16::MAX && x + cursor_offset(column, scroll) <= u16::MAX
}

/// The columns of a region `width` wide that are left for text.
pub fn text_columns(width: u16) -> (columns: usize)
    ensures
        columns == text_width(width),
{
    if width > 1 {
        (width - 1) as usize
    } else {
        0
    }
}

/// The input line of a region whose left end is the cell (`x`, `y`), for a
/// text whose cursor stands at `column` and that is scrolled by `scroll`.
pub fn place_input(x: u16, y: u16, column: usize, scroll: usize) -> (line: InputLine)
    requires
        fits(x, column as nat, scroll as nat),
    ensures
        line.scroll == scroll,
        line.cursor_x == x + cursor_offset(column as nat, scroll as nat),
        line.cursor_y == y,
{
    let offset = if column > scroll {
        column - scroll
    } else {
        0
    };
    InputLine { scroll: scroll as u16, cursor_x: x + offset as u16, cursor_y: y }
}

/// Whether `line` is the input line for `query` in a region `width` columns
/// wide whose left end is the cell (`x`, `y`): the text scrolled so far that
/// the cursor can be shown with one column kept for it, the cursor behind
/// the visible text before it; and no line at all where the scroll or the
/// cursor's column is too large for a terminal coordinate.
pub open spec fn is_input_line(
    line: Option<InputLine>,
    query: QueryView,
    x: u16,
    y: u16,
    width: u16,
) -> bool {
    let scroll = visual_offset(query.text, query.cursor, text_width(width));
    let column = visual_column(query.text, query.cursor);
    match line {
        Some(line) => {
            &&& fits(x, column, scroll)
            &&& line.scroll == scroll
            &&& line.cursor_x == x + cursor_offset(column, scroll)
            &&& line.cursor_y == y
        },
        None => !fits(x, column, scroll),
    }
}

/// The input line for `query` in a region `width` columns wide whose left
/// end is the cell (`x`, `y`), or `None` where the scroll or the cursor's
/// column is too large for a terminal coordinate.
pub fn input_line(query: &Query, x: u16, y: u16, width: u16) -> (line: Option<InputLine>)
    ensures
        is_input_line(line, query@, x, y, width),
{
    let scroll = query.visual_scroll(text_columns(width));
    let column = query.visual_cursor();
    let offset = if column > scroll {
        column - scroll
    } else {
        0
    };
    if scroll <= 0xffff && offset <= 0xffff - (x as usize) {
        Some(place_input(x, y, column, scroll))
    } else {
        None
    }
}

/// Splits `viewport` into two regions, one below the other, with
/// `Layout::split` of ratatui, asking for `first` rows and for `second`
/// rows. `split` copies the left edge and the width of the area that it is
/// given into every region; the rows come out of a constraint solver, and
/// nothing is promised of them.
#[verifier::external_body]
fn split_rows(viewport: Area, first: u16, second: u16) -> (rows: (Area, Area))
    ensures
        rows.0.x == viewport.x && rows.0.width == viewport.width,
        rows.1.x == viewport.x && rows.1.width == viewport.width,
{
    let rect = Rect { x: viewport.x, y: viewport.y, width: viewport.width, height: viewport.height };
    let layout = Layout::default().direction(Direction::Vertical).constraints(
        [Constraint::Length(first), Constraint::Length(second)],
    );
    let rows = layout.split(rect);
    (
        Area { x: rows[0].x, y: rows[0].y, width: rows[0].width, height: rows[0].height },
        Area { x: rows[1].x, y: rows[1].y, width: rows[1].width, height: rows[1].height },
    )
}

/// Where a frame is drawn: the region of the input line, the region of the
/// results below it, and the input line itself.
#[derive(Clone, Copy, Debug, PartialEq, Eq)]
pub struct FramePlan {
    pub input_area: Area,
    pub results_area: Area,
    pub input: Option<InputLine>,
}

/// Lays a frame out in `viewport`: the input region and the results
/// region, both as wide as the viewport, and the input line for `query` in
/// the row of the input region.
pub fn plan_frame(query: &Query, viewport: Area) -> (plan: FramePlan)
    ensures
        plan.input_area.x == viewport.x && plan.input_area.width == viewport.width,
        plan.results_area.x == viewport.x && plan.results_area.width == viewport.width,
        is_input_line(plan.input, query@, viewport.x, plan.input_area.y, viewport.width),
{
    let (input_area, results_area) = split_rows(viewport, INPUT_ROWS, RESULT_ROWS);
    let input = input_line(query, input_area.x, input_area.y, input_area.width);
    FramePlan { input_area, results_area, input }
}

} // verus!
