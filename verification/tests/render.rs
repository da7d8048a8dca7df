use fuzzy_picker::query::Query;
use fuzzy_picker::render::{
    input_line, place_input, plan_frame, text_columns, Area, InputLine, INPUT_ROWS, RESULT_ROWS,
};

fn typed(text: &str) -> Query {
    let mut query = Query::new();
    for c in text.chars() {
        query.insert(c);
    }
    query
}

#[test]
fn regions_have_their_rows() {
    assert_eq!(INPUT_ROWS, 1);
    assert_eq!(RESULT_ROWS, 10);
}

#[test]
fn one_column_is_kept_for_the_cursor() {
    assert_eq!(text_columns(80), 79);
    assert_eq!(text_columns(2), 1);
    assert_eq!(text_columns(1), 0);
    assert_eq!(text_columns(0), 0);
    assert_eq!(text_columns(u16::MAX), 65534);
}

#[test]
fn place_input_puts_the_cursor_behind_the_visible_text() {
    assert_eq!(
        place_input(2, 5, 7, 3),
        InputLine { scroll: 3, cursor_x: 6, cursor_y: 5 }
    );
}

#[test]
fn place_input_never_puts_the_cursor_left_of_the_region() {
    assert_eq!(
        place_input(2, 5, 3, 7),
        InputLine { scroll: 7, cursor_x: 2, cursor_y: 5 }
    );
}

#[test]
fn input_line_of_a_short_query_is_not_scrolled() {
    let query = typed("hello");
    assert_eq!(
        input_line(&query, 0, 0, 80),
        Some(InputLine { scroll: 0, cursor_x: 5, cursor_y: 0 })
    );
}

#[test]
fn input_line_of_the_empty_query() {
    let query = Query::new();
    assert_eq!(
        input_line(&query, 3, 4, 80),
        Some(InputLine { scroll: 0, cursor_x: 3, cursor_y: 4 })
    );
}

#[test]
fn input_line_scrolls_a_long_query() {
    let query = typed("hello world");
    assert_eq!(
        input_line(&query, 1, 2, 6),
        Some(InputLine { scroll: 6, cursor_x: 6, cursor_y: 2 })
    );
}

#[test]
fn input_line_follows_the_cursor_back() {
    let mut query = typed("hello world");
    query.move_cursor(-8);
    assert_eq!(
        input_line(&query, 0, 0, 6),
        Some(InputLine { scroll: 0, cursor_x: 3, cursor_y: 0 })
    );
}

#[test]
fn input_line_in_a_region_without_width() {
    let query = typed("abc");
    assert_eq!(
        input_line(&query, 0, 0, 0),
        Some(InputLine { scroll: 3, cursor_x: 0, cursor_y: 0 })
    );
}

#[test]
fn input_line_that_does_not_fit_the_coordinates() {
    let query = typed("abc");
    assert_eq!(input_line(&query, u16::MAX, 0, 80), None);
    assert_eq!(
        input_line(&query, u16::MAX - 3, 0, 80),
        Some(InputLine { scroll: 0, cursor_x: u16::MAX, cursor_y: 0 })
    );
}

#[test]
fn plan_frame_puts_the_input_line_on_top_of_the_results() {
    let query = typed("hello");
    let viewport = Area { x: 0, y: 0, width: 80, height: 11 };
    let plan = plan_frame(&query, viewport);
    assert_eq!(plan.input_area, Area { x: 0, y: 0, width: 80, height: 1 });
    assert_eq!(plan.results_area, Area { x: 0, y: 1, width: 80, height: 10 });
    assert_eq!(plan.input, Some(InputLine { scroll: 0, cursor_x: 5, cursor_y: 0 }));
}

#[test]
fn plan_frame_places_the_input_line_in_its_region() {
    let query = typed("hello world");
    let viewport = Area { x: 4, y: 2, width: 8, height: 11 };
    let plan = plan_frame(&query, viewport);
    assert_eq!(
        plan.input,
        input_line(&query, plan.input_area.x, plan.input_area.y, plan.input_area.width)
    );
    assert_eq!(plan.input, Some(InputLine { scroll: 4, cursor_x: 11, cursor_y: 2 }));
}
