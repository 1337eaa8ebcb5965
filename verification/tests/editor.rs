use sn::text::{
    cursor_column, cursor_line, delete_before_cursor, insert_char, line_count, move_cursor_down,
    move_cursor_left, move_cursor_right, move_cursor_up, position_at,
};

#[test]
fn cursor_helpers_track_lines_and_columns() {
    let text = "hello\nworld";
    assert_eq!(cursor_line(text, 7), 1);
    assert_eq!(cursor_column(text, 7), 1);
}

#[test]
fn insert_and_delete_update_cursor() {
    let mut text = String::from("ab");
    let mut cursor = 1;
    insert_char(&mut text, &mut cursor, 'x');
    assert_eq!(text, "axb");
    delete_before_cursor(&mut text, &mut cursor);
    assert_eq!(text, "ab");
}

#[test]
fn insert_moves_cursor_behind_the_character() {
    let mut text = String::from("ab");
    let mut cursor = 1;
    insert_char(&mut text, &mut cursor, 'é');
    assert_eq!(text, "aéb");
    assert_eq!(cursor, 3);
    delete_before_cursor(&mut text, &mut cursor);
    assert_eq!(text, "ab");
    assert_eq!(cursor, 1);
}

#[test]
fn insert_past_the_end_appends() {
    let mut text = String::from("ab");
    let mut cursor = 40;
    insert_char(&mut text, &mut cursor, '\n');
    assert_eq!(text, "ab\n");
    assert_eq!(cursor, 3);
}

#[test]
fn delete_at_start_changes_nothing() {
    let mut text = String::from("ab");
    let mut cursor = 0;
    delete_before_cursor(&mut text, &mut cursor);
    assert_eq!(text, "ab");
    assert_eq!(cursor, 0);
}

#[test]
fn line_and_column_count_characters_not_bytes() {
    let text = "héllo\nwörld";
    // "héllo\n" is 7 bytes; "wö" is 3 more.
    assert_eq!(cursor_line(text, 10), 1);
    assert_eq!(cursor_column(text, 10), 2);
    assert_eq!(cursor_line(text, 100), 1);
    assert_eq!(cursor_column(text, 100), 5);
    assert_eq!(cursor_line(text, 0), 0);
    assert_eq!(cursor_column(text, 0), 0);
}

#[test]
fn line_count_follows_lines() {
    assert_eq!(line_count(""), 1);
    assert_eq!(line_count("a"), 1);
    assert_eq!(line_count("a\n"), 1);
    assert_eq!(line_count("a\nb"), 2);
    assert_eq!(line_count("a\n\nb\n"), 3);
    assert_eq!(line_count("\n\n"), 2);
}

#[test]
fn position_at_limits_the_column() {
    let text = "one\nlonger line\nx";
    assert_eq!(position_at(text, 0, 0), 0);
    assert_eq!(position_at(text, 0, 10), 3);
    assert_eq!(position_at(text, 1, 4), 8);
    assert_eq!(position_at(text, 2, 5), 17);
    assert_eq!(position_at(text, 3, 0), text.len());
    assert_eq!(position_at("a\n", 1, 3), 2);
}

#[test]
fn position_at_counts_characters() {
    let text = "x\nçà\n";
    assert_eq!(position_at(text, 1, 1), 4);
    assert_eq!(position_at(text, 1, 2), 6);
}

#[test]
fn left_and_right_step_over_whole_characters() {
    let text = "aé€b";
    let mut cursor = 0;
    move_cursor_right(text, &mut cursor);
    assert_eq!(cursor, 1);
    move_cursor_right(text, &mut cursor);
    assert_eq!(cursor, 3);
    move_cursor_right(text, &mut cursor);
    assert_eq!(cursor, 6);
    move_cursor_right(text, &mut cursor);
    assert_eq!(cursor, 7);
    move_cursor_right(text, &mut cursor);
    assert_eq!(cursor, 7);
    move_cursor_left(text, &mut cursor);
    assert_eq!(cursor, 6);
    move_cursor_left(text, &mut cursor);
    assert_eq!(cursor, 3);
    move_cursor_left(text, &mut cursor);
    assert_eq!(cursor, 1);
    move_cursor_left(text, &mut cursor);
    assert_eq!(cursor, 0);
    move_cursor_left(text, &mut cursor);
    assert_eq!(cursor, 0);
}

#[test]
fn left_from_past_the_end_goes_to_the_last_character() {
    let mut cursor = 50;
    move_cursor_left("abc", &mut cursor);
    assert_eq!(cursor, 2);
}

#[test]
fn up_and_down_keep_the_column_where_they_can() {
    let text = "first line\nab\nthird line";
    let mut cursor = 8;
    move_cursor_down(text, &mut cursor);
    assert_eq!(cursor, 13);
    move_cursor_down(text, &mut cursor);
    assert_eq!(cursor, 16);
    move_cursor_down(text, &mut cursor);
    assert_eq!(cursor, 16);
    move_cursor_up(text, &mut cursor);
    assert_eq!(cursor, 13);
    move_cursor_up(text, &mut cursor);
    assert_eq!(cursor, 2);
    move_cursor_up(text, &mut cursor);
    assert_eq!(cursor, 2);
}

#[test]
fn down_onto_an_empty_last_line() {
    let text = "ab\n";
    let mut cursor = 1;
    move_cursor_down(text, &mut cursor);
    assert_eq!(cursor, 1);
    let text = "ab\n\n";
    let mut cursor = 1;
    move_cursor_down(text, &mut cursor);
    assert_eq!(cursor, 3);
}

#[test]
fn cursor_position_round_trip() {
    let text = "ab\ncdé\n\nf";
    let boundaries = [0usize, 1, 2, 3, 4, 5, 7, 8, 9, 10];
    for &cursor in boundaries.iter() {
        let line = cursor_line(text, cursor);
        let column = cursor_column(text, cursor);
        assert_eq!(position_at(text, line, column), cursor);
    }
}
