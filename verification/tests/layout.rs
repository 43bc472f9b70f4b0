use hobby_kernel::xspaceos::layout::{
    clamp_viewport_top_row, cursor_visual_col, editor_index_for_position, editor_position_for_index, line_end_index,
};

#[test]
fn position_for_index_follows_newlines() {
    let t = b"ab\ncd";
    assert_eq!(editor_position_for_index(t, 5, 0), (0, 0));
    assert_eq!(editor_position_for_index(t, 5, 2), (0, 2));
    assert_eq!(editor_position_for_index(t, 5, 3), (1, 0));
    assert_eq!(editor_position_for_index(t, 5, 5), (1, 2));
    // Indices past the end are clamped to the end of the text.
    assert_eq!(editor_position_for_index(t, 5, 99), (1, 2));
    assert_eq!(editor_position_for_index(t, 3, 99), (1, 0));
}

#[test]
fn position_for_index_wraps_at_80() {
    let mut t = vec![b'x'; 80];
    t.push(b'y');
    assert_eq!(editor_position_for_index(&t, 81, 79), (0, 79));
    assert_eq!(editor_position_for_index(&t, 81, 80), (1, 0));
    assert_eq!(editor_position_for_index(&t, 81, 81), (1, 1));
    assert_eq!(cursor_visual_col(&t, 81, 81), 1);
}

#[test]
fn index_for_position_cases() {
    let t = b"ab\ncdef";
    assert_eq!(editor_index_for_position(t, 7, 0, 0), 0);
    assert_eq!(editor_index_for_position(t, 7, 0, 1), 1);
    // Past the end of a short row: the last index on that row.
    assert_eq!(editor_index_for_position(t, 7, 0, 5), 2);
    assert_eq!(editor_index_for_position(t, 7, 1, 2), 5);
    assert_eq!(editor_index_for_position(t, 7, 1, 10), 7);
    // A row below the text: the end of the text.
    assert_eq!(editor_index_for_position(t, 7, 5, 0), 7);
}

#[test]
fn index_for_position_inverts_position() {
    let t = b"one\n\ntwo three\nlast line here";
    let len = t.len();
    for i in 0..=len {
        let (r, c) = editor_position_for_index(t, len, i);
        assert_eq!(editor_index_for_position(t, len, r, c), i);
    }
}

#[test]
fn line_end_cases() {
    let t = b"ab\ncdef";
    assert_eq!(line_end_index(t, 7, 0), 2);
    assert_eq!(line_end_index(t, 7, 1), 7);
    assert_eq!(line_end_index(t, 7, 4), 7);
    let full = vec![b'x'; 100];
    assert_eq!(line_end_index(&full, 100, 0), 80);
    assert_eq!(line_end_index(&full, 100, 1), 100);
}

#[test]
fn viewport_follows_cursor() {
    let t = vec![b'\n'; 30];
    // Cursor on row 30 with the view at the top: scroll so it is on the last
    // visible row.
    assert_eq!(clamp_viewport_top_row(&t, 30, 30, 0), 10);
    // Cursor above the view: scroll up to it.
    assert_eq!(clamp_viewport_top_row(&t, 30, 5, 8), 5);
    // Cursor visible: no change.
    assert_eq!(clamp_viewport_top_row(&t, 30, 12, 8), 8);
    assert_eq!(clamp_viewport_top_row(&t, 30, 28, 8), 8);
    assert_eq!(clamp_viewport_top_row(&t, 30, 29, 8), 9);
}
