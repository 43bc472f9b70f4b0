use hobby_kernel::honeyos::vga_buffer::{
    backspace, clear_screen, set_text_color, write_at, write_byte_at, Buffer, Color, ColorCode, ScreenChar, Writer,
    BUFFER_HEIGHT, BUFFER_WIDTH,
};

fn cell(b: &Buffer, row: usize, col: usize) -> (u8, u8) {
    let c = b.char_at(row, col);
    (c.ascii_character, c.color_code.0)
}

fn row_text(b: &Buffer, row: usize) -> String {
    (0..BUFFER_WIDTH).map(|c| b.char_at(row, c).ascii_character as char).collect()
}

#[test]
fn color_code_packs_nibbles() {
    assert_eq!(ColorCode::new(Color::Yellow, Color::Black), ColorCode(0x0e));
    assert_eq!(ColorCode::new(Color::Black, Color::Cyan), ColorCode(0x30));
    assert_eq!(ColorCode::new(Color::White, Color::Red), ColorCode(0x4f));
    assert_eq!(ColorCode::new(Color::LightGreen, Color::White), ColorCode(0xfa));
    assert_eq!(Color::DarkGray.value(), 8);
    assert_eq!(Color::White.value(), 15);
}

#[test]
fn new_buffer_is_zeroed() {
    let b = Buffer::new();
    for r in 0..BUFFER_HEIGHT {
        for c in 0..BUFFER_WIDTH {
            assert_eq!(b.char_at(r, c), ScreenChar { ascii_character: 0, color_code: ColorCode(0) });
        }
    }
}

#[test]
fn clear_screen_blanks_in_writer_color() {
    let mut w = Writer::new();
    let mut b = Buffer::new();
    clear_screen(&mut w, &mut b);
    assert_eq!(cell(&b, 0, 0), (b' ', 0x0e));
    assert_eq!(cell(&b, 24, 79), (b' ', 0x0e));
}

#[test]
fn write_string_prints_at_cursor() {
    let mut w = Writer::new();
    let mut b = Buffer::new();
    clear_screen(&mut w, &mut b);
    w.write_string(&mut b, "Hi\nyo");
    assert_eq!(cell(&b, 0, 0), (b'H', 0x0e));
    assert_eq!(cell(&b, 0, 1), (b'i', 0x0e));
    assert_eq!(cell(&b, 0, 2), (b' ', 0x0e));
    assert_eq!(cell(&b, 1, 0), (b'y', 0x0e));
    assert_eq!(cell(&b, 1, 1), (b'o', 0x0e));
}

#[test]
fn write_string_replaces_unprintable() {
    let mut w = Writer::new();
    let mut b = Buffer::new();
    clear_screen(&mut w, &mut b);
    w.write_string(&mut b, "a\té");
    assert_eq!(cell(&b, 0, 0), (b'a', 0x0e));
    assert_eq!(cell(&b, 0, 1), (0xfe, 0x0e));
    // 'é' is two bytes in UTF-8, each shown as a square.
    assert_eq!(cell(&b, 0, 2), (0xfe, 0x0e));
    assert_eq!(cell(&b, 0, 3), (0xfe, 0x0e));
    assert_eq!(cell(&b, 0, 4), (b' ', 0x0e));
}

#[test]
fn long_line_wraps() {
    let mut w = Writer::new();
    let mut b = Buffer::new();
    clear_screen(&mut w, &mut b);
    let text = "x".repeat(81);
    w.write_string(&mut b, &text);
    assert_eq!(row_text(&b, 0), "x".repeat(80));
    assert_eq!(cell(&b, 1, 0), (b'x', 0x0e));
    assert_eq!(cell(&b, 1, 1), (b' ', 0x0e));
}

#[test]
fn newline_on_last_row_scrolls() {
    let mut w = Writer::new();
    let mut b = Buffer::new();
    clear_screen(&mut w, &mut b);
    for i in 0..BUFFER_HEIGHT {
        w.write_string(&mut b, &format!("line{}\n", i));
    }
    // 25 newlines from the top: the first line scrolled off.
    assert!(row_text(&b, 0).starts_with("line1 "));
    assert!(row_text(&b, 23).starts_with("line24 "));
    assert_eq!(row_text(&b, 24), " ".repeat(80));
    w.write_string(&mut b, "end");
    assert!(row_text(&b, 24).starts_with("end "));
}

#[test]
fn backspace_erases_previous_cell() {
    let mut w = Writer::new();
    let mut b = Buffer::new();
    clear_screen(&mut w, &mut b);
    w.write_string(&mut b, "ab");
    backspace(&mut w, &mut b);
    assert_eq!(cell(&b, 0, 1), (b' ', 0x0e));
    w.write_string(&mut b, "c");
    assert_eq!(cell(&b, 0, 1), (b'c', 0x0e));
    // 0x08 in a string erases too.
    w.write_string(&mut b, "\u{8}");
    assert_eq!(cell(&b, 0, 1), (b' ', 0x0e));
}

#[test]
fn backspace_at_line_start_does_nothing() {
    let mut w = Writer::new();
    let mut b = Buffer::new();
    clear_screen(&mut w, &mut b);
    w.write_string(&mut b, "a\n");
    backspace(&mut w, &mut b);
    assert_eq!(cell(&b, 0, 0), (b'a', 0x0e));
    w.write_string(&mut b, "z");
    assert_eq!(cell(&b, 1, 0), (b'z', 0x0e));
}

#[test]
fn set_text_color_changes_later_output() {
    let mut w = Writer::new();
    let mut b = Buffer::new();
    clear_screen(&mut w, &mut b);
    w.write_string(&mut b, "a");
    set_text_color(&mut w, Color::White, Color::Blue);
    w.write_string(&mut b, "b");
    assert_eq!(cell(&b, 0, 0), (b'a', 0x0e));
    assert_eq!(cell(&b, 0, 1), (b'b', 0x1f));
    clear_screen(&mut w, &mut b);
    assert_eq!(cell(&b, 5, 5), (b' ', 0x1f));
}

#[test]
fn write_at_paints_and_clips() {
    let mut w = Writer::new();
    let mut b = Buffer::new();
    clear_screen(&mut w, &mut b);
    write_at(&mut b, 3, 77, "hello", Color::Black, Color::Cyan);
    assert_eq!(cell(&b, 3, 76), (b' ', 0x0e));
    assert_eq!(cell(&b, 3, 77), (b'h', 0x30));
    assert_eq!(cell(&b, 3, 78), (b'e', 0x30));
    assert_eq!(cell(&b, 3, 79), (b'l', 0x30));
    // Nothing spills onto the next row.
    assert_eq!(cell(&b, 4, 0), (b' ', 0x0e));
}

#[test]
fn write_at_off_screen_is_ignored() {
    let mut w = Writer::new();
    let mut b = Buffer::new();
    clear_screen(&mut w, &mut b);
    write_at(&mut b, 25, 0, "x", Color::Red, Color::Black);
    write_at(&mut b, 0, 80, "x", Color::Red, Color::Black);
    for r in 0..BUFFER_HEIGHT {
        assert_eq!(row_text(&b, r), " ".repeat(80));
    }
}

#[test]
fn write_at_does_not_move_cursor() {
    let mut w = Writer::new();
    let mut b = Buffer::new();
    clear_screen(&mut w, &mut b);
    write_at(&mut b, 10, 10, "menu", Color::White, Color::Black);
    w.write_string(&mut b, "q");
    assert_eq!(cell(&b, 0, 0), (b'q', 0x0e));
    assert_eq!(cell(&b, 10, 10), (b'm', 0x0f));
}

#[test]
fn write_at_shows_unprintable_as_square() {
    let mut b = Buffer::new();
    write_at(&mut b, 0, 0, "a\nb", Color::White, Color::Black);
    assert_eq!(cell(&b, 0, 0), (b'a', 0x0f));
    assert_eq!(cell(&b, 0, 1), (0xfe, 0x0f));
    assert_eq!(cell(&b, 0, 2), (b'b', 0x0f));
}

#[test]
fn write_byte_at_draws_one_cell() {
    let mut b = Buffer::new();
    write_byte_at(&mut b, 2, 5, b'Q', Color::Black, Color::White);
    assert_eq!(cell(&b, 2, 5), (b'Q', 0xf0));
    write_byte_at(&mut b, 2, 6, b'\n', Color::Black, Color::White);
    assert_eq!(cell(&b, 2, 6), (b' ', 0xf0));
    write_byte_at(&mut b, 25, 0, b'Q', Color::Black, Color::White);
    write_byte_at(&mut b, 0, 80, b'Q', Color::Black, Color::White);
    assert_eq!(cell(&b, 0, 0), (0, 0));
}
