use hobby_kernel::honeyos::fs::FileSystem;
use hobby_kernel::honeyos::vga_buffer::{Buffer, Writer, BUFFER_WIDTH};
use hobby_kernel::xspaceos::keyboard::Key;
use hobby_kernel::xspaceos::screens::{draw_allocation_table, draw_desktop, draw_editor, draw_file_manager};
use hobby_kernel::xspaceos::shell::Editor;

fn row_text(b: &Buffer, row: usize) -> String {
    (0..BUFFER_WIDTH).map(|c| b.char_at(row, c).ascii_character as char).collect()
}

fn color(b: &Buffer, row: usize, col: usize) -> u8 {
    b.char_at(row, col).color_code.0
}

/// `text` placed at column `col` of an 80-column blank row.
fn at(col: usize, text: &str) -> String {
    let mut s = " ".repeat(col);
    s.push_str(text);
    while s.len() < BUFFER_WIDTH {
        s.push(' ');
    }
    s.truncate(BUFFER_WIDTH);
    s
}

fn pad(text: &str, width: usize) -> String {
    format!("{:width$}", text, width = width)
}

#[test]
fn desktop_screen() {
    let mut w = Writer::new();
    let mut b = Buffer::new();
    draw_desktop(&mut w, &mut b, 1);
    assert_eq!(row_text(&b, 0), " ".repeat(80));
    assert_eq!(row_text(&b, 1), at(2, "XSpace OS"));
    assert_eq!(color(&b, 1, 2), 0x0e);
    assert_eq!(row_text(&b, 2), at(2, &"=".repeat(41)));
    assert_eq!(color(&b, 2, 2), 0x08);
    assert_eq!(row_text(&b, 4), at(2, "Desktop"));
    assert_eq!(color(&b, 4, 2), 0x0f);
    assert_eq!(row_text(&b, 6), at(2, &pad("    File Manager", 30)));
    assert_eq!(color(&b, 6, 2), 0x07);
    assert_eq!(color(&b, 6, 31), 0x07);
    assert_eq!(color(&b, 6, 32), 0x0e);
    assert_eq!(row_text(&b, 7), at(2, &pad("  > Allocation Table", 30)));
    assert_eq!(color(&b, 7, 2), 0x30);
    assert_eq!(row_text(&b, 23), at(2, "Up/Down = move selection     Enter = open"));
}

#[test]
fn file_manager_screen_empty() {
    let mut w = Writer::new();
    let mut b = Buffer::new();
    let fs = FileSystem::new();
    draw_file_manager(&mut w, &mut b, &fs, 0);
    assert_eq!(row_text(&b, 0), at(2, "XSpace OS -- File Manager"));
    assert_eq!(row_text(&b, 1), at(2, &"=".repeat(41)));
    assert_eq!(row_text(&b, 3), at(2, &pad("  > [ + New File ]", 30)));
    assert_eq!(color(&b, 3, 2), 0x20);
    assert_eq!(row_text(&b, 4), at(2, &"-".repeat(41)));
    assert_eq!(row_text(&b, 5), at(4, "(no files yet)"));
    assert_eq!(color(&b, 5, 4), 0x08);
    assert_eq!(row_text(&b, 23), at(2, "Up/Down=move  Enter=open  Del=delete  Esc=back"));
}

#[test]
fn file_manager_screen_lists_files() {
    let mut w = Writer::new();
    let mut b = Buffer::new();
    let mut fs = FileSystem::new();
    fs.create("notes.txt").unwrap();
    fs.save("notes.txt", "hello").unwrap();
    fs.create("todo").unwrap();
    draw_file_manager(&mut w, &mut b, &fs, 2);
    assert_eq!(row_text(&b, 3), at(2, &pad("    [ + New File ]", 30)));
    assert_eq!(color(&b, 3, 2), 0x0a);
    assert_eq!(row_text(&b, 5), at(2, &pad("    notes.txt  (5 bytes)", 50)));
    assert_eq!(color(&b, 5, 2), 0x0f);
    assert_eq!(row_text(&b, 6), at(2, &pad("  > todo  (0 bytes)", 50)));
    assert_eq!(color(&b, 6, 2), 0x30);
    assert_eq!(row_text(&b, 7), " ".repeat(80));
}

#[test]
fn allocation_table_screen() {
    let mut w = Writer::new();
    let mut b = Buffer::new();
    let mut fs = FileSystem::new();
    fs.create("a-very-long-file-name").unwrap();
    fs.save("a-very-long-file-name", &"x".repeat(130)).unwrap();
    fs.create("b").unwrap();
    draw_allocation_table(&mut w, &mut b, &fs, 0);
    assert_eq!(row_text(&b, 0), at(2, "XSpace OS -- Allocation Table"));
    let left = pad("B00 USED IDX a-very-long-", 34);
    let right = pad("B10 FREE --- -           ", 34);
    assert_eq!(row_text(&b, 4), at(2, &format!("{}{}{}", left, "    ", right)));
    assert_eq!(row_text(&b, 5), at(2, &format!("{}    {}", pad("B01 USED DAT a-very-long-", 34), pad("B11 FREE --- -           ", 34))));
    assert_eq!(row_text(&b, 7), at(2, &format!("{}    {}", pad("B03 USED IDX b           ", 34), pad("B13 FREE --- -           ", 34))));
    assert_eq!(row_text(&b, 13), at(2, &format!("{}    {}", pad("B09 FREE --- -           ", 34), pad("B19 FREE --- -           ", 34))));
    assert_eq!(color(&b, 4, 2), 0x0f);
    assert_eq!(row_text(&b, 23), pad("Left/Right = page   Esc = desktop   Page 1/2", 80));
    assert_eq!(color(&b, 23, 0), 0x08);
    draw_allocation_table(&mut w, &mut b, &fs, 1);
    assert_eq!(row_text(&b, 4), at(2, &format!("{}    {}", pad("B20 FREE --- -           ", 34), pad("B30 FREE --- -           ", 34))));
    assert_eq!(row_text(&b, 23), pad("Left/Right = page   Esc = desktop   Page 2/2", 80));
}

#[test]
fn allocation_table_past_last_page_is_empty() {
    let mut w = Writer::new();
    let mut b = Buffer::new();
    let fs = FileSystem::new();
    draw_allocation_table(&mut w, &mut b, &fs, 2);
    for r in 4..14 {
        assert_eq!(row_text(&b, r), " ".repeat(80));
    }
    assert_eq!(row_text(&b, 23), pad("Left/Right = page   Esc = desktop   Page 3/2", 80));
}

#[test]
fn editor_screen() {
    let mut w = Writer::new();
    let mut b = Buffer::new();
    let mut fs = FileSystem::new();
    fs.create("doc").unwrap();
    fs.save("doc", "ab\ncd").unwrap();
    let (mut buf, len) = ([0u8; 32], 3);
    buf[..3].copy_from_slice(b"doc");
    let mut e = Editor::open(&fs, buf, len);
    e.apply_key(&mut fs, Key::Left);
    draw_editor(&mut w, &mut b, &e, false);
    let mut header = pad(" [ doc ] ", 38);
    header.push_str("Ctrl+S:Save  Ctrl+X:Close  Ctrl+R:Rename");
    assert_eq!(row_text(&b, 0), pad(&header, 80));
    assert_eq!(color(&b, 0, 0), 0x30);
    assert_eq!(color(&b, 0, 79), 0x30);
    assert_eq!(row_text(&b, 1), "-".repeat(80));
    assert_eq!(row_text(&b, 2), at(0, "ab"));
    assert_eq!(row_text(&b, 3), at(0, "cd"));
    assert_eq!(color(&b, 2, 0), 0x0f);
    // The cursor is on 'd', drawn inverted.
    assert_eq!(color(&b, 3, 1), 0xf0);
    assert_eq!(color(&b, 3, 0), 0x0f);
    assert_eq!(row_text(&b, 23), pad(" Saved   |      | 5 / 512 bytes | Home End PgUp PgDn ", 80));
    assert_eq!(color(&b, 23, 0), 0xa0);
    e.apply_key(&mut fs, Key::Char(b'!'));
    draw_editor(&mut w, &mut b, &e, true);
    assert_eq!(row_text(&b, 3), at(0, "c!d"));
    assert_eq!(color(&b, 3, 2), 0xf0);
    assert_eq!(row_text(&b, 23), pad(" Unsaved | CAPS | 6 / 512 bytes | Home End PgUp PgDn ", 80));
    assert_eq!(color(&b, 23, 0), 0xe0);
}

#[test]
fn editor_cursor_at_line_end_is_blank_cell() {
    let mut w = Writer::new();
    let mut b = Buffer::new();
    let mut fs = FileSystem::new();
    fs.create("d").unwrap();
    fs.save("d", "ab\ncd").unwrap();
    let mut buf = [0u8; 32];
    buf[0] = b'd';
    let mut e = Editor::open(&fs, buf, 1);
    e.apply_key(&mut fs, Key::Up);
    // Cursor on the newline ending row 0.
    draw_editor(&mut w, &mut b, &e, false);
    assert_eq!(b.char_at(2, 2).ascii_character, b' ');
    assert_eq!(color(&b, 2, 2), 0xf0);
}

#[test]
fn editor_scrolled_view() {
    let mut w = Writer::new();
    let mut b = Buffer::new();
    let mut fs = FileSystem::new();
    fs.create("d").unwrap();
    let text: String = (0..30).map(|i| format!("{}\n", i)).collect();
    fs.save("d", &text).unwrap();
    let mut buf = [0u8; 32];
    buf[0] = b'd';
    let mut e = Editor::open(&fs, buf, 1);
    e.scroll_to_cursor();
    assert_eq!(e.viewport_top_row(), 10);
    draw_editor(&mut w, &mut b, &e, false);
    assert_eq!(row_text(&b, 2), at(0, "10"));
    assert_eq!(row_text(&b, 21), at(0, "29"));
    assert_eq!(color(&b, 22, 0), 0xf0);
}
