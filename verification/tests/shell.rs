use hobby_kernel::honeyos::fs::{FileSystem, FsError, MAX_CONTENT_LEN};
use hobby_kernel::xspaceos::keyboard::Key;
use hobby_kernel::xspaceos::shell::{
    allocation_table_step, copy_file_name_at, desktop_step, file_manager_step, read_line_step, DesktopAction, Editor,
    EditorAction, FileManagerAction, LineBuf, LineInputAction, new_file_step, NewFileOutcome,
};

fn name_buf(name: &str) -> ([u8; 32], usize) {
    let mut buf = [0u8; 32];
    buf[..name.len()].copy_from_slice(name.as_bytes());
    (buf, name.len())
}

fn open(fs: &FileSystem, name: &str) -> Editor {
    let (buf, len) = name_buf(name);
    Editor::open(fs, buf, len)
}

fn read(fs: &FileSystem, name: &str) -> Result<Vec<u8>, FsError> {
    let mut out = [0u8; MAX_CONTENT_LEN];
    let len = fs.read_into(name, &mut out)?;
    Ok(out[..len].to_vec())
}

fn type_text(e: &mut Editor, fs: &mut FileSystem, text: &str) {
    for b in text.bytes() {
        let k = if b == b'\n' { Key::Enter } else { Key::Char(b) };
        assert_eq!(e.apply_key(fs, k), EditorAction::Continue);
    }
}

#[test]
fn editor_opens_with_cursor_at_end() {
    let mut fs = FileSystem::new();
    fs.create("a").unwrap();
    fs.save("a", "hello").unwrap();
    let e = open(&fs, "a");
    assert_eq!(e.name(), b"a");
    assert_eq!(e.text(), b"hello");
    assert_eq!(e.cursor(), 5);
    assert_eq!(e.viewport_top_row(), 0);
    assert!(e.is_saved());
}

#[test]
fn editor_on_missing_file_is_empty() {
    let fs = FileSystem::new();
    let e = open(&fs, "nope");
    assert_eq!(e.text(), b"");
    assert_eq!(e.cursor(), 0);
}

#[test]
fn typing_inserts_at_cursor_and_marks_unsaved() {
    let mut fs = FileSystem::new();
    fs.create("a").unwrap();
    fs.save("a", "ac").unwrap();
    let mut e = open(&fs, "a");
    e.apply_key(&mut fs, Key::Left);
    assert_eq!(e.cursor(), 1);
    e.apply_key(&mut fs, Key::Char(b'b'));
    assert_eq!(e.text(), b"abc");
    assert_eq!(e.cursor(), 2);
    assert!(!e.is_saved());
    // The file system is not touched until Ctrl+S.
    assert_eq!(read(&fs, "a"), Ok(b"ac".to_vec()));
}

#[test]
fn save_key_writes_the_file() {
    let mut fs = FileSystem::new();
    fs.create("a").unwrap();
    let mut e = open(&fs, "a");
    type_text(&mut e, &mut fs, "line one\nline two");
    assert!(!e.is_saved());
    assert_eq!(e.apply_key(&mut fs, Key::CtrlS), EditorAction::Continue);
    assert!(e.is_saved());
    assert_eq!(read(&fs, "a"), Ok(b"line one\nline two".to_vec()));
    e.apply_key(&mut fs, Key::Char(b'!'));
    assert!(!e.is_saved());
}

#[test]
fn save_key_on_deleted_file_keeps_unsaved() {
    let mut fs = FileSystem::new();
    fs.create("a").unwrap();
    let mut e = open(&fs, "a");
    type_text(&mut e, &mut fs, "x");
    fs.delete("a").unwrap();
    e.apply_key(&mut fs, Key::CtrlS);
    assert!(!e.is_saved());
    assert_eq!(fs.file_count(), 0);
}

#[test]
fn close_and_rename_keys() {
    let mut fs = FileSystem::new();
    fs.create("a").unwrap();
    let mut e = open(&fs, "a");
    assert_eq!(e.apply_key(&mut fs, Key::CtrlX), EditorAction::Close);
    assert_eq!(e.apply_key(&mut fs, Key::CtrlR), EditorAction::Rename);
    assert_eq!(e.apply_key(&mut fs, Key::Escape), EditorAction::Continue);
    assert_eq!(e.text(), b"");
}

#[test]
fn backspace_and_delete() {
    let mut fs = FileSystem::new();
    fs.create("a").unwrap();
    fs.save("a", "abcd").unwrap();
    let mut e = open(&fs, "a");
    e.apply_key(&mut fs, Key::Backspace);
    assert_eq!(e.text(), b"abc");
    assert_eq!(e.cursor(), 3);
    e.apply_key(&mut fs, Key::Left);
    e.apply_key(&mut fs, Key::Left);
    e.apply_key(&mut fs, Key::Delete);
    assert_eq!(e.text(), b"ac");
    assert_eq!(e.cursor(), 1);
    e.apply_key(&mut fs, Key::Right);
    e.apply_key(&mut fs, Key::Delete);
    assert_eq!(e.text(), b"ac");
    e.apply_key(&mut fs, Key::Home);
    assert_eq!(e.cursor(), 0);
    e.apply_key(&mut fs, Key::Backspace);
    assert_eq!(e.text(), b"ac");
    e.apply_key(&mut fs, Key::Left);
    assert_eq!(e.cursor(), 0);
}

#[test]
fn type_then_backspace_restores() {
    let mut fs = FileSystem::new();
    fs.create("a").unwrap();
    fs.save("a", "hello").unwrap();
    let mut e = open(&fs, "a");
    e.apply_key(&mut fs, Key::Left);
    e.apply_key(&mut fs, Key::Left);
    e.apply_key(&mut fs, Key::Char(b'Z'));
    e.apply_key(&mut fs, Key::Backspace);
    assert_eq!(e.text(), b"hello");
    assert_eq!(e.cursor(), 3);
}

#[test]
fn up_down_keep_column() {
    let mut fs = FileSystem::new();
    fs.create("a").unwrap();
    fs.save("a", "abcdef\nxy\nlonger line").unwrap();
    let mut e = open(&fs, "a");
    assert_eq!(e.cursor(), 21);
    e.apply_key(&mut fs, Key::Home);
    e.apply_key(&mut fs, Key::Right);
    e.apply_key(&mut fs, Key::Right);
    e.apply_key(&mut fs, Key::Right);
    // Row 2, col 3; index 13.
    assert_eq!(e.cursor(), 13);
    e.apply_key(&mut fs, Key::Up);
    // Row 1 is short: the cursor goes to its end (index 9).
    assert_eq!(e.cursor(), 9);
    e.apply_key(&mut fs, Key::Up);
    // Row 0 keeps the preferred column 3.
    assert_eq!(e.cursor(), 3);
    e.apply_key(&mut fs, Key::Up);
    assert_eq!(e.cursor(), 3);
    e.apply_key(&mut fs, Key::Down);
    e.apply_key(&mut fs, Key::Down);
    assert_eq!(e.cursor(), 13);
    // Below the last row: the end of the text.
    e.apply_key(&mut fs, Key::Down);
    assert_eq!(e.cursor(), 21);
    e.apply_key(&mut fs, Key::Home);
    assert_eq!(e.cursor(), 10);
    e.apply_key(&mut fs, Key::End);
    assert_eq!(e.cursor(), 21);
}

#[test]
fn page_keys_move_by_a_screen() {
    let mut fs = FileSystem::new();
    fs.create("a").unwrap();
    let text = "\n".repeat(50);
    fs.save("a", &text).unwrap();
    let mut e = open(&fs, "a");
    assert_eq!(e.cursor(), 50);
    e.apply_key(&mut fs, Key::PageUp);
    assert_eq!(e.cursor(), 29);
    e.apply_key(&mut fs, Key::PageUp);
    assert_eq!(e.cursor(), 8);
    e.apply_key(&mut fs, Key::PageUp);
    assert_eq!(e.cursor(), 0);
    e.apply_key(&mut fs, Key::PageDown);
    assert_eq!(e.cursor(), 21);
    e.apply_key(&mut fs, Key::PageDown);
    e.apply_key(&mut fs, Key::PageDown);
    assert_eq!(e.cursor(), 50);
}

#[test]
fn scroll_follows_cursor() {
    let mut fs = FileSystem::new();
    fs.create("a").unwrap();
    fs.save("a", &"\n".repeat(30)).unwrap();
    let mut e = open(&fs, "a");
    assert_eq!(e.viewport_top_row(), 0);
    e.scroll_to_cursor();
    assert_eq!(e.viewport_top_row(), 10);
    for _ in 0..20 {
        e.apply_key(&mut fs, Key::Up);
    }
    e.scroll_to_cursor();
    assert_eq!(e.viewport_top_row(), 10);
    e.apply_key(&mut fs, Key::Up);
    e.scroll_to_cursor();
    assert_eq!(e.viewport_top_row(), 9);
}

#[test]
fn editor_stops_at_512_bytes() {
    let mut fs = FileSystem::new();
    fs.create("a").unwrap();
    fs.save("a", &"k".repeat(511)).unwrap();
    let mut e = open(&fs, "a");
    e.apply_key(&mut fs, Key::Char(b'x'));
    assert_eq!(e.text().len(), 512);
    e.apply_key(&mut fs, Key::Char(b'y'));
    e.apply_key(&mut fs, Key::Enter);
    assert_eq!(e.text().len(), 512);
    assert_eq!(e.text()[511], b'x');
}

#[test]
fn editor_rename() {
    let mut fs = FileSystem::new();
    fs.create("longer-name").unwrap();
    fs.create("taken").unwrap();
    fs.save("longer-name", "body").unwrap();
    let mut e = open(&fs, "longer-name");
    assert_eq!(e.rename(&mut fs, "taken"), Err(FsError::AlreadyExists));
    assert_eq!(e.name(), b"longer-name");
    assert_eq!(e.rename(&mut fs, ""), Err(FsError::BadName));
    assert_eq!(e.rename(&mut fs, "new"), Ok(()));
    assert_eq!(e.name(), b"new");
    assert_eq!(read(&fs, "new"), Ok(b"body".to_vec()));
    e.apply_key(&mut fs, Key::Char(b'!'));
    e.apply_key(&mut fs, Key::CtrlS);
    assert_eq!(read(&fs, "new"), Ok(b"body!".to_vec()));
}

#[test]
fn desktop_navigation() {
    assert_eq!(desktop_step(0, Key::Up), (0, DesktopAction::Stay));
    assert_eq!(desktop_step(0, Key::Down), (1, DesktopAction::Stay));
    assert_eq!(desktop_step(1, Key::Down), (1, DesktopAction::Stay));
    assert_eq!(desktop_step(1, Key::Up), (0, DesktopAction::Stay));
    assert_eq!(desktop_step(0, Key::Enter), (0, DesktopAction::OpenFileManager));
    assert_eq!(desktop_step(1, Key::Enter), (1, DesktopAction::OpenAllocationTable));
    assert_eq!(desktop_step(1, Key::Escape), (1, DesktopAction::Stay));
}

#[test]
fn allocation_table_navigation() {
    assert_eq!(allocation_table_step(0, Key::Left), (0, false));
    assert_eq!(allocation_table_step(0, Key::Right), (1, false));
    assert_eq!(allocation_table_step(1, Key::Right), (1, false));
    assert_eq!(allocation_table_step(1, Key::Left), (0, false));
    assert_eq!(allocation_table_step(1, Key::Escape), (1, true));
    assert_eq!(allocation_table_step(0, Key::Enter), (0, false));
}

#[test]
fn copy_file_name_cases() {
    let mut fs = FileSystem::new();
    fs.create("first").unwrap();
    fs.create("second").unwrap();
    let (buf, len) = copy_file_name_at(&fs, 1);
    assert_eq!(&buf[..len], b"second");
    assert!(buf[len..].iter().all(|&b| b == 0));
    let (_, len) = copy_file_name_at(&fs, 2);
    assert_eq!(len, 0);
}

#[test]
fn file_manager_navigation() {
    let mut fs = FileSystem::new();
    fs.create("a").unwrap();
    fs.create("b").unwrap();
    assert!(matches!(file_manager_step(&mut fs, 0, Key::Up), (0, FileManagerAction::Stay)));
    assert!(matches!(file_manager_step(&mut fs, 0, Key::Down), (1, FileManagerAction::Stay)));
    assert!(matches!(file_manager_step(&mut fs, 2, Key::Down), (2, FileManagerAction::Stay)));
    assert!(matches!(file_manager_step(&mut fs, 0, Key::Enter), (0, FileManagerAction::PromptNewFile)));
    match file_manager_step(&mut fs, 2, Key::Enter) {
        (0, FileManagerAction::OpenFile(buf, len)) => assert_eq!(&buf[..len], b"b"),
        other => panic!("unexpected {:?}", other),
    }
    assert!(matches!(file_manager_step(&mut fs, 1, Key::Escape), (1, FileManagerAction::Back)));
    assert!(matches!(file_manager_step(&mut fs, 1, Key::Char(b'q')), (1, FileManagerAction::Stay)));
    assert_eq!(fs.file_count(), 2);
}

#[test]
fn file_manager_delete() {
    let mut fs = FileSystem::new();
    fs.create("a").unwrap();
    fs.create("b").unwrap();
    // Delete on "New File" does nothing.
    assert!(matches!(file_manager_step(&mut fs, 0, Key::Delete), (0, FileManagerAction::Stay)));
    assert_eq!(fs.file_count(), 2);
    // Deleting the last entry moves the selection up.
    assert!(matches!(file_manager_step(&mut fs, 2, Key::Delete), (1, FileManagerAction::Stay)));
    assert_eq!(fs.file_count(), 1);
    assert_eq!(read(&fs, "b"), Err(FsError::NotFound));
    assert!(matches!(file_manager_step(&mut fs, 1, Key::Delete), (0, FileManagerAction::Stay)));
    assert_eq!(fs.file_count(), 0);
}

#[test]
fn read_line_steps() {
    let mut buf = [0u8; 32];
    assert_eq!(read_line_step(&mut buf, 0, Key::Backspace), (0, LineInputAction::Ignore));
    assert_eq!(read_line_step(&mut buf, 0, Key::Char(b'h')), (1, LineInputAction::Echo(b'h')));
    assert_eq!(read_line_step(&mut buf, 1, Key::Char(b'i')), (2, LineInputAction::Echo(b'i')));
    assert_eq!(&buf[..2], b"hi");
    assert_eq!(read_line_step(&mut buf, 2, Key::Up), (2, LineInputAction::Ignore));
    assert_eq!(read_line_step(&mut buf, 2, Key::Backspace), (1, LineInputAction::Erase));
    assert_eq!(read_line_step(&mut buf, 1, Key::Enter), (1, LineInputAction::Done));
    let mut full = [b'z'; 32];
    assert_eq!(read_line_step(&mut full, 32, Key::Char(b'a')), (32, LineInputAction::Ignore));
    assert_eq!(full, [b'z'; 32]);
}

#[test]
fn line_buf_building() {
    let mut l = LineBuf::new();
    assert_eq!(l.as_str(), "");
    l.push_str("  > ");
    l.push_str("File Manager");
    l.pad_to(30);
    assert_eq!(l.as_str(), "  > File Manager              ");
    assert_eq!(l.as_str().len(), 30);
    l.pad_to(10);
    assert_eq!(l.as_str().len(), 30);
    let mut n = LineBuf::new();
    n.push_decimal(0);
    n.push_byte(b' ');
    n.push_decimal(512);
    n.push_byte(b' ');
    n.push_decimal(1234567);
    assert_eq!(n.as_str(), "0 512 1234567");
}

#[test]
fn line_buf_drops_overflow() {
    let mut l = LineBuf::new();
    l.push_str(&"a".repeat(79));
    l.push_str("bcd");
    assert_eq!(l.as_str(), format!("{}b", "a".repeat(79)));
    l.pad_to(200);
    assert_eq!(l.as_str().len(), 80);
    l.push_byte(b'z');
    assert_eq!(l.as_str().len(), 80);
}

#[test]
fn line_buf_invalid_utf8_reads_empty() {
    let mut l = LineBuf::new();
    l.push_str(&"a".repeat(79));
    // A two-byte character cut in half at the end of the line.
    l.push_str("é");
    assert_eq!(l.as_str(), "");
}

#[test]
fn new_file_outcomes() {
    let mut fs = FileSystem::new();
    let (buf, _) = name_buf("");
    assert_eq!(new_file_step(&mut fs, buf, 0), NewFileOutcome::Cancelled);
    assert_eq!(fs.file_count(), 0);
    let (buf, len) = name_buf("notes.txt");
    assert_eq!(new_file_step(&mut fs, buf, len), NewFileOutcome::Created);
    assert_eq!(fs.for_each_file(), vec![("notes.txt", 0)]);
    assert_eq!(new_file_step(&mut fs, buf, len), NewFileOutcome::Failed(FsError::AlreadyExists));
    for i in 0..7 {
        let (b, l) = name_buf(&format!("f{}", i));
        assert_eq!(new_file_step(&mut fs, b, l), NewFileOutcome::Created);
    }
    let (b, l) = name_buf("full");
    assert_eq!(new_file_step(&mut fs, b, l), NewFileOutcome::Failed(FsError::NoSpace));
}

#[test]
fn closing_without_save_discards_edits() {
    let mut fs = FileSystem::new();
    fs.create("a").unwrap();
    fs.save("a", "kept").unwrap();
    let mut e = open(&fs, "a");
    for k in [Key::Char(b'x'), Key::Enter, Key::Backspace, Key::Home, Key::Delete, Key::Char(b'y')] {
        assert_eq!(e.apply_key(&mut fs, k), EditorAction::Continue);
    }
    assert_eq!(e.apply_key(&mut fs, Key::CtrlX), EditorAction::Close);
    assert_eq!(read(&fs, "a"), Ok(b"kept".to_vec()));
    assert_eq!(fs.for_each_file(), vec![("a", 4)]);
}
