//! Decisions of the interactive UI: the full-screen text editor, the desktop,
//! the file manager and the allocation-table viewer. Each screen is a state
//! and a function from a key press to the next state and the action the UI
//! loop performs.
use vstd::prelude::*;
use vstd::string::StringSliceAdditionalSpecFns;
use vstd::utf8::valid_utf8;
use crate::honeyos::fs::{FileSystem, FsError, MAX_CONTENT_LEN, MAX_NAME_LEN};
use crate::honeyos::fs_spec::{FsView, spec_create, spec_read, spec_save, spec_rename, spec_delete, listing, count_live, lemma_find_file};
use crate::honeyos::fs::TOTAL_BLOCKS;
use super::keyboard::Key;
use super::layout::{
    pos_of, spec_position_for_index, spec_index_for_position, spec_line_end_index, spec_clamp_viewport,
    lemma_layout_prefix, lemma_pos_bounds, lemma_index_for_position_bound, editor_position_for_index,
    editor_index_for_position, cursor_visual_col, line_end_index, clamp_viewport_top_row, EDITOR_VIEW_ROWS,
};

verus! {

/// The bytes themselves when they are valid UTF-8, otherwise nothing.
pub open spec fn utf8_or_empty(b: Seq<u8>) -> Seq<u8> {
    if valid_utf8(b) {
        b
    } else {
        Seq::empty()
    }
}

/// The string slice over `bytes`, or "" when they are not valid UTF-8.
fn str_or_empty(bytes: &[u8]) -> (s: &str)
    ensures
        s.spec_bytes() == utf8_or_empty(bytes@),
{
    match crate::text::str_from_utf8(bytes) {
        Some(s) => s,
        None => {
            proof {
                reveal_strlit("");
            }
            assert("".spec_bytes() =~= Seq::<u8>::empty()) by {
                vstd::utf8::encode_utf8_valid_utf8(""@);
            }
            ""
        },
    }
}

/// Abstract state of the editor.
pub struct EditorView {
    /// Name of the file being edited.
    pub name: Seq<u8>,
    /// The text in the edit buffer.
    pub text: Seq<u8>,
    /// Insertion index of the cursor.
    pub cursor: int,
    /// First text row shown on screen.
    pub top: int,
    /// Column the cursor tries to keep when moving between rows.
    pub preferred_col: int,
    /// The buffer matches what was last saved.
    pub saved: bool,
}

/// What the UI loop does after a key press in the editor.
#[derive(Debug, Clone, Copy, PartialEq, Eq, Structural)]
pub enum EditorAction {
    /// Redraw and wait for the next key.
    Continue,
    /// Leave the editor.
    Close,
    /// Ask for a new file name, then call `Editor::rename`.
    Rename,
}

/// The editor after an editing or cursor key.
pub open spec fn spec_edit_key(e: EditorView, key: Key) -> EditorView {
    let t = e.text;
    let c = e.cursor;
    let len = t.len() as int;
    let row = pos_of(t, c).0;
    match key {
        Key::Backspace => if c > 0 {
            let t2 = t.remove(c - 1);
            EditorView { text: t2, cursor: c - 1, preferred_col: pos_of(t2, c - 1).1, saved: false, ..e }
        } else {
            e
        },
        Key::Delete => if c < len {
            let t2 = t.remove(c);
            EditorView { text: t2, preferred_col: pos_of(t2, c).1, saved: false, ..e }
        } else {
            e
        },
        Key::Left => {
            let c2 = if c > 0 { c - 1 } else { 0 };
            EditorView { cursor: c2, preferred_col: pos_of(t, c2).1, ..e }
        },
        Key::Right => {
            let c2 = if c < len { c + 1 } else { c };
            EditorView { cursor: c2, preferred_col: pos_of(t, c2).1, ..e }
        },
        Key::Up => if row > 0 {
            EditorView { cursor: spec_index_for_position(t, len, row - 1, e.preferred_col), ..e }
        } else {
            e
        },
        Key::Down => EditorView { cursor: spec_index_for_position(t, len, row + 1, e.preferred_col), ..e },
        Key::Home => EditorView { cursor: spec_index_for_position(t, len, row, 0), preferred_col: 0, ..e },
        Key::End => {
            let c2 = spec_line_end_index(t, len, row);
            EditorView { cursor: c2, preferred_col: pos_of(t, c2).1, ..e }
        },
        Key::PageUp => {
            let target = if row >= EDITOR_VIEW_ROWS { row - EDITOR_VIEW_ROWS } else { 0 };
            EditorView { cursor: spec_index_for_position(t, len, target, e.preferred_col), ..e }
        },
        Key::PageDown => EditorView {
            cursor: spec_index_for_position(t, len, row + EDITOR_VIEW_ROWS, e.preferred_col),
            ..e
        },
        Key::Enter => if len < MAX_CONTENT_LEN {
            EditorView { text: t.insert(c, 0x0a), cursor: c + 1, preferred_col: 0, saved: false, ..e }
        } else {
            e
        },
        Key::Char(ch) => if len < MAX_CONTENT_LEN {
            let t2 = t.insert(c, ch);
            EditorView { text: t2, cursor: c + 1, preferred_col: pos_of(t2, c + 1).1, saved: false, ..e }
        } else {
            e
        },
        _ => e,
    }
}

/// One key handled by the editor: the action for the UI loop, the editor
/// afterwards and the file system afterwards. Ctrl+S saves the buffer under
/// the editor's name and marks it saved when the save succeeds; Ctrl+X
/// closes; Ctrl+R asks for a new name; every other key edits the buffer or
/// moves the cursor and leaves the file system alone.
pub open spec fn spec_key_effect(e: EditorView, v: FsView, key: Key) -> (EditorAction, EditorView, FsView) {
    match key {
        Key::CtrlS => {
            let (r, w) = spec_save(v, utf8_or_empty(e.name), utf8_or_empty(e.text));
            (EditorAction::Continue, EditorView { saved: e.saved || r is Ok, ..e }, w)
        },
        Key::CtrlX => (EditorAction::Close, e, v),
        Key::CtrlR => (EditorAction::Rename, e, v),
        _ => (EditorAction::Continue, spec_edit_key(e, key), v),
    }
}

/// The full-screen text editor: an edit buffer with an insertion cursor.
pub struct Editor {
    name_buf: [u8; MAX_NAME_LEN],
    name_len: usize,
    content: [u8; MAX_CONTENT_LEN],
    content_len: usize,
    cursor_idx: usize,
    viewport_top_row: usize,
    preferred_col: usize,
    saved: bool,
}

impl View for Editor {
    type V = EditorView;

    closed spec fn view(&self) -> EditorView {
        EditorView {
            name: self.name_buf@.take(self.name_len as int),
            text: self.content@.take(self.content_len as int),
            cursor: self.cursor_idx as int,
            top: self.viewport_top_row as int,
            preferred_col: self.preferred_col as int,
            saved: self.saved,
        }
    }
}

/// Editor states that the UI can reach.
pub open spec fn editor_wf(e: EditorView) -> bool {
    &&& e.name.len() <= MAX_NAME_LEN
    &&& e.text.len() <= MAX_CONTENT_LEN
    &&& 0 <= e.cursor <= e.text.len()
    &&& 0 <= e.top
    &&& 0 <= e.preferred_col
}

impl Editor {
    pub closed spec fn wf(&self) -> bool {
        &&& self.name_len <= MAX_NAME_LEN
        &&& self.content_len <= MAX_CONTENT_LEN
        &&& self.cursor_idx <= self.content_len
        &&& self.viewport_top_row <= MAX_CONTENT_LEN
    }

    /// A consistent editor has a reachable view.
    pub proof fn lemma_wf(&self)
        requires
            self.wf(),
        ensures
            editor_wf(self@),
            self@.top <= MAX_CONTENT_LEN,
    {
    }

    /// Open the editor on the file called `name_buf[..name_len]`, loading its
    /// contents (an empty buffer when it cannot be read) with the cursor at
    /// the end.
    pub fn open(fs: &FileSystem, name_buf: [u8; MAX_NAME_LEN], name_len: usize) -> (e: Editor)
        requires
            fs.wf(),
            name_len <= MAX_NAME_LEN,
        ensures
            e.wf(),
            e@.name == name_buf@.take(name_len as int),
            e@.text == match spec_read(fs@, utf8_or_empty(name_buf@.take(name_len as int))) {
                Ok(c) => c,
                Err(_) => Seq::empty(),
            },
            e@.cursor == e@.text.len(),
            e@.top == 0,
            e@.preferred_col == pos_of(e@.text, e@.cursor).1,
            e@.saved,
    {
        let mut content = [0u8; MAX_CONTENT_LEN];
        let mut content_len: usize = 0;
        let mut cursor_idx: usize = 0;
        let name_bytes = vstd::slice::slice_subrange(name_buf.as_slice(), 0, name_len);
        assert(name_bytes@ =~= name_buf@.take(name_len as int));
        let name = str_or_empty(name_bytes);
        let ghost c0 = content@;
        match fs.read_into(name, &mut content) {
            Ok(len) => {
                content_len = len;
                cursor_idx = len;
            },
            Err(_) => {},
        }
        proof {
            assert(content@.take(content_len as int) =~= match spec_read(fs@, name.spec_bytes()) {
                Ok(c) => c,
                Err(_) => Seq::<u8>::empty(),
            });
            lemma_layout_prefix(content@, content@.take(content_len as int), content_len as int);
        }
        let preferred_col = cursor_visual_col(content.as_slice(), content_len, cursor_idx);
        Editor {
            name_buf,
            name_len,
            content,
            content_len,
            cursor_idx,
            viewport_top_row: 0,
            preferred_col,
            saved: true,
        }
    }

    /// Scroll the view just enough to show the cursor's row.
    pub fn scroll_to_cursor(&mut self)
        requires
            old(self).wf(),
        ensures
            final(self).wf(),
            final(self)@ == (EditorView {
                top: spec_clamp_viewport(pos_of(old(self)@.text, old(self)@.cursor).0, old(self)@.top),
                ..old(self)@
            }),
    {
        proof {
            lemma_layout_prefix(self.content@, self@.text, self.content_len as int);
            lemma_pos_bounds(self@.text, self@.cursor);
        }
        self.viewport_top_row = clamp_viewport_top_row(
            self.content.as_slice(),
            self.content_len,
            self.cursor_idx,
            self.viewport_top_row,
        );
    }

    /// Insert `b` at the cursor and move the cursor past it.
    fn insert_at_cursor(&mut self, b: u8)
        requires
            old(self).wf(),
            old(self).content_len < MAX_CONTENT_LEN,
        ensures
            final(self).wf(),
            final(self)@ == (EditorView {
                text: old(self)@.text.insert(old(self)@.cursor, b),
                cursor: old(self)@.cursor + 1,
                ..old(self)@
            }),
    {
        let len = self.content_len;
        let cursor = self.cursor_idx;
        let ghost c0 = self.content@;
        let mut k: usize = len;
        while k > cursor
            invariant
                cursor <= k <= len,
                len < MAX_CONTENT_LEN,
                self.content@.len() == MAX_CONTENT_LEN,
                c0.len() == MAX_CONTENT_LEN,
                forall|m: int| 0 <= m <= k ==> #[trigger] self.content@[m] == c0[m],
                forall|m: int| k < m <= len ==> #[trigger] self.content@[m] == c0[m - 1],
                self.content_len == len,
                self.cursor_idx == cursor,
                self.name_len == old(self).name_len,
                self.name_buf == old(self).name_buf,
                self.viewport_top_row == old(self).viewport_top_row,
                self.preferred_col == old(self).preferred_col,
                self.saved == old(self).saved,
            decreases k - cursor,
        {
            k -= 1;
            self.content[k + 1] = self.content[k];
        }
        self.content[cursor] = b;
        self.content_len = len + 1;
        self.cursor_idx = cursor + 1;
        assert(self.content@.take(len + 1) =~= c0.take(len as int).insert(cursor as int, b));
    }

    /// Remove the byte at index `p` of the text.
    fn remove_at(&mut self, p: usize)
        requires
            old(self).wf(),
            p < old(self).content_len,
        ensures
            final(self).content_len == old(self).content_len - 1,
            final(self).name_len == old(self).name_len,
            final(self).cursor_idx == old(self).cursor_idx,
            final(self)@ == (EditorView { text: old(self)@.text.remove(p as int), ..old(self)@ }),
    {
        let len = self.content_len;
        let ghost c0 = self.content@;
        let mut i: usize = p;
        while i + 1 < len
            invariant
                p <= i < len,
                len <= MAX_CONTENT_LEN,
                self.content@.len() == MAX_CONTENT_LEN,
                c0.len() == MAX_CONTENT_LEN,
                forall|m: int| 0 <= m < p ==> #[trigger] self.content@[m] == c0[m],
                forall|m: int| p <= m < i ==> #[trigger] self.content@[m] == c0[m + 1],
                forall|m: int| i <= m < MAX_CONTENT_LEN ==> #[trigger] self.content@[m] == c0[m],
                self.content_len == len,
                self.cursor_idx == old(self).cursor_idx,
                self.name_len == old(self).name_len,
                self.name_buf == old(self).name_buf,
                self.viewport_top_row == old(self).viewport_top_row,
                self.preferred_col == old(self).preferred_col,
                self.saved == old(self).saved,
            decreases len - i,
        {
            self.content[i] = self.content[i + 1];
            i += 1;
        }
        self.content_len = len - 1;
        assert(self.content@.take(len - 1) =~= c0.take(len as int).remove(p as int));
    }

    /// The text in use, as a byte slice.
    fn text_slice(&self) -> (t: &[u8])
        requires
            self.wf(),
        ensures
            t@ == self@.text,
    {
        let t = vstd::slice::slice_subrange(self.content.as_slice(), 0, self.content_len);
        assert(t@ =~= self@.text);
        t
    }

    /// The cursor's preferred column after it moved to its current index.
    fn update_preferred_col(&mut self)
        requires
            old(self).wf(),
        ensures
            final(self).wf(),
            final(self)@ == (EditorView { preferred_col: pos_of(old(self)@.text, old(self)@.cursor).1, ..old(self)@ }),
    {
        proof {
            lemma_layout_prefix(self.content@, self@.text, self.content_len as int);
        }
        self.preferred_col = cursor_visual_col(self.content.as_slice(), self.content_len, self.cursor_idx);
    }

    /// The text row of the cursor.
    fn cursor_row(&self) -> (r: usize)
        requires
            self.wf(),
        ensures
            r as int == pos_of(self@.text, self@.cursor).0,
            r <= MAX_CONTENT_LEN,
    {
        proof {
            lemma_layout_prefix(self.content@, self@.text, self.content_len as int);
            lemma_pos_bounds(self@.text, self@.cursor);
        }
        editor_position_for_index(self.content.as_slice(), self.content_len, self.cursor_idx).0
    }

    /// The insertion index closest to (`row`, `col`) in the text.
    fn index_for(&self, row: usize, col: usize) -> (r: usize)
        requires
            self.wf(),
        ensures
            r as int == spec_index_for_position(self@.text, self@.text.len() as int, row as int, col as int),
            r <= self.content_len,
    {
        proof {
            lemma_layout_prefix(self.content@, self@.text, self.content_len as int);
        }
        editor_index_for_position(self.content.as_slice(), self.content_len, row, col)
    }

    /// Handle one key press. Editing and cursor keys change the buffer;
    /// Ctrl+S saves it to `fs` under the editor's file name; Ctrl+X closes the
    /// editor; Ctrl+R asks the UI for a new name.
    pub fn apply_key(&mut self, fs: &mut FileSystem, key: Key) -> (action: EditorAction)
        requires
            old(self).wf(),
            old(fs).wf(),
        ensures
            final(self).wf(),
            final(fs).wf(),
            (action, final(self)@, final(fs)@) == spec_key_effect(old(self)@, old(fs)@, key),
    {
        match key {
            Key::CtrlS => {
                let name_bytes = vstd::slice::slice_subrange(self.name_buf.as_slice(), 0, self.name_len);
                assert(name_bytes@ =~= self@.name);
                let name = str_or_empty(name_bytes);
                let text = str_or_empty(self.text_slice());
                if fs.save(name, text).is_ok() {
                    self.saved = true;
                }
                EditorAction::Continue
            },
            Key::CtrlX => EditorAction::Close,
            Key::CtrlR => EditorAction::Rename,
            Key::Backspace => {
                if self.cursor_idx > 0 {
                    self.remove_at(self.cursor_idx - 1);
                    self.cursor_idx -= 1;
                    self.update_preferred_col();
                    self.saved = false;
                }
                EditorAction::Continue
            },
            Key::Delete => {
                if self.cursor_idx < self.content_len {
                    self.remove_at(self.cursor_idx);
                    self.update_preferred_col();
                    self.saved = false;
                }
                EditorAction::Continue
            },
            Key::Left => {
                if self.cursor_idx > 0 {
                    self.cursor_idx -= 1;
                }
                self.update_preferred_col();
                EditorAction::Continue
            },
            Key::Right => {
                if self.cursor_idx < self.content_len {
                    self.cursor_idx += 1;
                }
                self.update_preferred_col();
                EditorAction::Continue
            },
            Key::Up => {
                let row = self.cursor_row();
                if row > 0 {
                    self.cursor_idx = self.index_for(row - 1, self.preferred_col);
                }
                EditorAction::Continue
            },
            Key::Down => {
                let row = self.cursor_row();
                let next_idx = self.index_for(row + 1, self.preferred_col);
                if next_idx != self.cursor_idx {
                    self.cursor_idx = next_idx;
                }
                EditorAction::Continue
            },
            Key::Home => {
                let row = self.cursor_row();
                self.cursor_idx = self.index_for(row, 0);
                self.preferred_col = 0;
                EditorAction::Continue
            },
            Key::End => {
                let row = self.cursor_row();
                proof {
                    lemma_layout_prefix(self.content@, self@.text, self.content_len as int);
                }
                self.cursor_idx = line_end_index(self.content.as_slice(), self.content_len, row);
                self.update_preferred_col();
                EditorAction::Continue
            },
            Key::PageUp => {
                let row = self.cursor_row();
                let target_row = if row >= EDITOR_VIEW_ROWS { row - EDITOR_VIEW_ROWS } else { 0 };
                self.cursor_idx = self.index_for(target_row, self.preferred_col);
                EditorAction::Continue
            },
            Key::PageDown => {
                let row = self.cursor_row();
                let next_idx = self.index_for(row + EDITOR_VIEW_ROWS, self.preferred_col);
                if next_idx != self.cursor_idx {
                    self.cursor_idx = next_idx;
                }
                EditorAction::Continue
            },
            Key::Enter => {
                if self.content_len < MAX_CONTENT_LEN {
                    self.insert_at_cursor(0x0a);
                    self.preferred_col = 0;
                    self.saved = false;
                }
                EditorAction::Continue
            },
            Key::Char(c) => {
                if self.content_len < MAX_CONTENT_LEN {
                    self.insert_at_cursor(c);
                    self.update_preferred_col();
                    self.saved = false;
                }
                EditorAction::Continue
            },
            _ => EditorAction::Continue,
        }
    }

    /// Rename the edited file to `new_name` in `fs`; on success the editor
    /// takes the new name.
    pub fn rename(&mut self, fs: &mut FileSystem, new_name: &str) -> (r: Result<(), FsError>)
        requires
            old(self).wf(),
            old(fs).wf(),
        ensures
            final(self).wf(),
            final(fs).wf(),
            (r, final(fs)@) == spec_rename(old(fs)@, utf8_or_empty(old(self)@.name), new_name.spec_bytes()),
            r is Ok ==> final(self)@ == (EditorView { name: new_name.spec_bytes(), ..old(self)@ }),
            r is Err ==> final(self)@ == old(self)@,
    {
        let name_bytes = vstd::slice::slice_subrange(self.name_buf.as_slice(), 0, self.name_len);
        assert(name_bytes@ =~= self@.name);
        let old_name = str_or_empty(name_bytes);
        match fs.rename(old_name, new_name) {
            Ok(()) => {
                let bytes = new_name.as_bytes();
                let len = bytes.len();
                let old_len = self.name_len;
                let mut buf = self.name_buf;
                let mut j: usize = 0;
                while j < len
                    invariant
                        j <= len,
                        len == bytes@.len(),
                        len <= MAX_NAME_LEN,
                        forall|m: int| 0 <= m < j ==> buf@[m] == bytes@[m],
                    decreases len - j,
                {
                    buf[j] = bytes[j];
                    j += 1;
                }
                // Clear stale bytes only when the previous name was longer.
                if len < old_len {
                    let mut z: usize = len;
                    while z < old_len
                        invariant
                            len <= z <= old_len,
                            old_len <= MAX_NAME_LEN,
                            len == bytes@.len(),
                            forall|m: int| 0 <= m < len ==> buf@[m] == bytes@[m],
                        decreases old_len - z,
                    {
                        buf[z] = 0;
                        z += 1;
                    }
                }
                self.name_buf = buf;
                self.name_len = len;
                assert(self@.name =~= new_name.spec_bytes());
                Ok(())
            },
            Err(e) => Err(e),
        }
    }

    /// The name of the edited file.
    pub fn name(&self) -> (n: &[u8])
        requires
            self.wf(),
        ensures
            n@ == self@.name,
    {
        let n = vstd::slice::slice_subrange(self.name_buf.as_slice(), 0, self.name_len);
        assert(n@ =~= self@.name);
        n
    }

    /// The text in the edit buffer.
    pub fn text(&self) -> (t: &[u8])
        requires
            self.wf(),
        ensures
            t@ == self@.text,
    {
        self.text_slice()
    }

    /// Insertion index of the cursor.
    pub fn cursor(&self) -> (c: usize)
        ensures
            c as int == self@.cursor,
    {
        self.cursor_idx
    }

    /// First text row shown on screen.
    pub fn viewport_top_row(&self) -> (t: usize)
        ensures
            t as int == self@.top,
    {
        self.viewport_top_row
    }

    /// Whether the buffer matches what was last saved.
    pub fn is_saved(&self) -> (s: bool)
        ensures
            s == self@.saved,
    {
        self.saved
    }
}

/// Number of apps on the desktop.
pub const DESKTOP_APP_COUNT: usize = 2;
/// Allocation-table rows shown per page (two columns per row).
pub const ROWS_PER_PAGE: usize = 10;
/// Allocation-table pages: 40 blocks at 20 blocks per page.
pub const ALLOCATION_PAGES: usize = 2;

/// What the UI loop does after a key press on the desktop.
#[derive(Debug, Clone, Copy, PartialEq, Eq, Structural)]
pub enum DesktopAction {
    /// Redraw and wait for the next key.
    Stay,
    /// Run the file manager, then come back.
    OpenFileManager,
    /// Run the allocation-table viewer, then come back.
    OpenAllocationTable,
}

/// Desktop navigation: Up/Down move the selection within the app list, Enter
/// opens the selected app.
pub open spec fn spec_desktop_step(selected: int, key: Key) -> (int, DesktopAction) {
    match key {
        Key::Up => (if selected > 0 { selected - 1 } else { selected }, DesktopAction::Stay),
        Key::Down => (if selected + 1 < DESKTOP_APP_COUNT { selected + 1 } else { selected }, DesktopAction::Stay),
        Key::Enter => (selected, if selected == 0 {
            DesktopAction::OpenFileManager
        } else if selected == 1 {
            DesktopAction::OpenAllocationTable
        } else {
            DesktopAction::Stay
        }),
        _ => (selected, DesktopAction::Stay),
    }
}

/// One key press on the desktop.
pub fn desktop_step(selected: usize, key: Key) -> (r: (usize, DesktopAction))
    requires
        selected < DESKTOP_APP_COUNT,
    ensures
        (r.0 as int, r.1) == spec_desktop_step(selected as int, key),
        r.0 < DESKTOP_APP_COUNT,
{
    match key {
        Key::Up => (if selected > 0 { selected - 1 } else { selected }, DesktopAction::Stay),
        Key::Down => (if selected + 1 < DESKTOP_APP_COUNT { selected + 1 } else { selected }, DesktopAction::Stay),
        Key::Enter => (selected, match selected {
            0 => DesktopAction::OpenFileManager,
            1 => DesktopAction::OpenAllocationTable,
            _ => DesktopAction::Stay,
        }),
        _ => (selected, DesktopAction::Stay),
    }
}

/// Allocation-table navigation: Left/Right turn pages within range; the
/// boolean is true when Esc leaves the viewer.
pub open spec fn spec_allocation_table_step(page: int, key: Key) -> (int, bool) {
    match key {
        Key::Left => (if page > 0 { page - 1 } else { page }, false),
        Key::Right => (if page + 1 < ALLOCATION_PAGES { page + 1 } else { page }, false),
        Key::Escape => (page, true),
        _ => (page, false),
    }
}

/// One key press in the allocation-table viewer.
pub fn allocation_table_step(page: usize, key: Key) -> (r: (usize, bool))
    requires
        page < ALLOCATION_PAGES,
    ensures
        (r.0 as int, r.1) == spec_allocation_table_step(page as int, key),
        r.0 < ALLOCATION_PAGES,
{
    let total_pages = (TOTAL_BLOCKS + 2 * ROWS_PER_PAGE - 1) / (2 * ROWS_PER_PAGE);
    assert(total_pages == ALLOCATION_PAGES);
    match key {
        Key::Left => (if page > 0 { page - 1 } else { page }, false),
        Key::Right => (if page + 1 < total_pages { page + 1 } else { page }, false),
        Key::Escape => (page, true),
        _ => (page, false),
    }
}

/// The name of the `idx`-th live file (slot order), cut to 32 bytes, or no
/// bytes when there is no such file.
pub open spec fn spec_file_name_at(fs: crate::honeyos::fs_spec::FsView, idx: int) -> Seq<u8> {
    if 0 <= idx < listing(fs.files).len() {
        let n = listing(fs.files)[idx].0;
        if n.len() <= MAX_NAME_LEN {
            n
        } else {
            n.take(MAX_NAME_LEN as int)
        }
    } else {
        Seq::empty()
    }
}

/// Copy the name of the `idx`-th live file into a stack buffer; a length of
/// 0 means there is no such file.
pub fn copy_file_name_at(fs: &FileSystem, idx: usize) -> (r: ([u8; MAX_NAME_LEN], usize))
    requires
        fs.wf(),
    ensures
        r.1 <= MAX_NAME_LEN,
        r.0@.take(r.1 as int) == spec_file_name_at(fs@, idx as int),
        forall|k: int| r.1 <= k < MAX_NAME_LEN ==> r.0@[k] == 0,
{
    let mut buf = [0u8; MAX_NAME_LEN];
    let mut result_len: usize = 0;
    let files = fs.for_each_file();
    if idx < files.len() {
        let name = files[idx].0.as_bytes();
        let len = if name.len() < MAX_NAME_LEN { name.len() } else { MAX_NAME_LEN };
        let mut j: usize = 0;
        while j < len
            invariant
                j <= len,
                len <= name@.len(),
                len <= MAX_NAME_LEN,
                len == (if name@.len() < MAX_NAME_LEN { name@.len() as int } else { MAX_NAME_LEN as int }),
                name@ == listing(fs@.files)[idx as int].0,
                forall|m: int| 0 <= m < j ==> #[trigger] buf@[m] == name@[m],
                forall|m: int| j <= m < MAX_NAME_LEN ==> #[trigger] buf@[m] == 0,
            decreases len - j,
        {
            buf[j] = name[j];
            j += 1;
        }
        result_len = len;
        assert(buf@.take(len as int) =~= spec_file_name_at(fs@, idx as int));
    } else {
        assert(buf@.take(0) =~= Seq::<u8>::empty());
    }
    (buf, result_len)
}

/// What the UI loop does after a key press in the file manager.
#[derive(Debug, Clone, Copy)]
pub enum FileManagerAction {
    /// Redraw and wait for the next key.
    Stay,
    /// Ask for a name, create the file and open it in the editor.
    PromptNewFile,
    /// Open the named file (`buf[..len]`) in the editor.
    OpenFile([u8; MAX_NAME_LEN], usize),
    /// Go back to the desktop.
    Back,
}

/// One key press in the file manager, whose list shows "New File" at index 0
/// and the live files at indices 1 and up. Up/Down move within the list;
/// Enter on "New File" prompts for a name, Enter on a file opens it, and
/// both reset the selection; Delete removes the selected file at once and
/// keeps the selection within the shorter list; Esc goes back.
pub fn file_manager_step(fs: &mut FileSystem, selected: usize, key: Key) -> (r: (usize, FileManagerAction))
    requires
        old(fs).wf(),
        selected <= count_live(old(fs)@.files),
    ensures
        final(fs).wf(),
        r.0 <= count_live(final(fs)@.files),
        match key {
            Key::Up => r == (if selected > 0 { (selected - 1) as usize } else { selected }, FileManagerAction::Stay)
                && final(fs)@ == old(fs)@,
            Key::Down => r == (if selected < count_live(old(fs)@.files) { (selected + 1) as usize } else { selected }, FileManagerAction::Stay)
                && final(fs)@ == old(fs)@,
            Key::Enter => r.0 == 0 && final(fs)@ == old(fs)@ && if selected == 0 {
                r.1 == FileManagerAction::PromptNewFile
            } else {
                let name = spec_file_name_at(old(fs)@, selected - 1);
                if name.len() > 0 {
                    r.1 matches FileManagerAction::OpenFile(buf, len) && len == name.len() && buf@.take(len as int) == name
                } else {
                    r.1 == FileManagerAction::Stay
                }
            },
            Key::Delete => r.1 == FileManagerAction::Stay && if selected > 0 && spec_file_name_at(old(fs)@, selected - 1).len() > 0 {
                let name = spec_file_name_at(old(fs)@, selected - 1);
                &&& final(fs)@ == spec_delete(old(fs)@, utf8_or_empty(name)).1
                &&& r.0 == if selected > count_live(final(fs)@.files) { count_live(final(fs)@.files) as int } else { selected as int }
            } else {
                final(fs)@ == old(fs)@ && r.0 == selected
            },
            Key::Escape => r == (selected, FileManagerAction::Back) && final(fs)@ == old(fs)@,
            _ => r == (selected, FileManagerAction::Stay) && final(fs)@ == old(fs)@,
        },
{
    let file_count = fs.file_count();
    match key {
        Key::Up => (if selected > 0 { selected - 1 } else { selected }, FileManagerAction::Stay),
        Key::Down => (if selected < file_count { selected + 1 } else { selected }, FileManagerAction::Stay),
        Key::Enter => {
            if selected == 0 {
                (0, FileManagerAction::PromptNewFile)
            } else {
                let (name_buf, name_len) = copy_file_name_at(fs, selected - 1);
                if name_len > 0 {
                    (0, FileManagerAction::OpenFile(name_buf, name_len))
                } else {
                    (0, FileManagerAction::Stay)
                }
            }
        },
        Key::Delete => {
            let mut sel = selected;
            if selected > 0 {
                let (name_buf, name_len) = copy_file_name_at(fs, selected - 1);
                if name_len > 0 {
                    let name_bytes = vstd::slice::slice_subrange(name_buf.as_slice(), 0, name_len);
                    assert(name_bytes@ =~= name_buf@.take(name_len as int));
                    let name = str_or_empty(name_bytes);
                    let _ = fs.delete(name);
                    let new_count = fs.file_count();
                    if sel > new_count {
                        sel = new_count;
                    }
                }
            }
            (sel, FileManagerAction::Stay)
        },
        Key::Escape => (selected, FileManagerAction::Back),
        _ => (selected, FileManagerAction::Stay),
    }
}

/// What became of a "New File" request.
#[derive(Debug, Clone, Copy, PartialEq, Eq, Structural)]
pub enum NewFileOutcome {
    /// No name was typed: go back to the file manager.
    Cancelled,
    /// The file was created: open it in the editor.
    Created,
    /// The file system refused the name: report the error.
    Failed(FsError),
}

/// Create the file whose name was typed into `name_buf[..name_len]`; an
/// empty name cancels the request.
pub fn new_file_step(fs: &mut FileSystem, name_buf: [u8; MAX_NAME_LEN], name_len: usize) -> (r: NewFileOutcome)
    requires
        old(fs).wf(),
        name_len <= MAX_NAME_LEN,
    ensures
        final(fs).wf(),
        name_len == 0 ==> r == NewFileOutcome::Cancelled && final(fs)@ == old(fs)@,
        name_len > 0 ==> {
            let (res, w) = spec_create(old(fs)@, utf8_or_empty(name_buf@.take(name_len as int)));
            &&& final(fs)@ == w
            &&& r == match res {
                Ok(_) => NewFileOutcome::Created,
                Err(e) => NewFileOutcome::Failed(e),
            }
        },
{
    if name_len == 0 {
        return NewFileOutcome::Cancelled;
    }
    let name_bytes = vstd::slice::slice_subrange(name_buf.as_slice(), 0, name_len);
    assert(name_bytes@ =~= name_buf@.take(name_len as int));
    let name = str_or_empty(name_bytes);
    match fs.create(name) {
        Ok(()) => NewFileOutcome::Created,
        Err(e) => NewFileOutcome::Failed(e),
    }
}

/// What the UI loop does after a key press while a line is being typed.
#[derive(Debug, Clone, Copy, PartialEq, Eq, Structural)]
pub enum LineInputAction {
    /// The line is complete.
    Done,
    /// The last byte was dropped: erase it on screen.
    Erase,
    /// The byte was appended: show it on screen.
    Echo(u8),
    /// Nothing changed.
    Ignore,
}

/// One key press while typing a line into `buf[..len]`: Enter ends the line,
/// Backspace drops the last byte, a character is appended while there is
/// room, and every other key is ignored.
pub fn read_line_step(buf: &mut [u8; MAX_NAME_LEN], len: usize, key: Key) -> (r: (usize, LineInputAction))
    requires
        len <= MAX_NAME_LEN,
    ensures
        r.0 <= MAX_NAME_LEN,
        match key {
            Key::Enter => r == (len, LineInputAction::Done) && final(buf)@ == old(buf)@,
            Key::Backspace => final(buf)@ == old(buf)@ && if len > 0 {
                r == ((len - 1) as usize, LineInputAction::Erase)
            } else {
                r == (len, LineInputAction::Ignore)
            },
            Key::Char(c) => if len < MAX_NAME_LEN {
                r == ((len + 1) as usize, LineInputAction::Echo(c)) && final(buf)@ == old(buf)@.update(len as int, c)
            } else {
                r == (len, LineInputAction::Ignore) && final(buf)@ == old(buf)@
            },
            _ => r == (len, LineInputAction::Ignore) && final(buf)@ == old(buf)@,
        },
{
    match key {
        Key::Enter => (len, LineInputAction::Done),
        Key::Backspace => {
            if len > 0 {
                (len - 1, LineInputAction::Erase)
            } else {
                (len, LineInputAction::Ignore)
            }
        },
        Key::Char(c) => {
            if len < MAX_NAME_LEN {
                buf[len] = c;
                (len + 1, LineInputAction::Echo(c))
            } else {
                (len, LineInputAction::Ignore)
            }
        },
        _ => (len, LineInputAction::Ignore),
    }
}

/// Capacity of a `LineBuf`: one screen row.
pub const LINE_CAPACITY: usize = 80;

/// The first `LINE_CAPACITY` bytes of `x`.
pub open spec fn cap(x: Seq<u8>) -> Seq<u8> {
    if x.len() <= LINE_CAPACITY {
        x
    } else {
        x.take(LINE_CAPACITY as int)
    }
}

/// `n` space bytes.
pub open spec fn spaces(n: int) -> Seq<u8> {
    Seq::new(n as nat, |i: int| 0x20u8)
}

/// The decimal digits of `n`.
pub open spec fn decimal(n: nat) -> Seq<u8>
    decreases n,
{
    if n < 10 {
        seq![(0x30 + n) as u8]
    } else {
        decimal(n / 10).push((0x30 + n % 10) as u8)
    }
}

pub proof fn lemma_cap_append(x: Seq<u8>, y: Seq<u8>)
    ensures
        cap(cap(x) + y) == cap(x + y),
{
    if x.len() > LINE_CAPACITY {
        assert((x.take(80) + y).take(80) =~= (x + y).take(80));
    }
}

/// Fixed-capacity line buffer: the stand-in for `String` when building one
/// screen row. Bytes past the capacity are dropped.
pub struct LineBuf {
    buf: [u8; LINE_CAPACITY],
    len: usize,
}

impl View for LineBuf {
    type V = Seq<u8>;

    closed spec fn view(&self) -> Seq<u8> {
        self.buf@.take(self.len as int)
    }
}

impl LineBuf {
    pub closed spec fn wf(&self) -> bool {
        self.len <= LINE_CAPACITY
    }

    /// An empty line.
    pub fn new() -> (l: LineBuf)
        ensures
            l.wf(),
            l@ == Seq::<u8>::empty(),
    {
        let l = LineBuf { buf: [0x20u8; LINE_CAPACITY], len: 0 };
        assert(l@ =~= Seq::<u8>::empty());
        l
    }

    /// The line as a string slice ("" when its bytes are not valid UTF-8).
    pub fn as_str(&self) -> (s: &str)
        requires
            self.wf(),
        ensures
            s.spec_bytes() == utf8_or_empty(self@),
    {
        let bytes = vstd::slice::slice_subrange(self.buf.as_slice(), 0, self.len);
        assert(bytes@ =~= self@);
        str_or_empty(bytes)
    }

    /// Append spaces until the line is `width` bytes long (or full).
    pub fn pad_to(&mut self, width: usize)
        requires
            old(self).wf(),
        ensures
            final(self).wf(),
            final(self)@ == old(self)@ + spaces(
                if old(self)@.len() < width && old(self)@.len() < LINE_CAPACITY {
                    (if width < LINE_CAPACITY { width as int } else { LINE_CAPACITY as int }) - old(self)@.len()
                } else {
                    0
                },
            ),
    {
        let ghost v0 = self@;
        let ghost l0 = self.len as int;
        while self.len < width && self.len < LINE_CAPACITY
            invariant
                self.wf(),
                l0 == v0.len(),
                l0 <= self.len,
                l0 < width ==> self.len <= width,
                l0 >= width ==> self.len == l0,
                forall|m: int| 0 <= m < l0 ==> #[trigger] self.buf@[m] == v0[m],
                forall|m: int| l0 <= m < self.len ==> #[trigger] self.buf@[m] == 0x20,
            decreases LINE_CAPACITY - self.len,
        {
            self.buf[self.len] = 0x20;
            self.len += 1;
        }
        let ghost n = if v0.len() < width && v0.len() < LINE_CAPACITY {
            (if width < LINE_CAPACITY { width as int } else { LINE_CAPACITY as int }) - v0.len()
        } else {
            0
        };
        assert(self.len == l0 + n);
        assert(self@ =~= v0 + spaces(n));
    }

    /// Append one byte if there is room.
    pub fn push_byte(&mut self, b: u8)
        requires
            old(self).wf(),
        ensures
            final(self).wf(),
            final(self)@ == cap(old(self)@.push(b)),
    {
        if self.len < LINE_CAPACITY {
            self.buf[self.len] = b;
            self.len += 1;
            assert(self@ =~= old(self)@.push(b));
        } else {
            assert(cap(old(self)@.push(b)) =~= old(self)@);
        }
    }

    /// Append the bytes of `s`, dropping those that do not fit.
    pub fn push_str(&mut self, s: &str)
        requires
            old(self).wf(),
        ensures
            final(self).wf(),
            final(self)@ == cap(old(self)@ + s.spec_bytes()),
    {
        let bytes = s.as_bytes();
        let ghost v0 = self@;
        let mut k: usize = 0;
        while k < bytes.len()
            invariant
                self.wf(),
                v0.len() <= LINE_CAPACITY,
                k <= bytes@.len(),
                bytes@ == s.spec_bytes(),
                self@ == cap(v0 + bytes@.take(k as int)),
            decreases bytes@.len() - k,
        {
            proof {
                lemma_cap_append(v0 + bytes@.take(k as int), seq![bytes@[k as int]]);
                assert(v0 + bytes@.take(k as int) + seq![bytes@[k as int]] =~= v0 + bytes@.take(k + 1));
                assert(self@.push(bytes@[k as int]) =~= self@ + seq![bytes@[k as int]]);
            }
            self.push_byte(bytes[k]);
            k += 1;
        }
        assert(bytes@.take(bytes@.len() as int) =~= bytes@);
        assert(v0 =~= cap(v0 + Seq::<u8>::empty()));
    }

    /// Append the decimal digits of `n`, dropping those that do not fit.
    pub fn push_decimal(&mut self, n: usize)
        requires
            old(self).wf(),
        ensures
            final(self).wf(),
            final(self)@ == cap(old(self)@ + decimal(n as nat)),
        decreases n,
    {
        if n >= 10 {
            self.push_decimal(n / 10);
            let ghost v1 = self@;
            self.push_byte(0x30 + (n % 10) as u8);
            proof {
                lemma_cap_append(old(self)@ + decimal((n / 10) as nat), seq![(0x30 + n % 10) as u8]);
                assert(v1.push((0x30 + n % 10) as u8) =~= v1 + seq![(0x30 + n % 10) as u8]);
                assert(old(self)@ + decimal((n / 10) as nat) + seq![(0x30 + n % 10) as u8] =~= old(self)@
                    + decimal(n as nat));
            }
        } else {
            self.push_byte(0x30 + n as u8);
            assert(old(self)@.push((0x30 + n) as u8) =~= old(self)@ + decimal(n as nat));
        }
    }
}

} // verus!
