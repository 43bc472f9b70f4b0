//! Properties of the editor's key handling that hold across key presses.
use vstd::prelude::*;
use crate::honeyos::fs::MAX_CONTENT_LEN;
use super::keyboard::Key;
use super::layout::{
    pos_of, lemma_pos_bounds, lemma_rows_monotone, lemma_index_for_position_bound, lemma_index_for_position_row,
    law_position_index_roundtrip,
};
use super::shell::{EditorView, EditorAction, editor_wf, spec_edit_key, spec_key_effect};
use crate::honeyos::fs_spec::FsView;

verus! {

/// Every key keeps the editor consistent: the text never grows past the
/// 512-byte limit and the cursor stays within the text.
pub proof fn law_edit_keeps_wf(e: EditorView, key: Key)
    requires
        editor_wf(e),
    ensures
        editor_wf(spec_edit_key(e, key)),
{
    let t = e.text;
    let len = t.len() as int;
    let row = pos_of(t, e.cursor).0;
    lemma_pos_bounds(t, e.cursor);
    match key {
        Key::Backspace => {
            if e.cursor > 0 {
                lemma_pos_bounds(t.remove(e.cursor - 1), e.cursor - 1);
            }
        },
        Key::Delete => {
            if e.cursor < len {
                lemma_pos_bounds(t.remove(e.cursor), e.cursor);
            }
        },
        Key::Left => {
            lemma_pos_bounds(t, if e.cursor > 0 { e.cursor - 1 } else { 0 });
        },
        Key::Right => {
            lemma_pos_bounds(t, if e.cursor < len { e.cursor + 1 } else { e.cursor });
        },
        Key::Up => {
            lemma_index_for_position_bound(t, len, row - 1, e.preferred_col);
        },
        Key::Down => {
            lemma_index_for_position_bound(t, len, row + 1, e.preferred_col);
        },
        Key::Home => {
            lemma_index_for_position_bound(t, len, row, 0);
        },
        Key::End => {
            lemma_index_for_position_bound(t, len, row, 0);
            lemma_pos_bounds(t, super::layout::spec_line_end_index(t, len, row));
        },
        Key::PageUp => {
            let target = if row >= 21 { row - 21 } else { 0 };
            lemma_index_for_position_bound(t, len, target, e.preferred_col);
        },
        Key::PageDown => {
            lemma_index_for_position_bound(t, len, row + 21, e.preferred_col);
        },
        Key::Char(ch) => {
            if len < MAX_CONTENT_LEN {
                lemma_pos_bounds(t.insert(e.cursor, ch), e.cursor + 1);
            }
        },
        _ => {},
    }
}

/// Typing a character and then pressing Backspace gives back the text and
/// the cursor as they were.
pub proof fn law_type_then_backspace(e: EditorView, ch: u8)
    requires
        editor_wf(e),
        e.text.len() < MAX_CONTENT_LEN,
    ensures
        spec_edit_key(spec_edit_key(e, Key::Char(ch)), Key::Backspace).text == e.text,
        spec_edit_key(spec_edit_key(e, Key::Char(ch)), Key::Backspace).cursor == e.cursor,
{
    assert(e.text.insert(e.cursor, ch).remove(e.cursor) =~= e.text);
}

/// A key that changes the text marks the buffer unsaved.
pub proof fn law_edit_marks_unsaved(e: EditorView, key: Key)
    ensures
        spec_edit_key(e, key).text != e.text ==> !spec_edit_key(e, key).saved,
{
}

/// Moving up a row and back down returns the cursor to where it was, when
/// the cursor sits at its preferred column (as after any horizontal move).
pub proof fn law_up_then_down(e: EditorView)
    requires
        editor_wf(e),
        pos_of(e.text, e.cursor).0 > 0,
        e.preferred_col == pos_of(e.text, e.cursor).1,
    ensures
        spec_edit_key(spec_edit_key(e, Key::Up), Key::Down).cursor == e.cursor,
{
    let t = e.text;
    let len = t.len() as int;
    let r = pos_of(t, e.cursor).0;
    lemma_rows_monotone(t, e.cursor, len);
    lemma_index_for_position_row(t, len, r - 1, e.preferred_col);
    law_position_index_roundtrip(t, len, e.cursor);
}


/// The editor and the file system after the editor loop handles `keys` one
/// by one, as `Editor::apply_key` does; the run ends at the first key that
/// closes the editor or asks for a new name, and that action is returned.
pub open spec fn spec_run_keys(e: EditorView, v: FsView, keys: Seq<Key>) -> (EditorView, FsView, Option<EditorAction>)
    decreases keys.len(),
{
    if keys.len() == 0 {
        (e, v, None)
    } else {
        let (a, e1, v1) = spec_key_effect(e, v, keys[0]);
        if a == EditorAction::Continue {
            spec_run_keys(e1, v1, keys.drop_first())
        } else {
            (e1, v1, Some(a))
        }
    }
}

/// Editing without Ctrl+S never touches the file system: unsaved changes are
/// not written back, also when Ctrl+X closes the editor.
pub proof fn law_no_save_keeps_fs(e: EditorView, v: FsView, keys: Seq<Key>)
    requires
        forall|k: int| 0 <= k < keys.len() ==> keys[k] != Key::CtrlS,
    ensures
        spec_run_keys(e, v, keys).1 == v,
    decreases keys.len(),
{
    if keys.len() > 0 {
        assert(keys[0] != Key::CtrlS);
        let (a, e1, v1) = spec_key_effect(e, v, keys[0]);
        assert forall|k: int| 0 <= k < keys.drop_first().len() implies keys.drop_first()[k] != Key::CtrlS by {
            assert(keys.drop_first()[k] == keys[k + 1]);
        }
        law_no_save_keeps_fs(e1, v1, keys.drop_first());
    }
}

/// Ctrl+X closes the editor at once: keys typed after it are never handled.
pub proof fn law_close_ends_run(e: EditorView, v: FsView, keys: Seq<Key>, rest: Seq<Key>)
    ensures
        spec_run_keys(e, v, keys.push(Key::CtrlX) + rest) == spec_run_keys(e, v, keys.push(Key::CtrlX)),
        spec_run_keys(e, v, keys.push(Key::CtrlX)).2 is Some,
    decreases keys.len(),
{
    let a = keys.push(Key::CtrlX) + rest;
    let b = keys.push(Key::CtrlX);
    assert(a[0] == b[0]);
    if keys.len() > 0 {
        let (act, e1, v1) = spec_key_effect(e, v, keys[0]);
        assert(a.drop_first() =~= keys.drop_first().push(Key::CtrlX) + rest);
        assert(b.drop_first() =~= keys.drop_first().push(Key::CtrlX));
        law_close_ends_run(e1, v1, keys.drop_first(), rest);
    }
}


/// Enter splits the line at the cursor: the bytes before the cursor stay in
/// place, a newline follows them, then come the bytes that were at and after
/// the cursor; the cursor moves just past the newline. With the buffer full,
/// Enter changes nothing.
pub proof fn law_enter_splits_line(e: EditorView)
    requires
        editor_wf(e),
    ensures
        ({
            let e2 = spec_edit_key(e, Key::Enter);
            if e.text.len() < MAX_CONTENT_LEN {
                &&& e2.text.len() == e.text.len() + 1
                &&& e2.text.subrange(0, e.cursor) == e.text.subrange(0, e.cursor)
                &&& e2.text[e.cursor] == 0x0a
                &&& e2.text.subrange(e.cursor + 1, e2.text.len() as int) == e.text.subrange(e.cursor, e.text.len() as int)
                &&& e2.cursor == e.cursor + 1
                &&& !e2.saved
            } else {
                e2 == e
            }
        }),
{
    let e2 = spec_edit_key(e, Key::Enter);
    if e.text.len() < MAX_CONTENT_LEN {
        assert(e2.text.subrange(0, e.cursor) =~= e.text.subrange(0, e.cursor));
        assert(e2.text.subrange(e.cursor + 1, e2.text.len() as int) =~= e.text.subrange(e.cursor, e.text.len() as int));
    }
}

/// A printable key inserts its byte at the cursor, keeping the bytes before
/// the cursor and shifting the rest right by one; the cursor moves past it.
/// With the buffer full, nothing changes.
pub proof fn law_char_inserts_at_cursor(e: EditorView, ch: u8)
    requires
        editor_wf(e),
    ensures
        ({
            let e2 = spec_edit_key(e, Key::Char(ch));
            if e.text.len() < MAX_CONTENT_LEN {
                &&& e2.text.len() == e.text.len() + 1
                &&& e2.text.subrange(0, e.cursor) == e.text.subrange(0, e.cursor)
                &&& e2.text[e.cursor] == ch
                &&& e2.text.subrange(e.cursor + 1, e2.text.len() as int) == e.text.subrange(e.cursor, e.text.len() as int)
                &&& e2.cursor == e.cursor + 1
                &&& !e2.saved
            } else {
                e2 == e
            }
        }),
{
    let e2 = spec_edit_key(e, Key::Char(ch));
    if e.text.len() < MAX_CONTENT_LEN {
        assert(e2.text.subrange(0, e.cursor) =~= e.text.subrange(0, e.cursor));
        assert(e2.text.subrange(e.cursor + 1, e2.text.len() as int) =~= e.text.subrange(e.cursor, e.text.len() as int));
    }
}

/// Backspace removes the byte just before the cursor and moves the cursor
/// back onto its place; Delete removes the byte at the cursor and keeps the
/// cursor. Everything else in the text stays in order. At the start (for
/// Backspace) or the end (for Delete) of the text they change nothing.
pub proof fn law_backspace_delete_remove_one(e: EditorView)
    requires
        editor_wf(e),
    ensures
        ({
            let b = spec_edit_key(e, Key::Backspace);
            if e.cursor > 0 {
                &&& b.text.len() == e.text.len() - 1
                &&& b.text.subrange(0, e.cursor - 1) == e.text.subrange(0, e.cursor - 1)
                &&& b.text.subrange(e.cursor - 1, b.text.len() as int) == e.text.subrange(e.cursor, e.text.len() as int)
                &&& b.cursor == e.cursor - 1
                &&& !b.saved
            } else {
                b == e
            }
        }),
        ({
            let d = spec_edit_key(e, Key::Delete);
            if e.cursor < e.text.len() {
                &&& d.text.len() == e.text.len() - 1
                &&& d.text.subrange(0, e.cursor) == e.text.subrange(0, e.cursor)
                &&& d.text.subrange(e.cursor, d.text.len() as int) == e.text.subrange(e.cursor + 1, e.text.len() as int)
                &&& d.cursor == e.cursor
                &&& !d.saved
            } else {
                d == e
            }
        }),
{
    let b = spec_edit_key(e, Key::Backspace);
    let d = spec_edit_key(e, Key::Delete);
    if e.cursor > 0 {
        assert(b.text.subrange(0, e.cursor - 1) =~= e.text.subrange(0, e.cursor - 1));
        assert(b.text.subrange(e.cursor - 1, b.text.len() as int) =~= e.text.subrange(e.cursor, e.text.len() as int));
    }
    if e.cursor < e.text.len() {
        assert(d.text.subrange(0, e.cursor) =~= e.text.subrange(0, e.cursor));
        assert(d.text.subrange(e.cursor, d.text.len() as int) =~= e.text.subrange(e.cursor + 1, e.text.len() as int));
    }
}

/// Left and Right move the cursor by one byte within the text and keep the
/// text; at the start (Left) or the end (Right) they leave it in place.
pub proof fn law_left_right_move_one(e: EditorView)
    requires
        editor_wf(e),
    ensures
        spec_edit_key(e, Key::Left).text == e.text,
        spec_edit_key(e, Key::Left).cursor == if e.cursor > 0 { e.cursor - 1 } else { 0 },
        spec_edit_key(e, Key::Right).text == e.text,
        spec_edit_key(e, Key::Right).cursor == if e.cursor < e.text.len() { e.cursor + 1 } else { e.cursor },
{
}

} // verus!
