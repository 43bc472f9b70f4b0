//! Properties of the drawn screens: which rows are highlighted and which
//! text cells the editor shows.
use vstd::prelude::*;
use vstd::string::StringSliceAdditionalSpecFns;
use vstd::utf8::{valid_utf8, valid_utf8_concat, is_ascii_chars, is_ascii_chars_encode_utf8, partial_valid_utf8_extend_ascii_block};
use crate::honeyos::vga_buffer::{
    ColorCode, ScreenChar, cell_index, spec_write_at, law_write_at_stays_on_row, fitting, BUFFER_CELLS,
};
use super::screens::{
    blank_screen, desktop_screen, desktop_line, desktop_app, desktop_line_color, marker, padded, file_line,
    file_line_color, file_rows, file_manager_screen, new_file_line, editor_screen, editor_text_cells, editor_header,
    editor_status, drawn_byte, cursor_byte,
};
use super::shell::{EditorView, editor_wf};
use super::layout::{pos_of, lemma_pos_bounds, lemma_pos_increasing};
use crate::honeyos::fs_spec::{FsView, view_wf, file_wf, listing, listing_slot, lemma_listing_slot, lemma_listing_len, count_live};
use crate::honeyos::vga_buffer::{attribute, Color};
use super::shell::{cap, spaces, utf8_or_empty, decimal};

verus! {

/// Bytes that are all ASCII form valid UTF-8.
proof fn lemma_ascii_valid(b: Seq<u8>)
    requires
        forall|i: int| 0 <= i < b.len() ==> #[trigger] b[i] <= 0x7f,
    ensures
        valid_utf8(b),
{
    assert(b.subrange(0, 0) =~= Seq::<u8>::empty());
    partial_valid_utf8_extend_ascii_block(b, 0, b.len() as int);
    assert(b.subrange(0, b.len() as int) =~= b);
}

/// The bytes of an ASCII string are its characters, one byte each.
proof fn lemma_ascii_str(s: &str)
    requires
        is_ascii_chars(s@),
    ensures
        s.spec_bytes().len() == s@.len(),
        forall|i: int| 0 <= i < s@.len() ==> #[trigger] s.spec_bytes()[i] <= 0x7f,
{
    is_ascii_chars_encode_utf8(s@);
    assert forall|i: int| 0 <= i < s@.len() implies #[trigger] s.spec_bytes()[i] <= 0x7f by {
        assert(s@[i] as u8 == s.spec_bytes()[i]);
    }
}

/// A desktop row is 30 ASCII bytes, so it is drawn in full.
proof fn lemma_desktop_line(i: int, selected: int)
    requires
        0 <= i < 2,
    ensures
        utf8_or_empty(desktop_line(i, selected)) == desktop_line(i, selected),
        desktop_line(i, selected).len() == 30,
{
    reveal_strlit("  ");
    reveal_strlit(" ");
    reveal_strlit("File Manager");
    reveal_strlit("Allocation Table");
    lemma_ascii_str("  ");
    lemma_ascii_str(" ");
    lemma_ascii_str("File Manager");
    lemma_ascii_str("Allocation Table");
    let raw = "  ".spec_bytes() + seq![marker(i == selected)] + " ".spec_bytes() + desktop_app(i);
    assert(raw.len() <= 20);
    assert(cap(raw) == raw);
    let l = desktop_line(i, selected);
    assert(l == raw + spaces(30 - raw.len()));
    assert forall|k: int| 0 <= k < l.len() implies #[trigger] l[k] <= 0x7f by {
        if k >= raw.len() {
            assert(l[k] == spaces(30 - raw.len())[k - raw.len()]);
        } else if k >= 4 {
            assert(l[k] == desktop_app(i)[k - 4]);
        } else if k == 3 {
            assert(l[k] == " ".spec_bytes()[0]);
        } else if k == 2 {
            assert(l[k] == marker(i == selected));
        } else {
            assert(l[k] == "  ".spec_bytes()[k]);
        }
    }
    lemma_ascii_valid(l);
}

/// On the desktop, the row of app `i` (screen row 6 + i, columns 2 to 31) is
/// drawn black on cyan exactly when it is the selected app, and light grey
/// on black otherwise: at most one app is highlighted.
pub proof fn law_desktop_highlight(color: ColorCode, selected: int, i: int, col: int)
    requires
        0 <= i < 2,
        2 <= col < 32,
    ensures
        desktop_screen(color, selected)[cell_index(6 + i, col)].color_code == if i == selected {
            ColorCode(0x30)
        } else {
            ColorCode(0x07)
        },
{
    lemma_desktop_line(0, selected);
    lemma_desktop_line(1, selected);
    let s0 = blank_screen(color);
    let s1 = spec_write_at(s0, 1, 2, "XSpace OS".spec_bytes(), attribute(Color::Yellow, Color::Black));
    let s2 = spec_write_at(
        s1,
        2,
        2,
        "=========================================".spec_bytes(),
        attribute(Color::DarkGray, Color::Black),
    );
    let s3 = spec_write_at(s2, 4, 2, "Desktop".spec_bytes(), attribute(Color::White, Color::Black));
    let s4 = spec_write_at(s3, 6, 2, utf8_or_empty(desktop_line(0, selected)), desktop_line_color(0, selected));
    let s5 = spec_write_at(s4, 7, 2, utf8_or_empty(desktop_line(1, selected)), desktop_line_color(1, selected));
    let footer = "Up/Down = move selection     Enter = open".spec_bytes();
    let s6 = spec_write_at(s5, 23, 2, footer, attribute(Color::DarkGray, Color::Black));
    assert(desktop_screen(color, selected) == s6);
    law_write_at_stays_on_row(s0, 1, 2, "XSpace OS".spec_bytes(), attribute(Color::Yellow, Color::Black));
    law_write_at_stays_on_row(
        s1,
        2,
        2,
        "=========================================".spec_bytes(),
        attribute(Color::DarkGray, Color::Black),
    );
    law_write_at_stays_on_row(s2, 4, 2, "Desktop".spec_bytes(), attribute(Color::White, Color::Black));
    law_write_at_stays_on_row(s3, 6, 2, utf8_or_empty(desktop_line(0, selected)), desktop_line_color(0, selected));
    law_write_at_stays_on_row(s4, 7, 2, utf8_or_empty(desktop_line(1, selected)), desktop_line_color(1, selected));
    law_write_at_stays_on_row(s5, 23, 2, footer, attribute(Color::DarkGray, Color::Black));
    let idx = cell_index(6 + i, col);
    assert(s6[idx] == s5[idx]);
    if i == 0 {
        assert(s5[idx] == s4[idx]);
        assert(fitting(2, 30) == 30);
        assert(s4[idx].color_code == desktop_line_color(0, selected));
    } else {
        assert(fitting(2, 30) == 30);
        assert(s5[idx].color_code == desktop_line_color(1, selected));
    }
}


/// Decimal digits are ASCII, and a number below 1000 has at most three.
proof fn lemma_decimal(n: nat)
    ensures
        forall|i: int| 0 <= i < decimal(n).len() ==> #[trigger] decimal(n)[i] <= 0x7f,
        n < 10 ==> decimal(n).len() == 1,
        n < 100 ==> decimal(n).len() <= 2,
        n < 1000 ==> decimal(n).len() <= 3,
    decreases n,
{
    if n >= 10 {
        lemma_decimal(n / 10);
        let d = decimal(n / 10);
        assert forall|i: int| 0 <= i < decimal(n).len() implies #[trigger] decimal(n)[i] <= 0x7f by {
            if i < d.len() {
                assert(decimal(n)[i] == d[i]);
            }
        }
    }
}

/// A file-manager row for a valid file name of at most 32 bytes and a size
/// of at most 512 is valid UTF-8 of 50 bytes, so it is drawn in full.
proof fn lemma_file_line(entry: (Seq<u8>, nat), selected: bool)
    requires
        valid_utf8(entry.0),
        entry.0.len() <= 32,
        entry.1 <= 512,
    ensures
        utf8_or_empty(file_line(entry, selected)) == file_line(entry, selected),
        file_line(entry, selected).len() == 50,
{
    reveal_strlit("  ");
    reveal_strlit(" ");
    reveal_strlit("  (");
    reveal_strlit(" bytes)");
    lemma_ascii_str("  ");
    lemma_ascii_str(" ");
    lemma_ascii_str("  (");
    lemma_ascii_str(" bytes)");
    lemma_decimal(entry.1);
    let head = "  ".spec_bytes() + seq![marker(selected)] + " ".spec_bytes();
    let tail = "  (".spec_bytes() + decimal(entry.1) + " bytes)".spec_bytes();
    assert forall|k: int| 0 <= k < head.len() implies #[trigger] head[k] <= 0x7f by {
        if k == 3 {
            assert(head[k] == " ".spec_bytes()[0]);
        } else if k == 2 {
            assert(head[k] == marker(selected));
        } else {
            assert(head[k] == "  ".spec_bytes()[k]);
        }
    }
    assert forall|k: int| 0 <= k < tail.len() implies #[trigger] tail[k] <= 0x7f by {
        let d = decimal(entry.1);
        if k < 3 {
            assert(tail[k] == "  (".spec_bytes()[k]);
        } else if k < 3 + d.len() {
            assert(tail[k] == d[k - 3]);
        } else {
            assert(tail[k] == " bytes)".spec_bytes()[k - 3 - d.len()]);
        }
    }
    lemma_ascii_valid(head);
    lemma_ascii_valid(tail);
    let raw = "  ".spec_bytes() + seq![marker(selected)] + " ".spec_bytes() + entry.0 + "  (".spec_bytes()
        + decimal(entry.1) + " bytes)".spec_bytes();
    assert(raw =~= head + entry.0 + tail);
    valid_utf8_concat(head, entry.0);
    valid_utf8_concat(head + entry.0, tail);
    assert(raw.len() <= 49);
    assert(cap(raw) == raw);
    let pad = spaces(50 - raw.len());
    assert forall|k: int| 0 <= k < pad.len() implies #[trigger] pad[k] <= 0x7f by {}
    lemma_ascii_valid(pad);
    valid_utf8_concat(raw, pad);
    assert(file_line(entry, selected) == raw + pad);
}

/// Listing entries whose rows are drawn in full.
pub open spec fn entries_drawable(l: Seq<(Seq<u8>, nat)>) -> bool {
    forall|j: int| 0 <= j < l.len() ==> valid_utf8((#[trigger] l[j]).0) && l[j].0.len() <= 32 && l[j].1 <= 512
}

/// Drawing the file rows keeps the screen size, and the row of listing
/// position `k` carries the colour of that row.
proof fn lemma_file_rows(s: Seq<ScreenChar>, l: Seq<(Seq<u8>, nat)>, selected: int, k: int, col: int)
    requires
        s.len() == BUFFER_CELLS,
        l.len() <= 8,
        entries_drawable(l),
    ensures
        file_rows(s, l, selected).len() == BUFFER_CELLS,
        0 <= k < l.len() && 2 <= col < 52 ==> file_rows(s, l, selected)[cell_index(5 + k, col)].color_code
            == file_line_color(k + 1 == selected),
    decreases l.len(),
{
    if l.len() > 0 {
        let d = l.drop_last();
        let last = l.len() - 1;
        assert(entries_drawable(d)) by {
            assert forall|j: int| 0 <= j < d.len() implies valid_utf8((#[trigger] d[j]).0) && d[j].0.len() <= 32
                && d[j].1 <= 512 by {
                assert(d[j] == l[j]);
            }
        }
        lemma_file_rows(s, d, selected, k, col);
        let prev = file_rows(s, d, selected);
        let t = utf8_or_empty(file_line(l[last], last + 1 == selected));
        law_write_at_stays_on_row(prev, 5 + last, 2, t, file_line_color(last + 1 == selected));
        if 0 <= k < l.len() && 2 <= col < 52 {
            if k == last {
                assert(valid_utf8(l[last].0) && l[last].0.len() <= 32 && l[last].1 <= 512);
                lemma_file_line(l[last], last + 1 == selected);
                assert(fitting(2, 50) == 50);
            } else {
                assert(d[k] == l[k]);
            }
        }
    }
}

/// In the file manager, the row of the file at listing position `k` (screen
/// row 5 + k, columns 2 to 51) is drawn black on cyan exactly when its list
/// entry k + 1 is the selected one, and white on black otherwise; the "New
/// File" row (screen row 3, columns 2 to 31) is black on green exactly when
/// entry 0 is selected, and light green on black otherwise.
pub proof fn law_file_manager_highlight(color: ColorCode, fs: FsView, selected: int, k: int, col: int)
    requires
        view_wf(fs),
    ensures
        0 <= k < listing(fs.files).len() && 2 <= col < 52 ==> file_manager_screen(color, fs, selected)[cell_index(
            5 + k,
            col,
        )].color_code == if k + 1 == selected {
            ColorCode(0x30)
        } else {
            ColorCode(0x0f)
        },
        2 <= col < 32 ==> file_manager_screen(color, fs, selected)[cell_index(3, col)].color_code == if selected
            == 0 {
            ColorCode(0x20)
        } else {
            ColorCode(0x0a)
        },
{
    let l = listing(fs.files);
    lemma_listing_len(fs.files);
    lemma_listing_slot(fs.files);
    crate::honeyos::fs_laws::law_count_live_bound(fs.files);
    assert(entries_drawable(l)) by {
        assert forall|j: int| 0 <= j < l.len() implies valid_utf8((#[trigger] l[j]).0) && l[j].0.len() <= 32
            && l[j].1 <= 512 by {
            let i = listing_slot(fs.files, j);
            assert(file_wf(fs, i, fs.files[i].unwrap()));
        }
    }
    lemma_new_file_line(selected);
    let s0 = blank_screen(color);
    let t1 = "XSpace OS -- File Manager".spec_bytes();
    let c1 = attribute(Color::Yellow, Color::Black);
    let s1 = spec_write_at(s0, 0, 2, t1, c1);
    let t2 = "=========================================".spec_bytes();
    let c2 = attribute(Color::DarkGray, Color::Black);
    let s2 = spec_write_at(s1, 1, 2, t2, c2);
    let t3 = utf8_or_empty(new_file_line(selected));
    let c3 = if selected == 0 { attribute(Color::Black, Color::Green) } else { attribute(Color::LightGreen, Color::Black) };
    let s3 = spec_write_at(s2, 3, 2, t3, c3);
    let t4 = "-----------------------------------------".spec_bytes();
    let s4 = spec_write_at(s3, 4, 2, t4, c2);
    let t5 = "(no files yet)".spec_bytes();
    let s5 = if count_live(fs.files) == 0 {
        spec_write_at(s4, 5, 4, t5, c2)
    } else {
        file_rows(s4, l, selected)
    };
    let t6 = "Up/Down=move  Enter=open  Del=delete  Esc=back".spec_bytes();
    let s6 = spec_write_at(s5, 23, 2, t6, c2);
    assert(file_manager_screen(color, fs, selected) == s6);
    law_write_at_stays_on_row(s0, 0, 2, t1, c1);
    law_write_at_stays_on_row(s1, 1, 2, t2, c2);
    law_write_at_stays_on_row(s2, 3, 2, t3, c3);
    law_write_at_stays_on_row(s3, 4, 2, t4, c2);
    law_write_at_stays_on_row(s4, 5, 4, t5, c2);
    lemma_file_rows(s4, l, selected, k, col);
    lemma_file_rows(s4, l, selected, 0, 2);
    law_write_at_stays_on_row(s5, 23, 2, t6, c2);
    if 2 <= col < 32 {
        assert(fitting(2, 30) == 30);
        assert(s4[cell_index(3, col)] == s3[cell_index(3, col)]);
        if count_live(fs.files) != 0 {
            lemma_file_rows_keeps_row(s4, l, selected, 3, col);
        }
    }
}

/// Drawing the file rows leaves the rows above them alone.
proof fn lemma_file_rows_keeps_row(s: Seq<ScreenChar>, l: Seq<(Seq<u8>, nat)>, selected: int, row: int, col: int)
    requires
        s.len() == BUFFER_CELLS,
        0 <= row < 5,
        0 <= col < 80,
    ensures
        file_rows(s, l, selected).len() == BUFFER_CELLS,
        file_rows(s, l, selected)[cell_index(row, col)] == s[cell_index(row, col)],
    decreases l.len(),
{
    if l.len() > 0 {
        let d = l.drop_last();
        let last = l.len() - 1;
        lemma_file_rows_keeps_row(s, d, selected, row, col);
        let prev = file_rows(s, d, selected);
        let t = utf8_or_empty(file_line(l[last], last + 1 == selected));
        law_write_at_stays_on_row(prev, 5 + last, 2, t, file_line_color(last + 1 == selected));
    }
}

/// The "New File" row is 30 ASCII bytes, so it is drawn in full.
proof fn lemma_new_file_line(selected: int)
    ensures
        utf8_or_empty(new_file_line(selected)) == new_file_line(selected),
        new_file_line(selected).len() == 30,
{
    reveal_strlit("  ");
    reveal_strlit(" [ + New File ]");
    lemma_ascii_str("  ");
    lemma_ascii_str(" [ + New File ]");
    let raw = "  ".spec_bytes() + seq![marker(selected == 0)] + " [ + New File ]".spec_bytes();
    assert(raw.len() == 18);
    assert(cap(raw) == raw);
    let l = new_file_line(selected);
    assert(l == raw + spaces(12));
    assert forall|k: int| 0 <= k < l.len() implies #[trigger] l[k] <= 0x7f by {
        if k >= 18 {
            assert(l[k] == spaces(12)[k - 18]);
        } else if k >= 3 {
            assert(l[k] == " [ + New File ]".spec_bytes()[k - 3]);
        } else if k == 2 {
            assert(l[k] == marker(selected == 0));
        } else {
            assert(l[k] == "  ".spec_bytes()[k]);
        }
    }
    lemma_ascii_valid(l);
}


/// Different positions on screen have different cell indices.
proof fn lemma_cell_index_distinct(r1: int, c1: int, r2: int, c2: int)
    requires
        0 <= c1 < 80,
        0 <= c2 < 80,
        r1 != r2 || c1 != c2,
    ensures
        cell_index(r1, c1) != cell_index(r2, c2),
{
    if r1 < r2 {
        assert(r1 * 80 + c1 < r2 * 80 + c2) by (nonlinear_arith)
            requires
                r1 < r2,
                0 <= c1 < 80,
                0 <= c2,
        ;
    } else if r2 < r1 {
        assert(r2 * 80 + c2 < r1 * 80 + c1) by (nonlinear_arith)
            requires
                r2 < r1,
                0 <= c2 < 80,
                0 <= c1,
        ;
    }
}

/// Two different insertion indices are laid out at different positions.
proof fn lemma_pos_distinct(t: Seq<u8>, a: int, b: int)
    requires
        0 <= a,
        0 <= b,
        a != b,
    ensures
        pos_of(t, a) != pos_of(t, b),
{
    if a < b {
        lemma_pos_increasing(t, a, b);
    } else {
        lemma_pos_increasing(t, b, a);
    }
}

/// After the first `n` bytes are painted, byte `j < n` (not a newline, on a
/// visible row) stands in its cell in white on black.
proof fn lemma_text_cells(s: Seq<ScreenChar>, text: Seq<u8>, top: int, n: int, j: int)
    requires
        s.len() == BUFFER_CELLS,
        0 <= top,
        n <= text.len(),
    ensures
        editor_text_cells(s, text, top, n).len() == BUFFER_CELLS,
        0 <= j < n && text[j] != 0x0a && top <= pos_of(text, j).0 < top + 21 ==> editor_text_cells(s, text, top, n)[cell_index(
            2 + pos_of(text, j).0 - top,
            pos_of(text, j).1,
        )] == (ScreenChar { ascii_character: drawn_byte(text[j]), color_code: ColorCode(0x0f) }),
    decreases n,
{
    if n > 0 {
        lemma_text_cells(s, text, top, n - 1, j);
        let p = pos_of(text, n - 1);
        lemma_pos_bounds(text, n - 1);
        if 0 <= j < n && text[j] != 0x0a && top <= pos_of(text, j).0 < top + 21 {
            let q = pos_of(text, j);
            lemma_pos_bounds(text, j);
            if j < n - 1 && text[n - 1] != 0x0a && top <= p.0 < top + 21 {
                lemma_pos_distinct(text, j, n - 1);
                lemma_cell_index_distinct(2 + q.0 - top, q.1, 2 + p.0 - top, p.1);
            }
        }
    }
}

/// The editor shows every visible byte of its text: a byte that is not a
/// newline, laid out at text row r (with top <= r < top + 21) and column c,
/// appears on screen row 2 + r - top, column c, in white on black; printable
/// ASCII shows as itself and any other byte as a space. The one exception is
/// the byte under the cursor, whose cell is drawn inverted.
pub proof fn law_editor_shows_text(color: ColorCode, e: EditorView, caps_lock: bool, j: int)
    requires
        editor_wf(e),
        0 <= j < e.text.len(),
        e.text[j] != 0x0a,
        j != e.cursor,
        e.top <= pos_of(e.text, j).0 < e.top + 21,
    ensures
        ({
            let p = pos_of(e.text, j);
            let cell = editor_screen(color, e, caps_lock)[cell_index(2 + p.0 - e.top, p.1)];
            &&& cell.color_code == ColorCode(0x0f)
            &&& 0x20 <= e.text[j] <= 0x7e ==> cell.ascii_character == e.text[j]
            &&& !(0x20 <= e.text[j] <= 0x7e) ==> cell.ascii_character == 0x20
        }),
{
    let (s3, s4) = lemma_editor_layers(color, e, caps_lock);
    lemma_text_cells(s3, e.text, e.top, e.text.len() as int, j);
    let p = pos_of(e.text, j);
    let c = pos_of(e.text, e.cursor);
    lemma_pos_bounds(e.text, j);
    lemma_pos_bounds(e.text, e.cursor);
    lemma_pos_distinct(e.text, j, e.cursor);
    lemma_cell_index_distinct(2 + p.0 - e.top, p.1, 2 + c.0 - e.top, c.1);
}

/// The cursor's cell is drawn inverted (black on white) whenever its row is
/// visible; it shows the byte under the cursor, or a space at a newline or
/// at the end of the text.
pub proof fn law_editor_shows_cursor(color: ColorCode, e: EditorView, caps_lock: bool)
    requires
        editor_wf(e),
        e.top <= pos_of(e.text, e.cursor).0 < e.top + 21,
    ensures
        ({
            let c = pos_of(e.text, e.cursor);
            let cell = editor_screen(color, e, caps_lock)[cell_index(2 + c.0 - e.top, c.1)];
            &&& cell.color_code == ColorCode(0xf0)
            &&& e.cursor < e.text.len() && e.text[e.cursor] != 0x0a && 0x20 <= e.text[e.cursor] <= 0x7e
                ==> cell.ascii_character == e.text[e.cursor]
            &&& (e.cursor == e.text.len() || e.text[e.cursor] == 0x0a) ==> cell.ascii_character == 0x20
        }),
{
    let (s3, s4) = lemma_editor_layers(color, e, caps_lock);
    lemma_text_cells(s3, e.text, e.top, e.text.len() as int, 0);
    lemma_pos_bounds(e.text, e.cursor);
    let c = pos_of(e.text, e.cursor);
    let i = cell_index(2 + c.0 - e.top, c.1);
    assert(0 <= i < cell_index(23, 0));
    assert(editor_screen(color, e, caps_lock)[i] == s4.update(
        i,
        ScreenChar { ascii_character: drawn_byte(cursor_byte(e.text, e.cursor)), color_code: ColorCode(0xf0) },
    )[i]);
}

/// The layers of the editor screen: `s3` after the title bar and separator,
/// `s4` after the text; the cursor cell and the status bar go on top.
proof fn lemma_editor_layers(color: ColorCode, e: EditorView, caps_lock: bool) -> (r: (Seq<ScreenChar>, Seq<ScreenChar>))
    requires
        editor_wf(e),
    ensures
        r.0.len() == BUFFER_CELLS,
        r.1 == editor_text_cells(r.0, e.text, e.top, e.text.len() as int),
        ({
            let c = pos_of(e.text, e.cursor);
            let s5 = if e.top <= c.0 < e.top + 21 {
                r.1.update(
                    cell_index(2 + c.0 - e.top, c.1),
                    ScreenChar { ascii_character: drawn_byte(cursor_byte(e.text, e.cursor)), color_code: ColorCode(0xf0) },
                )
            } else {
                r.1
            };
            &&& s5.len() == BUFFER_CELLS
            &&& forall|i: int|
                0 <= i < cell_index(23, 0) ==> #[trigger] editor_screen(color, e, caps_lock)[i] == s5[i]
        }),
{
    let h = utf8_or_empty(editor_header(e.name));
    let cyan = attribute(Color::Black, Color::Cyan);
    let s0 = blank_screen(color);
    let s1 = spec_write_at(s0, 0, 0, h, cyan);
    let hints = "Ctrl+S:Save  Ctrl+X:Close  Ctrl+R:Rename".spec_bytes();
    let s2 = spec_write_at(s1, 0, 38, hints, cyan);
    let dash = "--------------------------------------------------------------------------------".spec_bytes();
    let grey = attribute(Color::DarkGray, Color::Black);
    let s3 = spec_write_at(s2, 1, 0, dash, grey);
    law_write_at_stays_on_row(s0, 0, 0, h, cyan);
    law_write_at_stays_on_row(s1, 0, 38, hints, cyan);
    law_write_at_stays_on_row(s2, 1, 0, dash, grey);
    lemma_text_cells(s3, e.text, e.top, e.text.len() as int, 0);
    let s4 = editor_text_cells(s3, e.text, e.top, e.text.len() as int);
    let c = pos_of(e.text, e.cursor);
    lemma_pos_bounds(e.text, e.cursor);
    let s5 = if e.top <= c.0 < e.top + 21 {
        s4.update(
            cell_index(2 + c.0 - e.top, c.1),
            ScreenChar { ascii_character: drawn_byte(cursor_byte(e.text, e.cursor)), color_code: ColorCode(0xf0) },
        )
    } else {
        s4
    };
    let st = utf8_or_empty(editor_status(e.saved, caps_lock, e.text.len()));
    let sc = if e.saved { attribute(Color::Black, Color::LightGreen) } else { attribute(Color::Black, Color::Yellow) };
    law_write_at_stays_on_row(s5, 23, 0, st, sc);
    assert(editor_screen(color, e, caps_lock) == spec_write_at(s5, 23, 0, st, sc));
    (s3, s4)
}

} // verus!
