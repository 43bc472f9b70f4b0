//! Drawing of the UI screens into the screen buffer: the desktop, the file
//! manager, the allocation table and the editor.
use vstd::prelude::*;
use vstd::string::StringSliceAdditionalSpecFns;
use crate::honeyos::vga_buffer::{
    Buffer, Writer, Color, ColorCode, ScreenChar, attribute, blank, spec_write_at, clear_screen, write_at,
    BUFFER_CELLS,
};
use super::shell::{Editor, EditorView, editor_wf, LineBuf, cap, spaces, utf8_or_empty, lemma_cap_append, decimal, LINE_CAPACITY};
use crate::honeyos::fs::{FileSystem, BlockKind, TOTAL_BLOCKS};
use crate::text::{fit_chars, format_cell12};
use vstd::utf8::{encode_utf8, decode_utf8, valid_utf8};
use crate::honeyos::vga_buffer::{cell_index, write_byte_at};
use crate::honeyos::fs::MAX_CONTENT_LEN;
use super::layout::{pos_of, lemma_pos_bounds, editor_position_for_index, EDITOR_VIEW_ROWS, EDITOR_FIRST_ROW, EDITOR_WIDTH};
use crate::honeyos::fs_spec::{FsView, listing, count_live, lemma_listing_len};

verus! {

/// A screen of blanks in the given colour.
pub open spec fn blank_screen(color: ColorCode) -> Seq<ScreenChar> {
    Seq::new(BUFFER_CELLS as nat, |i: int| blank(color))
}

/// `v` padded with spaces to `width` bytes (never past the line capacity).
pub open spec fn padded(v: Seq<u8>, width: int) -> Seq<u8> {
    v + spaces(
        if v.len() < width && v.len() < LINE_CAPACITY {
            (if width < LINE_CAPACITY { width } else { LINE_CAPACITY as int }) - v.len()
        } else {
            0
        },
    )
}

/// The selection marker: '>' on the selected entry, a space elsewhere.
pub open spec fn marker(selected: bool) -> u8 {
    if selected {
        0x3e
    } else {
        0x20
    }
}

fn marker_byte(selected: bool) -> (b: u8)
    ensures
        b == marker(selected),
{
    if selected {
        0x3e
    } else {
        0x20
    }
}

/// Name of desktop app `i`.
pub open spec fn desktop_app(i: int) -> Seq<u8> {
    if i == 0 {
        "File Manager".spec_bytes()
    } else {
        "Allocation Table".spec_bytes()
    }
}

fn desktop_app_name(i: usize) -> (s: &'static str)
    ensures
        s.spec_bytes() == desktop_app(i as int),
{
    if i == 0 {
        "File Manager"
    } else {
        "Allocation Table"
    }
}

/// Desktop row of app `i`: "  > name" or "    name", padded to 30 bytes.
pub open spec fn desktop_line(i: int, selected: int) -> Seq<u8> {
    padded(cap("  ".spec_bytes() + seq![marker(i == selected)] + " ".spec_bytes() + desktop_app(i)), 30)
}

/// Colours of a desktop row: black on cyan when selected.
pub open spec fn desktop_line_color(i: int, selected: int) -> ColorCode {
    if i == selected {
        attribute(Color::Black, Color::Cyan)
    } else {
        attribute(Color::LightGray, Color::Black)
    }
}

/// The desktop screen.
pub open spec fn desktop_screen(color: ColorCode, selected: int) -> Seq<ScreenChar> {
    let s1 = spec_write_at(blank_screen(color), 1, 2, "XSpace OS".spec_bytes(), attribute(Color::Yellow, Color::Black));
    let s2 = spec_write_at(
        s1,
        2,
        2,
        "=========================================".spec_bytes(),
        attribute(Color::DarkGray, Color::Black),
    );
    let s3 = spec_write_at(s2, 4, 2, "Desktop".spec_bytes(), attribute(Color::White, Color::Black));
    let s4 = spec_write_at(s3, 6, 2, utf8_or_empty(desktop_line(0, selected)), desktop_line_color(0, selected));
    let s5 = spec_write_at(s4, 7, 2, utf8_or_empty(desktop_line(1, selected)), desktop_line_color(1, selected));
    spec_write_at(
        s5,
        23,
        2,
        "Up/Down = move selection     Enter = open".spec_bytes(),
        attribute(Color::DarkGray, Color::Black),
    )
}

/// Draw desktop row `i`.
fn draw_desktop_line(buffer: &mut Buffer, i: usize, selected: usize)
    requires
        old(buffer).wf(),
        i < 2,
    ensures
        final(buffer).wf(),
        final(buffer)@ == spec_write_at(
            old(buffer)@,
            6 + i,
            2,
            utf8_or_empty(desktop_line(i as int, selected as int)),
            desktop_line_color(i as int, selected as int),
        ),
{
    let mut line = LineBuf::new();
    line.push_str("  ");
    line.push_byte(marker_byte(i == selected));
    line.push_str(" ");
    line.push_str(desktop_app_name(i));
    line.pad_to(30);
    proof {
        let a = "  ".spec_bytes();
        let m = seq![marker(i == selected)];
        let b = " ".spec_bytes();
        let c = desktop_app(i as int);
        lemma_cap_append(Seq::<u8>::empty() + a, m);
        lemma_cap_append(Seq::<u8>::empty() + a + m, b);
        lemma_cap_append(Seq::<u8>::empty() + a + m + b, c);
        assert(cap(Seq::<u8>::empty() + a).push(marker(i == selected)) =~= cap(Seq::<u8>::empty() + a) + m);
        assert(Seq::<u8>::empty() + a + m + b + c =~= a + m + b + c);
    }
    if i == selected {
        write_at(buffer, 6 + i, 2, line.as_str(), Color::Black, Color::Cyan);
    } else {
        write_at(buffer, 6 + i, 2, line.as_str(), Color::LightGray, Color::Black);
    }
}

/// Draw the desktop with app `selected` highlighted.
pub fn draw_desktop(writer: &mut Writer, buffer: &mut Buffer, selected: usize)
    requires
        old(buffer).wf(),
    ensures
        final(buffer).wf(),
        final(buffer)@ == desktop_screen(old(writer)@.color, selected as int),
{
    clear_screen(writer, buffer);
    write_at(buffer, 1, 2, "XSpace OS", Color::Yellow, Color::Black);
    write_at(buffer, 2, 2, "=========================================", Color::DarkGray, Color::Black);
    write_at(buffer, 4, 2, "Desktop", Color::White, Color::Black);
    draw_desktop_line(buffer, 0, selected);
    draw_desktop_line(buffer, 1, selected);
    write_at(buffer, 23, 2, "Up/Down = move selection     Enter = open", Color::DarkGray, Color::Black);
}

/// The "New File" row of the file manager, padded to 30 bytes.
pub open spec fn new_file_line(selected: int) -> Seq<u8> {
    padded(cap("  ".spec_bytes() + seq![marker(selected == 0)] + " [ + New File ]".spec_bytes()), 30)
}

/// File-manager row of a file: marker, name and size in bytes, padded to 50
/// bytes.
pub open spec fn file_line(entry: (Seq<u8>, nat), selected: bool) -> Seq<u8> {
    padded(
        cap(
            "  ".spec_bytes() + seq![marker(selected)] + " ".spec_bytes() + entry.0 + "  (".spec_bytes()
                + decimal(entry.1) + " bytes)".spec_bytes(),
        ),
        50,
    )
}

/// Colours of a file row: black on cyan when selected.
pub open spec fn file_line_color(selected: bool) -> ColorCode {
    if selected {
        attribute(Color::Black, Color::Cyan)
    } else {
        attribute(Color::White, Color::Black)
    }
}

/// The file rows, from screen row 5 down; list index 0 is "New File", so the
/// file at position k of the listing has list index k + 1.
pub open spec fn file_rows(s: Seq<ScreenChar>, l: Seq<(Seq<u8>, nat)>, selected: int) -> Seq<ScreenChar>
    decreases l.len(),
{
    if l.len() == 0 {
        s
    } else {
        let k = l.len() - 1;
        spec_write_at(
            file_rows(s, l.drop_last(), selected),
            5 + k,
            2,
            utf8_or_empty(file_line(l[k], k + 1 == selected)),
            file_line_color(k + 1 == selected),
        )
    }
}

/// The file-manager screen.
pub open spec fn file_manager_screen(color: ColorCode, fs: FsView, selected: int) -> Seq<ScreenChar> {
    let s1 = spec_write_at(
        blank_screen(color),
        0,
        2,
        "XSpace OS -- File Manager".spec_bytes(),
        attribute(Color::Yellow, Color::Black),
    );
    let s2 = spec_write_at(
        s1,
        1,
        2,
        "=========================================".spec_bytes(),
        attribute(Color::DarkGray, Color::Black),
    );
    let s3 = spec_write_at(
        s2,
        3,
        2,
        utf8_or_empty(new_file_line(selected)),
        if selected == 0 { attribute(Color::Black, Color::Green) } else { attribute(Color::LightGreen, Color::Black) },
    );
    let s4 = spec_write_at(
        s3,
        4,
        2,
        "-----------------------------------------".spec_bytes(),
        attribute(Color::DarkGray, Color::Black),
    );
    let s5 = if count_live(fs.files) == 0 {
        spec_write_at(s4, 5, 4, "(no files yet)".spec_bytes(), attribute(Color::DarkGray, Color::Black))
    } else {
        file_rows(s4, listing(fs.files), selected)
    };
    spec_write_at(
        s5,
        23,
        2,
        "Up/Down=move  Enter=open  Del=delete  Esc=back".spec_bytes(),
        attribute(Color::DarkGray, Color::Black),
    )
}

/// Draw the file manager with list entry `selected` highlighted.
pub fn draw_file_manager(writer: &mut Writer, buffer: &mut Buffer, fs: &FileSystem, selected: usize)
    requires
        old(buffer).wf(),
        fs.wf(),
    ensures
        final(buffer).wf(),
        final(buffer)@ == file_manager_screen(old(writer)@.color, fs@, selected as int),
{
    clear_screen(writer, buffer);
    write_at(buffer, 0, 2, "XSpace OS -- File Manager", Color::Yellow, Color::Black);
    write_at(buffer, 1, 2, "=========================================", Color::DarkGray, Color::Black);

    // Index 0 is always "New File".
    let mut new_line = LineBuf::new();
    new_line.push_str("  ");
    new_line.push_byte(marker_byte(selected == 0));
    new_line.push_str(" [ + New File ]");
    new_line.pad_to(30);
    proof {
        let a = "  ".spec_bytes();
        let m = seq![marker(selected == 0)];
        let b = " [ + New File ]".spec_bytes();
        lemma_cap_append(Seq::<u8>::empty() + a, m);
        lemma_cap_append(Seq::<u8>::empty() + a + m, b);
        assert(cap(Seq::<u8>::empty() + a).push(marker(selected == 0)) =~= cap(Seq::<u8>::empty() + a) + m);
        assert(Seq::<u8>::empty() + a + m + b =~= a + m + b);
    }
    if selected == 0 {
        write_at(buffer, 3, 2, new_line.as_str(), Color::Black, Color::Green);
    } else {
        write_at(buffer, 3, 2, new_line.as_str(), Color::LightGreen, Color::Black);
    }
    write_at(buffer, 4, 2, "-----------------------------------------", Color::DarkGray, Color::Black);

    // List indices 1..=file_count are the files.
    let file_count = fs.file_count();
    if file_count == 0 {
        write_at(buffer, 5, 4, "(no files yet)", Color::DarkGray, Color::Black);
    } else {
        let files = fs.for_each_file();
        let ghost l = listing(fs@.files);
        let ghost s4 = buffer@;
        proof {
            lemma_listing_len(fs@.files);
            fs.lemma_view_wf();
            crate::honeyos::fs_laws::law_count_live_bound(fs@.files);
        }
        let mut k: usize = 0;
        while k < files.len()
            invariant
                buffer.wf(),
                files@.len() == l.len(),
                l.len() <= 8,
                l == listing(fs@.files),
                forall|j: int|
                    0 <= j < files@.len() ==> (#[trigger] files@[j]).0.spec_bytes() == l[j].0 && files@[j].1 == l[j].1,
                k <= files@.len(),
                buffer@ == file_rows(s4, l.take(k as int), selected as int),
            decreases files@.len() - k,
        {
            let (name, size) = files[k];
            let mut line = LineBuf::new();
            line.push_str("  ");
            line.push_byte(marker_byte(k + 1 == selected));
            line.push_str(" ");
            line.push_str(name);
            line.push_str("  (");
            line.push_decimal(size);
            line.push_str(" bytes)");
            line.pad_to(50);
            proof {
                let a = "  ".spec_bytes();
                let m = seq![marker(k + 1 == selected)];
                let b = " ".spec_bytes();
                let c = l[k as int].0;
                let d = "  (".spec_bytes();
                let e = decimal(size as nat);
                let f = " bytes)".spec_bytes();
                let z = Seq::<u8>::empty();
                lemma_cap_append(z + a, m);
                lemma_cap_append(z + a + m, b);
                lemma_cap_append(z + a + m + b, c);
                lemma_cap_append(z + a + m + b + c, d);
                lemma_cap_append(z + a + m + b + c + d, e);
                lemma_cap_append(z + a + m + b + c + d + e, f);
                assert(cap(z + a).push(marker(k + 1 == selected)) =~= cap(z + a) + m);
                assert(z + a + m + b + c + d + e + f =~= a + m + b + c + d + e + f);
                assert(l.take(k + 1).drop_last() =~= l.take(k as int));
            }
            if k + 1 == selected {
                write_at(buffer, 5 + k, 2, line.as_str(), Color::Black, Color::Cyan);
            } else {
                write_at(buffer, 5 + k, 2, line.as_str(), Color::White, Color::Black);
            }
            k += 1;
        }
        assert(l.take(l.len() as int) =~= l);
    }
    write_at(buffer, 23, 2, "Up/Down=move  Enter=open  Del=delete  Esc=back", Color::DarkGray, Color::Black);
}

/// A block number with at least two digits.
pub open spec fn two_digits(n: nat) -> Seq<u8> {
    if n < 10 {
        seq![0x30u8] + decimal(n)
    } else {
        decimal(n)
    }
}

/// The state, role and owner shown for block `b`.
pub open spec fn block_state(fs: FsView, b: int) -> Seq<u8> {
    if fs.blocks[b] is Some {
        "USED".spec_bytes()
    } else {
        "FREE".spec_bytes()
    }
}

pub open spec fn block_kind(fs: FsView, b: int) -> Seq<u8> {
    match fs.blocks[b] {
        Some((_, BlockKind::Index)) => "IDX".spec_bytes(),
        Some((_, BlockKind::Data)) => "DAT".spec_bytes(),
        None => "---".spec_bytes(),
    }
}

pub open spec fn block_owner(fs: FsView, b: int) -> Seq<char> {
    match fs.blocks[b] {
        Some((o, _)) => decode_utf8(fs.files[o].unwrap().name),
        None => "-"@,
    }
}

/// Allocation-table entry for block `b`: "Bnn STATE KND owner", padded to 34
/// bytes, with the owner cut and padded to 12 characters.
pub open spec fn block_line(fs: FsView, b: int) -> Seq<u8> {
    padded(
        cap(
            "B".spec_bytes() + two_digits(b as nat) + " ".spec_bytes() + block_state(fs, b) + " ".spec_bytes()
                + block_kind(fs, b) + " ".spec_bytes() + encode_utf8(fit_chars(block_owner(fs, b), 12)),
        ),
        34,
    )
}

/// Block shown in cell `n` of page `page`: cells go row by row, two per row;
/// the left column holds the first ten blocks of the page, the right column
/// the next ten.
pub open spec fn cell_block(page: int, n: int) -> int {
    page * 20 + n / 2 + (n % 2) * 10
}

/// The first `n` cells of the allocation table drawn onto `s`.
pub open spec fn block_cells(s: Seq<ScreenChar>, fs: FsView, page: int, n: int) -> Seq<ScreenChar>
    decreases n,
{
    if n <= 0 {
        s
    } else {
        let prev = block_cells(s, fs, page, n - 1);
        let b = cell_block(page, n - 1);
        if b < TOTAL_BLOCKS {
            spec_write_at(
                prev,
                4 + (n - 1) / 2,
                2 + ((n - 1) % 2) * 38,
                utf8_or_empty(block_line(fs, b)),
                attribute(Color::White, Color::Black),
            )
        } else {
            prev
        }
    }
}

/// Footer of the allocation table: navigation help and page number.
pub open spec fn allocation_footer(page: int) -> Seq<u8> {
    padded(
        cap("Left/Right = page   Esc = desktop   Page ".spec_bytes() + decimal((page + 1) as nat) + "/".spec_bytes()
            + decimal(2)),
        80,
    )
}

/// The allocation-table screen for `page`.
pub open spec fn allocation_table_screen(color: ColorCode, fs: FsView, page: int) -> Seq<ScreenChar> {
    let s1 = spec_write_at(
        blank_screen(color),
        0,
        2,
        "XSpace OS -- Allocation Table".spec_bytes(),
        attribute(Color::Yellow, Color::Black),
    );
    let s2 = spec_write_at(
        s1,
        1,
        2,
        "=========================================".spec_bytes(),
        attribute(Color::DarkGray, Color::Black),
    );
    let s3 = block_cells(s2, fs, page, 20);
    spec_write_at(s3, 23, 0, utf8_or_empty(allocation_footer(page)), attribute(Color::DarkGray, Color::Black))
}

/// Draw one allocation-table entry.
fn draw_block_cell(buffer: &mut Buffer, fs: &FileSystem, block_idx: usize, row: usize, column: usize)
    requires
        old(buffer).wf(),
        fs.wf(),
        block_idx < TOTAL_BLOCKS,
        row < 10,
        column < 2,
    ensures
        final(buffer).wf(),
        final(buffer)@ == spec_write_at(
            old(buffer)@,
            4 + row,
            2 + column * 38,
            utf8_or_empty(block_line(fs@, block_idx as int)),
            attribute(Color::White, Color::Black),
        ),
{
    proof {
        fs.lemma_view_wf();
    }
    let info = fs.block_info(block_idx);
    let state = if info.used { "USED" } else { "FREE" };
    let kind = match info.kind {
        Some(BlockKind::Index) => "IDX",
        Some(BlockKind::Data) => "DAT",
        None => "---",
    };
    let owner = match info.owner {
        Some(o) => o,
        None => "-",
    };
    let cell = format_cell12(owner);
    let cell_str = cell.as_str();
    let mut line = LineBuf::new();
    line.push_str("B");
    if block_idx < 10 {
        line.push_byte(0x30);
    }
    line.push_decimal(block_idx);
    line.push_str(" ");
    line.push_str(state);
    line.push_str(" ");
    line.push_str(kind);
    line.push_str(" ");
    line.push_str(cell_str);
    line.pad_to(34);
    proof {
        let v = fs@;
        let b = block_idx as int;
        if v.blocks[b] is Some {
            vstd::utf8::encode_utf8_decode_utf8(owner@);
            assert(owner@ == block_owner(v, b));
        }
        assert(state.spec_bytes() == block_state(v, b));
        assert(kind.spec_bytes() == block_kind(v, b));
        let z = Seq::<u8>::empty();
        let p0 = "B".spec_bytes();
        let p1 = two_digits(block_idx as nat);
        let sp = " ".spec_bytes();
        let p2 = block_state(v, b);
        let p3 = block_kind(v, b);
        let p4 = encode_utf8(fit_chars(block_owner(v, b), 12));
        assert(cell_str.spec_bytes() == p4);
        if block_idx < 10 {
            lemma_cap_append(z + p0, seq![0x30u8]);
            assert(cap(z + p0).push(0x30u8) =~= cap(z + p0) + seq![0x30u8]);
            lemma_cap_append(z + p0 + seq![0x30u8], decimal(block_idx as nat));
            assert(z + p0 + seq![0x30u8] + decimal(block_idx as nat) =~= z + p0 + p1);
        } else {
            assert(z + p0 + decimal(block_idx as nat) =~= z + p0 + p1);
        }
        lemma_cap_append(z + p0 + p1, sp);
        lemma_cap_append(z + p0 + p1 + sp, p2);
        lemma_cap_append(z + p0 + p1 + sp + p2, sp);
        lemma_cap_append(z + p0 + p1 + sp + p2 + sp, p3);
        lemma_cap_append(z + p0 + p1 + sp + p2 + sp + p3, sp);
        lemma_cap_append(z + p0 + p1 + sp + p2 + sp + p3 + sp, p4);
        assert(z + p0 + p1 + sp + p2 + sp + p3 + sp + p4 =~= p0 + p1 + sp + p2 + sp + p3 + sp + p4);
        assert(line@ == block_line(v, b));
    }
    write_at(buffer, 4 + row, 2 + column * 38, line.as_str(), Color::White, Color::Black);
}

/// Draw page `page` of the allocation table: for each block its number,
/// whether it is free or used, its role and the name of its owner.
pub fn draw_allocation_table(writer: &mut Writer, buffer: &mut Buffer, fs: &FileSystem, page: usize)
    requires
        old(buffer).wf(),
        fs.wf(),
        page * 20 + 20 <= usize::MAX,
    ensures
        final(buffer).wf(),
        final(buffer)@ == allocation_table_screen(old(writer)@.color, fs@, page as int),
{
    clear_screen(writer, buffer);
    write_at(buffer, 0, 2, "XSpace OS -- Allocation Table", Color::Yellow, Color::Black);
    write_at(buffer, 1, 2, "=========================================", Color::DarkGray, Color::Black);
    let rows_per_page: usize = 10;
    let blocks_per_page = rows_per_page * 2;
    let start_block = page * blocks_per_page;
    let ghost s2 = buffer@;
    let mut n: usize = 0;
    while n < 2 * rows_per_page
        invariant
            buffer.wf(),
            fs.wf(),
            rows_per_page == 10,
            start_block == page * 20,
            page * 20 + 20 <= usize::MAX,
            n <= 20,
            buffer@ == block_cells(s2, fs@, page as int, n as int),
        decreases 20 - n,
    {
        let row = n / 2;
        let column = n % 2;
        let block_idx = start_block + row + column * rows_per_page;
        assert(block_idx == cell_block(page as int, n as int));
        if block_idx < TOTAL_BLOCKS {
            draw_block_cell(buffer, fs, block_idx, row, column);
        }
        n += 1;
    }
    let total_pages = (TOTAL_BLOCKS + blocks_per_page - 1) / blocks_per_page;
    let mut footer = LineBuf::new();
    footer.push_str("Left/Right = page   Esc = desktop   Page ");
    footer.push_decimal(page + 1);
    footer.push_str("/");
    footer.push_decimal(total_pages);
    footer.pad_to(80);
    proof {
        let z = Seq::<u8>::empty();
        let a = "Left/Right = page   Esc = desktop   Page ".spec_bytes();
        let b = decimal((page + 1) as nat);
        let c = "/".spec_bytes();
        let d = decimal(2);
        assert(total_pages == 2);
        lemma_cap_append(z + a, b);
        lemma_cap_append(z + a + b, c);
        lemma_cap_append(z + a + b + c, d);
        assert(z + a + b + c + d =~= a + b + c + d);
    }
    write_at(buffer, 23, 0, footer.as_str(), Color::DarkGray, Color::Black);
}

/// The editor's title bar: the file name in brackets ("?" when the name is
/// not valid UTF-8), padded to the full width.
pub open spec fn editor_header(name: Seq<u8>) -> Seq<u8> {
    padded(
        cap(" [ ".spec_bytes() + (if valid_utf8(name) { name } else { "?".spec_bytes() }) + " ] ".spec_bytes()),
        80,
    )
}

/// The editor's status bar: saved state, Caps Lock, size and key hints.
pub open spec fn editor_status(saved: bool, caps_lock: bool, len: nat) -> Seq<u8> {
    padded(
        cap(
            " ".spec_bytes() + (if saved { "Saved  ".spec_bytes() } else { "Unsaved".spec_bytes() }) + " | ".spec_bytes()
                + (if caps_lock { "CAPS".spec_bytes() } else { "    ".spec_bytes() }) + " | ".spec_bytes()
                + decimal(len) + " / ".spec_bytes() + decimal(MAX_CONTENT_LEN as nat)
                + " bytes | Home End PgUp PgDn ".spec_bytes(),
        ),
        80,
    )
}

/// A text byte as drawn: printable ASCII as is, anything else as a space.
pub open spec fn drawn_byte(b: u8) -> u8 {
    if 0x20 <= b && b <= 0x7e {
        b
    } else {
        0x20
    }
}

/// The first `n` bytes of `text` painted into the text area (screen rows 2
/// to 22), showing text rows `top` to `top + 20`; newlines are not drawn.
pub open spec fn editor_text_cells(s: Seq<ScreenChar>, text: Seq<u8>, top: int, n: int) -> Seq<ScreenChar>
    decreases n,
{
    if n <= 0 {
        s
    } else {
        let prev = editor_text_cells(s, text, top, n - 1);
        let b = text[n - 1];
        let p = pos_of(text, n - 1);
        if b != 0x0a && top <= p.0 < top + EDITOR_VIEW_ROWS {
            prev.update(
                cell_index(EDITOR_FIRST_ROW + p.0 - top, p.1),
                ScreenChar { ascii_character: drawn_byte(b), color_code: attribute(Color::White, Color::Black) },
            )
        } else {
            prev
        }
    }
}

/// The byte under the cursor, shown inverted: a space at a newline or at the
/// end of the text.
pub open spec fn cursor_byte(text: Seq<u8>, cursor: int) -> u8 {
    if cursor < text.len() && text[cursor] != 0x0a {
        text[cursor]
    } else {
        0x20
    }
}

/// The editor screen.
pub open spec fn editor_screen(color: ColorCode, e: EditorView, caps_lock: bool) -> Seq<ScreenChar> {
    let s1 = spec_write_at(blank_screen(color), 0, 0, utf8_or_empty(editor_header(e.name)), attribute(Color::Black, Color::Cyan));
    let s2 = spec_write_at(
        s1,
        0,
        38,
        "Ctrl+S:Save  Ctrl+X:Close  Ctrl+R:Rename".spec_bytes(),
        attribute(Color::Black, Color::Cyan),
    );
    let s3 = spec_write_at(
        s2,
        1,
        0,
        "--------------------------------------------------------------------------------".spec_bytes(),
        attribute(Color::DarkGray, Color::Black),
    );
    let s4 = editor_text_cells(s3, e.text, e.top, e.text.len() as int);
    let c = pos_of(e.text, e.cursor);
    let s5 = if e.top <= c.0 < e.top + EDITOR_VIEW_ROWS {
        s4.update(
            cell_index(EDITOR_FIRST_ROW + c.0 - e.top, c.1),
            ScreenChar {
                ascii_character: drawn_byte(cursor_byte(e.text, e.cursor)),
                color_code: attribute(Color::Black, Color::White),
            },
        )
    } else {
        s4
    };
    spec_write_at(
        s5,
        23,
        0,
        utf8_or_empty(editor_status(e.saved, caps_lock, e.text.len())),
        if e.saved { attribute(Color::Black, Color::LightGreen) } else { attribute(Color::Black, Color::Yellow) },
    )
}

/// Render the full-screen text editor: title bar, the visible part of the
/// text with the cursor cell inverted, and the status bar.
pub fn draw_editor(writer: &mut Writer, buffer: &mut Buffer, editor: &Editor, caps_lock: bool)
    requires
        old(buffer).wf(),
        editor.wf(),
    ensures
        final(buffer).wf(),
        final(buffer)@ == editor_screen(old(writer)@.color, editor@, caps_lock),
{
    proof {
        editor.lemma_wf();
    }
    clear_screen(writer, buffer);

    // Header bar spanning the full width.
    let name = match crate::text::str_from_utf8(editor.name()) {
        Some(n) => n,
        None => "?",
    };
    let mut header = LineBuf::new();
    header.push_str(" [ ");
    header.push_str(name);
    header.push_str(" ] ");
    header.pad_to(80);
    proof {
        let z = Seq::<u8>::empty();
        let a = " [ ".spec_bytes();
        let b = name.spec_bytes();
        let c = " ] ".spec_bytes();
        assert(b == (if valid_utf8(editor@.name) { editor@.name } else { "?".spec_bytes() }));
        lemma_cap_append(z + a, b);
        lemma_cap_append(z + a + b, c);
        assert(z + a + b + c =~= a + b + c);
    }
    write_at(buffer, 0, 0, header.as_str(), Color::Black, Color::Cyan);
    // Overwrite the right side with key hints.
    write_at(buffer, 0, 38, "Ctrl+S:Save  Ctrl+X:Close  Ctrl+R:Rename", Color::Black, Color::Cyan);
    write_at(
        buffer,
        1,
        0,
        "--------------------------------------------------------------------------------",
        Color::DarkGray,
        Color::Black,
    );

    // Content area: rows 2..=22.
    let text = editor.text();
    let content_len = text.len();
    let top = editor.viewport_top_row();
    let ghost s3 = buffer@;
    let mut text_row: usize = 0;
    let mut col: usize = 0;
    let mut i: usize = 0;
    while i < content_len
        invariant
            buffer.wf(),
            text@ == editor@.text,
            content_len == text@.len(),
            content_len <= MAX_CONTENT_LEN,
            top as int == editor@.top,
            top <= MAX_CONTENT_LEN,
            i <= content_len,
            text_row as int == pos_of(text@, i as int).0,
            col as int == pos_of(text@, i as int).1,
            text_row <= i,
            col < EDITOR_WIDTH,
            buffer@ == editor_text_cells(s3, text@, top as int, i as int),
        decreases content_len - i,
    {
        proof {
            lemma_pos_bounds(text@, i + 1);
        }
        let byte = text[i];
        if byte == 0x0a {
            text_row += 1;
            col = 0;
        } else {
            if text_row >= top && text_row - top < EDITOR_VIEW_ROWS {
                let screen_row = EDITOR_FIRST_ROW + (text_row - top);
                write_byte_at(buffer, screen_row, col, byte, Color::White, Color::Black);
            }
            col += 1;
            if col == EDITOR_WIDTH {
                text_row += 1;
                col = 0;
            }
        }
        i += 1;
    }

    // Draw the insertion cursor by inverting the character at the current
    // position, or a blank cell at the end of a line or of the file.
    let cursor_idx = editor.cursor();
    let (cursor_text_row, cursor_col) = editor_position_for_index(text, content_len, cursor_idx);
    proof {
        lemma_pos_bounds(text@, cursor_idx as int);
    }
    if cursor_text_row >= top && cursor_text_row - top < EDITOR_VIEW_ROWS {
        let cursor_row = EDITOR_FIRST_ROW + (cursor_text_row - top);
        let byte = if cursor_idx < content_len {
            if text[cursor_idx] == 0x0a {
                0x20
            } else {
                text[cursor_idx]
            }
        } else {
            0x20
        };
        write_byte_at(buffer, cursor_row, cursor_col, byte, Color::Black, Color::White);
    }

    // Status bar.
    let saved = editor.is_saved();
    let status_label = if saved { "Saved  " } else { "Unsaved" };
    let caps_label = if caps_lock { "CAPS" } else { "    " };
    let mut status = LineBuf::new();
    status.push_str(" ");
    status.push_str(status_label);
    status.push_str(" | ");
    status.push_str(caps_label);
    status.push_str(" | ");
    status.push_decimal(content_len);
    status.push_str(" / ");
    status.push_decimal(MAX_CONTENT_LEN);
    status.push_str(" bytes | Home End PgUp PgDn ");
    status.pad_to(80);
    proof {
        let z = Seq::<u8>::empty();
        let p0 = " ".spec_bytes();
        let p1 = status_label.spec_bytes();
        let p2 = " | ".spec_bytes();
        let p3 = caps_label.spec_bytes();
        let p4 = decimal(content_len as nat);
        let p5 = " / ".spec_bytes();
        let p6 = decimal(MAX_CONTENT_LEN as nat);
        let p7 = " bytes | Home End PgUp PgDn ".spec_bytes();
        lemma_cap_append(z + p0, p1);
        lemma_cap_append(z + p0 + p1, p2);
        lemma_cap_append(z + p0 + p1 + p2, p3);
        lemma_cap_append(z + p0 + p1 + p2 + p3, p2);
        lemma_cap_append(z + p0 + p1 + p2 + p3 + p2, p4);
        lemma_cap_append(z + p0 + p1 + p2 + p3 + p2 + p4, p5);
        lemma_cap_append(z + p0 + p1 + p2 + p3 + p2 + p4 + p5, p6);
        lemma_cap_append(z + p0 + p1 + p2 + p3 + p2 + p4 + p5 + p6, p7);
        assert(z + p0 + p1 + p2 + p3 + p2 + p4 + p5 + p6 + p7 =~= p0 + p1 + p2 + p3 + p2 + p4 + p5 + p6 + p7);
        assert(status@ == editor_status(saved, caps_lock, content_len as nat));
    }
    if saved {
        write_at(buffer, 23, 0, status.as_str(), Color::Black, Color::LightGreen);
    } else {
        write_at(buffer, 23, 0, status.as_str(), Color::Black, Color::Yellow);
    }
}

} // verus!
