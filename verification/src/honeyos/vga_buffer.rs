//! VGA text-mode writer.
//!
//! The screen is a grid of 80x25 cells, each an ASCII byte plus a colour
//! attribute byte, held in volatile cells so that a copy of the grid can live
//! at the hardware address of the text buffer. `Writer` prints terminal-style
//! text with a cursor that wraps and scrolls; `write_at` and `write_byte_at`
//! paint at exact positions.
use vstd::prelude::*;
use vstd::string::StringSliceAdditionalSpecFns;
use volatile::Volatile;

verus! {

/// The 16 colours supported by VGA text mode.
#[derive(Debug, Clone, Copy, PartialEq, Eq, Structural)]
pub enum Color {
    Black,
    Blue,
    Green,
    Cyan,
    Red,
    Magenta,
    Brown,
    LightGray,
    DarkGray,
    LightBlue,
    LightGreen,
    LightCyan,
    LightRed,
    Pink,
    Yellow,
    White,
}

/// The hardware number of each colour.
pub open spec fn color_value(c: Color) -> u8 {
    match c {
        Color::Black => 0,
        Color::Blue => 1,
        Color::Green => 2,
        Color::Cyan => 3,
        Color::Red => 4,
        Color::Magenta => 5,
        Color::Brown => 6,
        Color::LightGray => 7,
        Color::DarkGray => 8,
        Color::LightBlue => 9,
        Color::LightGreen => 10,
        Color::LightCyan => 11,
        Color::LightRed => 12,
        Color::Pink => 13,
        Color::Yellow => 14,
        Color::White => 15,
    }
}

impl Color {
    /// The hardware number of this colour.
    pub fn value(self) -> (v: u8)
        ensures
            v == color_value(self),
    {
        match self {
            Color::Black => 0,
            Color::Blue => 1,
            Color::Green => 2,
            Color::Cyan => 3,
            Color::Red => 4,
            Color::Magenta => 5,
            Color::Brown => 6,
            Color::LightGray => 7,
            Color::DarkGray => 8,
            Color::LightBlue => 9,
            Color::LightGreen => 10,
            Color::LightCyan => 11,
            Color::LightRed => 12,
            Color::Pink => 13,
            Color::Yellow => 14,
            Color::White => 15,
        }
    }
}

/// The attribute byte for a foreground on a background.
pub open spec fn attribute(foreground: Color, background: Color) -> ColorCode {
    ColorCode((color_value(background) * 16 + color_value(foreground)) as u8)
}

/// A packed foreground/background colour attribute byte.
#[derive(Debug, Clone, Copy, PartialEq, Eq, Structural)]
pub struct ColorCode(pub u8);

impl ColorCode {
    /// Build an attribute byte: high nibble = background, low nibble =
    /// foreground.
    pub fn new(foreground: Color, background: Color) -> (c: ColorCode)
        ensures
            c == attribute(foreground, background),
    {
        let b = background.value();
        let f = foreground.value();
        assert((b << 4u8) | f == b * 16 + f) by (bit_vector)
            requires
                b < 16,
                f < 16,
        ;
        ColorCode((b << 4u8) | f)
    }
}

/// One on-screen cell: an ASCII character plus its colour attribute.
#[derive(Debug, Clone, Copy, PartialEq, Eq, Structural)]
pub struct ScreenChar {
    pub ascii_character: u8,
    pub color_code: ColorCode,
}

/// Number of text rows on screen.
pub const BUFFER_HEIGHT: usize = 25;
/// Number of text columns on screen.
pub const BUFFER_WIDTH: usize = 80;
/// Number of cells on screen.
pub const BUFFER_CELLS: usize = 2000;

#[verifier::external_type_specification]
#[verifier::external_body]
#[verifier::reject_recursive_types(T)]
pub struct ExVolatile<T: Copy>(Volatile<T>);

/// The character held by a volatile screen cell.
pub uninterp spec fn cell_contents(cell: Volatile<ScreenChar>) -> ScreenChar;

/// Calls `Volatile::new`, which wraps the given value; a read of the new cell
/// returns that value.
#[verifier::external_body]
fn new_cell(value: ScreenChar) -> (cell: Volatile<ScreenChar>)
    ensures
        cell_contents(cell) == value,
{
    Volatile::new(value)
}

/// Calls `Volatile::read`, a volatile read returning a copy of the value the
/// cell holds.
#[verifier::external_body]
fn read_cell(cell: &Volatile<ScreenChar>) -> (value: ScreenChar)
    ensures
        value == cell_contents(*cell),
{
    cell.read()
}

/// Calls `Volatile::write`, a volatile write after which the cell holds
/// `value`.
#[verifier::external_body]
fn write_cell(cell: &mut Volatile<ScreenChar>, value: ScreenChar)
    ensures
        cell_contents(*final(cell)) == value,
{
    cell.write(value)
}

/// The screen's text buffer: 25 rows of 80 cells, row after row.
pub struct Buffer {
    chars: Vec<Volatile<ScreenChar>>,
}

impl View for Buffer {
    type V = Seq<ScreenChar>;

    closed spec fn view(&self) -> Seq<ScreenChar> {
        self.chars@.map_values(|c: Volatile<ScreenChar>| cell_contents(c))
    }
}

/// Index of the cell at (`row`, `col`).
pub open spec fn cell_index(row: int, col: int) -> int {
    row * BUFFER_WIDTH + col
}

/// A cell holding a zero byte with a zero attribute.
pub open spec fn null_char() -> ScreenChar {
    ScreenChar { ascii_character: 0, color_code: ColorCode(0) }
}

/// A blank cell in the given colour.
pub open spec fn blank(color: ColorCode) -> ScreenChar {
    ScreenChar { ascii_character: 0x20, color_code: color }
}

/// The screen moved up by one row, with a blank bottom row.
pub open spec fn scroll_up(s: Seq<ScreenChar>, color: ColorCode) -> Seq<ScreenChar> {
    Seq::new(
        BUFFER_CELLS as nat,
        |i: int| if i < BUFFER_CELLS - BUFFER_WIDTH { s[i + BUFFER_WIDTH] } else { blank(color) },
    )
}

/// `row` of the screen filled with blanks.
pub open spec fn clear_row_of(s: Seq<ScreenChar>, row: int, color: ColorCode) -> Seq<ScreenChar> {
    Seq::new(
        s.len(),
        |i: int| if cell_index(row, 0) <= i < cell_index(row + 1, 0) { blank(color) } else { s[i] },
    )
}

impl Buffer {
    /// The buffer has one cell per screen position.
    pub closed spec fn wf(&self) -> bool {
        self.chars@.len() == BUFFER_CELLS
    }

    /// A buffer is consistent exactly when its screen has one cell per
    /// position.
    pub proof fn lemma_wf(&self)
        ensures
            self.wf() <==> self@.len() == BUFFER_CELLS,
    {
    }

    /// A buffer whose every cell holds a zero byte with a zero attribute.
    pub fn new() -> (b: Buffer)
        ensures
            b.wf(),
            b@ == Seq::new(BUFFER_CELLS as nat, |i: int| null_char()),
    {
        let mut chars: Vec<Volatile<ScreenChar>> = Vec::new();
        let mut i: usize = 0;
        while i < BUFFER_CELLS
            invariant
                i <= BUFFER_CELLS,
                chars@.len() == i,
                forall|j: int| 0 <= j < i ==> cell_contents(#[trigger] chars@[j]) == null_char(),
            decreases BUFFER_CELLS - i,
        {
            chars.push(new_cell(ScreenChar { ascii_character: 0, color_code: ColorCode(0) }));
            i += 1;
        }
        let b = Buffer { chars };
        assert(b@ =~= Seq::new(BUFFER_CELLS as nat, |i: int| null_char()));
        b
    }

    /// The character at (`row`, `col`).
    pub fn char_at(&self, row: usize, col: usize) -> (c: ScreenChar)
        requires
            self.wf(),
            row < BUFFER_HEIGHT,
            col < BUFFER_WIDTH,
        ensures
            c == self@[cell_index(row as int, col as int)],
    {
        read_cell(&self.chars[row * BUFFER_WIDTH + col])
    }

    /// Store `c` at flat index `i`.
    fn put(&mut self, i: usize, c: ScreenChar)
        requires
            old(self).wf(),
            i < BUFFER_CELLS,
        ensures
            final(self).wf(),
            final(self)@ == old(self)@.update(i as int, c),
    {
        write_cell(&mut self.chars[i], c);
        assert(self@ =~= old(self)@.update(i as int, c));
    }

    /// The character at flat index `i`.
    fn get(&self, i: usize) -> (c: ScreenChar)
        requires
            self.wf(),
            i < BUFFER_CELLS,
        ensures
            c == self@[i as int],
    {
        read_cell(&self.chars[i])
    }
}

/// Position and colour of the terminal cursor.
pub struct CursorView {
    pub row: int,
    pub col: int,
    pub color: ColorCode,
}

/// The cursor is on screen; a column of 80 means the row is full.
pub open spec fn cursor_wf(c: CursorView) -> bool {
    0 <= c.row < BUFFER_HEIGHT && 0 <= c.col <= BUFFER_WIDTH
}

/// Move to the start of the next line, scrolling the screen up one row when
/// already on the last row.
pub open spec fn spec_new_line(c: CursorView, s: Seq<ScreenChar>) -> (CursorView, Seq<ScreenChar>) {
    if c.row < BUFFER_HEIGHT - 1 {
        (CursorView { row: c.row + 1, col: 0, color: c.color }, s)
    } else {
        (CursorView { row: c.row, col: 0, color: c.color }, scroll_up(s, c.color))
    }
}

/// Erase the character before the cursor, if the cursor is not at the start
/// of its row.
pub open spec fn spec_backspace(c: CursorView, s: Seq<ScreenChar>) -> (CursorView, Seq<ScreenChar>) {
    if c.col > 0 {
        (
            CursorView { row: c.row, col: c.col - 1, color: c.color },
            s.update(cell_index(c.row, c.col - 1), blank(c.color)),
        )
    } else {
        (c, s)
    }
}

/// Write one byte: a newline moves to the next line, 0x08 erases backwards,
/// anything else is stored at the cursor (after wrapping a full row) and the
/// cursor advances.
pub open spec fn spec_write_byte(c: CursorView, s: Seq<ScreenChar>, byte: u8) -> (CursorView, Seq<ScreenChar>) {
    if byte == 0x0a {
        spec_new_line(c, s)
    } else if byte == 0x08 {
        spec_backspace(c, s)
    } else {
        let (c1, s1) = if c.col >= BUFFER_WIDTH { spec_new_line(c, s) } else { (c, s) };
        (
            CursorView { row: c1.row, col: c1.col + 1, color: c1.color },
            s1.update(cell_index(c1.row, c1.col), ScreenChar { ascii_character: byte, color_code: c.color }),
        )
    }
}

/// Printable ASCII, newline and backspace pass through; every other byte is
/// shown as 0xfe (a small square).
pub open spec fn shown_byte(b: u8) -> u8 {
    if (0x20 <= b && b <= 0x7e) || b == 0x0a || b == 0x08 {
        b
    } else {
        0xfe
    }
}

/// Write a sequence of bytes, each through `shown_byte`.
pub open spec fn spec_write_bytes(c: CursorView, s: Seq<ScreenChar>, bytes: Seq<u8>) -> (CursorView, Seq<ScreenChar>)
    decreases bytes.len(),
{
    if bytes.len() == 0 {
        (c, s)
    } else {
        let (c1, s1) = spec_write_bytes(c, s, bytes.drop_last());
        spec_write_byte(c1, s1, shown_byte(bytes.last()))
    }
}

/// A text cursor over the screen buffer for terminal-style output.
pub struct Writer {
    column_position: usize,
    row_position: usize,
    color_code: ColorCode,
}

impl View for Writer {
    type V = CursorView;

    closed spec fn view(&self) -> CursorView {
        CursorView {
            row: self.row_position as int,
            col: self.column_position as int,
            color: self.color_code,
        }
    }
}

impl Writer {
    /// A cursor at the top-left corner writing yellow on black.
    pub fn new() -> (w: Writer)
        ensures
            w@ == (CursorView { row: 0, col: 0, color: ColorCode(0x0e) }),
    {
        Writer {
            column_position: 0,
            row_position: 0,
            color_code: ColorCode::new(Color::Yellow, Color::Black),
        }
    }

    /// Write a single byte, handling newlines, backspace and line wrapping.
    pub fn write_byte(&mut self, buffer: &mut Buffer, byte: u8)
        requires
            cursor_wf(old(self)@),
            old(buffer).wf(),
        ensures
            cursor_wf(final(self)@),
            final(buffer).wf(),
            (final(self)@, final(buffer)@) == spec_write_byte(old(self)@, old(buffer)@, byte),
    {
        if byte == 0x0a {
            self.new_line(buffer);
        } else if byte == 0x08 {
            self.backspace(buffer);
        } else {
            if self.column_position >= BUFFER_WIDTH {
                self.new_line(buffer);
            }
            let row = self.row_position;
            let col = self.column_position;
            let color_code = self.color_code;
            buffer.put(row * BUFFER_WIDTH + col, ScreenChar { ascii_character: byte, color_code });
            self.column_position += 1;
        }
    }

    /// Move to the next line, scrolling the screen up if already at the bottom.
    fn new_line(&mut self, buffer: &mut Buffer)
        requires
            cursor_wf(old(self)@),
            old(buffer).wf(),
        ensures
            cursor_wf(final(self)@),
            final(buffer).wf(),
            (final(self)@, final(buffer)@) == spec_new_line(old(self)@, old(buffer)@),
    {
        if self.row_position < BUFFER_HEIGHT - 1 {
            self.row_position += 1;
        } else {
            let ghost s0 = buffer@;
            let mut i: usize = 0;
            while i < BUFFER_CELLS - BUFFER_WIDTH
                invariant
                    buffer.wf(),
                    i <= BUFFER_CELLS - BUFFER_WIDTH,
                    s0.len() == BUFFER_CELLS,
                    forall|j: int| 0 <= j < i ==> #[trigger] buffer@[j] == s0[j + BUFFER_WIDTH],
                    forall|j: int| i <= j < BUFFER_CELLS ==> #[trigger] buffer@[j] == s0[j],
                decreases BUFFER_CELLS - BUFFER_WIDTH - i,
            {
                let character = buffer.get(i + BUFFER_WIDTH);
                buffer.put(i, character);
                i += 1;
            }
            self.clear_row(buffer, BUFFER_HEIGHT - 1);
            assert(buffer@ =~= scroll_up(s0, self.color_code));
        }
        self.column_position = 0;
    }

    /// Erase the character before the cursor (used to echo a Backspace key).
    fn backspace(&mut self, buffer: &mut Buffer)
        requires
            cursor_wf(old(self)@),
            old(buffer).wf(),
        ensures
            cursor_wf(final(self)@),
            final(buffer).wf(),
            (final(self)@, final(buffer)@) == spec_backspace(old(self)@, old(buffer)@),
    {
        if self.column_position > 0 {
            self.column_position -= 1;
            let blank_char = ScreenChar { ascii_character: 0x20, color_code: self.color_code };
            buffer.put(self.row_position * BUFFER_WIDTH + self.column_position, blank_char);
        }
    }

    /// Blank out a single row in the current colour.
    fn clear_row(&self, buffer: &mut Buffer, row: usize)
        requires
            old(buffer).wf(),
            row < BUFFER_HEIGHT,
        ensures
            final(buffer).wf(),
            final(buffer)@ == clear_row_of(old(buffer)@, row as int, self.color_code),
    {
        let blank_char = ScreenChar { ascii_character: 0x20, color_code: self.color_code };
        let ghost s0 = buffer@;
        let mut col: usize = 0;
        while col < BUFFER_WIDTH
            invariant
                buffer.wf(),
                row < BUFFER_HEIGHT,
                col <= BUFFER_WIDTH,
                s0.len() == BUFFER_CELLS,
                blank_char == blank(self.color_code),
                forall|j: int|
                    0 <= j < BUFFER_CELLS ==> #[trigger] buffer@[j] == if cell_index(row as int, 0) <= j < cell_index(row as int, col as int) {
                        blank_char
                    } else {
                        s0[j]
                    },
            decreases BUFFER_WIDTH - col,
        {
            buffer.put(row * BUFFER_WIDTH + col, blank_char);
            col += 1;
        }
        assert(buffer@ =~= clear_row_of(s0, row as int, self.color_code));
    }

    /// Write a string, substituting 0xfe for bytes that are neither printable
    /// ASCII nor newline nor backspace.
    pub fn write_string(&mut self, buffer: &mut Buffer, s: &str)
        requires
            cursor_wf(old(self)@),
            old(buffer).wf(),
        ensures
            cursor_wf(final(self)@),
            final(buffer).wf(),
            (final(self)@, final(buffer)@) == spec_write_bytes(old(self)@, old(buffer)@, s.spec_bytes()),
    {
        let bytes = s.as_bytes();
        let mut k: usize = 0;
        while k < bytes.len()
            invariant
                cursor_wf(self@),
                buffer.wf(),
                k <= bytes@.len(),
                bytes@ == s.spec_bytes(),
                (self@, buffer@) == spec_write_bytes(old(self)@, old(buffer)@, bytes@.take(k as int)),
            decreases bytes@.len() - k,
        {
            let byte = bytes[k];
            assert(bytes@.take(k + 1).drop_last() =~= bytes@.take(k as int));
            if (0x20 <= byte && byte <= 0x7e) || byte == 0x0a || byte == 0x08 {
                self.write_byte(buffer, byte);
            } else {
                self.write_byte(buffer, 0xfe);
            }
            k += 1;
        }
        assert(bytes@.take(bytes@.len() as int) =~= bytes@);
    }
}

/// Clear the entire screen in the writer's colour and move the cursor back to
/// the top-left.
pub fn clear_screen(writer: &mut Writer, buffer: &mut Buffer)
    requires
        old(buffer).wf(),
    ensures
        final(buffer).wf(),
        final(buffer)@ == Seq::new(BUFFER_CELLS as nat, |i: int| blank(old(writer)@.color)),
        final(writer)@ == (CursorView { row: 0, col: 0, color: old(writer)@.color }),
{
    let mut row: usize = 0;
    while row < BUFFER_HEIGHT
        invariant
            buffer.wf(),
            row <= BUFFER_HEIGHT,
            *writer == *old(writer),
            forall|j: int| 0 <= j < cell_index(row as int, 0) ==> #[trigger] buffer@[j] == blank(writer.color_code),
        decreases BUFFER_HEIGHT - row,
    {
        writer.clear_row(buffer, row);
        row += 1;
    }
    writer.row_position = 0;
    writer.column_position = 0;
    assert(buffer@ =~= Seq::new(BUFFER_CELLS as nat, |i: int| blank(old(writer)@.color)));
}

/// Change the colour used by the writer from now on.
pub fn set_text_color(writer: &mut Writer, foreground: Color, background: Color)
    ensures
        final(writer)@ == (CursorView { color: attribute(foreground, background), ..old(writer)@ }),
{
    writer.color_code = ColorCode::new(foreground, background);
}

/// Erase the character before the writer's cursor.
pub fn backspace(writer: &mut Writer, buffer: &mut Buffer)
    requires
        cursor_wf(old(writer)@),
        old(buffer).wf(),
    ensures
        cursor_wf(final(writer)@),
        final(buffer).wf(),
        (final(writer)@, final(buffer)@) == spec_backspace(old(writer)@, old(buffer)@),
{
    writer.backspace(buffer);
}

/// Printable ASCII is drawn as is; any other byte as 0xfe.
pub open spec fn painted_byte(b: u8) -> u8 {
    if 0x20 <= b && b <= 0x7e {
        b
    } else {
        0xfe
    }
}

/// Number of bytes of a `len`-byte text that fit on a row from column `col`.
pub open spec fn fitting(col: int, len: int) -> int {
    if col >= BUFFER_WIDTH {
        0
    } else if len < BUFFER_WIDTH - col {
        len
    } else {
        BUFFER_WIDTH - col
    }
}

/// The screen after drawing `text` from (`row`, `col`): the bytes that fit on
/// the row are painted in `color`; nothing is drawn below the last row.
pub open spec fn spec_write_at(s: Seq<ScreenChar>, row: int, col: int, text: Seq<u8>, color: ColorCode) -> Seq<ScreenChar> {
    if row >= BUFFER_HEIGHT {
        s
    } else {
        Seq::new(
            s.len(),
            |i: int|
                if cell_index(row, col) <= i < cell_index(row, col) + fitting(col, text.len() as int) {
                    ScreenChar {
                        ascii_character: painted_byte(text[i - cell_index(row, col)]),
                        color_code: color,
                    }
                } else {
                    s[i]
                },
        )
    }
}

/// Draw `text` starting at an exact (row, column) with the given colours,
/// clipped to the screen edges; the cursor of any writer is left alone.
pub fn write_at(buffer: &mut Buffer, row: usize, col: usize, text: &str, foreground: Color, background: Color)
    requires
        old(buffer).wf(),
    ensures
        final(buffer).wf(),
        final(buffer)@ == spec_write_at(
            old(buffer)@,
            row as int,
            col as int,
            text.spec_bytes(),
            attribute(foreground, background),
        ),
{
    if row >= BUFFER_HEIGHT {
        return;
    }
    let color_code = ColorCode::new(foreground, background);
    let bytes = text.as_bytes();
    let ghost s0 = buffer@;
    let ghost n = fitting(col as int, bytes@.len() as int);
    let mut column = col;
    let mut k: usize = 0;
    while k < bytes.len()
        invariant_except_break
            column < BUFFER_WIDTH ==> k < n || k == bytes@.len(),
        invariant
            buffer.wf(),
            row < BUFFER_HEIGHT,
            bytes@ == text.spec_bytes(),
            n == fitting(col as int, bytes@.len() as int),
            k <= bytes@.len(),
            column == col + k,
            k <= n || k == 0,
            color_code == attribute(foreground, background),
            forall|i: int|
                0 <= i < BUFFER_CELLS ==> #[trigger] buffer@[i] == if cell_index(row as int, col as int) <= i
                    < cell_index(row as int, col as int) + k {
                    ScreenChar {
                        ascii_character: painted_byte(bytes@[i - cell_index(row as int, col as int)]),
                        color_code: color_code,
                    }
                } else {
                    s0[i]
                },
        ensures
            k == n,
        decreases bytes@.len() - k,
    {
        if column >= BUFFER_WIDTH {
            break;
        }
        let byte = bytes[k];
        let ascii = if 0x20 <= byte && byte <= 0x7e { byte } else { 0xfe };
        buffer.put(row * BUFFER_WIDTH + column, ScreenChar { ascii_character: ascii, color_code });
        column += 1;
        k += 1;
    }
    assert(buffer@ =~= spec_write_at(s0, row as int, col as int, text.spec_bytes(), attribute(foreground, background)));
}

/// Draw one byte at an exact (row, column); non-printable bytes are drawn as
/// spaces. Positions off screen are ignored.
pub fn write_byte_at(buffer: &mut Buffer, row: usize, col: usize, byte: u8, foreground: Color, background: Color)
    requires
        old(buffer).wf(),
    ensures
        final(buffer).wf(),
        row >= BUFFER_HEIGHT || col >= BUFFER_WIDTH ==> final(buffer)@ == old(buffer)@,
        row < BUFFER_HEIGHT && col < BUFFER_WIDTH ==> final(buffer)@ == old(buffer)@.update(
            cell_index(row as int, col as int),
            ScreenChar {
                ascii_character: if 0x20 <= byte && byte <= 0x7e { byte } else { 0x20 },
                color_code: attribute(foreground, background),
            },
        ),
{
    if row >= BUFFER_HEIGHT || col >= BUFFER_WIDTH {
        return;
    }
    let ascii = if 0x20 <= byte && byte <= 0x7e { byte } else { 0x20 };
    buffer.put(row * BUFFER_WIDTH + col, ScreenChar { ascii_character: ascii, color_code: ColorCode::new(foreground, background) });
}


/// Drawing at a position is clipped to the screen: it never changes a cell
/// outside the row it draws on, and the screen keeps its size.
pub proof fn law_write_at_stays_on_row(s: Seq<ScreenChar>, row: int, col: int, text: Seq<u8>, color: ColorCode)
    requires
        s.len() == BUFFER_CELLS,
        0 <= row,
        0 <= col,
    ensures
        spec_write_at(s, row, col, text, color).len() == BUFFER_CELLS,
        forall|i: int|
            0 <= i < BUFFER_CELLS && !(cell_index(row, 0) <= i < cell_index(row + 1, 0))
                ==> #[trigger] spec_write_at(s, row, col, text, color)[i] == s[i],
{
}

} // verus!
