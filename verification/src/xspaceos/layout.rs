//! Text layout of the editor: where each byte of the edit buffer appears.
//!
//! Rows are logical editor rows: a newline moves to the next row, and a row
//! that reaches 80 columns wraps onto the next one.
use vstd::prelude::*;
use crate::honeyos::fs_spec::{first_index, lemma_first_index};

verus! {

/// Number of text columns in VGA text mode.
pub const EDITOR_WIDTH: usize = 80;
/// First screen row used by the editor's text area.
pub const EDITOR_FIRST_ROW: usize = 2;
/// Last screen row used by the editor's text area.
pub const EDITOR_LAST_ROW: usize = 22;
/// Number of visible rows available for editor text.
pub const EDITOR_VIEW_ROWS: usize = 21;

/// The position after laying out one more byte from position `p`.
pub open spec fn step_pos(p: (int, int), b: u8) -> (int, int) {
    if b == 0x0a {
        (p.0 + 1, 0)
    } else if p.1 + 1 == EDITOR_WIDTH {
        (p.0 + 1, 0)
    } else {
        (p.0, p.1 + 1)
    }
}

/// The (row, column) at which byte `n` of `c` is laid out, that is the
/// position reached after the first `n` bytes.
pub open spec fn pos_of(c: Seq<u8>, n: int) -> (int, int)
    decreases n,
{
    if n <= 0 {
        (0, 0)
    } else {
        step_pos(pos_of(c, n - 1), c[n - 1])
    }
}

pub open spec fn min(a: int, b: int) -> int {
    if a < b {
        a
    } else {
        b
    }
}

pub proof fn lemma_pos_bounds(c: Seq<u8>, n: int)
    requires
        0 <= n,
    ensures
        0 <= pos_of(c, n).0 <= n,
        0 <= pos_of(c, n).1 < EDITOR_WIDTH,
        pos_of(c, n).1 <= n,
    decreases n,
{
    if n > 0 {
        lemma_pos_bounds(c, n - 1);
    }
}

/// Rows never go back.
pub proof fn lemma_rows_monotone(c: Seq<u8>, a: int, b: int)
    requires
        0 <= a <= b,
    ensures
        pos_of(c, a).0 <= pos_of(c, b).0,
    decreases b - a,
{
    if a < b {
        lemma_rows_monotone(c, a, b - 1);
    }
}

/// Position of the `index`-th byte of the edit buffer `content[..content_len]`,
/// clamped to the end of the text.
pub open spec fn spec_position_for_index(content: Seq<u8>, content_len: int, index: int) -> (int, int) {
    pos_of(content, min(min(index, content_len), content.len() as int))
}

/// Convert a byte index in the editor buffer into a logical (row, col)
/// position in the text area.
pub fn editor_position_for_index(content: &[u8], content_len: usize, index: usize) -> (r: (usize, usize))
    ensures
        r.0 as int == spec_position_for_index(content@, content_len as int, index as int).0,
        r.1 as int == spec_position_for_index(content@, content_len as int, index as int).1,
{
    let mut row: usize = 0;
    let mut col: usize = 0;
    let stop_len = if index < content_len { index } else { content_len };
    let stop = if stop_len < content.len() { stop_len } else { content.len() };
    let mut i: usize = 0;
    while i < stop
        invariant
            stop <= content@.len(),
            i <= stop,
            row as int == pos_of(content@, i as int).0,
            col as int == pos_of(content@, i as int).1,
            row <= i,
            col < EDITOR_WIDTH,
        decreases stop - i,
    {
        proof {
            lemma_pos_bounds(content@, i + 1);
        }
        if content[i] == 0x0a {
            row += 1;
            col = 0;
        } else {
            col += 1;
            if col == EDITOR_WIDTH {
                row += 1;
                col = 0;
            }
        }
        i += 1;
    }
    (row, col)
}

/// Return the cursor's current visual column.
pub fn cursor_visual_col(content: &[u8], content_len: usize, cursor_idx: usize) -> (c: usize)
    ensures
        c as int == spec_position_for_index(content@, content_len as int, cursor_idx as int).1,
{
    editor_position_for_index(content, content_len, cursor_idx).1
}

/// Index `i` is on the target row at or past the target column, or past the
/// target row.
pub open spec fn index_hit(content: Seq<u8>, target_row: int, target_col: int, i: int) -> bool {
    (pos_of(content, i).0 == target_row && pos_of(content, i).1 >= target_col) || pos_of(content, i).0 > target_row
}

/// `index_hit` as a predicate on indices.
pub open spec fn hit_fn(content: Seq<u8>, target_row: int, target_col: int) -> spec_fn(int) -> bool {
    |i: int| index_hit(content, target_row, target_col, i)
}

/// The insertion index closest to (`target_row`, `target_col`): the first
/// index on the target row at or beyond the target column; failing that, the
/// last index on the target row; failing that, the first index past the
/// target row, or the end of the text.
pub open spec fn spec_index_for_position(content: Seq<u8>, content_len: int, target_row: int, target_col: int) -> int {
    match first_index(hit_fn(content, target_row, target_col), 0, content_len + 1) {
        None => content_len,
        Some(k) => if pos_of(content, k).0 == target_row {
            k
        } else if k > 0 && pos_of(content, k - 1).0 == target_row {
            k - 1
        } else {
            k
        },
    }
}

/// Find the closest insertion index for a target (row, col) in the editor;
/// used by the Up/Down keys to keep the cursor's visual column.
pub fn editor_index_for_position(content: &[u8], content_len: usize, target_row: usize, target_col: usize) -> (r: usize)
    requires
        content_len <= content@.len(),
    ensures
        r as int == spec_index_for_position(content@, content_len as int, target_row as int, target_col as int),
        r <= content_len,
{
    let mut row: usize = 0;
    let mut col: usize = 0;
    let mut last_on_row: Option<usize> = None;
    let mut idx: usize = 0;
    loop
        invariant
            content_len <= content@.len(),
            idx <= content_len,
            row as int == pos_of(content@, idx as int).0,
            col as int == pos_of(content@, idx as int).1,
            row <= idx,
            col < EDITOR_WIDTH,
            forall|j: int| 0 <= j < idx ==> !#[trigger] index_hit(content@, target_row as int, target_col as int, j),
            last_on_row == (if idx > 0 && pos_of(content@, idx - 1).0 == target_row {
                Some((idx - 1) as usize)
            } else {
                None::<usize>
            }),
        decreases content_len - idx,
    {
        proof {
            lemma_first_index(hit_fn(content@, target_row as int, target_col as int), 0, content_len + 1);
            if idx > 0 {
                lemma_rows_monotone(content@, idx - 1, idx as int);
            }
        }
        if row == target_row {
            if col >= target_col {
                assert(hit_fn(content@, target_row as int, target_col as int)(idx as int));
                return idx;
            }
            last_on_row = Some(idx);
        } else if row > target_row {
            assert(hit_fn(content@, target_row as int, target_col as int)(idx as int));
            return match last_on_row {
                Some(l) => l,
                None => idx,
            };
        } else {
            last_on_row = None;
        }
        if idx == content_len {
            assert(forall|j: int| 0 <= j < content_len + 1 ==> !#[trigger] hit_fn(content@, target_row as int, target_col as int)(j));
            return match last_on_row {
                Some(l) => l,
                None => content_len,
            };
        }
        proof {
            lemma_pos_bounds(content@, idx + 1);
        }
        if content[idx] == 0x0a {
            row += 1;
            col = 0;
        } else {
            col += 1;
            if col == EDITOR_WIDTH {
                row += 1;
                col = 0;
            }
        }
        idx += 1;
    }
}

/// Byte `i` ends a row on `target_row`: it is a newline, or it fills the last
/// column of the row.
pub open spec fn line_end_fn(content: Seq<u8>, target_row: int) -> spec_fn(int) -> bool {
    |i: int| pos_of(content, i).0 == target_row && (content[i] == 0x0a || pos_of(content, i).1 + 1 == EDITOR_WIDTH)
}

/// The insertion index at the end of row `target_row`: before the newline
/// ending it, or after the byte filling its last column; the end of the text
/// when the row does not end before it.
pub open spec fn spec_line_end_index(content: Seq<u8>, content_len: int, target_row: int) -> int {
    match first_index(line_end_fn(content, target_row), 0, content_len) {
        None => content_len,
        Some(k) => if content[k] == 0x0a {
            k
        } else {
            k + 1
        },
    }
}

/// Find the insertion index at the end of a logical line.
pub fn line_end_index(content: &[u8], content_len: usize, target_row: usize) -> (r: usize)
    requires
        content_len <= content@.len(),
    ensures
        r as int == spec_line_end_index(content@, content_len as int, target_row as int),
        r <= content_len,
{
    let mut row: usize = 0;
    let mut col: usize = 0;
    let mut idx: usize = 0;
    loop
        invariant
            content_len <= content@.len(),
            idx <= content_len,
            row as int == pos_of(content@, idx as int).0,
            col as int == pos_of(content@, idx as int).1,
            row <= idx,
            col < EDITOR_WIDTH,
            forall|j: int| 0 <= j < idx ==> !#[trigger] line_end_fn(content@, target_row as int)(j),
        decreases content_len - idx,
    {
        proof {
            lemma_first_index(line_end_fn(content@, target_row as int), 0, content_len as int);
        }
        if idx == content_len {
            return idx;
        }
        if row == target_row {
            if content[idx] == 0x0a {
                assert(line_end_fn(content@, target_row as int)(idx as int));
                return idx;
            }
            if col + 1 == EDITOR_WIDTH {
                assert(line_end_fn(content@, target_row as int)(idx as int));
                return idx + 1;
            }
        }
        assert(!line_end_fn(content@, target_row as int)(idx as int));
        proof {
            lemma_pos_bounds(content@, idx + 1);
        }
        if content[idx] == 0x0a {
            row += 1;
            col = 0;
        } else {
            col += 1;
            if col == EDITOR_WIDTH {
                row += 1;
                col = 0;
            }
        }
        idx += 1;
    }
}

/// The first visible row after scrolling just enough to show the cursor's
/// row in a window of `EDITOR_VIEW_ROWS` rows starting at `current_top`.
pub open spec fn spec_clamp_viewport(cursor_row: int, current_top: int) -> int {
    if cursor_row < current_top {
        cursor_row
    } else if cursor_row >= current_top + EDITOR_VIEW_ROWS {
        cursor_row + 1 - EDITOR_VIEW_ROWS
    } else {
        current_top
    }
}

/// Keep the viewport anchored so the cursor stays within the visible window.
pub fn clamp_viewport_top_row(content: &[u8], content_len: usize, cursor_idx: usize, current_top: usize) -> (r: usize)
    ensures
        r as int == spec_clamp_viewport(
            spec_position_for_index(content@, content_len as int, cursor_idx as int).0,
            current_top as int,
        ),
{
    let (cursor_row, _) = editor_position_for_index(content, content_len, cursor_idx);
    if cursor_row < current_top {
        return cursor_row;
    }
    if cursor_row - current_top >= EDITOR_VIEW_ROWS {
        return cursor_row - (EDITOR_VIEW_ROWS - 1);
    }
    current_top
}

/// The layout of the first `n` bytes depends only on those bytes.
pub proof fn lemma_pos_prefix(c1: Seq<u8>, c2: Seq<u8>, n: int)
    requires
        forall|i: int| 0 <= i < n ==> c1[i] == c2[i],
    ensures
        pos_of(c1, n) == pos_of(c2, n),
    decreases n,
{
    if n > 0 {
        lemma_pos_prefix(c1, c2, n - 1);
    }
}

pub proof fn lemma_first_index_ext(p: spec_fn(int) -> bool, q: spec_fn(int) -> bool, i: int, n: int)
    requires
        forall|j: int| i <= j < n ==> #[trigger] p(j) == q(j),
    ensures
        first_index(p, i, n) == first_index(q, i, n),
    decreases n - i,
{
    if i < n {
        assert(p(i) == q(i));
        lemma_first_index_ext(p, q, i + 1, n);
    }
}

/// Cursor movement over the edit buffer depends only on the text in use.
pub proof fn lemma_layout_prefix(c1: Seq<u8>, c2: Seq<u8>, len: int)
    requires
        0 <= len,
        forall|i: int| 0 <= i < len ==> c1[i] == c2[i],
    ensures
        forall|j: int| 0 <= j <= len ==> #[trigger] pos_of(c1, j) == pos_of(c2, j),
        forall|r: int, col: int| #[trigger] spec_index_for_position(c1, len, r, col) == spec_index_for_position(c2, len, r, col),
        forall|r: int| #[trigger] spec_line_end_index(c1, len, r) == spec_line_end_index(c2, len, r),
{
    assert forall|j: int| 0 <= j <= len implies #[trigger] pos_of(c1, j) == pos_of(c2, j) by {
        lemma_pos_prefix(c1, c2, j);
    }
    assert forall|r: int, col: int| #[trigger] spec_index_for_position(c1, len, r, col) == spec_index_for_position(c2, len, r, col) by {
        assert forall|j: int| 0 <= j < len + 1 implies #[trigger] hit_fn(c1, r, col)(j) == hit_fn(c2, r, col)(j) by {
            lemma_pos_prefix(c1, c2, j);
        }
        lemma_first_index_ext(hit_fn(c1, r, col), hit_fn(c2, r, col), 0, len + 1);
        lemma_first_index(hit_fn(c1, r, col), 0, len + 1);
        if let Some(k) = first_index(hit_fn(c1, r, col), 0, len + 1) {
            lemma_pos_prefix(c1, c2, k);
            if k > 0 {
                lemma_pos_prefix(c1, c2, k - 1);
            }
        }
    }
    assert forall|r: int| #[trigger] spec_line_end_index(c1, len, r) == spec_line_end_index(c2, len, r) by {
        assert forall|j: int| 0 <= j < len implies #[trigger] line_end_fn(c1, r)(j) == line_end_fn(c2, r)(j) by {
            lemma_pos_prefix(c1, c2, j);
        }
        lemma_first_index_ext(line_end_fn(c1, r), line_end_fn(c2, r), 0, len);
        lemma_first_index(line_end_fn(c1, r), 0, len);
    }
}

/// The insertion index for a position never passes the end of the text.
pub proof fn lemma_index_for_position_bound(c: Seq<u8>, len: int, r: int, col: int)
    requires
        0 <= len,
    ensures
        0 <= spec_index_for_position(c, len, r, col) <= len,
        0 <= spec_line_end_index(c, len, r) <= len,
{
    lemma_first_index(hit_fn(c, r, col), 0, len + 1);
    lemma_first_index(line_end_fn(c, r), 0, len);
}


/// Positions grow strictly along the text: an earlier index lies on an
/// earlier row, or further left on the same row.
pub proof fn lemma_pos_increasing(c: Seq<u8>, j: int, i: int)
    requires
        0 <= j < i,
    ensures
        pos_of(c, j).0 < pos_of(c, i).0 || (pos_of(c, j).0 == pos_of(c, i).0 && pos_of(c, j).1 < pos_of(c, i).1),
    decreases i - j,
{
    lemma_pos_bounds(c, j);
    if j + 1 < i {
        lemma_pos_increasing(c, j + 1, i);
    }
}

/// One byte moves the layout down by at most one row.
pub proof fn lemma_row_step(c: Seq<u8>, j: int)
    requires
        0 <= j,
    ensures
        pos_of(c, j + 1).0 <= pos_of(c, j).0 + 1,
{
}

/// Looking up the position of an index gives that index back: each
/// insertion index of the text has a position of its own.
pub proof fn law_position_index_roundtrip(c: Seq<u8>, len: int, i: int)
    requires
        0 <= i <= len,
    ensures
        spec_index_for_position(c, len, pos_of(c, i).0, pos_of(c, i).1) == i,
{
    let r = pos_of(c, i).0;
    let col = pos_of(c, i).1;
    let p = hit_fn(c, r, col);
    lemma_first_index(p, 0, len + 1);
    assert(p(i));
    assert forall|j: int| 0 <= j < i implies !#[trigger] p(j) by {
        lemma_pos_increasing(c, j, i);
    }
}

/// Looking up a row that the text reaches lands on that row.
pub proof fn lemma_index_for_position_row(c: Seq<u8>, len: int, r: int, col: int)
    requires
        0 <= len,
        0 <= r <= pos_of(c, len).0,
    ensures
        pos_of(c, spec_index_for_position(c, len, r, col)).0 == r,
{
    let p = hit_fn(c, r, col);
    lemma_first_index(p, 0, len + 1);
    match first_index(p, 0, len + 1) {
        None => {
            assert(!p(len));
        },
        Some(k) => {
            if pos_of(c, k).0 != r {
                if k == 0 {
                    assert(pos_of(c, 0).0 == 0);
                } else {
                    assert(!p(k - 1));
                    lemma_row_step(c, k - 1);
                }
            }
        },
    }
}

} // verus!
