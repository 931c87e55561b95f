//! The editing area: keeping the cursor's line in view and the line
//! number column.
use vstd::prelude::*;
use crate::text::{decimal, decimal_string, push_char, spaces, to_chars};

verus! {

/// The first line shown after making the cursor's line visible: scrolled
/// up to the cursor, or down just enough to show it on the last row.
pub fn scroll_to_cursor(scroll_row: usize, cursor_row: usize, height: usize) -> (r: usize)
    requires
        scroll_row + height <= usize::MAX,
    ensures
        r == if cursor_row < scroll_row {
            cursor_row as int
        } else if height > 0 && cursor_row >= scroll_row + height {
            cursor_row + 1 - height
        } else {
            scroll_row as int
        },
{
    if cursor_row < scroll_row {
        cursor_row
    } else if height > 0 && cursor_row >= scroll_row + height {
        cursor_row - height + 1
    } else {
        scroll_row
    }
}

/// After scrolling, the cursor's line is among the `height` lines shown.
pub proof fn law_scroll_shows_cursor(scroll_row: int, cursor_row: int, height: int)
    requires
        0 <= scroll_row,
        0 <= cursor_row,
        height > 0,
    ensures
        ({
            let r = if cursor_row < scroll_row {
                cursor_row
            } else if cursor_row >= scroll_row + height {
                cursor_row + 1 - height
            } else {
                scroll_row
            };
            r <= cursor_row < r + height
        }),
{
}

/// The width of the line number column: the digits of the line count
/// (at least one line) and a space, or nothing when numbers are hidden.
pub fn line_number_width(show: bool, total_lines: usize) -> (w: usize)
    ensures
        w == if show {
            decimal(if total_lines == 0 { 1nat } else { total_lines as nat }).len() + 1
        } else {
            0
        },
{
    if !show {
        return 0;
    }
    let n = if total_lines == 0 { 1 } else { total_lines };
    let d = decimal_string(n);
    let dv = to_chars(d.as_str());
    proof {
        lemma_decimal_len(n as nat);
    }
    dv.len() + 1
}

proof fn lemma_decimal_len(n: nat)
    requires
        n >= 1,
    ensures
        decimal(n).len() <= n / 2 + 1,
    decreases n,
{
    if n >= 10 {
        lemma_decimal_len(n / 10);
    }
}

/// The line number label of line `i` (counted from 0): its number, right
/// aligned in `w` columns, and a space.
pub open spec fn number_label(i: int, w: int) -> Seq<char> {
    let d = decimal((i + 1) as nat);
    let pad: int = if w > d.len() { w - d.len() } else { 0 };
    Seq::new(pad as nat, |k: int| ' ') + d + seq![' ']
}

/// The line number label of line `i`.
pub fn line_number_label(i: usize, w: usize) -> (r: String)
    requires
        i < usize::MAX,
    ensures
        r@ == number_label(i as int, w as int),
{
    let d = decimal_string(i + 1);
    let n = to_chars(d.as_str()).len();
    let pad = if w > n { w - n } else { 0 };
    let mut r = spaces(pad);
    r.append(d.as_str());
    push_char(&mut r, ' ');
    assert(r@ =~= number_label(i as int, w as int));
    r
}

} // verus!
