//! Text as a sequence of glyphs, and where each glyph of a text falls when the
//! text is laid out in rows.

use vstd::prelude::*;

verus! {

/// The glyph that ends a row of text. It takes no place in the row itself.
pub const LINE_BREAK: char = '\n';

/// The row on which the glyph at position `k` of `text` falls: the number of
/// line breaks before it.
pub open spec fn row_of(text: Seq<char>, k: int) -> nat
    decreases k,
{
    if k <= 0 {
        0
    } else if text[k - 1] == LINE_BREAK {
        row_of(text, k - 1) + 1
    } else {
        row_of(text, k - 1)
    }
}

/// The column on which the glyph at position `k` of `text` falls: the number of
/// glyphs between it and the line break before it, or the start of the text.
pub open spec fn column_of(text: Seq<char>, k: int) -> nat
    decreases k,
{
    if k <= 0 || text[k - 1] == LINE_BREAK {
        0
    } else {
        column_of(text, k - 1) + 1
    }
}

/// The greatest column reached within the first `k` glyphs of `text`.
pub open spec fn widest_upto(text: Seq<char>, k: int) -> nat
    decreases k,
{
    if k <= 0 {
        0
    } else if column_of(text, k) > widest_upto(text, k - 1) {
        column_of(text, k)
    } else {
        widest_upto(text, k - 1)
    }
}

/// The number of glyphs in the longest row of `text`, line breaks not counted.
pub open spec fn longest_line(text: Seq<char>) -> nat {
    widest_upto(text, text.len() as int)
}

/// The number of rows of `text`: one more than it has line breaks.
pub open spec fn line_count(text: Seq<char>) -> nat {
    row_of(text, text.len() as int) + 1
}

/// The smaller of a count and a limit.
pub open spec fn at_most(count: nat, limit: nat) -> nat {
    if count < limit {
        count
    } else {
        limit
    }
}

/// Rows only grow along the text, and no position is further right than its
/// distance from the start.
pub proof fn lemma_rows_ascend(text: Seq<char>, a: int, b: int)
    requires
        0 <= a <= b,
    ensures
        row_of(text, a) <= row_of(text, b),
        row_of(text, b) <= b,
        column_of(text, b) <= b,
    decreases b,
{
    if b > 0 {
        if a < b {
            lemma_rows_ascend(text, a, b - 1);
        } else {
            lemma_rows_ascend(text, b - 1, b - 1);
        }
    }
}

/// Two positions on the same row are as far apart in columns as they are in
/// the text.
pub proof fn lemma_columns_along_row(text: Seq<char>, a: int, b: int)
    requires
        0 <= a <= b,
        row_of(text, a) == row_of(text, b),
    ensures
        column_of(text, b) == column_of(text, a) + (b - a),
    decreases b,
{
    if a < b {
        lemma_rows_ascend(text, a, b - 1);
        lemma_columns_along_row(text, a, b - 1);
    }
}

/// No two positions of a text fall on the same row and column.
pub proof fn lemma_places_differ(text: Seq<char>, a: int, b: int)
    requires
        0 <= a,
        0 <= b,
        a != b,
    ensures
        row_of(text, a) != row_of(text, b) || column_of(text, a) != column_of(text, b),
{
    if row_of(text, a) == row_of(text, b) {
        if a < b {
            lemma_columns_along_row(text, a, b);
        } else {
            lemma_columns_along_row(text, b, a);
        }
    }
}

/// The longest line is at least as long as any column is far right, and some
/// position is that far right.
pub proof fn lemma_widest_is_greatest(text: Seq<char>, k: int)
    requires
        0 <= k,
    ensures
        forall|j: int| 0 <= j <= k ==> column_of(text, j) <= widest_upto(text, k),
        exists|j: int| 0 <= j <= k && column_of(text, j) == widest_upto(text, k),
    decreases k,
{
    if k > 0 {
        lemma_widest_is_greatest(text, k - 1);
        if column_of(text, k) > widest_upto(text, k - 1) {
            assert(column_of(text, k) == widest_upto(text, k));
        } else {
            let j = choose|j: int| 0 <= j <= k - 1 && column_of(text, j) == widest_upto(text, k - 1);
            assert(0 <= j <= k && column_of(text, j) == widest_upto(text, k));
        }
    } else {
        assert(column_of(text, 0) == widest_upto(text, 0));
    }
}

/// The glyphs of `text`, in order.
pub fn glyphs(text: &str) -> (out: Vec<char>)
    ensures
        out@ == text@,
{
    let mut out: Vec<char> = Vec::new();
    for c in it: text.chars()
        invariant
            it.seq() == text@,
            out@ == text@.take(it.index()),
    {
        out.push(c);
    }
    out
}

/// The width and the height of the box that `text` fills, the width cut down to
/// `max_width` columns and the height to `max_height` rows.
pub fn bounding_box(text: &Vec<char>, max_width: u16, max_height: u16) -> (extent: (u16, u16))
    ensures
        extent.0 == at_most(longest_line(text@), max_width as nat),
        extent.1 == at_most(line_count(text@), max_height as nat),
{
    let mut column: usize = 0;
    let mut widest: usize = 0;
    let mut row: usize = 0;
    for k in 0..text.len()
        invariant
            column == column_of(text@, k as int),
            widest == widest_upto(text@, k as int),
            row == row_of(text@, k as int),
    {
        proof {
            lemma_rows_ascend(text@, 0, k as int);
        }
        if text[k] == LINE_BREAK {
            row += 1;
            column = 0;
        } else {
            column += 1;
            if column > widest {
                widest = column;
            }
        }
    }
    let width: u16 = if widest < max_width as usize {
        widest as u16
    } else {
        max_width
    };
    let height: u16 = if row < max_height as usize {
        (row + 1) as u16
    } else {
        max_height
    };
    (width, height)
}

} // verus!
