//! Moving the bar cursor: the bar after or before a position, and the column a
//! bar puts the cursor on.
use vstd::prelude::*;
use crate::studio::selection::BarSpan;
use crate::text::{chars_of, first_where, is_whitespace, is_ws, last_where, lemma_first_where, lemma_last_where};

verus! {

/// Bar `i` starts at position `(row, col)`.
pub open spec fn bar_starts_at(bars: Seq<BarSpan>, row: usize, col: usize) -> spec_fn(int) -> bool {
    |i: int| bars[i].row == row && col == bars[i].start_col
}

/// Position `(row, col)` is the last column of bar `i` (its closing pipe).
pub open spec fn bar_ends_at(bars: Seq<BarSpan>, row: usize, col: usize) -> spec_fn(int) -> bool {
    |i: int| bars[i].row == row && col == (if bars[i].end_col > 0 { bars[i].end_col - 1 } else { 0 })
}

/// Bar `i` holds position `(row, col)`.
pub open spec fn bar_holds(bars: Seq<BarSpan>, row: usize, col: usize) -> spec_fn(int) -> bool {
    |i: int| bars[i].row == row && bars[i].start_col <= col < bars[i].end_col
}

/// Bar `i` lies after position `(row, col)`.
pub open spec fn bar_after(bars: Seq<BarSpan>, row: usize, col: usize) -> spec_fn(int) -> bool {
    |i: int| bars[i].row > row || (bars[i].row == row && bars[i].start_col > col)
}

/// Bar `i` lies before position `(row, col)`.
pub open spec fn bar_before(bars: Seq<BarSpan>, row: usize, col: usize) -> spec_fn(int) -> bool {
    |i: int| bars[i].row < row || (bars[i].row == row && bars[i].start_col < col)
}

/// The bar after `(row, col)`: the first bar that starts there (on a pipe that two
/// bars share, the right one); else the one after the bar that holds it; else the
/// first bar that lies after it.
pub open spec fn next_bar_index(bars: Seq<BarSpan>, row: usize, col: usize) -> Option<int> {
    let n = bars.len() as int;
    match first_where(n, bar_starts_at(bars, row, col)) {
        Some(i) => Some(i),
        None => match first_where(n, bar_holds(bars, row, col)) {
            Some(i) => if i + 1 < n {
                Some(i + 1)
            } else {
                None
            },
            None => first_where(n, bar_after(bars, row, col)),
        },
    }
}

/// The bar before `(row, col)`: the last bar that ends there (on a pipe that two
/// bars share, the left one); else the one before the bar that holds it; else the
/// last bar that lies before it.
pub open spec fn previous_bar_index(bars: Seq<BarSpan>, row: usize, col: usize) -> Option<int> {
    let n = bars.len() as int;
    match last_where(n, bar_ends_at(bars, row, col)) {
        Some(i) => Some(i),
        None => match first_where(n, bar_holds(bars, row, col)) {
            Some(i) => if i > 0 {
                Some(i - 1)
            } else {
                None
            },
            None => last_where(n, bar_before(bars, row, col)),
        },
    }
}

fn first_bar(bars: &[BarSpan], row: usize, col: usize, which: u8) -> (r: Option<usize>)
    requires
        which < 3,
    ensures
        ({
            let p = if which == 0 {
                bar_starts_at(bars@, row, col)
            } else if which == 1 {
                bar_holds(bars@, row, col)
            } else {
                bar_after(bars@, row, col)
            };
            &&& r matches Some(i) ==> first_where(bars@.len() as int, p) == Some(i as int) && i < bars@.len()
            &&& r is None ==> first_where(bars@.len() as int, p) is None
        }),
{
    let ghost p = if which == 0 {
        bar_starts_at(bars@, row, col)
    } else if which == 1 {
        bar_holds(bars@, row, col)
    } else {
        bar_after(bars@, row, col)
    };
    let mut i: usize = 0;
    while i < bars.len()
        invariant
            i <= bars@.len(),
            which < 3,
            p == (if which == 0 {
                bar_starts_at(bars@, row, col)
            } else if which == 1 {
                bar_holds(bars@, row, col)
            } else {
                bar_after(bars@, row, col)
            }),
            forall|j: int| 0 <= j < i ==> !#[trigger] p(j),
        decreases bars@.len() - i,
    {
        let b = &bars[i];
        let hit = if which == 0 {
            b.row == row && col == b.start_col
        } else if which == 1 {
            b.row == row && b.start_col <= col && col < b.end_col
        } else {
            b.row > row || (b.row == row && b.start_col > col)
        };
        if hit {
            proof {
                lemma_first_where(bars@.len() as int, p, i as int);
            }
            return Some(i);
        }
        i += 1;
    }
    proof {
        lemma_first_where(bars@.len() as int, p, bars@.len() as int);
    }
    None
}

fn last_bar(bars: &[BarSpan], row: usize, col: usize, ends: bool) -> (r: Option<usize>)
    ensures
        ({
            let p = if ends {
                bar_ends_at(bars@, row, col)
            } else {
                bar_before(bars@, row, col)
            };
            &&& r matches Some(i) ==> last_where(bars@.len() as int, p) == Some(i as int) && i < bars@.len()
            &&& r is None ==> last_where(bars@.len() as int, p) is None
        }),
{
    let ghost p = if ends {
        bar_ends_at(bars@, row, col)
    } else {
        bar_before(bars@, row, col)
    };
    let mut k: usize = bars.len();
    while k > 0
        invariant
            k <= bars@.len(),
            p == (if ends {
                bar_ends_at(bars@, row, col)
            } else {
                bar_before(bars@, row, col)
            }),
            forall|j: int| k <= j < bars@.len() ==> !#[trigger] p(j),
        decreases k,
    {
        let i = k - 1;
        let b = &bars[i];
        let hit = if ends {
            let last = if b.end_col > 0 {
                b.end_col - 1
            } else {
                0
            };
            b.row == row && col == last
        } else {
            b.row < row || (b.row == row && b.start_col < col)
        };
        if hit {
            proof {
                lemma_last_where(bars@.len() as int, p, i as int);
            }
            return Some(i);
        }
        k -= 1;
    }
    proof {
        lemma_last_where(bars@.len() as int, p, -1);
    }
    None
}

/// The bar after position `(row, col)`.
pub fn next_bar_after_position(bars: &[BarSpan], row: usize, col: usize) -> (r: Option<BarSpan>)
    ensures
        match next_bar_index(bars@, row, col) {
            Some(i) => r == Some(bars@[i]),
            None => r is None,
        },
{
    if let Some(i) = first_bar(bars, row, col, 0) {
        return Some(bars[i].duplicate());
    }
    if let Some(i) = first_bar(bars, row, col, 1) {
        if i < bars.len() - 1 {
            return Some(bars[i + 1].duplicate());
        }
        return None;
    }
    match first_bar(bars, row, col, 2) {
        Some(i) => Some(bars[i].duplicate()),
        None => None,
    }
}

/// The bar before position `(row, col)`.
pub fn previous_bar_before_position(bars: &[BarSpan], row: usize, col: usize) -> (r: Option<BarSpan>)
    ensures
        match previous_bar_index(bars@, row, col) {
            Some(i) => r == Some(bars@[i]),
            None => r is None,
        },
{
    if let Some(i) = last_bar(bars, row, col, true) {
        return Some(bars[i].duplicate());
    }
    if let Some(i) = first_bar(bars, row, col, 1) {
        if i > 0 {
            return Some(bars[i - 1].duplicate());
        }
        return None;
    }
    match last_bar(bars, row, col, false) {
        Some(i) => Some(bars[i].duplicate()),
        None => None,
    }
}

/// Column `lo + k` of `line` exists and is not blank.
pub open spec fn visible_at(line: Seq<char>, lo: int) -> spec_fn(int) -> bool {
    |k: int| lo + k < line.len() && !is_ws(line[lo + k])
}

/// The column a bar puts the cursor on: the first non-blank column strictly
/// inside it (between its pipes), else the column after its opening pipe.
pub open spec fn bar_cursor_col(line: Seq<char>, start: int, end: int) -> int {
    let lo = start + 1;
    let hi = if end > 0 { end - 1 } else { 0 };
    let n = if hi > lo { hi - lo } else { 0 };
    match first_where(n, visible_at(line, lo)) {
        Some(k) => lo + k,
        None => lo,
    }
}

/// The column that bar `bar` of `line` puts the cursor on.
pub fn bar_cursor_col_in_line(line: &str, bar: &BarSpan) -> (r: usize)
    requires
        bar.start_col < usize::MAX,
    ensures
        r == bar_cursor_col(line@, bar.start_col as int, bar.end_col as int),
{
    let chars = chars_of(line);
    let lo = bar.start_col + 1;
    let hi = if bar.end_col > 0 && bar.end_col - 1 > lo {
        bar.end_col - 1
    } else {
        lo
    };
    let ghost n: int = hi - lo;
    assert(n == (if (if bar.end_col > 0 { bar.end_col - 1 } else { 0 }) > lo { (if bar.end_col > 0 { bar.end_col - 1 } else { 0 }) - lo } else { 0 }));
    let ghost p = visible_at(line@, lo as int);
    let mut col = lo;
    while col < hi
        invariant
            lo <= col <= hi,
            lo == bar.start_col + 1,
            n == (if (if bar.end_col > 0 { bar.end_col - 1 } else { 0 }) > lo { (if bar.end_col > 0 { bar.end_col - 1 } else { 0 }) - lo } else { 0 }),
            chars@ == line@,
            p == visible_at(line@, lo as int),
            n == hi - lo,
            forall|j: int| 0 <= j < col - lo ==> !#[trigger] p(j),
        decreases hi - col,
    {
        if col < chars.len() && !is_whitespace(chars[col]) {
            proof {
                assert(p(col - lo));
                lemma_first_where(n, p, col - lo);
            }
            return col;
        }
        col += 1;
    }
    proof {
        lemma_first_where(n, p, n);
    }
    lo
}

} // verus!
