//! The table renderer: a grid of labels and sums laid out as aligned text.

use vstd::prelude::*;
use vstd::string::StrSliceExecFns;
use crate::axis::axis_labels;
use crate::axis::category_values;
use crate::axis::Side;
use crate::category::Category;
use crate::table::value_at;
use crate::table::AggregationTable;
use crate::table::Key;
use crate::text::decimal;
use crate::text::decimal_string;
use crate::text::join;
use crate::text::joined;
use crate::text::left_pad;
use crate::text::pad_left;
use crate::text::run;
use crate::text::run_of;
use crate::text::texts;

verus! {

/// The text of the cell of a pair of labels: its sum as a numeral, `0` for a
/// pair that the table does not hold.
pub open spec fn cell_text(cells: Map<Key, int>, x: Seq<char>, y: Seq<char>) -> Seq<char> {
    decimal(value_at(cells, (x, y)))
}

/// The header row: an empty corner, then the labels of the y-axis.
pub open spec fn header_row(y_axis: Seq<Seq<char>>) -> Seq<Seq<char>> {
    seq![Seq::<char>::empty()] + y_axis
}

/// The row of an x-label: the label, then one cell for each y-label.
pub open spec fn body_row(x: Seq<char>, y_axis: Seq<Seq<char>>, cells: Map<Key, int>) -> Seq<
    Seq<char>,
> {
    seq![x] + Seq::new(y_axis.len(), |j: int| cell_text(cells, x, y_axis[j]))
}

/// The grid of cell texts: the header row, then one row for each x-label.
pub open spec fn grid(x_axis: Seq<Seq<char>>, y_axis: Seq<Seq<char>>, cells: Map<Key, int>) -> Seq<
    Seq<Seq<char>>,
> {
    seq![header_row(y_axis)] + Seq::new(x_axis.len(), |i: int| body_row(x_axis[i], y_axis, cells))
}

/// The width of a column: the greatest number of characters that a row
/// holds in it.
pub open spec fn column_width(rows: Seq<Seq<Seq<char>>>, column: int) -> nat
    decreases rows.len(),
{
    if rows.len() == 0 {
        0
    } else {
        let above = column_width(rows.drop_last(), column);
        let here = rows.last()[column].len();
        if here > above {
            here
        } else {
            above
        }
    }
}

/// The widths of the first `columns` columns of a grid.
pub open spec fn column_widths(rows: Seq<Seq<Seq<char>>>, columns: nat) -> Seq<nat> {
    Seq::new(columns, |c: int| column_width(rows, c))
}

/// One row as a line: each cell right-aligned to the width of its column,
/// with ` | ` between neighbours.
pub open spec fn row_line(row: Seq<Seq<char>>, widths: Seq<nat>) -> Seq<char> {
    joined(Seq::new(row.len(), |c: int| pad_left(row[c], widths[c])), " | "@)
}

/// The line under the header: dashes over the width of each column, with
/// `-+-` between neighbours.
pub open spec fn rule_line(widths: Seq<nat>) -> Seq<char> {
    joined(Seq::new(widths.len(), |c: int| run('-', widths[c])), "-+-"@)
}

/// The lines of a grid: the header, the rule, then the other rows.
pub open spec fn table_lines(rows: Seq<Seq<Seq<char>>>, widths: Seq<nat>) -> Seq<Seq<char>> {
    Seq::new(rows.len(), |r: int| row_line(rows[r], widths)).insert(1, rule_line(widths))
}

/// The rendered table: the lines of the grid of the two axes, each column as
/// wide as its widest cell, with a line feed between lines.
pub open spec fn table_text(x_axis: Seq<Seq<char>>, y_axis: Seq<Seq<char>>, cells: Map<Key, int>) -> Seq<
    char,
> {
    let rows = grid(x_axis, y_axis, cells);
    joined(table_lines(rows, column_widths(rows, y_axis.len() + 1)), "\n"@)
}

/// The widths of a list of columns as natural numbers.
pub open spec fn as_nats(widths: Seq<usize>) -> Seq<nat> {
    Seq::new(widths.len(), |c: int| widths[c] as nat)
}

/// A column is at least as wide as each of its cells.
pub proof fn lemma_column_width_covers(rows: Seq<Seq<Seq<char>>>, column: int, row: int)
    requires
        0 <= row < rows.len(),
    ensures
        rows[row][column].len() <= column_width(rows, column),
    decreases rows.len(),
{
    if row < rows.len() - 1 {
        lemma_column_width_covers(rows.drop_last(), column, row);
    }
}

/// In the rendered table every cell, whether of the header, a row label or
/// a sum, is no longer than the width of its column, and is padded to
/// exactly that width.
pub proof fn lemma_cells_fit(
    x_axis: Seq<Seq<char>>,
    y_axis: Seq<Seq<char>>,
    cells: Map<Key, int>,
    row: int,
    column: int,
)
    requires
        0 <= row <= x_axis.len(),
        0 <= column <= y_axis.len(),
    ensures
        ({
            let rows = grid(x_axis, y_axis, cells);
            let width = column_widths(rows, y_axis.len() + 1)[column];
            &&& rows[row][column].len() <= width
            &&& pad_left(rows[row][column], width).len() == width
        }),
{
    lemma_column_width_covers(grid(x_axis, y_axis, cells), column, row);
}

/// Two tables that hold the same sums for the same pairs of labels render
/// to the same text under the same categories, however they were filled.
pub proof fn lemma_rendering_determined(
    x_cat: Option<Category>,
    y_cat: Option<Category>,
    one: Map<Key, int>,
    other: Map<Key, int>,
)
    requires
        forall|key: Key| one.contains_key(key) <==> other.contains_key(key),
        forall|key: Key| one.contains_key(key) ==> one[key] == other[key],
    ensures
        table_text(axis_labels(x_cat, one, Side::X), axis_labels(y_cat, one, Side::Y), one)
            == table_text(
            axis_labels(x_cat, other, Side::X),
            axis_labels(y_cat, other, Side::Y),
            other,
        ),
{
    assert(one =~= other);
}

/// Records that column `i` holds the text `s`: the width of the column
/// grows to the length of `s` if it was less; a column past the end of the
/// list is added to it.
pub fn update_max_width(s: &str, i: usize, max_width: &mut Vec<usize>)
    ensures
        i < old(max_width)@.len() ==> final(max_width)@ == old(max_width)@.update(
            i as int,
            if s@.len() > old(max_width)@[i as int] {
                s@.len() as usize
            } else {
                old(max_width)@[i as int]
            },
        ),
        i >= old(max_width)@.len() ==> final(max_width)@ == old(max_width)@.push(s@.len() as usize),
        s@.len() <= usize::MAX,
{
    let n_chars = s.unicode_len();
    if i < max_width.len() {
        let width = if n_chars > max_width[i] {
            n_chars
        } else {
            max_width[i]
        };
        max_width.set(i, width);
    } else {
        max_width.push(n_chars);
    }
}

fn header_cells(y_axis: &Vec<String>, max_width: &mut Vec<usize>) -> (row: Vec<String>)
    requires
        old(max_width)@ == seq![0usize],
    ensures
        texts(row@) == header_row(texts(y_axis@)),
        final(max_width)@.len() == y_axis@.len() + 1,
        forall|c: int| 0 <= c <= y_axis@.len() ==> #[trigger] final(max_width)@[c] == header_row(texts(y_axis@))[c].len(),
{
    let ghost ys = texts(y_axis@);
    let mut row: Vec<String> = Vec::new();
    row.push(String::new());
    let mut j: usize = 0;
    while j < y_axis.len()
        invariant
            j <= y_axis.len(),
            ys == texts(y_axis@),
            row@.len() == j + 1,
            max_width@.len() == j + 1,
            forall|c: int| 0 <= c <= j ==> (#[trigger] row@[c])@ == header_row(ys)[c],
            forall|c: int| 0 <= c <= j ==> #[trigger] max_width@[c] == header_row(ys)[c].len(),
        decreases y_axis.len() - j,
    {
        let ghost cells_before = row@;
        let ghost widths_before = max_width@;
        row.push(y_axis[j].clone());
        update_max_width(y_axis[j].as_str(), j + 1, max_width);
        proof {
            assert forall|c: int| 0 <= c <= j + 1 implies (#[trigger] row@[c])@ == header_row(ys)[c] by {
                if c <= j {
                    assert(row@[c] == cells_before[c]);
                }
            }
            assert forall|c: int| 0 <= c <= j + 1 implies #[trigger] max_width@[c] == header_row(ys)[c].len() by {
                if c <= j {
                    assert(max_width@[c] == widths_before[c]);
                }
            }
        }
        j = j + 1;
    }
    assert(texts(row@) =~= header_row(ys));
    row
}

fn body_cells(x: &String, y_axis: &Vec<String>, data: &AggregationTable, max_width: &mut Vec<usize>) -> (row: Vec<String>)
    requires
        old(max_width)@.len() == y_axis@.len() + 1,
    ensures
        texts(row@) == body_row(x@, texts(y_axis@), data@),
        final(max_width)@.len() == old(max_width)@.len(),
        forall|c: int| 0 <= c <= y_axis@.len() ==> #[trigger] final(max_width)@[c] == if body_row(x@, texts(y_axis@), data@)[c].len() > old(max_width)@[c] {
            body_row(x@, texts(y_axis@), data@)[c].len()
        } else {
            old(max_width)@[c] as nat
        },
{
    let ghost ys = texts(y_axis@);
    let ghost target = body_row(x@, ys, data@);
    let ghost widths_at_entry = max_width@;
    let mut row: Vec<String> = Vec::new();
    row.push(x.clone());
    update_max_width(x.as_str(), 0, max_width);
    let mut j: usize = 0;
    while j < y_axis.len()
        invariant
            j <= y_axis.len(),
            ys == texts(y_axis@),
            target == body_row(x@, ys, data@),
            row@.len() == j + 1,
            max_width@.len() == y_axis@.len() + 1,
            widths_at_entry.len() == y_axis@.len() + 1,
            forall|c: int| 0 <= c <= j ==> (#[trigger] row@[c])@ == target[c],
            forall|c: int| 0 <= c <= j ==> #[trigger] max_width@[c] == if target[c].len() > widths_at_entry[c] {
                target[c].len()
            } else {
                widths_at_entry[c] as nat
            },
            forall|c: int| j < c <= y_axis@.len() ==> #[trigger] max_width@[c] == widths_at_entry[c],
        decreases y_axis.len() - j,
    {
        let ghost cells_before = row@;
        let ghost widths_before = max_width@;
        let val = match data.get(x, &y_axis[j]) {
            Some(sum) => decimal_string(sum as i64),
            None => decimal_string(0),
        };
        assert(val@ == target[j + 1]);
        update_max_width(val.as_str(), j + 1, max_width);
        row.push(val);
        proof {
            assert forall|c: int| 0 <= c <= j + 1 implies (#[trigger] row@[c])@ == target[c] by {
                if c <= j {
                    assert(row@[c] == cells_before[c]);
                }
            }
            assert forall|c: int| 0 <= c <= j + 1 implies #[trigger] max_width@[c] == if target[c].len() > widths_at_entry[c] {
                target[c].len()
            } else {
                widths_at_entry[c] as nat
            } by {
                if c <= j {
                    assert(max_width@[c] == widths_before[c]);
                }
            }
            assert forall|c: int| j + 1 < c <= y_axis@.len() implies #[trigger] max_width@[c] == widths_at_entry[c] by {
                assert(max_width@[c] == widths_before[c]);
            }
        }
        j = j + 1;
    }
    assert(texts(row@) =~= target);
    row
}

fn aligned_line(row: &Vec<String>, widths: &Vec<usize>) -> (line: String)
    requires
        row@.len() == widths@.len(),
    ensures
        line@ == row_line(texts(row@), as_nats(widths@)),
{
    let mut padded: Vec<String> = Vec::new();
    let mut c: usize = 0;
    while c < row.len()
        invariant
            c <= row.len(),
            row@.len() == widths@.len(),
            padded@.len() == c,
            forall|k: int| 0 <= k < c ==> (#[trigger] padded@[k])@ == pad_left(row@[k]@, widths@[k] as nat),
        decreases row.len() - c,
    {
        let ghost before = padded@;
        padded.push(left_pad(row[c].as_str(), widths[c]));
        assert forall|k: int| 0 <= k < c + 1 implies (#[trigger] padded@[k])@ == pad_left(row@[k]@, widths@[k] as nat) by {
            if k < c {
                assert(padded@[k] == before[k]);
            }
        }
        c = c + 1;
    }
    assert(texts(padded@) =~= Seq::new(
        texts(row@).len(),
        |k: int| pad_left(texts(row@)[k], as_nats(widths@)[k]),
    ));
    join(&padded, " | ")
}

fn rule(widths: &Vec<usize>) -> (line: String)
    ensures
        line@ == rule_line(as_nats(widths@)),
{
    let mut runs: Vec<String> = Vec::new();
    let mut c: usize = 0;
    while c < widths.len()
        invariant
            c <= widths.len(),
            runs@.len() == c,
            forall|k: int| 0 <= k < c ==> (#[trigger] runs@[k])@ == run('-', widths@[k] as nat),
        decreases widths.len() - c,
    {
        let ghost before = runs@;
        proof {
            reveal_strlit("-");
        }
        runs.push(run_of("-", widths[c]));
        assert forall|k: int| 0 <= k < c + 1 implies (#[trigger] runs@[k])@ == run('-', widths@[k] as nat) by {
            if k < c {
                assert(runs@[k] == before[k]);
            }
        }
        c = c + 1;
    }
    assert(texts(runs@) =~= Seq::new(as_nats(widths@).len(), |k: int| run('-', as_nats(widths@)[k])));
    join(&runs, "-+-")
}

/// Renders the table of the two axes: a header row of the y-labels after an
/// empty corner, a rule of dashes, and one row for each x-label with the
/// sum of each pair, `0` where the table holds none.  Every cell is
/// right-aligned to the width of the widest cell of its column.
pub fn render_table(x_axis: &Vec<String>, y_axis: &Vec<String>, data: &AggregationTable) -> (text: String)
    ensures
        text@ == table_text(texts(x_axis@), texts(y_axis@), data@),
{
    let ghost xs = texts(x_axis@);
    let ghost ys = texts(y_axis@);
    let ghost rows = grid(xs, ys, data@);
    let mut entries: Vec<Vec<String>> = Vec::new();
    let mut max_width: Vec<usize> = Vec::new();
    max_width.push(0);
    let first_row = header_cells(y_axis, &mut max_width);
    entries.push(first_row);
    assert forall|c: int| 0 <= c <= y_axis@.len() implies #[trigger] max_width@[c] == column_width(rows.take(1), c) by {
        assert(rows.take(1).drop_last() =~= Seq::<Seq<Seq<char>>>::empty());
        assert(rows.take(1).last() == header_row(ys));
        assert(column_width(rows.take(1).drop_last(), c) == 0);
    }
    let mut i: usize = 0;
    while i < x_axis.len()
        invariant
            i <= x_axis.len(),
            xs == texts(x_axis@),
            ys == texts(y_axis@),
            rows == grid(xs, ys, data@),
            entries@.len() == i + 1,
            max_width@.len() == y_axis@.len() + 1,
            forall|r: int| 0 <= r <= i ==> texts((#[trigger] entries@[r])@) == rows[r],
            forall|c: int| 0 <= c <= y_axis@.len() ==> #[trigger] max_width@[c] == column_width(rows.take(i + 1), c),
        decreases x_axis.len() - i,
    {
        let ghost entries_before = entries@;
        let ghost widths_before = max_width@;
        let next_row = body_cells(&x_axis[i], y_axis, data, &mut max_width);
        entries.push(next_row);
        proof {
            assert(rows[i + 1] == body_row(xs[i as int], ys, data@));
            assert forall|r: int| 0 <= r <= i + 1 implies texts((#[trigger] entries@[r])@) == rows[r] by {
                if r <= i {
                    assert(entries@[r] == entries_before[r]);
                }
            }
            assert(rows.take(i + 2).drop_last() =~= rows.take(i + 1));
            assert forall|c: int| 0 <= c <= y_axis@.len() implies #[trigger] max_width@[c] == column_width(rows.take(i + 2), c) by {
                assert(widths_before[c] == column_width(rows.take(i + 1), c));
                assert(rows.take(i + 2).last() == rows[i + 1]);
            }
        }
        i = i + 1;
    }
    assert(rows.take(i + 1) =~= rows);
    assert(as_nats(max_width@) =~= column_widths(rows, ys.len() + 1));
    let ghost widths = as_nats(max_width@);
    let mut lines: Vec<String> = Vec::new();
    let mut r: usize = 0;
    while r < entries.len()
        invariant
            r <= entries.len(),
            entries@.len() == rows.len(),
            lines@.len() == r,
            widths == as_nats(max_width@),
            max_width@.len() == y_axis@.len() + 1,
            ys == texts(y_axis@),
            forall|k: int| 0 <= k < entries@.len() ==> texts((#[trigger] entries@[k])@) == rows[k],
            forall|k: int| 0 <= k < rows.len() ==> (#[trigger] rows[k]).len() == ys.len() + 1,
            forall|k: int| 0 <= k < r ==> (#[trigger] lines@[k])@ == row_line(rows[k], widths),
        decreases entries.len() - r,
    {
        let ghost before = lines@;
        assert(texts(entries@[r as int]@).len() == ys.len() + 1);
        lines.push(aligned_line(&entries[r], &max_width));
        assert forall|k: int| 0 <= k < r + 1 implies (#[trigger] lines@[k])@ == row_line(rows[k], widths) by {
            if k < r {
                assert(lines@[k] == before[k]);
            }
        }
        r = r + 1;
    }
    let ghost plain = lines@;
    lines.insert(1, rule(&max_width));
    assert(texts(lines@) =~= table_lines(rows, widths)) by {
        assert(texts(lines@) =~= texts(plain).insert(1, rule_line(widths)));
        assert(texts(plain) =~= Seq::new(rows.len(), |k: int| row_line(rows[k], widths)));
    }
    join(&lines, "\n")
}

/// Renders the table of a pair of categories: resolves the two axes, then
/// renders the grid.
pub fn format_table(x_cat: &Option<Category>, y_cat: &Option<Category>, data: &AggregationTable) -> (text: String)
    ensures
        text@ == table_text(
            axis_labels(*x_cat, data@, Side::X),
            axis_labels(*y_cat, data@, Side::Y),
            data@,
        ),
{
    let x_cats = category_values(x_cat, data, Side::X);
    let y_cats = category_values(y_cat, data, Side::Y);
    render_table(&x_cats, &y_cats, data)
}

} // verus!
