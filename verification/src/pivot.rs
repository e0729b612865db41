//! The pivot: one pass over the commit records that sums a statistic for
//! each pair of labels, and the report of the result.

use vstd::prelude::*;
use vstd::string::StringExecFns;
use crate::axis::axis_labels;
use crate::axis::lemma_label_on_axis;
use crate::axis::Side;
use crate::category::category_label;
use crate::category::commit_to_cat;
use crate::category::commit_to_stat;
use crate::category::contribution;
use crate::category::statistic_name;
use crate::category::Category;
use crate::category::Statistic;
use crate::record::views;
use crate::record::CommitRecord;
use crate::record::CommitView;
use crate::render::format_table;
use crate::render::table_text;
use crate::table::cell_sum;
use crate::table::lemma_cell_sum_insert;
use crate::table::value_at;
use crate::table::AggregationTable;
use crate::table::Key;

verus! {

/// The pair of labels of a commit under the categories of the two axes.
pub open spec fn commit_key(record: CommitView, x_cat: Option<Category>, y_cat: Option<Category>) -> Key {
    (category_label(record, x_cat), category_label(record, y_cat))
}

/// The table after one more commit: the statistic is added to the cell of
/// the commit's pair of labels.
pub open spec fn tally_step(
    cells: Map<Key, int>,
    record: CommitView,
    x_cat: Option<Category>,
    y_cat: Option<Category>,
    statistic: Statistic,
) -> Map<Key, int> {
    let key = commit_key(record, x_cat, y_cat);
    cells.insert(key, value_at(cells, key) + contribution(statistic))
}

/// The table of a sequence of commits, each counted once.
pub open spec fn tally(
    records: Seq<CommitView>,
    x_cat: Option<Category>,
    y_cat: Option<Category>,
    statistic: Statistic,
) -> Map<Key, int>
    decreases records.len(),
{
    if records.len() == 0 {
        Map::empty()
    } else {
        tally_step(
            tally(records.drop_last(), x_cat, y_cat, statistic),
            records.last(),
            x_cat,
            y_cat,
            statistic,
        )
    }
}

/// The report: the line that names the statistic, then the rendered table.
pub open spec fn report_text(
    x_cat: Option<Category>,
    y_cat: Option<Category>,
    statistic: Statistic,
    cells: Map<Key, int>,
) -> Seq<char> {
    "Statistic for "@ + statistic_name(statistic) + "\n"@ + table_text(
        axis_labels(x_cat, cells, Side::X),
        axis_labels(y_cat, cells, Side::Y),
        cells,
    ) + "\n"@
}

/// The table of a sequence of commits has finitely many cells, and no cell
/// is further from zero than the number of commits.
pub proof fn lemma_tally_bounded(
    records: Seq<CommitView>,
    x_cat: Option<Category>,
    y_cat: Option<Category>,
    statistic: Statistic,
)
    ensures
        tally(records, x_cat, y_cat, statistic).dom().finite(),
        forall|key: Key|
            -records.len() <= #[trigger] value_at(tally(records, x_cat, y_cat, statistic), key)
                <= records.len(),
    decreases records.len(),
{
    if records.len() > 0 {
        lemma_tally_bounded(records.drop_last(), x_cat, y_cat, statistic);
        let before = tally(records.drop_last(), x_cat, y_cat, statistic);
        assert forall|key: Key|
            -records.len() <= #[trigger] value_at(tally(records, x_cat, y_cat, statistic), key)
                <= records.len() by {
            assert(-records.drop_last().len() <= value_at(before, key) <= records.drop_last().len());
            let at = commit_key(records.last(), x_cat, y_cat);
            assert(-records.drop_last().len() <= value_at(before, at) <= records.drop_last().len());
        }
    }
}

/// The cells of the table of a sequence of commits sum to what the commits
/// contribute: with the statistic `Commits`, to the number of commits.
pub proof fn lemma_tally_sum(
    records: Seq<CommitView>,
    x_cat: Option<Category>,
    y_cat: Option<Category>,
    statistic: Statistic,
)
    ensures
        cell_sum(tally(records, x_cat, y_cat, statistic)) == records.len() * contribution(statistic),
        statistic == Statistic::Commits ==> cell_sum(tally(records, x_cat, y_cat, statistic))
            == records.len(),
    decreases records.len(),
{
    if records.len() > 0 {
        lemma_tally_sum(records.drop_last(), x_cat, y_cat, statistic);
        lemma_tally_bounded(records.drop_last(), x_cat, y_cat, statistic);
        let before = tally(records.drop_last(), x_cat, y_cat, statistic);
        let key = commit_key(records.last(), x_cat, y_cat);
        lemma_cell_sum_insert(before, key, value_at(before, key) + contribution(statistic));
        let n = records.len() as int;
        let c = contribution(statistic);
        assert((n - 1) * c + c == n * c) by (nonlinear_arith);
    }
}

/// The table of a sequence of commits holds exactly the pairs of labels of
/// the commits.
pub proof fn lemma_tally_keys(
    records: Seq<CommitView>,
    x_cat: Option<Category>,
    y_cat: Option<Category>,
    statistic: Statistic,
)
    ensures
        forall|key: Key| #[trigger]
            tally(records, x_cat, y_cat, statistic).contains_key(key) <==> exists|i: int|
                0 <= i < records.len() && commit_key(#[trigger] records[i], x_cat, y_cat) == key,
    decreases records.len(),
{
    if records.len() > 0 {
        let rest = records.drop_last();
        lemma_tally_keys(rest, x_cat, y_cat, statistic);
        let cells = tally(records, x_cat, y_cat, statistic);
        assert forall|key: Key| #[trigger] cells.contains_key(key) implies exists|i: int|
            0 <= i < records.len() && commit_key(#[trigger] records[i], x_cat, y_cat) == key by {
            if key == commit_key(records.last(), x_cat, y_cat) {
                assert(commit_key(records[records.len() - 1], x_cat, y_cat) == key);
            } else {
                assert(tally(rest, x_cat, y_cat, statistic).contains_key(key));
                let i = choose|i: int| 0 <= i < rest.len() && commit_key(#[trigger] rest[i], x_cat, y_cat) == key;
                assert(commit_key(records[i], x_cat, y_cat) == key);
            }
        }
        assert forall|key: Key| (exists|i: int| 0 <= i < records.len() && commit_key(#[trigger] records[i], x_cat, y_cat) == key) implies #[trigger] cells.contains_key(key) by {
            let i = choose|i: int| 0 <= i < records.len() && commit_key(#[trigger] records[i], x_cat, y_cat) == key;
            if i < rest.len() {
                assert(commit_key(rest[i], x_cat, y_cat) == key);
                assert(tally(rest, x_cat, y_cat, statistic).contains_key(key));
            }
        }
    }
}

/// Every commit of a sequence is counted in a cell that the rendering
/// shows: the labels of the commit stand on the two axes that are resolved
/// from the table of the sequence.
pub proof fn lemma_tally_on_axes(
    records: Seq<CommitView>,
    x_cat: Option<Category>,
    y_cat: Option<Category>,
    statistic: Statistic,
    i: int,
)
    requires
        0 <= i < records.len(),
    ensures
        ({
            let cells = tally(records, x_cat, y_cat, statistic);
            &&& cells.contains_key(commit_key(records[i], x_cat, y_cat))
            &&& axis_labels(x_cat, cells, Side::X).contains(category_label(records[i], x_cat))
            &&& axis_labels(y_cat, cells, Side::Y).contains(category_label(records[i], y_cat))
        }),
{
    let cells = tally(records, x_cat, y_cat, statistic);
    let key = commit_key(records[i], x_cat, y_cat);
    lemma_tally_keys(records, x_cat, y_cat, statistic);
    lemma_tally_bounded(records, x_cat, y_cat, statistic);
    lemma_label_on_axis(x_cat, cells, Side::X, key, records[i]);
    lemma_label_on_axis(y_cat, cells, Side::Y, key, records[i]);
}

/// Tells whether a time stamp lies within the bounds that are given; both
/// bounds count as within.
pub fn in_date_range(from: Option<i64>, until: Option<i64>, seconds: i64) -> (within: bool)
    ensures
        within == ((from matches Some(first) ==> first <= seconds) && (until matches Some(
            last,
        ) ==> seconds <= last)),
{
    let after_start = match from {
        Some(first) => first <= seconds,
        None => true,
    };
    let before_end = match until {
        Some(last) => seconds <= last,
        None => true,
    };
    after_start && before_end
}

/// Counts one commit: adds the statistic to the cell of the commit's pair of
/// labels.
pub fn record_commit(
    table: &mut AggregationTable,
    record: &CommitRecord,
    x_cat: Option<Category>,
    y_cat: Option<Category>,
    statistic: Statistic,
)
    requires
        i32::MIN <= value_at(old(table)@, commit_key(record@, x_cat, y_cat)) + contribution(statistic)
            <= i32::MAX,
    ensures
        final(table)@ == tally_step(old(table)@, record@, x_cat, y_cat, statistic),
{
    let x = commit_to_cat(record, x_cat);
    let y = commit_to_cat(record, y_cat);
    let delta = commit_to_stat(record, statistic);
    table.accumulate(x, y, delta);
}

/// Builds the table of a list of commits in one pass, each commit counted
/// once.
pub fn pivot(
    records: &Vec<CommitRecord>,
    x_cat: Option<Category>,
    y_cat: Option<Category>,
    statistic: Statistic,
) -> (table: AggregationTable)
    requires
        records@.len() <= i32::MAX,
    ensures
        table@ == tally(views(records@), x_cat, y_cat, statistic),
        cell_sum(table@) == records@.len() * contribution(statistic),
        statistic == Statistic::Commits ==> cell_sum(table@) == records@.len(),
{
    let mut table = AggregationTable::new();
    let mut i: usize = 0;
    while i < records.len()
        invariant
            i <= records.len(),
            records@.len() <= i32::MAX,
            table@ == tally(views(records@).take(i as int), x_cat, y_cat, statistic),
        decreases records.len() - i,
    {
        proof {
            lemma_tally_bounded(views(records@).take(i as int), x_cat, y_cat, statistic);
            assert(views(records@).take(i + 1).drop_last() =~= views(records@).take(i as int));
            assert(views(records@).take(i + 1).last() == records@[i as int]@);
        }
        record_commit(&mut table, &records[i], x_cat, y_cat, statistic);
        i = i + 1;
    }
    proof {
        assert(views(records@).take(i as int) =~= views(records@));
        lemma_tally_sum(views(records@), x_cat, y_cat, statistic);
    }
    table
}

/// Writes the report of a table: the line `Statistic for` with the name of
/// the statistic, then the rendered table, each ended by a line feed.
pub fn report(
    x_cat: &Option<Category>,
    y_cat: &Option<Category>,
    statistic: Statistic,
    data: &AggregationTable,
) -> (text: String)
    ensures
        text@ == report_text(*x_cat, *y_cat, statistic, data@),
{
    let mut text = String::from_str("Statistic for ");
    text.append(statistic.name());
    text.append("\n");
    let table = format_table(x_cat, y_cat, data);
    text.append(table.as_str());
    text.append("\n");
    text
}

} // verus!
