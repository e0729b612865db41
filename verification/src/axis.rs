//! Axis resolution: the ordered labels shown along one side of the table.

use vstd::prelude::*;
use vstd::string::StringExecFns;
use crate::calendar::hour_of_day;
use crate::calendar::weekday_index;
use crate::category::category_label;
use crate::category::wildcard;
use crate::category::weekday_label;
use crate::category::weekday_name;
use crate::category::Category;
use crate::order::is_sorted_listing;
use crate::order::lemma_sorted_listing_exists;
use crate::order::lemma_strictly_sorted_distinct;
use crate::order::strictly_sorted;
use crate::order::lemma_sorted_listing_is;
use crate::order::sorted_distinct;
use crate::order::sorted_listing;
use crate::record::CommitView;
use crate::table::key_views;
use crate::table::AggregationTable;
use crate::table::Key;
use crate::text::decimal;
use crate::text::decimal_string;
use crate::text::digits;
use crate::text::texts;

verus! {

/// One of the two sides of the table.
#[derive(Clone, Copy, Debug, PartialEq, Eq, Structural)]
pub enum Side {
    /// The side of the row labels.
    X,
    /// The side of the column labels.
    Y,
}

/// The label that a pair of labels has on a side.
pub open spec fn side_of(key: Key, side: Side) -> Seq<char> {
    match side {
        Side::X => key.0,
        Side::Y => key.1,
    }
}

/// The labels that the cells of a table have on a side.
pub open spec fn side_labels(cells: Map<Key, int>, side: Side) -> Set<Seq<char>> {
    Set::new(
        |label: Seq<char>| exists|key: Key| #[trigger] cells.contains_key(key) && side_of(key, side) == label,
    )
}

/// The hours of the day, `0` to `23`, in order.
pub open spec fn hour_axis() -> Seq<Seq<char>> {
    Seq::new(24, |hour: int| decimal(hour))
}

/// The days of the week from Monday to Sunday.
pub open spec fn weekday_axis() -> Seq<Seq<char>> {
    Seq::new(7, |day: int| weekday_name(day))
}

/// Whether the labels of a category are known without looking at the data.
pub open spec fn is_enumerated(category: Category) -> bool {
    category == Category::Hour || category == Category::DayOfWeek
}

/// The labels of an axis: the hours and the days of the week are listed
/// whatever the table holds; any other category lists the labels that the
/// table holds on that side, sorted and each once; without a category the
/// axis is the single wildcard.
pub open spec fn axis_labels(category: Option<Category>, cells: Map<Key, int>, side: Side) -> Seq<
    Seq<char>,
> {
    match category {
        None => seq![wildcard()],
        Some(Category::Hour) => hour_axis(),
        Some(Category::DayOfWeek) => weekday_axis(),
        Some(_) => sorted_listing(side_labels(cells, side)),
    }
}

/// The axis of the hours is `0`, `1`, and so on to `23`, whatever the table
/// holds and on either side.
pub proof fn lemma_hour_axis(cells: Map<Key, int>, side: Side)
    ensures
        axis_labels(Some(Category::Hour), cells, side) == seq![
            seq!['0'],
            seq!['1'],
            seq!['2'],
            seq!['3'],
            seq!['4'],
            seq!['5'],
            seq!['6'],
            seq!['7'],
            seq!['8'],
            seq!['9'],
            seq!['1', '0'],
            seq!['1', '1'],
            seq!['1', '2'],
            seq!['1', '3'],
            seq!['1', '4'],
            seq!['1', '5'],
            seq!['1', '6'],
            seq!['1', '7'],
            seq!['1', '8'],
            seq!['1', '9'],
            seq!['2', '0'],
            seq!['2', '1'],
            seq!['2', '2'],
            seq!['2', '3'],
        ],
{
    reveal_with_fuel(digits, 2);
    let explicit = seq![
        seq!['0'],
        seq!['1'],
        seq!['2'],
        seq!['3'],
        seq!['4'],
        seq!['5'],
        seq!['6'],
        seq!['7'],
        seq!['8'],
        seq!['9'],
        seq!['1', '0'],
        seq!['1', '1'],
        seq!['1', '2'],
        seq!['1', '3'],
        seq!['1', '4'],
        seq!['1', '5'],
        seq!['1', '6'],
        seq!['1', '7'],
        seq!['1', '8'],
        seq!['1', '9'],
        seq!['2', '0'],
        seq!['2', '1'],
        seq!['2', '2'],
        seq!['2', '3'],
    ];
    assert forall|hour: int| 0 <= hour < 24 implies #[trigger] hour_axis()[hour] == explicit[hour] by {
        assert(hour_axis()[hour] =~= explicit[hour]);
    }
    assert(hour_axis() =~= explicit);
}

/// The label of a commit under the hour or the day of the week stands on the
/// axis of that category, at the index of the hour or the day.
pub proof fn lemma_enumerated_label_on_axis(record: CommitView, cells: Map<Key, int>, side: Side)
    ensures
        axis_labels(Some(Category::Hour), cells, side)[hour_of_day(
            record.seconds,
            record.offset_seconds(),
        )] == category_label(record, Some(Category::Hour)),
        axis_labels(Some(Category::DayOfWeek), cells, side)[weekday_index(
            record.seconds,
            record.offset_seconds(),
        )] == category_label(record, Some(Category::DayOfWeek)),
        0 <= hour_of_day(record.seconds, record.offset_seconds()) < 24,
        0 <= weekday_index(record.seconds, record.offset_seconds()) < 7,
{
}

/// A finite table holds finitely many labels on each side.
pub proof fn lemma_side_labels_finite(cells: Map<Key, int>, side: Side)
    requires
        cells.dom().finite(),
    ensures
        side_labels(cells, side).finite(),
{
    let pick = |key: Key| side_of(key, side);
    cells.dom().lemma_map_finite(pick);
    assert forall|label: Seq<char>| side_labels(cells, side).contains(label) <==> cells.dom().map(pick).contains(label) by {
        if side_labels(cells, side).contains(label) {
            let key = choose|key: Key| #[trigger] cells.contains_key(key) && side_of(key, side) == label;
            assert(cells.dom().contains(key) && label == pick(key));
        }
        if cells.dom().map(pick).contains(label) {
            let key = choose|key: Key| cells.dom().contains(key) && label == pick(key);
            assert(cells.contains_key(key) && side_of(key, side) == label);
        }
    }
    assert(side_labels(cells, side) =~= cells.dom().map(pick));
}

/// The axis of a category whose labels come from the data, such as the
/// author, lists exactly the labels that a finite table holds on that side,
/// in increasing order and each once.
pub proof fn lemma_observed_axis(category: Category, cells: Map<Key, int>, side: Side)
    requires
        !is_enumerated(category),
        cells.dom().finite(),
    ensures
        strictly_sorted(axis_labels(Some(category), cells, side)),
        axis_labels(Some(category), cells, side).no_duplicates(),
        axis_labels(Some(category), cells, side).to_set() == side_labels(cells, side),
{
    lemma_side_labels_finite(cells, side);
    lemma_sorted_listing_exists(side_labels(cells, side));
    lemma_strictly_sorted_distinct(axis_labels(Some(category), cells, side));
}

/// A label that a finite table holds on a side, and that is the label of a
/// commit under the category of that side, stands on the axis of that side:
/// no cell of the table is left out of the rendering.
pub proof fn lemma_label_on_axis(
    category: Option<Category>,
    cells: Map<Key, int>,
    side: Side,
    key: Key,
    record: CommitView,
)
    requires
        cells.dom().finite(),
        cells.contains_key(key),
        side_of(key, side) == category_label(record, category),
    ensures
        axis_labels(category, cells, side).contains(side_of(key, side)),
{
    let axis = axis_labels(category, cells, side);
    let label = side_of(key, side);
    match category {
        None => {
            assert(axis[0] == label);
        },
        Some(Category::Hour) => {
            assert(axis[hour_of_day(record.seconds, record.offset_seconds())] == label);
        },
        Some(Category::DayOfWeek) => {
            assert(axis[weekday_index(record.seconds, record.offset_seconds())] == label);
        },
        Some(other) => {
            lemma_observed_axis(other, cells, side);
            assert(side_labels(cells, side).contains(label));
            assert(axis.to_set().contains(label));
        },
    }
}

/// Gives the x-label of a pair of labels.
pub fn first(key: &(String, String)) -> (label: String)
    ensures
        label@ == key.0@,
{
    key.0.clone()
}

/// Gives the y-label of a pair of labels.
pub fn second(key: &(String, String)) -> (label: String)
    ensures
        label@ == key.1@,
{
    key.1.clone()
}

/// Resolves the labels of one axis of the table.
pub fn category_values(category: &Option<Category>, data: &AggregationTable, side: Side) -> (labels:
    Vec<String>)
    ensures
        texts(labels@) == axis_labels(*category, data@, side),
        *category matches Some(c) && !is_enumerated(c) ==> is_sorted_listing(
            texts(labels@),
            side_labels(data@, side),
        ),
{
    match category {
        None => {
            let mut labels: Vec<String> = Vec::new();
            labels.push(String::from_str("*"));
            assert(texts(labels@) =~= seq![wildcard()]);
            labels
        },
        Some(Category::Hour) => {
            let mut labels: Vec<String> = Vec::new();
            let mut hour: u32 = 0;
            while hour < 24
                invariant
                    hour <= 24,
                    labels.len() == hour,
                    forall|h: int| 0 <= h < hour ==> (#[trigger] labels@[h])@ == decimal(h),
                decreases 24 - hour,
            {
                labels.push(decimal_string(hour as i64));
                hour = hour + 1;
            }
            assert(texts(labels@) =~= hour_axis());
            labels
        },
        Some(Category::DayOfWeek) => {
            let mut labels: Vec<String> = Vec::new();
            let mut day: u32 = 0;
            while day < 7
                invariant
                    day <= 7,
                    labels.len() == day,
                    forall|d: int| 0 <= d < day ==> (#[trigger] labels@[d])@ == weekday_name(d),
                decreases 7 - day,
            {
                labels.push(String::from_str(weekday_label(day)));
                day = day + 1;
            }
            assert(texts(labels@) =~= weekday_axis());
            labels
        },
        Some(_) => {
            let keys = data.keys();
            let mut observed: Vec<String> = Vec::new();
            let mut i: usize = 0;
            while i < keys.len()
                invariant
                    i <= keys.len(),
                    observed.len() == i,
                    forall|k: int| 0 <= k < i ==> (#[trigger] observed@[k])@ == side_of(key_views(keys@)[k], side),
                decreases keys.len() - i,
            {
                let label = match side {
                    Side::X => first(&keys[i]),
                    Side::Y => second(&keys[i]),
                };
                observed.push(label);
                i = i + 1;
            }
            let labels = sorted_distinct(&observed);
            proof {
                let seen = texts(observed@);
                let listed = key_views(keys@);
                assert forall|label: Seq<char>| seen.to_set().contains(label) <==> side_labels(data@, side).contains(label) by {
                    if seen.contains(label) {
                        let k = choose|k: int| 0 <= k < seen.len() && seen[k] == label;
                        assert(listed.contains(listed[k]));
                        assert(listed.to_set().contains(listed[k]));
                        assert(data@.contains_key(listed[k]));
                    }
                    if side_labels(data@, side).contains(label) {
                        let key = choose|key: Key| #[trigger] data@.contains_key(key) && side_of(key, side) == label;
                        assert(listed.to_set().contains(key));
                        assert(listed.contains(key));
                        let k = choose|k: int| 0 <= k < listed.len() && listed[k] == key;
                        assert(seen[k] == label);
                    }
                }
                assert(seen.to_set() =~= side_labels(data@, side));
                lemma_sorted_listing_is(texts(labels@), side_labels(data@, side));
            }
            labels
        },
    }
}

} // verus!
