//! The punchcard: commits counted by day of the week and hour of the day.

use vstd::prelude::*;
use vstd::array::ArrayAdditionalExecFns;
use vstd::string::StringExecFns;
use crate::calendar::hour_at;
use crate::calendar::hour_of_day;
use crate::calendar::weekday_at;
use crate::calendar::weekday_index;
use crate::category::weekday_label;
use crate::category::weekday_name;
use crate::record::CommitRecord;
use crate::record::CommitView;
use crate::statistics::per_commit::fed;
use crate::statistics::per_commit::has_room_for_all;
use crate::statistics::per_commit::PerCommitStatistic;
use crate::text::decimal;
use crate::text::decimal_string;
use crate::text::join;
use crate::text::joined;
use crate::text::left_pad;
use crate::text::pad_left;
use crate::text::run;
use crate::text::run_of;
use crate::text::texts;

verus! {

/// The width of every column of counts.
pub const COLUMN_WIDTH: usize = 5;

/// A grid of counts has a row for each of the 7 days of the week, and each
/// row a count for each of the 24 hours of the day.
pub open spec fn is_punch_grid(grid: Seq<Seq<nat>>) -> bool {
    &&& grid.len() == 7
    &&& forall|day: int| 0 <= day < 7 ==> (#[trigger] grid[day]).len() == 24
}

/// The grid in which nothing is counted.
pub open spec fn empty_grid() -> Seq<Seq<nat>> {
    Seq::new(7, |day: int| Seq::new(24, |hour: int| 0nat))
}

/// The grid after one more commit on the given day and hour.
pub open spec fn punched(grid: Seq<Seq<nat>>, day: int, hour: int) -> Seq<Seq<nat>> {
    grid.update(day, grid[day].update(hour, grid[day][hour] + 1))
}

/// The sum of the counts of a row.
pub open spec fn row_total(row: Seq<nat>) -> nat
    decreases row.len(),
{
    if row.len() == 0 {
        0
    } else {
        row_total(row.drop_last()) + row.last()
    }
}

/// The sum of all the counts of a grid.
pub open spec fn grid_total(grid: Seq<Seq<nat>>) -> nat
    decreases grid.len(),
{
    if grid.len() == 0 {
        0
    } else {
        grid_total(grid.drop_last()) + row_total(grid.last())
    }
}

/// The counts of a row, each right-aligned in its column.
pub open spec fn count_cells(row: Seq<nat>) -> Seq<Seq<char>> {
    Seq::new(row.len(), |hour: int| pad_left(decimal(row[hour] as int), COLUMN_WIDTH as nat))
}

/// The header line: the hours `0` to `23`, each right-aligned in its column.
pub open spec fn hour_header() -> Seq<char> {
    "    | "@ + joined(count_cells(Seq::new(24, |hour: int| hour as nat)), " | "@) + " |"@
}

/// The line under the header: dashes over every column.
pub open spec fn punch_rule() -> Seq<char> {
    "----+-"@ + joined(Seq::new(24, |hour: int| run('-', COLUMN_WIDTH as nat)), "-+-"@) + "-+"@
}

/// The line of a day of the week: its name, then its 24 counts.
pub open spec fn day_line(day: int, row: Seq<nat>) -> Seq<char> {
    weekday_name(day) + " | "@ + joined(count_cells(row), " | "@) + " |"@
}

/// The lines of the first `days` days of the week, each ended by a line
/// feed.
pub open spec fn day_lines(grid: Seq<Seq<nat>>, days: nat) -> Seq<char>
    decreases days,
{
    if days == 0 {
        Seq::empty()
    } else {
        day_lines(grid, (days - 1) as nat) + day_line(days - 1, grid[days - 1]) + "\n"@
    }
}

/// The report of a grid: the title, a line of `=` under it, an empty line,
/// the header, the rule, and the lines of the days from Monday to Sunday.
pub open spec fn punchcard_text(grid: Seq<Seq<nat>>) -> Seq<char> {
    "Punchcard\n"@ + "=========\n\n"@ + hour_header() + "\n"@ + punch_rule() + "\n"@ + day_lines(
        grid,
        7,
    )
}

/// Replacing one count of a row changes the sum of the row by the change of
/// that count.
pub proof fn lemma_row_total_update(row: Seq<nat>, hour: int, count: nat)
    requires
        0 <= hour < row.len(),
    ensures
        row_total(row.update(hour, count)) == row_total(row) - row[hour] + count,
    decreases row.len(),
{
    let updated = row.update(hour, count);
    if hour == row.len() - 1 {
        assert(updated.drop_last() =~= row.drop_last());
    } else {
        lemma_row_total_update(row.drop_last(), hour, count);
        assert(updated.drop_last() =~= row.drop_last().update(hour, count));
    }
}

/// Replacing one row of a grid changes the sum of the grid by the change of
/// the sum of that row.
pub proof fn lemma_grid_total_update(grid: Seq<Seq<nat>>, day: int, row: Seq<nat>)
    requires
        0 <= day < grid.len(),
    ensures
        grid_total(grid.update(day, row)) == grid_total(grid) - row_total(grid[day]) + row_total(row),
    decreases grid.len(),
{
    let updated = grid.update(day, row);
    if day == grid.len() - 1 {
        assert(updated.drop_last() =~= grid.drop_last());
    } else {
        lemma_grid_total_update(grid.drop_last(), day, row);
        assert(updated.drop_last() =~= grid.drop_last().update(day, row));
    }
}

/// One more commit raises the sum of all counts by one and keeps the shape
/// of the grid.
pub proof fn lemma_punched(grid: Seq<Seq<nat>>, day: int, hour: int)
    requires
        is_punch_grid(grid),
        0 <= day < 7,
        0 <= hour < 24,
    ensures
        is_punch_grid(punched(grid, day, hour)),
        grid_total(punched(grid, day, hour)) == grid_total(grid) + 1,
        punched(grid, day, hour)[day][hour] == grid[day][hour] + 1,
        forall|d: int, h: int|
            0 <= d < 7 && 0 <= h < 24 && (d != day || h != hour) ==> #[trigger] punched(
                grid,
                day,
                hour,
            )[d][h] == grid[d][h],
{
    let row = grid[day].update(hour, grid[day][hour] + 1);
    lemma_row_total_update(grid[day], hour, grid[day][hour] + 1);
    lemma_grid_total_update(grid, day, row);
}

/// Nothing is counted in the empty grid.
pub proof fn lemma_empty_grid_total()
    ensures
        is_punch_grid(empty_grid()),
        grid_total(empty_grid()) == 0,
{
    assert forall|day: int| 0 <= day < 7 implies row_total(#[trigger] empty_grid()[day]) == 0 by {
        lemma_zero_row(empty_grid()[day]);
    }
    lemma_zero_rows(empty_grid());
}

proof fn lemma_zero_row(row: Seq<nat>)
    requires
        forall|hour: int| 0 <= hour < row.len() ==> #[trigger] row[hour] == 0,
    ensures
        row_total(row) == 0,
    decreases row.len(),
{
    if row.len() > 0 {
        lemma_zero_row(row.drop_last());
    }
}

proof fn lemma_zero_rows(grid: Seq<Seq<nat>>)
    requires
        forall|day: int| 0 <= day < grid.len() ==> row_total(#[trigger] grid[day]) == 0,
    ensures
        grid_total(grid) == 0,
    decreases grid.len(),
{
    if grid.len() > 0 {
        lemma_zero_rows(grid.drop_last());
    }
}

/// A punchcard: for each day of the week and each hour of the day, the
/// number of commits made then, by the local time of their authors.
pub struct Punchcard {
    punches: [[u32; 24]; 7],
}

impl View for Punchcard {
    type V = Seq<Seq<nat>>;

    closed spec fn view(&self) -> Seq<Seq<nat>> {
        Seq::new(7, |day: int| Seq::new(24, |hour: int| self.punches@[day]@[hour] as nat))
    }
}

impl Punchcard {
    /// Makes a punchcard on which nothing is counted.
    pub fn new() -> (card: Punchcard)
        ensures
            card@ == empty_grid(),
    {
        let card = Punchcard { punches: [[0; 24]; 7] };
        assert(card@ =~~= empty_grid());
        card
    }

    /// The count of one day of the week, Monday being day 0, and one hour.
    pub fn at(&self, weekday: u32, hour: u32) -> (count: u32)
        requires
            weekday < 7,
            hour < 24,
        ensures
            count == self@[weekday as int][hour as int],
            is_punch_grid(self@),
    {
        self.punches[weekday as usize][hour as usize]
    }

    /// The 24 counts of one day of the week, Monday being day 0.
    pub fn commits_for_weekday(&self, weekday: u32) -> (counts: Vec<u32>)
        requires
            weekday < 7,
        ensures
            counts@.len() == 24,
            forall|hour: int| 0 <= hour < 24 ==> #[trigger] counts@[hour] == self@[weekday as int][hour],
    {
        let mut counts: Vec<u32> = Vec::new();
        let mut hour: u32 = 0;
        while hour < 24
            invariant
                hour <= 24,
                weekday < 7,
                counts@.len() == hour,
                forall|h: int| 0 <= h < hour ==> #[trigger] counts@[h] == self@[weekday as int][h],
            decreases 24 - hour,
        {
            counts.push(self.at(weekday, hour));
            hour = hour + 1;
        }
        counts
    }
}

fn count_texts(counts: &Vec<u32>) -> (cells: Vec<String>)
    ensures
        texts(cells@) == count_cells(Seq::new(counts@.len(), |hour: int| counts@[hour] as nat)),
{
    let mut cells: Vec<String> = Vec::new();
    let mut i: usize = 0;
    while i < counts.len()
        invariant
            i <= counts.len(),
            cells@.len() == i,
            forall|k: int| 0 <= k < i ==> (#[trigger] cells@[k])@ == pad_left(decimal(counts@[k] as int), COLUMN_WIDTH as nat),
        decreases counts.len() - i,
    {
        let number = decimal_string(counts[i] as i64);
        cells.push(left_pad(number.as_str(), COLUMN_WIDTH));
        i = i + 1;
    }
    assert(texts(cells@) =~= count_cells(Seq::new(counts@.len(), |hour: int| counts@[hour] as nat)));
    cells
}

impl PerCommitStatistic for Punchcard {
    open spec fn has_room(gathered: Seq<Seq<nat>>, record: CommitView) -> bool {
        gathered[weekday_index(record.seconds, record.offset_seconds())][hour_of_day(
            record.seconds,
            record.offset_seconds(),
        )] < u32::MAX
    }

    open spec fn counted(gathered: Seq<Seq<nat>>, record: CommitView) -> Seq<Seq<nat>> {
        punched(
            gathered,
            weekday_index(record.seconds, record.offset_seconds()),
            hour_of_day(record.seconds, record.offset_seconds()),
        )
    }

    open spec fn result_text(gathered: Seq<Seq<nat>>) -> Seq<char> {
        punchcard_text(gathered)
    }

    /// Counts the commit on the day of the week and the hour of its local
    /// time.
    fn process_commit(&mut self, record: &CommitRecord) {
        let seconds = record.seconds();
        let offset = record.offset_seconds();
        let day = weekday_at(seconds, offset);
        let hour = hour_at(seconds, offset);
        let ghost before = self@;
        let mut row = self.punches[day as usize];
        let count = row[hour as usize] + 1;
        row.set(hour as usize, count);
        self.punches.set(day as usize, row);
        assert(self@ =~~= punched(before, day as int, hour as int));
    }

    /// Writes the punchcard: the title, the header of the hours, and a line
    /// of counts for each day from Monday to Sunday, every column 5 wide.
    fn print_result(&self) -> (text: String) {
        let mut text = String::from_str("Punchcard\n");
        text.append("=========\n\n");
        let mut hours: Vec<u32> = Vec::new();
        let mut hour: u32 = 0;
        while hour < 24
            invariant
                hour <= 24,
                hours@.len() == hour,
                forall|h: int| 0 <= h < hour ==> #[trigger] hours@[h] == h,
            decreases 24 - hour,
        {
            hours.push(hour);
            hour = hour + 1;
        }
        let header = count_texts(&hours);
        assert(Seq::new(hours@.len(), |h: int| hours@[h] as nat) =~= Seq::new(24, |h: int| h as nat));
        text.append("    | ");
        text.append(join(&header, " | ").as_str());
        text.append(" |");
        text.append("\n");
        let mut dashes: Vec<String> = Vec::new();
        let mut column: u32 = 0;
        while column < 24
            invariant
                column <= 24,
                dashes@.len() == column,
                forall|c: int| 0 <= c < column ==> (#[trigger] dashes@[c])@ == run('-', COLUMN_WIDTH as nat),
            decreases 24 - column,
        {
            proof {
                reveal_strlit("-");
            }
            dashes.push(run_of("-", COLUMN_WIDTH));
            column = column + 1;
        }
        assert(texts(dashes@) =~= Seq::new(24, |h: int| run('-', COLUMN_WIDTH as nat)));
        text.append("----+-");
        text.append(join(&dashes, "-+-").as_str());
        text.append("-+");
        text.append("\n");
        let ghost head = text@;
        assert(head =~= "Punchcard\n"@ + "=========\n\n"@ + hour_header() + "\n"@ + punch_rule() + "\n"@);
        let mut day: u32 = 0;
        while day < 7
            invariant
                day <= 7,
                text@ == head + day_lines(self@, day as nat),
            decreases 7 - day,
        {
            let counts = self.commits_for_weekday(day);
            let cells = count_texts(&counts);
            assert(Seq::new(counts@.len(), |h: int| counts@[h] as nat) =~= self@[day as int]);
            text.append(weekday_label(day));
            text.append(" | ");
            text.append(join(&cells, " | ").as_str());
            text.append(" |");
            text.append("\n");
            assert(text@ =~= head + day_lines(self@, (day + 1) as nat));
            day = day + 1;
        }
        text
    }
}

/// A punchcard that started empty holds as many counts as commits were fed
/// to it.
pub proof fn lemma_punchcard_total(records: Seq<CommitView>)
    ensures
        is_punch_grid(fed::<Punchcard>(empty_grid(), records)),
        grid_total(fed::<Punchcard>(empty_grid(), records)) == records.len(),
    decreases records.len(),
{
    if records.len() == 0 {
        lemma_empty_grid_total();
    } else {
        lemma_punchcard_total(records.drop_last());
        let last = records.last();
        lemma_punched(
            fed::<Punchcard>(empty_grid(), records.drop_last()),
            weekday_index(last.seconds, last.offset_seconds()),
            hour_of_day(last.seconds, last.offset_seconds()),
        );
    }
}

/// No count of a row is greater than the sum of the row.
pub proof fn lemma_count_within_row(row: Seq<nat>, hour: int)
    requires
        0 <= hour < row.len(),
    ensures
        row[hour] <= row_total(row),
    decreases row.len(),
{
    if hour < row.len() - 1 {
        lemma_count_within_row(row.drop_last(), hour);
    }
}

/// No count of a grid is greater than the sum of all its counts.
pub proof fn lemma_count_within_grid(grid: Seq<Seq<nat>>, day: int, hour: int)
    requires
        0 <= day < grid.len(),
        0 <= hour < grid[day].len(),
    ensures
        grid[day][hour] <= grid_total(grid),
    decreases grid.len(),
{
    if day < grid.len() - 1 {
        lemma_count_within_grid(grid.drop_last(), day, hour);
    } else {
        lemma_count_within_row(grid[day], hour);
    }
}

/// A punchcard that starts empty has room for every commit of a sequence
/// that is no longer than a counter can count.
pub proof fn lemma_punchcard_room(records: Seq<CommitView>)
    requires
        records.len() <= u32::MAX,
    ensures
        has_room_for_all::<Punchcard>(empty_grid(), records),
{
    assert forall|k: int| 0 <= k < records.len() implies Punchcard::has_room(
        #[trigger] fed::<Punchcard>(empty_grid(), records.take(k)),
        records[k],
    ) by {
        let grid = fed::<Punchcard>(empty_grid(), records.take(k));
        lemma_punchcard_total(records.take(k));
        lemma_count_within_grid(
            grid,
            weekday_index(records[k].seconds, records[k].offset_seconds()),
            hour_of_day(records[k].seconds, records[k].offset_seconds()),
        );
    }
}

} // verus!
