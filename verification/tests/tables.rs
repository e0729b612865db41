use git_pivot::axis::category_values;
use git_pivot::axis::first;
use git_pivot::axis::second;
use git_pivot::axis::Side;
use git_pivot::category::Category;
use git_pivot::category::Statistic;
use git_pivot::pivot::in_date_range;
use git_pivot::pivot::pivot;
use git_pivot::pivot::record_commit;
use git_pivot::pivot::report;
use git_pivot::record::CommitRecord;
use git_pivot::render::format_table;
use git_pivot::render::render_table;
use git_pivot::render::update_max_width;
use git_pivot::table::AggregationTable;

fn by(name: &str, seconds: i64) -> CommitRecord {
    CommitRecord::new(
        seconds,
        0,
        Some(String::from(name)),
        Some(format!("{}@example.org", name)),
    )
    .unwrap()
}

fn strings(labels: &[&str]) -> Vec<String> {
    labels.iter().map(|label| String::from(*label)).collect()
}

fn cell_total(table: &AggregationTable) -> i64 {
    let mut total: i64 = 0;
    for (x, y) in table.keys() {
        total += i64::from(table.get(&x, &y).unwrap());
    }
    total
}

#[test]
fn a_new_table_has_no_cells() {
    let table = AggregationTable::new();
    assert!(table.keys().is_empty());
    assert_eq!(table.get(&String::from("a"), &String::from("b")), None);
}

#[test]
fn accumulate_starts_a_cell_at_zero() {
    let mut table = AggregationTable::new();
    table.accumulate(String::from("a"), String::from("b"), 5);
    assert_eq!(table.get(&String::from("a"), &String::from("b")), Some(5));
    assert_eq!(table.get(&String::from("b"), &String::from("a")), None);
}

#[test]
fn accumulate_adds_to_the_cell_of_the_pair() {
    let mut table = AggregationTable::new();
    table.accumulate(String::from("a"), String::from("b"), 5);
    table.accumulate(String::from("a"), String::from("c"), 1);
    table.accumulate(String::from("a"), String::from("b"), -7);
    assert_eq!(table.get(&String::from("a"), &String::from("b")), Some(-2));
    assert_eq!(table.get(&String::from("a"), &String::from("c")), Some(1));
    assert_eq!(table.keys().len(), 2);
}

#[test]
fn keys_lists_each_pair_once() {
    let mut table = AggregationTable::new();
    table.accumulate(String::from("x1"), String::from("y1"), 1);
    table.accumulate(String::from("x2"), String::from("y1"), 1);
    table.accumulate(String::from("x1"), String::from("y1"), 1);
    let mut keys = table.keys();
    keys.sort();
    assert_eq!(
        keys,
        vec![
            (String::from("x1"), String::from("y1")),
            (String::from("x2"), String::from("y1")),
        ]
    );
}

#[test]
fn first_and_second_pick_the_sides() {
    let key = (String::from("left"), String::from("right"));
    assert_eq!(first(&key), "left");
    assert_eq!(second(&key), "right");
}

#[test]
fn commits_sum_to_the_number_of_records() {
    let records = vec![by("alice", 1700000000), by("bob", 1700003600), by("alice", 1700090000),
        by("carol", 1700000001), by("bob", 1600000000)];
    for x_cat in [None, Some(Category::Author), Some(Category::Hour), Some(Category::Date)] {
        for y_cat in [None, Some(Category::DayOfWeek), Some(Category::AuthorEmail)] {
            let table = pivot(&records, x_cat, y_cat, Statistic::Commits);
            assert_eq!(cell_total(&table), 5);
        }
    }
}

#[test]
fn additions_and_deletions_sum_to_plus_and_minus_the_number_of_records() {
    let records = vec![by("alice", 1700000000), by("bob", 1700003600), by("alice", 1700090000)];
    let added = pivot(&records, Some(Category::Author), None, Statistic::Additions);
    assert_eq!(cell_total(&added), 3);
    let deleted = pivot(&records, Some(Category::Author), None, Statistic::Deletions);
    assert_eq!(cell_total(&deleted), -3);
    assert_eq!(deleted.get(&String::from("alice"), &String::from("*")), Some(-2));
}

#[test]
fn an_empty_stream_gives_an_empty_table() {
    let records: Vec<CommitRecord> = Vec::new();
    let table = pivot(&records, Some(Category::Author), Some(Category::Hour), Statistic::Commits);
    assert!(table.keys().is_empty());
    assert_eq!(cell_total(&table), 0);
}

#[test]
fn record_commit_counts_one_commit() {
    let mut table = AggregationTable::new();
    let r = by("alice", 1700000000);
    record_commit(&mut table, &r, Some(Category::Author), Some(Category::Hour), Statistic::Commits);
    record_commit(&mut table, &r, Some(Category::Author), Some(Category::Hour), Statistic::Commits);
    assert_eq!(table.get(&String::from("alice"), &String::from("22")), Some(2));
    assert_eq!(table.keys().len(), 1);
}

#[test]
fn hour_axis_is_fixed() {
    let expected: Vec<String> = (0..24).map(|hour: u32| hour.to_string()).collect();
    let empty = AggregationTable::new();
    assert_eq!(category_values(&Some(Category::Hour), &empty, Side::X), expected);
    assert_eq!(category_values(&Some(Category::Hour), &empty, Side::Y), expected);
    let table = pivot(&vec![by("alice", 1700000000)], Some(Category::Hour), None, Statistic::Commits);
    assert_eq!(category_values(&Some(Category::Hour), &table, Side::X), expected);
    assert_eq!(expected[0], "0");
    assert_eq!(expected[23], "23");
}

#[test]
fn weekday_axis_is_fixed() {
    let expected = strings(&["Mon", "Tue", "Wed", "Thu", "Fri", "Sat", "Sun"]);
    let empty = AggregationTable::new();
    assert_eq!(category_values(&Some(Category::DayOfWeek), &empty, Side::X), expected);
    let table = pivot(&vec![by("alice", 1700000000)], None, Some(Category::DayOfWeek), Statistic::Commits);
    assert_eq!(category_values(&Some(Category::DayOfWeek), &table, Side::Y), expected);
}

#[test]
fn no_category_gives_the_wildcard_axis() {
    let table = pivot(&vec![by("alice", 1700000000)], Some(Category::Author), None, Statistic::Commits);
    assert_eq!(category_values(&None, &table, Side::Y), strings(&["*"]));
    assert_eq!(category_values(&None, &AggregationTable::new(), Side::X), strings(&["*"]));
}

#[test]
fn author_axis_is_sorted_and_free_of_duplicates() {
    let records = vec![by("carol", 1), by("alice", 2), by("bob", 3), by("alice", 4), by("Bob", 5),
        by("carol", 6), by("al", 7)];
    let table = pivot(&records, Some(Category::Author), Some(Category::Hour), Statistic::Commits);
    assert_eq!(
        category_values(&Some(Category::Author), &table, Side::X),
        strings(&["Bob", "al", "alice", "bob", "carol"])
    );
}

#[test]
fn an_axis_reads_its_own_side() {
    let mut table = AggregationTable::new();
    table.accumulate(String::from("x2"), String::from("y9"), 1);
    table.accumulate(String::from("x1"), String::from("y9"), 1);
    table.accumulate(String::from("x2"), String::from("y3"), 1);
    assert_eq!(category_values(&Some(Category::Author), &table, Side::X), strings(&["x1", "x2"]));
    assert_eq!(category_values(&Some(Category::Author), &table, Side::Y), strings(&["y3", "y9"]));
}

#[test]
fn open_categories_list_what_was_seen() {
    let records = vec![by("bob", 1700000000), by("alice", 1600000000), by("bob", 1700000000)];
    let by_mail = pivot(&records, Some(Category::AuthorEmail), None, Statistic::Commits);
    assert_eq!(
        category_values(&Some(Category::AuthorEmail), &by_mail, Side::X),
        strings(&["alice@example.org", "bob@example.org"])
    );
    let by_date = pivot(&records, None, Some(Category::Date), Statistic::Commits);
    assert_eq!(
        category_values(&Some(Category::Date), &by_date, Side::Y),
        strings(&["2020-09-13", "2023-11-14"])
    );
    let by_year = pivot(&records, Some(Category::Year), None, Statistic::Commits);
    assert_eq!(category_values(&Some(Category::Year), &by_year, Side::X), strings(&["2020", "2023"]));
}

#[test]
fn an_open_axis_of_an_empty_table_is_empty() {
    let empty = AggregationTable::new();
    assert!(category_values(&Some(Category::Author), &empty, Side::X).is_empty());
}

#[test]
fn update_max_width_keeps_the_greater_width() {
    let mut widths = vec![3, 1];
    update_max_width("ab", 0, &mut widths);
    assert_eq!(widths, vec![3, 1]);
    update_max_width("abcd", 1, &mut widths);
    assert_eq!(widths, vec![3, 4]);
    update_max_width("abc", 0, &mut widths);
    assert_eq!(widths, vec![3, 4]);
}

#[test]
fn update_max_width_adds_a_new_column() {
    let mut widths = vec![0];
    update_max_width("abc", 1, &mut widths);
    assert_eq!(widths, vec![0, 3]);
    update_max_width("", 5, &mut widths);
    assert_eq!(widths, vec![0, 3, 0]);
}

#[test]
fn update_max_width_counts_characters() {
    let mut widths = vec![0];
    update_max_width("h\u{e9}llo \u{4e16}\u{754c}", 0, &mut widths);
    assert_eq!(widths, vec![8]);
}

#[test]
fn three_commits_without_categories() {
    let records = vec![by("alice", 1700000000), by("bob", 1700003600), by("alice", 1700090000)];
    let table = pivot(&records, None, None, Statistic::Commits);
    assert_eq!(category_values(&None, &table, Side::X), strings(&["*"]));
    assert_eq!(category_values(&None, &table, Side::Y), strings(&["*"]));
    assert_eq!(table.get(&String::from("*"), &String::from("*")), Some(3));
    let text = format_table(&None, &None, &table);
    assert_eq!(text, "  | *\n--+--\n* | 3");
    let lines: Vec<&str> = text.split('\n').collect();
    assert_eq!(lines[2], "* | 3");
}

#[test]
fn commits_by_author() {
    let records = vec![by("alice", 1700000000), by("bob", 1700003600), by("alice", 1700090000)];
    let table = pivot(&records, Some(Category::Author), None, Statistic::Commits);
    assert_eq!(table.get(&String::from("alice"), &String::from("*")), Some(2));
    assert_eq!(table.get(&String::from("bob"), &String::from("*")), Some(1));
    let text = format_table(&Some(Category::Author), &None, &table);
    assert_eq!(text, "      | *\n------+--\nalice | 2\n  bob | 1");
}

#[test]
fn absent_pairs_are_shown_as_zero() {
    let records = vec![by("alice", 1700000000), by("bob", 1700003600), by("alice", 1700090000)];
    let table = pivot(&records, Some(Category::Author), Some(Category::Date), Statistic::Commits);
    let text = format_table(&Some(Category::Author), &Some(Category::Date), &table);
    let expected = [
        "      | 2023-11-14 | 2023-11-15",
        "------+------------+-----------",
        "alice |          1 |          1",
        "  bob |          1 |          0",
    ];
    assert_eq!(text, expected.join("\n"));
}

#[test]
fn render_table_takes_the_axes_as_given() {
    let mut table = AggregationTable::new();
    table.accumulate(String::from("b"), String::from("y"), 12345);
    table.accumulate(String::from("a"), String::from("x"), -3);
    let text = render_table(&strings(&["b", "a", "zz"]), &strings(&["y", "x"]), &table);
    let expected = [
        "   |     y |  x",
        "---+-------+---",
        " b | 12345 |  0",
        " a |     0 | -3",
        "zz |     0 |  0",
    ];
    assert_eq!(text, expected.join("\n"));
}

#[test]
fn render_table_without_rows_or_columns() {
    let table = AggregationTable::new();
    assert_eq!(render_table(&Vec::new(), &Vec::new(), &table), "\n");
    assert_eq!(render_table(&Vec::new(), &strings(&["ab"]), &table), " | ab\n-+---");
    assert_eq!(render_table(&strings(&["ab"]), &Vec::new(), &table), "  \n--\nab");
}

#[test]
fn rendering_twice_gives_the_same_text() {
    let records = vec![by("alice", 1700000000), by("bob", 1700003600), by("alice", 1700090000)];
    let table = pivot(&records, Some(Category::Author), Some(Category::Hour), Statistic::Commits);
    let once = format_table(&Some(Category::Author), &Some(Category::Hour), &table);
    let again = format_table(&Some(Category::Author), &Some(Category::Hour), &table);
    assert_eq!(once, again);
}

#[test]
fn rendering_does_not_depend_on_the_order_of_the_commits() {
    let forward = vec![by("alice", 1700000000), by("bob", 1700003600), by("carol", 1700090000)];
    let backward = vec![by("carol", 1700090000), by("bob", 1700003600), by("alice", 1700000000)];
    let one = pivot(&forward, Some(Category::Author), Some(Category::Date), Statistic::Commits);
    let other = pivot(&backward, Some(Category::Author), Some(Category::Date), Statistic::Commits);
    assert_eq!(
        format_table(&Some(Category::Author), &Some(Category::Date), &one),
        format_table(&Some(Category::Author), &Some(Category::Date), &other)
    );
}

#[test]
fn every_column_is_as_wide_as_its_widest_cell() {
    let records = vec![by("alice", 1700000000), by("bartholomew", 1700003600), by("al", 1700090000)];
    let table = pivot(&records, Some(Category::Author), Some(Category::DayOfWeek), Statistic::Commits);
    let text = format_table(&Some(Category::Author), &Some(Category::DayOfWeek), &table);
    let lines: Vec<&str> = text.split('\n').collect();
    assert_eq!(lines.len(), 2 + 3);
    let widths: Vec<usize> = lines[1].split("-+-").map(|dashes| dashes.chars().count()).collect();
    assert_eq!(widths, vec![11, 3, 3, 3, 3, 3, 3, 3]);
    for (index, line) in lines.iter().enumerate() {
        if index == 1 {
            continue;
        }
        let cells: Vec<&str> = line.split(" | ").collect();
        assert_eq!(cells.len(), widths.len());
        for (cell, width) in cells.iter().zip(widths.iter()) {
            assert_eq!(cell.chars().count(), *width);
            assert!(cell.trim_start().chars().count() <= *width);
        }
    }
    assert_eq!(lines[4], "bartholomew |   0 |   1 |   0 |   0 |   0 |   0 |   0");
}

#[test]
fn report_names_the_statistic() {
    let records = vec![by("alice", 1700000000), by("bob", 1700003600), by("alice", 1700090000)];
    let table = pivot(&records, None, None, Statistic::Commits);
    assert_eq!(
        report(&None, &None, Statistic::Commits, &table),
        "Statistic for Commits\n  | *\n--+--\n* | 3\n"
    );
    let deleted = pivot(&records, None, None, Statistic::Deletions);
    assert_eq!(
        report(&None, &None, Statistic::Deletions, &deleted),
        "Statistic for Deletions\n  |  *\n--+---\n* | -3\n"
    );
}

#[test]
fn date_range_counts_both_bounds() {
    assert!(in_date_range(None, None, 5));
    assert!(in_date_range(Some(5), None, 5));
    assert!(in_date_range(None, Some(5), 5));
    assert!(in_date_range(Some(1), Some(9), 5));
    assert!(!in_date_range(Some(6), None, 5));
    assert!(!in_date_range(None, Some(4), 5));
    assert!(!in_date_range(Some(6), Some(4), 5));
    assert!(in_date_range(Some(i64::MIN), Some(i64::MAX), 0));
}
