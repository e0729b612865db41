use git_pivot::record::CommitRecord;
use git_pivot::statistics::per_commit::process_all;
use git_pivot::statistics::CommitCountByAuthor;
use git_pivot::statistics::PerCommitStatistic;
use git_pivot::statistics::Punchcard;

const DAYS: [&str; 7] = ["Mon", "Tue", "Wed", "Thu", "Fri", "Sat", "Sun"];

fn at(seconds: i64, offset_minutes: i32) -> CommitRecord {
    CommitRecord::new(seconds, offset_minutes, None, None).unwrap()
}

fn mail(address: &str) -> CommitRecord {
    CommitRecord::new(1700000000, 0, Some(String::from("Somebody")), Some(String::from(address)))
        .unwrap()
}

fn punch_total(card: &Punchcard) -> u64 {
    let mut total: u64 = 0;
    for day in 0..7 {
        for hour in 0..24 {
            total += u64::from(card.at(day, hour));
        }
    }
    total
}

fn header_lines() -> Vec<String> {
    let hours: Vec<String> = (0..24).map(|hour| format!("{:>5}", hour)).collect();
    let dashes: Vec<String> = (0..24).map(|_| String::from("-----")).collect();
    vec![
        String::from("Punchcard"),
        String::from("========="),
        String::new(),
        format!("    | {} |", hours.join(" | ")),
        format!("----+-{}-+", dashes.join("-+-")),
    ]
}

#[test]
fn a_new_punchcard_is_empty() {
    let card = Punchcard::new();
    assert_eq!(punch_total(&card), 0);
    for day in 0..7 {
        assert_eq!(card.commits_for_weekday(day), vec![0u32; 24]);
    }
}

#[test]
fn one_commit_on_tuesday_at_two() {
    let mut card = Punchcard::new();
    card.process_commit(&at(1699963200, 120));
    for day in 0..7 {
        for hour in 0..24 {
            let expected = if day == 1 && hour == 14 { 1 } else { 0 };
            assert_eq!(card.at(day, hour), expected);
        }
    }
    let text = card.print_result();
    let lines: Vec<&str> = text.split('\n').collect();
    assert_eq!(lines.len(), 5 + 7 + 1);
    assert_eq!(lines[12], "");
    for (index, line) in header_lines().iter().enumerate() {
        assert_eq!(lines[index], line);
    }
    for day in 0..7 {
        let cells: Vec<String> = (0..24)
            .map(|hour| if day == 1 && hour == 14 { String::from("    1") } else { String::from("    0") })
            .collect();
        assert_eq!(lines[5 + day], format!("{} | {} |", DAYS[day], cells.join(" | ")));
    }
    let tuesday: Vec<&str> = lines[6].split(" | ").collect();
    assert_eq!(tuesday[0], "Tue");
    assert_eq!(tuesday[1 + 14], "    1");
    assert_eq!(tuesday[1 + 13], "    0");
}

#[test]
fn the_punchcard_goes_by_the_local_time_of_the_record() {
    let mut card = Punchcard::new();
    card.process_commit(&at(1700000000, 0));
    card.process_commit(&at(1700000000, 120));
    card.process_commit(&at(1700000000, -600));
    card.process_commit(&at(0, 0));
    card.process_commit(&at(-1, 0));
    assert_eq!(card.at(1, 22), 1);
    assert_eq!(card.at(2, 0), 1);
    assert_eq!(card.at(1, 12), 1);
    assert_eq!(card.at(3, 0), 1);
    assert_eq!(card.at(2, 23), 1);
    assert_eq!(punch_total(&card), 5);
}

#[test]
fn punches_sum_to_the_number_of_records() {
    let mut records = Vec::new();
    for step in 0..500 {
        records.push(at(1700000000 + step * 7919, ((step % 49) as i32 - 24) * 30));
    }
    let mut card = Punchcard::new();
    process_all(&mut card, &records);
    assert_eq!(punch_total(&card), 500);
}

#[test]
fn an_empty_stream_leaves_the_punchcard_empty() {
    let mut card = Punchcard::new();
    process_all(&mut card, &Vec::new());
    assert_eq!(punch_total(&card), 0);
    let text = card.print_result();
    let mut expected = header_lines();
    for day in DAYS {
        let cells: Vec<String> = (0..24).map(|_| String::from("    0")).collect();
        expected.push(format!("{} | {} |", day, cells.join(" | ")));
    }
    expected.push(String::new());
    assert_eq!(text, expected.join("\n"));
}

#[test]
fn punchcard_columns_keep_their_width() {
    let mut card = Punchcard::new();
    for _ in 0..123 {
        card.process_commit(&at(0, 0));
    }
    assert_eq!(card.at(3, 0), 123);
    let text = card.print_result();
    let thursday = text.split('\n').nth(5 + 3).unwrap().to_string();
    assert!(thursday.starts_with("Thu |   123 |     0 | "));
    assert_eq!(thursday.chars().count(), 3 + 24 * 8 + 2);
}

#[test]
fn commits_for_weekday_gives_the_row() {
    let mut card = Punchcard::new();
    card.process_commit(&at(0, 0));
    card.process_commit(&at(3600, 0));
    card.process_commit(&at(3601, 0));
    let thursday = card.commits_for_weekday(3);
    assert_eq!(thursday.len(), 24);
    assert_eq!(thursday[0], 1);
    assert_eq!(thursday[1], 2);
    assert_eq!(thursday[2], 0);
}

#[test]
fn a_new_author_count_is_empty() {
    let counts = CommitCountByAuthor::new();
    assert_eq!(counts.print_result(), "");
    assert_eq!(counts.count_of(&String::from("alice@example.org")), 0);
}

#[test]
fn authors_are_counted_by_address() {
    let mut counts = CommitCountByAuthor::new();
    for address in ["a@x", "b@x", "a@x", "c@x", "a@x", "b@x"] {
        counts.process_commit(&mail(address));
    }
    assert_eq!(counts.count_of(&String::from("a@x")), 3);
    assert_eq!(counts.count_of(&String::from("b@x")), 2);
    assert_eq!(counts.count_of(&String::from("c@x")), 1);
    assert_eq!(counts.count_of(&String::from("d@x")), 0);
}

#[test]
fn authors_are_listed_from_the_most_commits_down() {
    let mut counts = CommitCountByAuthor::new();
    for address in ["c@x", "a@x", "b@x", "a@x", "b@x", "a@x"] {
        counts.process_commit(&mail(address));
    }
    assert_eq!(counts.print_result(), "a@x: 3\nb@x: 2\nc@x: 1\n");
}

#[test]
fn authors_with_equal_counts_keep_their_order() {
    let mut counts = CommitCountByAuthor::new();
    for address in ["a@x", "b@x", "c@x", "b@x", "d@x"] {
        counts.process_commit(&mail(address));
    }
    assert_eq!(counts.print_result(), "b@x: 2\na@x: 1\nc@x: 1\nd@x: 1\n");
}

#[test]
fn a_commit_without_address_is_not_counted() {
    let mut counts = CommitCountByAuthor::new();
    counts.process_commit(&at(1700000000, 0));
    counts.process_commit(&mail("a@x"));
    counts.process_commit(&at(1700000000, 0));
    assert_eq!(counts.print_result(), "a@x: 1\n");
}

#[test]
fn process_all_feeds_every_record_once() {
    let records = vec![mail("a@x"), mail("b@x"), mail("a@x")];
    let mut counts = CommitCountByAuthor::new();
    process_all(&mut counts, &records);
    assert_eq!(counts.count_of(&String::from("a@x")), 2);
    assert_eq!(counts.count_of(&String::from("b@x")), 1);
    let mut card = Punchcard::new();
    process_all(&mut card, &records);
    assert_eq!(card.at(1, 22), 3);
}
