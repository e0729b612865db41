use git_pivot::calendar::MAX_TIMESTAMP;
use git_pivot::calendar::MIN_TIMESTAMP;
use git_pivot::category::commit_to_cat;
use git_pivot::category::commit_to_stat;
use git_pivot::category::weekday_label;
use git_pivot::category::Category;
use git_pivot::category::Statistic;
use git_pivot::record::CommitRecord;

fn record(seconds: i64, offset_minutes: i32) -> CommitRecord {
    CommitRecord::new(
        seconds,
        offset_minutes,
        Some(String::from("Alice Doe")),
        Some(String::from("alice@example.org")),
    )
    .unwrap()
}

#[test]
fn no_category_gives_the_wildcard() {
    assert_eq!(commit_to_cat(&record(1700000000, 0), None), "*");
}

#[test]
fn date_is_written_year_month_day() {
    assert_eq!(commit_to_cat(&record(1700000000, 0), Some(Category::Date)), "2023-11-14");
    assert_eq!(commit_to_cat(&record(951782400, 0), Some(Category::Date)), "2000-02-29");
    assert_eq!(commit_to_cat(&record(0, 0), Some(Category::Date)), "1970-01-01");
}

#[test]
fn date_follows_the_offset_of_the_record() {
    assert_eq!(commit_to_cat(&record(1700000000, 120), Some(Category::Date)), "2023-11-15");
    assert_eq!(commit_to_cat(&record(1709251199, 0), Some(Category::Date)), "2024-02-29");
    assert_eq!(commit_to_cat(&record(1709251199, 330), Some(Category::Date)), "2024-03-01");
    assert_eq!(commit_to_cat(&record(0, -1), Some(Category::Date)), "1969-12-31");
}

#[test]
fn week_is_the_year_and_the_day_number_from_sunday() {
    assert_eq!(commit_to_cat(&record(1700000000, 0), Some(Category::Week)), "2023-2");
    assert_eq!(commit_to_cat(&record(345599, -1439), Some(Category::Week)), "1970-0");
    assert_eq!(commit_to_cat(&record(0, 0), Some(Category::Week)), "1970-4");
}

#[test]
fn month_is_written_year_month() {
    assert_eq!(commit_to_cat(&record(1700000000, 0), Some(Category::Month)), "2023-11");
    assert_eq!(commit_to_cat(&record(1709251199, 330), Some(Category::Month)), "2024-03");
}

#[test]
fn year_is_a_plain_numeral() {
    assert_eq!(commit_to_cat(&record(1700000000, 0), Some(Category::Year)), "2023");
    assert_eq!(commit_to_cat(&record(-1, 0), Some(Category::Year)), "1969");
    assert_eq!(commit_to_cat(&record(0, 0), Some(Category::Year)), "1970");
}

#[test]
fn day_of_week_is_the_short_name() {
    assert_eq!(commit_to_cat(&record(1700000000, 0), Some(Category::DayOfWeek)), "Tue");
    assert_eq!(commit_to_cat(&record(0, 0), Some(Category::DayOfWeek)), "Thu");
    assert_eq!(commit_to_cat(&record(-1, 0), Some(Category::DayOfWeek)), "Wed");
    assert_eq!(commit_to_cat(&record(345599, -1439), Some(Category::DayOfWeek)), "Sun");
    assert_eq!(commit_to_cat(&record(1709251199, 330), Some(Category::DayOfWeek)), "Fri");
}

#[test]
fn day_of_month_has_two_digits() {
    assert_eq!(commit_to_cat(&record(0, 0), Some(Category::DayOfMonth)), "01");
    assert_eq!(commit_to_cat(&record(1700000000, 0), Some(Category::DayOfMonth)), "14");
    assert_eq!(commit_to_cat(&record(951782400, 0), Some(Category::DayOfMonth)), "29");
}

#[test]
fn hour_has_no_leading_zero() {
    assert_eq!(commit_to_cat(&record(0, 0), Some(Category::Hour)), "0");
    assert_eq!(commit_to_cat(&record(1709251199, 330), Some(Category::Hour)), "5");
    assert_eq!(commit_to_cat(&record(1700000000, 0), Some(Category::Hour)), "22");
    assert_eq!(commit_to_cat(&record(1700000000, 60), Some(Category::Hour)), "23");
    assert_eq!(commit_to_cat(&record(-1, 0), Some(Category::Hour)), "23");
}

#[test]
fn hour_is_never_the_time_stamp_itself() {
    let label = commit_to_cat(&record(1699970400, 0), Some(Category::Hour));
    assert_eq!(label, "14");
    assert_ne!(label, "1699970400");
}

#[test]
fn author_and_email_are_taken_from_the_record() {
    let r = record(1700000000, 0);
    assert_eq!(commit_to_cat(&r, Some(Category::Author)), "Alice Doe");
    assert_eq!(commit_to_cat(&r, Some(Category::AuthorEmail)), "alice@example.org");
}

#[test]
fn missing_author_gives_the_placeholder() {
    let r = CommitRecord::new(1700000000, 0, None, None).unwrap();
    assert_eq!(commit_to_cat(&r, Some(Category::Author)), "<UNKNOWN>");
    assert_eq!(commit_to_cat(&r, Some(Category::AuthorEmail)), "<UNKNOWN>");
}

#[test]
fn file_and_directory_give_their_own_name() {
    let r = record(1700000000, 0);
    assert_eq!(commit_to_cat(&r, Some(Category::File)), "File");
    assert_eq!(commit_to_cat(&r, Some(Category::Directory)), "Directory");
}

#[test]
fn statistics_contribute_constants() {
    let r = record(1700000000, 0);
    assert_eq!(commit_to_stat(&r, Statistic::Commits), 1);
    assert_eq!(commit_to_stat(&r, Statistic::Additions), 1);
    assert_eq!(commit_to_stat(&r, Statistic::Deletions), -1);
}

#[test]
fn statistics_have_names() {
    assert_eq!(Statistic::Commits.name(), "Commits");
    assert_eq!(Statistic::Additions.name(), "Additions");
    assert_eq!(Statistic::Deletions.name(), "Deletions");
}

#[test]
fn weekday_labels_run_from_monday() {
    let names: Vec<&str> = (0..7).map(weekday_label).collect();
    assert_eq!(names, vec!["Mon", "Tue", "Wed", "Thu", "Fri", "Sat", "Sun"]);
}

#[test]
fn record_keeps_what_it_was_given() {
    let r = record(1700000000, -90);
    assert_eq!(r.seconds(), 1700000000);
    assert_eq!(r.offset_minutes(), -90);
    assert_eq!(r.offset_seconds(), -5400);
    assert_eq!(r.author_name(), Some(&String::from("Alice Doe")));
    assert_eq!(r.author_email(), Some(&String::from("alice@example.org")));
    let bare = CommitRecord::new(5, 0, None, None).unwrap();
    assert_eq!(bare.author_name(), None);
    assert_eq!(bare.author_email(), None);
}

#[test]
fn record_refuses_an_offset_of_a_day_or_more() {
    assert!(CommitRecord::new(0, 1440, None, None).is_none());
    assert!(CommitRecord::new(0, -1440, None, None).is_none());
    assert!(CommitRecord::new(0, i32::MAX, None, None).is_none());
    assert!(CommitRecord::new(0, i32::MIN, None, None).is_none());
    assert!(CommitRecord::new(0, 1439, None, None).is_some());
    assert!(CommitRecord::new(0, -1439, None, None).is_some());
}

#[test]
fn record_refuses_a_time_outside_the_calendar() {
    assert!(CommitRecord::new(MAX_TIMESTAMP + 1, 0, None, None).is_none());
    assert!(CommitRecord::new(MIN_TIMESTAMP - 1, 0, None, None).is_none());
    assert!(CommitRecord::new(i64::MAX, 0, None, None).is_none());
    assert!(CommitRecord::new(i64::MIN, 0, None, None).is_none());
    assert!(CommitRecord::new(MAX_TIMESTAMP, 0, None, None).is_some());
    assert!(CommitRecord::new(MIN_TIMESTAMP, 0, None, None).is_some());
}

#[test]
fn the_ends_of_the_calendar_have_labels() {
    let categories = [
        Category::Date,
        Category::Week,
        Category::Month,
        Category::Year,
        Category::DayOfWeek,
        Category::DayOfMonth,
        Category::Hour,
    ];
    for (seconds, offset) in [
        (MIN_TIMESTAMP, 0),
        (MIN_TIMESTAMP, -1439),
        (MIN_TIMESTAMP, 1439),
        (MAX_TIMESTAMP, 0),
        (MAX_TIMESTAMP, 1439),
        (MAX_TIMESTAMP, -1439),
    ] {
        let r = record(seconds, offset);
        for category in categories {
            assert!(!commit_to_cat(&r, Some(category)).is_empty());
        }
    }
}

#[test]
fn the_first_second_of_the_calendar() {
    let r = record(MIN_TIMESTAMP, 0);
    assert_eq!(commit_to_cat(&r, Some(Category::Year)), "-262143");
    assert_eq!(commit_to_cat(&r, Some(Category::Hour)), "0");
    assert_eq!(commit_to_cat(&r, Some(Category::DayOfWeek)), "Thu");
    assert_eq!(commit_to_cat(&r, Some(Category::DayOfMonth)), "01");
    let west = record(MIN_TIMESTAMP, -1439);
    assert_eq!(commit_to_cat(&west, Some(Category::Year)), "-262144");
    assert_eq!(commit_to_cat(&west, Some(Category::Hour)), "0");
    assert_eq!(commit_to_cat(&west, Some(Category::DayOfWeek)), "Wed");
    assert_eq!(commit_to_cat(&west, Some(Category::DayOfMonth)), "31");
}

#[test]
fn the_last_second_of_the_calendar() {
    let r = record(MAX_TIMESTAMP, 0);
    assert_eq!(commit_to_cat(&r, Some(Category::Year)), "262142");
    assert_eq!(commit_to_cat(&r, Some(Category::Hour)), "23");
    assert_eq!(commit_to_cat(&r, Some(Category::DayOfWeek)), "Mon");
    assert_eq!(commit_to_cat(&r, Some(Category::DayOfMonth)), "31");
    let east = record(MAX_TIMESTAMP, 1439);
    assert_eq!(commit_to_cat(&east, Some(Category::Year)), "262143");
    assert_eq!(commit_to_cat(&east, Some(Category::Hour)), "23");
    assert_eq!(commit_to_cat(&east, Some(Category::DayOfWeek)), "Tue");
    assert_eq!(commit_to_cat(&east, Some(Category::DayOfMonth)), "01");
}
