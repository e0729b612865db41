//! Categories and statistics: the label of a commit on an axis, and what a
//! commit adds to a sum.

use vstd::prelude::*;
use vstd::string::StringExecFns;
use crate::calendar::format_at;
use crate::calendar::hour_at;
use crate::calendar::hour_of_day;
use crate::calendar::local_format;
use crate::calendar::local_year;
use crate::calendar::weekday_at;
use crate::calendar::weekday_index;
use crate::calendar::year_at;
use crate::record::CommitRecord;
use crate::record::CommitView;
use crate::text::decimal;
use crate::text::decimal_string;

verus! {

/// A rule that gives each commit a label on one axis of the table.
#[derive(Clone, Copy, Debug, PartialEq, Eq, Structural)]
pub enum Category {
    /// The local date, `YYYY-MM-DD`.
    Date,
    /// The year and the number of the day of the week, Sunday being 0.
    Week,
    /// The year and the month, `YYYY-MM`.
    Month,
    /// The year.
    Year,
    /// The name of the day of the week.
    DayOfWeek,
    /// The day of the month in two digits.
    DayOfMonth,
    /// The hour of the day.
    Hour,
    /// The author's display name.
    Author,
    /// The author's e-mail address.
    AuthorEmail,
    /// Reserved: a record holds no file, so the label is the category's name.
    File,
    /// Reserved: a record holds no directory, so the label is the category's
    /// name.
    Directory,
}

/// A rule that gives each commit a number to add to a sum.
#[derive(Clone, Copy, Debug, PartialEq, Eq, Structural)]
pub enum Statistic {
    /// One per commit.
    Commits,
    /// Stands for added lines; a record holds no line counts, so each commit
    /// counts one.
    Additions,
    /// Stands for deleted lines; a record holds no line counts, so each
    /// commit counts minus one.
    Deletions,
}

/// The label of an axis without a category.
pub open spec fn wildcard() -> Seq<char> {
    "*"@
}

/// The label that stands for a missing author name or e-mail address.
pub open spec fn unknown_author() -> Seq<char> {
    "<UNKNOWN>"@
}

/// The short English name of a day of the week, Monday being day 0.
pub open spec fn weekday_name(day: int) -> Seq<char> {
    if day == 0 {
        "Mon"@
    } else if day == 1 {
        "Tue"@
    } else if day == 2 {
        "Wed"@
    } else if day == 3 {
        "Thu"@
    } else if day == 4 {
        "Fri"@
    } else if day == 5 {
        "Sat"@
    } else {
        "Sun"@
    }
}

/// The label of a commit under a category, or the wildcard under none.
pub open spec fn category_label(record: CommitView, category: Option<Category>) -> Seq<char> {
    match category {
        None => wildcard(),
        Some(Category::Date) => local_format(record.seconds, record.offset_seconds(), "%Y-%m-%d"@),
        Some(Category::Week) => local_format(record.seconds, record.offset_seconds(), "%Y-%w"@),
        Some(Category::Month) => local_format(record.seconds, record.offset_seconds(), "%Y-%m"@),
        Some(Category::Year) => decimal(local_year(record.seconds, record.offset_seconds())),
        Some(Category::DayOfWeek) => weekday_name(
            weekday_index(record.seconds, record.offset_seconds()),
        ),
        Some(Category::DayOfMonth) => local_format(record.seconds, record.offset_seconds(), "%d"@),
        Some(Category::Hour) => decimal(hour_of_day(record.seconds, record.offset_seconds())),
        Some(Category::Author) => match record.author_name {
            Some(name) => name,
            None => unknown_author(),
        },
        Some(Category::AuthorEmail) => match record.author_email {
            Some(email) => email,
            None => unknown_author(),
        },
        Some(Category::File) => "File"@,
        Some(Category::Directory) => "Directory"@,
    }
}

/// What one commit adds to a sum under a statistic.
pub open spec fn contribution(statistic: Statistic) -> int {
    match statistic {
        Statistic::Commits => 1,
        Statistic::Additions => 1,
        Statistic::Deletions => -1,
    }
}

/// The name of a statistic.
pub open spec fn statistic_name(statistic: Statistic) -> Seq<char> {
    match statistic {
        Statistic::Commits => "Commits"@,
        Statistic::Additions => "Additions"@,
        Statistic::Deletions => "Deletions"@,
    }
}

/// Writes the short English name of a day of the week, Monday being day 0.
pub fn weekday_label(day: u32) -> (name: &'static str)
    requires
        day < 7,
    ensures
        name@ == weekday_name(day as int),
{
    if day == 0 {
        "Mon"
    } else if day == 1 {
        "Tue"
    } else if day == 2 {
        "Wed"
    } else if day == 3 {
        "Thu"
    } else if day == 4 {
        "Fri"
    } else if day == 5 {
        "Sat"
    } else {
        "Sun"
    }
}

/// Gives the label of a commit under a category, or the wildcard under none.
/// A missing name or address gives the placeholder label, never a failure.
pub fn commit_to_cat(record: &CommitRecord, category: Option<Category>) -> (label: String)
    ensures
        label@ == category_label(record@, category),
{
    let seconds = record.seconds();
    let offset = record.offset_seconds();
    match category {
        None => String::from_str("*"),
        Some(Category::Date) => format_at(seconds, offset, "%Y-%m-%d"),
        Some(Category::Week) => format_at(seconds, offset, "%Y-%w"),
        Some(Category::Month) => format_at(seconds, offset, "%Y-%m"),
        Some(Category::Year) => decimal_string(year_at(seconds, offset) as i64),
        Some(Category::DayOfWeek) => {
            let day = weekday_at(seconds, offset);
            String::from_str(weekday_label(day))
        },
        Some(Category::DayOfMonth) => format_at(seconds, offset, "%d"),
        Some(Category::Hour) => decimal_string(hour_at(seconds, offset) as i64),
        Some(Category::Author) => match record.author_name() {
            Some(name) => name.clone(),
            None => String::from_str("<UNKNOWN>"),
        },
        Some(Category::AuthorEmail) => match record.author_email() {
            Some(email) => email.clone(),
            None => String::from_str("<UNKNOWN>"),
        },
        Some(Category::File) => String::from_str("File"),
        Some(Category::Directory) => String::from_str("Directory"),
    }
}

/// Gives what one commit adds to a sum under a statistic.
pub fn commit_to_stat(record: &CommitRecord, statistic: Statistic) -> (delta: i32)
    ensures
        delta == contribution(statistic),
{
    match statistic {
        Statistic::Commits => 1,
        Statistic::Additions => 1,
        Statistic::Deletions => -1,
    }
}

impl Statistic {
    /// Writes the name of the statistic.
    pub fn name(&self) -> (name: &'static str)
        ensures
            name@ == statistic_name(*self),
    {
        match self {
            Statistic::Commits => "Commits",
            Statistic::Additions => "Additions",
            Statistic::Deletions => "Deletions",
        }
    }
}

} // verus!
