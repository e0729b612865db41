//! The commit record: what the statistics read of one commit.

use vstd::prelude::*;
use crate::calendar::representable;
use crate::calendar::MAX_TIMESTAMP;
use crate::calendar::MIN_TIMESTAMP;

verus! {

/// The mathematical content of a commit record.
pub struct CommitView {
    /// Seconds since 1970-01-01T00:00:00Z.
    pub seconds: int,
    /// Offset of the author's time zone east of UTC, in minutes.
    pub offset_minutes: int,
    /// The author's display name, if the commit has one.
    pub author_name: Option<Seq<char>>,
    /// The author's e-mail address, if the commit has one.
    pub author_email: Option<Seq<char>>,
}

impl CommitView {
    /// The offset of the author's time zone in seconds.
    pub open spec fn offset_seconds(self) -> int {
        self.offset_minutes * 60
    }

    /// The instant of the commit has a local calendar time.
    pub open spec fn valid(self) -> bool {
        representable(self.seconds, self.offset_seconds())
    }
}

/// The contents of a list of records, in order.
pub open spec fn views(records: Seq<CommitRecord>) -> Seq<CommitView> {
    Seq::new(records.len(), |i: int| records[i]@)
}

/// One commit: its time with the author's UTC offset, and the author's name
/// and e-mail address where they are known.  Every record holds an instant
/// that has a local calendar time.
pub struct CommitRecord {
    seconds: i64,
    offset_minutes: i32,
    author_name: Option<String>,
    author_email: Option<String>,
}

impl View for CommitRecord {
    type V = CommitView;

    closed spec fn view(&self) -> CommitView {
        CommitView {
            seconds: self.seconds as int,
            offset_minutes: self.offset_minutes as int,
            author_name: match self.author_name {
                Some(name) => Some(name@),
                None => None,
            },
            author_email: match self.author_email {
                Some(email) => Some(email@),
                None => None,
            },
        }
    }
}

impl CommitRecord {
    #[verifier::type_invariant]
    spec fn well_formed(&self) -> bool {
        representable(self.seconds as int, self.offset_minutes * 60)
    }

    /// Makes a record, or nothing where the instant has no local calendar
    /// time.
    pub fn new(
        seconds: i64,
        offset_minutes: i32,
        author_name: Option<String>,
        author_email: Option<String>,
    ) -> (record: Option<CommitRecord>)
        ensures
            record is Some <==> representable(seconds as int, offset_minutes * 60),
            record matches Some(r) ==> r@ == (CommitView {
                seconds: seconds as int,
                offset_minutes: offset_minutes as int,
                author_name: match author_name {
                    Some(name) => Some(name@),
                    None => None,
                },
                author_email: match author_email {
                    Some(email) => Some(email@),
                    None => None,
                },
            }),
    {
        if -1440 < offset_minutes && offset_minutes < 1440 && MIN_TIMESTAMP <= seconds && seconds
            <= MAX_TIMESTAMP {
            Some(CommitRecord { seconds, offset_minutes, author_name, author_email })
        } else {
            None
        }
    }

    /// The time of the commit in seconds since 1970-01-01T00:00:00Z.
    pub fn seconds(&self) -> (seconds: i64)
        ensures
            seconds == self@.seconds,
    {
        self.seconds
    }

    /// The offset of the author's time zone east of UTC, in minutes.
    pub fn offset_minutes(&self) -> (minutes: i32)
        ensures
            minutes == self@.offset_minutes,
    {
        self.offset_minutes
    }

    /// The offset of the author's time zone east of UTC, in seconds.
    pub fn offset_seconds(&self) -> (offset: i32)
        ensures
            offset == self@.offset_seconds(),
            self@.valid(),
    {
        proof {
            use_type_invariant(self);
        }
        self.offset_minutes * 60
    }

    /// The author's display name.
    pub fn author_name(&self) -> (name: Option<&String>)
        ensures
            name is Some <==> self@.author_name is Some,
            name matches Some(n) ==> self@.author_name == Some(n@),
    {
        match &self.author_name {
            Some(name) => Some(name),
            None => None,
        }
    }

    /// The author's e-mail address.
    pub fn author_email(&self) -> (email: Option<&String>)
        ensures
            email is Some <==> self@.author_email is Some,
            email matches Some(e) ==> self@.author_email == Some(e@),
    {
        match &self.author_email {
            Some(email) => Some(email),
            None => None,
        }
    }
}

} // verus!
