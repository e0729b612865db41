//! Statistics that are computed in a single pass over the commit records.

pub mod commit_count_by_author;
pub mod per_commit;
pub mod punchcard;

pub use commit_count_by_author::CommitCountByAuthor;
pub use per_commit::PerCommitStatistic;
pub use punchcard::Punchcard;
