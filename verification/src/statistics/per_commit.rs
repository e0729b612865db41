//! What every single-pass statistic offers: it takes the commits one by one
//! and writes its result when all have been taken.

use vstd::prelude::*;
use crate::record::views;
use crate::record::CommitRecord;
use crate::record::CommitView;

verus! {

/// A statistic that is fed one commit at a time.  Its view is what it has
/// gathered so far.
pub trait PerCommitStatistic: View {
    /// Whether the counter that the commit falls on can still be raised.
    spec fn has_room(gathered: Self::V, record: CommitView) -> bool;

    /// What is gathered after one more commit.
    spec fn counted(gathered: Self::V, record: CommitView) -> Self::V;

    /// The text that reports what was gathered.
    spec fn result_text(gathered: Self::V) -> Seq<char>;

    /// Takes one commit.
    fn process_commit(&mut self, record: &CommitRecord)
        requires
            Self::has_room(old(self)@, record@),
        ensures
            final(self)@ == Self::counted(old(self)@, record@),
    ;

    /// Writes the report of what was gathered, every line ended by a line
    /// feed.
    fn print_result(&self) -> (text: String)
        ensures
            text@ == Self::result_text(self@),
    ;
}

/// What is gathered after a sequence of commits, taken in order.
pub open spec fn fed<S: PerCommitStatistic>(gathered: S::V, records: Seq<CommitView>) -> S::V
    decreases records.len(),
{
    if records.len() == 0 {
        gathered
    } else {
        S::counted(fed::<S>(gathered, records.drop_last()), records.last())
    }
}

/// Whether every commit of a sequence finds room when its turn comes.
pub open spec fn has_room_for_all<S: PerCommitStatistic>(gathered: S::V, records: Seq<CommitView>) -> bool {
    forall|k: int| 0 <= k < records.len() ==> S::has_room(#[trigger] fed::<S>(gathered, records.take(k)), records[k])
}

/// Feeds every commit of the list to the statistic, once and in order.
pub fn process_all<S: PerCommitStatistic>(statistic: &mut S, records: &Vec<CommitRecord>)
    requires
        has_room_for_all::<S>(old(statistic)@, views(records@)),
    ensures
        final(statistic)@ == fed::<S>(old(statistic)@, views(records@)),
{
    let ghost start = statistic@;
    let mut i: usize = 0;
    assert(views(records@).take(0) =~= Seq::<CommitView>::empty());
    while i < records.len()
        invariant
            i <= records.len(),
            has_room_for_all::<S>(start, views(records@)),
            statistic@ == fed::<S>(start, views(records@).take(i as int)),
        decreases records.len() - i,
    {
        proof {
            assert(views(records@).take(i + 1).drop_last() =~= views(records@).take(i as int));
            assert(views(records@).take(i + 1).last() == records@[i as int]@);
            assert(views(records@)[i as int] == records@[i as int]@);
        }
        statistic.process_commit(&records[i]);
        i = i + 1;
    }
    assert(views(records@).take(i as int) =~= views(records@));
}

} // verus!
