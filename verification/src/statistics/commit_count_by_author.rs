//! The number of commits of each author, by e-mail address.

use vstd::prelude::*;
use vstd::string::StringExecFns;
use crate::record::CommitRecord;
use crate::record::CommitView;
use crate::statistics::per_commit::fed;
use crate::statistics::per_commit::has_room_for_all;
use crate::statistics::per_commit::PerCommitStatistic;
use crate::text::decimal;
use crate::text::decimal_string;

verus! {

/// An author's e-mail address with the number of commits counted for it.
pub type AuthorCount = (Seq<char>, int);

/// The place of an address in a list of counts: the index of the first
/// entry for it, or the length of the list where it has none.
pub open spec fn position_of(counts: Seq<AuthorCount>, email: Seq<char>) -> int
    decreases counts.len(),
{
    if counts.len() == 0 {
        0
    } else {
        let earlier = position_of(counts.drop_last(), email);
        if earlier < counts.len() - 1 {
            earlier
        } else if counts.last().0 == email {
            counts.len() - 1
        } else {
            counts.len() as int
        }
    }
}

/// The counts after one more commit of the author with the given address: a
/// known address is counted once more, a new one enters at the end with one
/// commit.
pub open spec fn counted_for(counts: Seq<AuthorCount>, email: Seq<char>) -> Seq<AuthorCount> {
    let place = position_of(counts, email);
    if place < counts.len() {
        counts.update(place, (email, counts[place].1 + 1))
    } else {
        counts.push((email, 1))
    }
}

/// A sorted list with one more entry, put behind every entry that has at
/// least as many commits.
pub open spec fn placed_by_count(sorted: Seq<AuthorCount>, entry: AuthorCount) -> Seq<AuthorCount>
    decreases sorted.len(),
{
    if sorted.len() == 0 {
        seq![entry]
    } else if sorted.last().1 >= entry.1 {
        sorted.push(entry)
    } else {
        placed_by_count(sorted.drop_last(), entry).push(sorted.last())
    }
}

/// The entries ordered from the most commits to the fewest; entries with
/// the same number of commits keep the order in which they stand.
pub open spec fn by_count(counts: Seq<AuthorCount>) -> Seq<AuthorCount>
    decreases counts.len(),
{
    if counts.len() == 0 {
        Seq::empty()
    } else {
        placed_by_count(by_count(counts.drop_last()), counts.last())
    }
}

/// Whether no entry has fewer commits than an entry after it.
pub open spec fn descending(counts: Seq<AuthorCount>) -> bool {
    forall|i: int, j: int| 0 <= i < j < counts.len() ==> (#[trigger] counts[i]).1 >= (#[trigger] counts[j]).1
}

/// The line of one author: the address, a colon and a space, the number of
/// commits, and a line feed.
pub open spec fn author_line(entry: AuthorCount) -> Seq<char> {
    entry.0 + ": "@ + decimal(entry.1) + "\n"@
}

/// The lines of a list of entries, in order.
pub open spec fn author_lines(counts: Seq<AuthorCount>) -> Seq<char>
    decreases counts.len(),
{
    if counts.len() == 0 {
        Seq::empty()
    } else {
        author_lines(counts.drop_last()) + author_line(counts.last())
    }
}

/// The place of an address is the first index that holds it.
pub proof fn lemma_position_of(counts: Seq<AuthorCount>, email: Seq<char>, place: int)
    requires
        0 <= place <= counts.len(),
        forall|k: int| 0 <= k < place ==> (#[trigger] counts[k]).0 != email,
        place < counts.len() ==> counts[place].0 == email,
    ensures
        position_of(counts, email) == place,
    decreases counts.len(),
{
    if counts.len() > 0 {
        let rest = counts.drop_last();
        if place < counts.len() - 1 {
            lemma_position_of(rest, email, place);
        } else {
            assert forall|k: int| 0 <= k < rest.len() implies (#[trigger] rest[k]).0 != email by {
                assert(counts[k].0 != email);
            }
            lemma_position_of(rest, email, rest.len() as int);
        }
    }
}

/// Placing an entry in a sorted list puts it at the index behind which
/// every entry has fewer commits and before which none has.
pub proof fn lemma_placed_at(sorted: Seq<AuthorCount>, entry: AuthorCount, place: int)
    requires
        0 <= place <= sorted.len(),
        forall|k: int| place <= k < sorted.len() ==> (#[trigger] sorted[k]).1 < entry.1,
        place > 0 ==> sorted[place - 1].1 >= entry.1,
    ensures
        placed_by_count(sorted, entry) == sorted.insert(place, entry),
    decreases sorted.len(),
{
    if sorted.len() == 0 {
        assert(sorted.insert(place, entry) =~= seq![entry]);
    } else if place == sorted.len() {
        assert(sorted.insert(place, entry) =~= sorted.push(entry));
    } else {
        let rest = sorted.drop_last();
        assert(sorted[sorted.len() - 1].1 < entry.1);
        assert forall|k: int| place <= k < rest.len() implies (#[trigger] rest[k]).1 < entry.1 by {
            assert(sorted[k].1 < entry.1);
        }
        lemma_placed_at(rest, entry, place);
        assert(sorted.insert(place, entry) =~= rest.insert(place, entry).push(sorted.last()));
    }
}

/// Placing an entry in a descending list gives a descending list with the
/// same entries and the new one.
pub proof fn lemma_placed_by_count(sorted: Seq<AuthorCount>, entry: AuthorCount)
    requires
        descending(sorted),
    ensures
        descending(placed_by_count(sorted, entry)),
        placed_by_count(sorted, entry).to_multiset() == sorted.to_multiset().insert(entry),
        placed_by_count(sorted, entry).len() == sorted.len() + 1,
    decreases sorted.len(),
{
    broadcast use vstd::seq_lib::group_to_multiset_ensures;

    if sorted.len() == 0 {
        assert(seq![entry] =~= Seq::<AuthorCount>::empty().push(entry));
    } else if sorted.last().1 >= entry.1 {
        let placed = sorted.push(entry);
        assert forall|i: int, j: int| 0 <= i < j < placed.len() implies (#[trigger] placed[i]).1 >= (#[trigger] placed[j]).1 by {
            if j < sorted.len() {
                assert(sorted[i].1 >= sorted[j].1);
            } else if i < sorted.len() - 1 {
                assert(sorted[i].1 >= sorted[sorted.len() - 1].1);
            }
        }
    } else {
        let rest = sorted.drop_last();
        assert(descending(rest)) by {
            assert forall|i: int, j: int| 0 <= i < j < rest.len() implies (#[trigger] rest[i]).1 >= (#[trigger] rest[j]).1 by {
                assert(sorted[i].1 >= sorted[j].1);
            }
        }
        lemma_placed_by_count(rest, entry);
        let inner = placed_by_count(rest, entry);
        let placed = inner.push(sorted.last());
        assert forall|k: int| 0 <= k < inner.len() implies (#[trigger] inner[k]).1 >= sorted.last().1 by {
            assert(inner.to_multiset().count(inner[k]) > 0);
            if inner[k] != entry {
                assert(rest.to_multiset().count(inner[k]) > 0);
                let at = choose|at: int| 0 <= at < rest.len() && rest[at] == inner[k];
                assert(sorted[at].1 >= sorted[sorted.len() - 1].1);
            }
        }
        assert forall|i: int, j: int| 0 <= i < j < placed.len() implies (#[trigger] placed[i]).1 >= (#[trigger] placed[j]).1 by {
            if j < inner.len() {
                assert(inner[i].1 >= inner[j].1);
            } else {
                assert(inner[i].1 >= sorted.last().1);
            }
        }
        assert(sorted =~= rest.push(sorted.last()));
        assert(placed.to_multiset() =~= sorted.to_multiset().insert(entry));
    }
}

/// The ordered entries are the given entries, none lost and none added, and
/// no entry has fewer commits than one after it.
pub proof fn lemma_by_count(counts: Seq<AuthorCount>)
    ensures
        descending(by_count(counts)),
        by_count(counts).to_multiset() == counts.to_multiset(),
        by_count(counts).len() == counts.len(),
    decreases counts.len(),
{
    broadcast use vstd::seq_lib::group_to_multiset_ensures;

    if counts.len() > 0 {
        lemma_by_count(counts.drop_last());
        lemma_placed_by_count(by_count(counts.drop_last()), counts.last());
        assert(counts =~= counts.drop_last().push(counts.last()));
    }
}

/// The commits counted for each author, by the e-mail address of the
/// author, in the order in which the addresses were first seen.
pub struct CommitCountByAuthor {
    commits_by_author: Vec<(String, i32)>,
}

impl View for CommitCountByAuthor {
    type V = Seq<AuthorCount>;

    closed spec fn view(&self) -> Seq<AuthorCount> {
        Seq::new(
            self.commits_by_author@.len(),
            |i: int| (self.commits_by_author@[i].0@, self.commits_by_author@[i].1 as int),
        )
    }
}

spec fn entries_view(entries: Seq<(String, i32)>) -> Seq<AuthorCount> {
    Seq::new(entries.len(), |i: int| (entries[i].0@, entries[i].1 as int))
}

impl CommitCountByAuthor {
    /// Makes a count in which no author has a commit.
    pub fn new() -> (counts: CommitCountByAuthor)
        ensures
            counts@ == Seq::<AuthorCount>::empty(),
    {
        let counts = CommitCountByAuthor { commits_by_author: Vec::new() };
        assert(counts@ =~= Seq::<AuthorCount>::empty());
        counts
    }

    /// The number of commits counted for an address, zero for an address
    /// that was never seen.
    pub fn count_of(&self, email: &String) -> (count: i32)
        ensures
            count == if position_of(self@, email@) < self@.len() {
                self@[position_of(self@, email@)].1
            } else {
                0
            },
    {
        let place = self.find(email);
        if place < self.commits_by_author.len() {
            self.commits_by_author[place].1
        } else {
            0
        }
    }

    fn find(&self, email: &String) -> (place: usize)
        ensures
            place == position_of(self@, email@),
            place <= self.commits_by_author@.len(),
    {
        let mut i: usize = 0;
        while i < self.commits_by_author.len()
            invariant
                i <= self.commits_by_author.len(),
                forall|k: int| 0 <= k < i ==> (#[trigger] self@[k]).0 != email@,
            decreases self.commits_by_author.len() - i,
        {
            if self.commits_by_author[i].0 == *email {
                proof {
                    assert(self@[i as int].0 == email@);
                    lemma_position_of(self@, email@, i as int);
                }
                return i;
            }
            i = i + 1;
        }
        proof {
            lemma_position_of(self@, email@, i as int);
        }
        i
    }

    fn sorted_entries(&self) -> (sorted: Vec<(String, i32)>)
        ensures
            entries_view(sorted@) == by_count(self@),
    {
        let mut sorted: Vec<(String, i32)> = Vec::new();
        let mut i: usize = 0;
        assert(self@.take(0) =~= Seq::<AuthorCount>::empty());
        assert(entries_view(sorted@) =~= by_count(self@.take(0)));
        while i < self.commits_by_author.len()
            invariant
                i <= self.commits_by_author.len(),
                entries_view(sorted@) == by_count(self@.take(i as int)),
            decreases self.commits_by_author.len() - i,
        {
            let count = self.commits_by_author[i].1;
            let mut place: usize = sorted.len();
            while place > 0 && sorted[place - 1].1 < count
                invariant
                    place <= sorted.len(),
                    forall|k: int| place <= k < sorted@.len() ==> (#[trigger] entries_view(sorted@)[k]).1 < count,
                decreases place,
            {
                place = place - 1;
            }
            proof {
                let entry = (self.commits_by_author@[i as int].0@, count as int);
                assert(self@.take(i + 1).drop_last() =~= self@.take(i as int));
                assert(self@.take(i + 1).last() == entry);
                if place > 0 {
                    assert(entries_view(sorted@)[place - 1].1 >= count);
                }
                lemma_placed_at(entries_view(sorted@), entry, place as int);
            }
            let ghost before = entries_view(sorted@);
            let ghost entry = (self.commits_by_author@[i as int].0@, count as int);
            sorted.insert(place, (self.commits_by_author[i].0.clone(), count));
            assert(entries_view(sorted@) =~= before.insert(place as int, entry));
            i = i + 1;
        }
        assert(self@.take(i as int) =~= self@);
        sorted
    }
}

impl PerCommitStatistic for CommitCountByAuthor {
    open spec fn has_room(gathered: Seq<AuthorCount>, record: CommitView) -> bool {
        match record.author_email {
            Some(email) => {
                let place = position_of(gathered, email);
                place < gathered.len() ==> gathered[place].1 < i32::MAX
            },
            None => true,
        }
    }

    open spec fn counted(gathered: Seq<AuthorCount>, record: CommitView) -> Seq<AuthorCount> {
        match record.author_email {
            Some(email) => counted_for(gathered, email),
            None => gathered,
        }
    }

    open spec fn result_text(gathered: Seq<AuthorCount>) -> Seq<char> {
        author_lines(by_count(gathered))
    }

    /// Counts the commit for the e-mail address of its author; a commit
    /// without an address is not counted.
    fn process_commit(&mut self, record: &CommitRecord) {
        match record.author_email() {
            Some(email) => {
                let place = self.find(email);
                let ghost before = self@;
                if place < self.commits_by_author.len() {
                    let count = self.commits_by_author[place].1 + 1;
                    self.commits_by_author.set(place, (email.clone(), count));
                    assert(self@ =~= counted_for(before, email@));
                } else {
                    self.commits_by_author.push((email.clone(), 1));
                    assert(self@ =~= counted_for(before, email@));
                }
            },
            None => {},
        }
    }

    /// Writes one line for each author, `address: commits`, from the most
    /// commits to the fewest.
    fn print_result(&self) -> (text: String) {
        let sorted = self.sorted_entries();
        let mut text = String::new();
        let mut i: usize = 0;
        assert(entries_view(sorted@).take(0) =~= Seq::<AuthorCount>::empty());
        while i < sorted.len()
            invariant
                i <= sorted.len(),
                text@ == author_lines(entries_view(sorted@).take(i as int)),
            decreases sorted.len() - i,
        {
            proof {
                assert(entries_view(sorted@).take(i + 1).drop_last() =~= entries_view(sorted@).take(i as int));
                assert(entries_view(sorted@).take(i + 1).last() == (sorted@[i as int].0@, sorted@[i as int].1 as int));
            }
            let ghost before = text@;
            text.append(sorted[i].0.as_str());
            text.append(": ");
            text.append(decimal_string(sorted[i].1 as i64).as_str());
            text.append("\n");
            assert(text@ =~= before + author_line((sorted@[i as int].0@, sorted@[i as int].1 as int)));
            i = i + 1;
        }
        assert(entries_view(sorted@).take(i as int) =~= entries_view(sorted@));
        text
    }
}

/// Whether every entry counts at least one commit and at most `bound`.
pub open spec fn counts_within(counts: Seq<AuthorCount>, bound: int) -> bool {
    forall|i: int| 0 <= i < counts.len() ==> 0 < (#[trigger] counts[i]).1 <= bound
}

/// The place of an address lies within the list or just behind it.
pub proof fn lemma_position_in_range(counts: Seq<AuthorCount>, email: Seq<char>)
    ensures
        0 <= position_of(counts, email) <= counts.len(),
    decreases counts.len(),
{
    if counts.len() > 0 {
        lemma_position_in_range(counts.drop_last(), email);
    }
}

/// After the commits of a sequence no author has more commits than the
/// sequence is long.
pub proof fn lemma_author_counts_within(records: Seq<CommitView>)
    ensures
        counts_within(fed::<CommitCountByAuthor>(Seq::empty(), records), records.len() as int),
    decreases records.len(),
{
    if records.len() > 0 {
        lemma_author_counts_within(records.drop_last());
        let before = fed::<CommitCountByAuthor>(Seq::empty(), records.drop_last());
        let after = fed::<CommitCountByAuthor>(Seq::empty(), records);
        match records.last().author_email {
            Some(email) => {
                lemma_position_in_range(before, email);
                assert forall|i: int| 0 <= i < after.len() implies 0 < (#[trigger] after[i]).1 <= records.len() by {
                    if i < before.len() {
                        assert(0 < before[i].1 <= records.len() - 1);
                    }
                }
            },
            None => {
                assert forall|i: int| 0 <= i < after.len() implies 0 < (#[trigger] after[i]).1 <= records.len() by {
                    assert(0 < before[i].1 <= records.len() - 1);
                }
            },
        }
    }
}

/// A count that starts empty has room for every commit of a sequence that
/// is no longer than a counter can count.
pub proof fn lemma_author_room(records: Seq<CommitView>)
    requires
        records.len() <= i32::MAX,
    ensures
        has_room_for_all::<CommitCountByAuthor>(Seq::empty(), records),
{
    assert forall|k: int| 0 <= k < records.len() implies CommitCountByAuthor::has_room(
        #[trigger] fed::<CommitCountByAuthor>(Seq::empty(), records.take(k)),
        records[k],
    ) by {
        let gathered = fed::<CommitCountByAuthor>(Seq::empty(), records.take(k));
        lemma_author_counts_within(records.take(k));
        match records[k].author_email {
            Some(email) => {
                lemma_position_in_range(gathered, email);
                let place = position_of(gathered, email);
                if place < gathered.len() {
                    assert(gathered[place].1 <= k);
                }
            },
            None => {},
        }
    }
}

} // verus!
