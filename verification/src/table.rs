//! The aggregation table: a running sum for each pair of labels.

use vstd::prelude::*;

verus! {

/// A pair of labels: the label on the x-axis, then the label on the y-axis.
pub type Key = (Seq<char>, Seq<char>);

/// The sum that a table holds for a pair of labels; a pair that was never
/// added to stands at zero.
pub open spec fn value_at(cells: Map<Key, int>, key: Key) -> int {
    if cells.contains_key(key) {
        cells[key]
    } else {
        0
    }
}

/// The sum of all the cells of a finite table.
pub open spec fn cell_sum(cells: Map<Key, int>) -> int
    decreases cells.dom().len(),
    when cells.dom().finite()
{
    if cells.dom().len() == 0 {
        0
    } else {
        let key = cells.dom().choose();
        cells[key] + cell_sum(cells.remove(key))
    }
}

/// The pairs of labels that a list of keys names.
pub open spec fn key_views(keys: Seq<(String, String)>) -> Seq<Key> {
    Seq::new(keys.len(), |i: int| (keys[i].0@, keys[i].1@))
}

/// The sum of all cells is the value of any one cell plus the sum of the
/// others.
pub proof fn lemma_cell_sum_remove(cells: Map<Key, int>, key: Key)
    requires
        cells.dom().finite(),
        cells.contains_key(key),
    ensures
        cell_sum(cells) == cells[key] + cell_sum(cells.remove(key)),
    decreases cells.dom().len(),
{
    let chosen = cells.dom().choose();
    if chosen != key {
        let rest = cells.remove(chosen);
        lemma_cell_sum_remove(rest, key);
        lemma_cell_sum_remove(cells.remove(key), chosen);
        assert(rest.remove(key) =~= cells.remove(key).remove(chosen));
    }
}

/// Setting one cell changes the sum of all cells by the change of that cell.
pub proof fn lemma_cell_sum_insert(cells: Map<Key, int>, key: Key, value: int)
    requires
        cells.dom().finite(),
    ensures
        cell_sum(cells.insert(key, value)) == cell_sum(cells) - value_at(cells, key) + value,
{
    let after = cells.insert(key, value);
    lemma_cell_sum_remove(after, key);
    assert(after.remove(key) =~= cells.remove(key));
    if cells.contains_key(key) {
        lemma_cell_sum_remove(cells, key);
    } else {
        assert(cells.remove(key) =~= cells);
    }
}

struct Cell {
    x: String,
    y: String,
    sum: i32,
}

spec fn cell_key(cell: Cell) -> Key {
    (cell.x@, cell.y@)
}

spec fn distinct_keys(cells: Seq<Cell>) -> bool {
    forall|i: int, j: int| 0 <= i < j < cells.len() ==> cell_key(#[trigger] cells[i]) != cell_key(#[trigger] cells[j])
}

spec fn cells_map(cells: Seq<Cell>) -> Map<Key, int>
    decreases cells.len(),
{
    if cells.len() == 0 {
        Map::empty()
    } else {
        cells_map(cells.drop_last()).insert(cell_key(cells.last()), cells.last().sum as int)
    }
}

proof fn lemma_cells_map(cells: Seq<Cell>)
    requires
        distinct_keys(cells),
    ensures
        cells_map(cells).dom().finite(),
        forall|key: Key| #[trigger] cells_map(cells).contains_key(key) <==> exists|i: int| 0 <= i < cells.len() && cell_key(#[trigger] cells[i]) == key,
        forall|i: int| 0 <= i < cells.len() ==> #[trigger] cells_map(cells)[cell_key(cells[i])] == cells[i].sum,
        forall|key: Key| #[trigger] cells_map(cells).contains_key(key) ==> i32::MIN <= cells_map(cells)[key] <= i32::MAX,
    decreases cells.len(),
{
    if cells.len() > 0 {
        let rest = cells.drop_last();
        let last = cells.last();
        assert(distinct_keys(rest)) by {
            assert forall|i: int, j: int| 0 <= i < j < rest.len() implies cell_key(#[trigger] rest[i]) != cell_key(#[trigger] rest[j]) by {
                assert(cell_key(cells[i]) != cell_key(cells[j]));
            }
        }
        lemma_cells_map(rest);
        assert forall|key: Key| #[trigger] cells_map(cells).contains_key(key) implies exists|i: int| 0 <= i < cells.len() && cell_key(#[trigger] cells[i]) == key by {
            if key == cell_key(last) {
                assert(cell_key(cells[cells.len() - 1]) == key);
            } else {
                assert(cells_map(rest).contains_key(key));
                let i = choose|i: int| 0 <= i < rest.len() && cell_key(#[trigger] rest[i]) == key;
                assert(cell_key(cells[i]) == key);
            }
        }
        assert forall|key: Key| (exists|i: int| 0 <= i < cells.len() && cell_key(#[trigger] cells[i]) == key) implies #[trigger] cells_map(cells).contains_key(key) by {
            let i = choose|i: int| 0 <= i < cells.len() && cell_key(#[trigger] cells[i]) == key;
            if i < rest.len() {
                assert(cell_key(rest[i]) == key);
            }
        }
        assert forall|i: int| 0 <= i < cells.len() implies #[trigger] cells_map(cells)[cell_key(cells[i])] == cells[i].sum by {
            if i < rest.len() {
                assert(cell_key(cells[i]) != cell_key(cells[cells.len() - 1]));
                assert(rest[i] == cells[i]);
                assert(cells_map(rest)[cell_key(rest[i])] == rest[i].sum);
            }
        }
    }
}

proof fn lemma_cells_map_update(cells: Seq<Cell>, at: int, cell: Cell)
    requires
        distinct_keys(cells),
        0 <= at < cells.len(),
        cell_key(cell) == cell_key(cells[at]),
    ensures
        distinct_keys(cells.update(at, cell)),
        cells_map(cells.update(at, cell)) == cells_map(cells).insert(cell_key(cell), cell.sum as int),
    decreases cells.len(),
{
    let updated = cells.update(at, cell);
    assert(distinct_keys(updated)) by {
        assert forall|i: int, j: int| 0 <= i < j < updated.len() implies cell_key(#[trigger] updated[i]) != cell_key(#[trigger] updated[j]) by {
            assert(cell_key(cells[i]) != cell_key(cells[j]));
        }
    }
    let rest = cells.drop_last();
    assert(distinct_keys(rest)) by {
        assert forall|i: int, j: int| 0 <= i < j < rest.len() implies cell_key(#[trigger] rest[i]) != cell_key(#[trigger] rest[j]) by {
            assert(cell_key(cells[i]) != cell_key(cells[j]));
        }
    }
    if at == cells.len() - 1 {
        assert(updated.drop_last() =~= rest);
        assert(cells_map(updated) =~= cells_map(cells).insert(cell_key(cell), cell.sum as int));
    } else {
        lemma_cells_map_update(rest, at, cell);
        assert(updated.drop_last() =~= rest.update(at, cell));
        assert(updated.last() == cells.last());
        assert(cell_key(cells[at]) != cell_key(cells[cells.len() - 1]));
        assert(cells_map(updated) =~= cells_map(cells).insert(cell_key(cell), cell.sum as int));
    }
}

/// A table of running sums, one for each pair of labels that was added to.
/// As a map from pairs of labels to sums it has a finite domain, and every
/// sum fits in an `i32`.
pub struct AggregationTable {
    cells: Vec<Cell>,
}

impl View for AggregationTable {
    type V = Map<Key, int>;

    closed spec fn view(&self) -> Map<Key, int> {
        cells_map(self.cells@)
    }
}

impl AggregationTable {
    #[verifier::type_invariant]
    spec fn well_formed(&self) -> bool {
        distinct_keys(self.cells@)
    }

    /// Makes a table without cells.
    pub fn new() -> (table: AggregationTable)
        ensures
            table@ == Map::<Key, int>::empty(),
    {
        assert(distinct_keys(Seq::<Cell>::empty()));
        AggregationTable { cells: Vec::new() }
    }

    fn find(&self, x: &String, y: &String) -> (at: Option<usize>)
        ensures
            match at {
                Some(i) => i < self.cells.len() && cell_key(self.cells@[i as int]) == (x@, y@),
                None => !self@.contains_key((x@, y@)),
            },
    {
        proof {
            use_type_invariant(self);
            lemma_cells_map(self.cells@);
        }
        let mut i: usize = 0;
        while i < self.cells.len()
            invariant
                i <= self.cells.len(),
                forall|k: int| 0 <= k < i ==> cell_key(#[trigger] self.cells@[k]) != (x@, y@),
            decreases self.cells.len() - i,
        {
            if self.cells[i].x == *x && self.cells[i].y == *y {
                return Some(i);
            }
            i = i + 1;
        }
        None
    }

    /// Looks up the sum of a pair of labels.
    pub fn get(&self, x: &String, y: &String) -> (sum: Option<i32>)
        ensures
            match sum {
                Some(value) => self@.contains_key((x@, y@)) && self@[(x@, y@)] == value,
                None => !self@.contains_key((x@, y@)),
            },
    {
        proof {
            use_type_invariant(self);
            lemma_cells_map(self.cells@);
        }
        match self.find(x, y) {
            Some(i) => Some(self.cells[i].sum),
            None => None,
        }
    }

    /// Adds `delta` to the sum of the pair `(x, y)`, which starts at zero
    /// when the pair was not in the table.
    pub fn accumulate(&mut self, x: String, y: String, delta: i32)
        requires
            i32::MIN <= value_at(old(self)@, (x@, y@)) + delta <= i32::MAX,
        ensures
            final(self)@ == old(self)@.insert((x@, y@), value_at(old(self)@, (x@, y@)) + delta),
    {
        proof {
            use_type_invariant(&*self);
            lemma_cells_map(self.cells@);
        }
        let found = self.find(&x, &y);
        let mut cells: Vec<Cell> = Vec::new();
        assert(distinct_keys(cells@));
        core::mem::swap(&mut self.cells, &mut cells);
        let ghost before = cells@;
        match found {
            Some(i) => {
                let sum = cells[i].sum + delta;
                let cell = Cell { x, y, sum };
                proof {
                    lemma_cells_map_update(before, i as int, cell);
                }
                cells.set(i, cell);
            },
            None => {
                let cell = Cell { x, y, sum: delta };
                proof {
                    let after = before.push(cell);
                    assert(after.drop_last() =~= before);
                    assert forall|i: int, j: int| 0 <= i < j < after.len() implies cell_key(#[trigger] after[i]) != cell_key(#[trigger] after[j]) by {
                        if j < before.len() {
                            assert(cell_key(before[i]) != cell_key(before[j]));
                        } else {
                            assert(cell_key(before[i]) != (x@, y@));
                        }
                    }
                }
                cells.push(cell);
            },
        }
        self.cells = cells;
    }

    /// Lists the pairs of labels that have a cell, each once.
    pub fn keys(&self) -> (keys: Vec<(String, String)>)
        ensures
            key_views(keys@).to_set() == self@.dom(),
            key_views(keys@).no_duplicates(),
    {
        proof {
            use_type_invariant(self);
            lemma_cells_map(self.cells@);
        }
        let mut keys: Vec<(String, String)> = Vec::new();
        let mut i: usize = 0;
        while i < self.cells.len()
            invariant
                i <= self.cells.len(),
                keys.len() == i,
                forall|k: int| 0 <= k < i ==> (#[trigger] keys@[k].0@, keys@[k].1@) == cell_key(self.cells@[k]),
            decreases self.cells.len() - i,
        {
            let ghost listed = keys@;
            keys.push((self.cells[i].x.clone(), self.cells[i].y.clone()));
            assert forall|k: int| 0 <= k < i + 1 implies (#[trigger] keys@[k].0@, keys@[k].1@) == cell_key(self.cells@[k]) by {
                if k < i {
                    assert(keys@[k] == listed[k]);
                }
            }
            i = i + 1;
        }
        proof {
            let listed = key_views(keys@);
            assert forall|key: Key| listed.to_set().contains(key) <==> self@.dom().contains(key) by {
                if listed.contains(key) {
                    let k = choose|k: int| 0 <= k < listed.len() && listed[k] == key;
                    assert(cell_key(self.cells@[k]) == key);
                }
                if self@.contains_key(key) {
                    let k = choose|k: int| 0 <= k < self.cells@.len() && cell_key(#[trigger] self.cells@[k]) == key;
                    assert(listed[k] == key);
                }
            }
            assert(listed.to_set() =~= self@.dom());
            assert forall|a: int, b: int| 0 <= a < listed.len() && 0 <= b < listed.len() && a != b implies listed[a] != listed[b] by {
                if a < b {
                    assert(cell_key(self.cells@[a]) != cell_key(self.cells@[b]));
                } else {
                    assert(cell_key(self.cells@[b]) != cell_key(self.cells@[a]));
                }
            }
        }
        keys
    }
}

} // verus!
