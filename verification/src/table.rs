//! A table of records by market, kept in ascending order of market id.

use vstd::prelude::*;

verus! {

/// What a table keeps: a record with a view and an invariant of its own.
pub trait Record: View + Sized {
    spec fn sound(&self) -> bool;
}

pub struct Table<T: Record> {
    pub entries: Vec<(u64, T)>,
}

/// The sum of a measure over the entries of a table.
pub open spec fn total<T>(entries: Seq<(u64, T)>, measure: spec_fn(T) -> nat) -> nat
    decreases entries.len(),
{
    if entries.len() == 0 {
        0
    } else {
        total(entries.drop_last(), measure) + measure(entries.last().1)
    }
}

proof fn lemma_total_push<T>(entries: Seq<(u64, T)>, entry: (u64, T), measure: spec_fn(T) -> nat)
    ensures
        total(entries.push(entry), measure) == total(entries, measure) + measure(entry.1),
{
    assert(entries.push(entry).drop_last() =~= entries);
}

proof fn lemma_total_insert<T>(
    entries: Seq<(u64, T)>,
    at: int,
    entry: (u64, T),
    measure: spec_fn(T) -> nat,
)
    requires
        0 <= at <= entries.len(),
    ensures
        total(entries.insert(at, entry), measure) == total(entries, measure) + measure(entry.1),
    decreases entries.len(),
{
    if at == entries.len() {
        assert(entries.insert(at, entry) =~= entries.push(entry));
        lemma_total_push(entries, entry, measure);
    } else {
        let rest = entries.drop_last();
        lemma_total_insert(rest, at, entry, measure);
        assert(entries.insert(at, entry).drop_last() =~= rest.insert(at, entry));
        assert(entries.insert(at, entry).last() == entries.last());
    }
}

pub proof fn lemma_total_take<T>(entries: Seq<(u64, T)>, n: int, measure: spec_fn(T) -> nat)
    requires
        0 <= n <= entries.len(),
    ensures
        total(entries.take(n), measure) <= total(entries, measure),
    decreases entries.len() - n,
{
    if n == entries.len() {
        assert(entries.take(n) =~= entries);
    } else {
        lemma_total_take(entries, n + 1, measure);
        assert(entries.take(n + 1).drop_last() =~= entries.take(n));
    }
}

impl<T: Record> Table<T> {
    /// Ids are in strictly ascending order, and each record is sound.
    pub open spec fn wf(&self) -> bool {
        &&& forall|i: int| 0 <= i < self.entries@.len() ==> (#[trigger] self.entries@[i]).1.sound()
        &&& forall|i: int, j: int|
            #![trigger self.entries@[i], self.entries@[j]]
            0 <= i < j < self.entries@.len() ==> self.entries@[i].0 < self.entries@[j].0
    }

    pub open spec fn holds_at(&self, id: u64, i: int) -> bool {
        0 <= i < self.entries@.len() && self.entries@[i].0 == id
    }
}

impl<T: Record> View for Table<T> {
    type V = Map<u64, T::V>;

    open spec fn view(&self) -> Map<u64, T::V> {
        Map::new(
            |id: u64| exists|i: int| self.holds_at(id, i),
            |id: u64| self.entries@[choose|i: int| self.holds_at(id, i)].1@,
        )
    }
}

/// An entry of a table is what its view holds for the entry's id.
pub proof fn lemma_table_entry<T: Record>(table: Table<T>, i: int)
    requires
        table.wf(),
        0 <= i < table.entries@.len(),
    ensures
        table@.dom().contains(table.entries@[i].0),
        table@[table.entries@[i].0] == table.entries@[i].1@,
{
    let id = table.entries@[i].0;
    assert(table.holds_at(id, i));
    let j = choose|j: int| table.holds_at(id, j);
    assert(i == j) by {
        if i < j {
            assert(table.entries@[i].0 < table.entries@[j].0);
        } else if j < i {
            assert(table.entries@[j].0 < table.entries@[i].0);
        }
    }
}

proof fn lemma_table_inserted<T: Record>(
    before: Table<T>,
    after: Table<T>,
    at: int,
    entry: (u64, T),
)
    requires
        before.wf(),
        0 <= at <= before.entries@.len(),
        after.entries@ == before.entries@.insert(at, entry),
        entry.1.sound(),
        forall|j: int| 0 <= j < at ==> (#[trigger] before.entries@[j]).0 < entry.0,
        forall|j: int|
            at <= j < before.entries@.len() ==> (#[trigger] before.entries@[j]).0 > entry.0,
    ensures
        after.wf(),
        after@ == before@.insert(entry.0, entry.1@),
{
    let b = before.entries@;
    assert forall|i: int| 0 <= i < after.entries@.len() implies #[trigger] after.entries@[i] == (
    if i < at {
        b[i]
    } else if i == at {
        entry
    } else {
        b[i - 1]
    }) by {}
    assert(after.wf());
    let target = before@.insert(entry.0, entry.1@);
    assert forall|id: u64| after@.dom().contains(id) == target.dom().contains(id) by {
        if after@.dom().contains(id) {
            let i = choose|i: int| after.holds_at(id, i);
            assert(after.entries@[i].0 == id);
            if i < at {
                assert(before.holds_at(id, i));
            } else if i > at {
                assert(before.holds_at(id, i - 1));
            }
        }
        if target.dom().contains(id) {
            if id == entry.0 {
                assert(after.entries@[at] == entry);
                assert(after.holds_at(id, at));
            } else {
                let i = choose|i: int| before.holds_at(id, i);
                let j = if i < at {
                    i
                } else {
                    i + 1
                };
                assert(after.entries@[j] == b[i]);
                assert(after.holds_at(id, j));
            }
        }
    }
    assert forall|id: u64| after@.dom().contains(id) implies after@[id] == target[id] by {
        let i = choose|i: int| after.holds_at(id, i);
        lemma_table_entry(after, i);
        assert(after.entries@[i].0 == id);
        if i < at {
            lemma_table_entry(before, i);
        } else if i > at {
            lemma_table_entry(before, i - 1);
        }
    }
    assert(after@ =~= target);
}

proof fn lemma_table_removed<T: Record>(before: Table<T>, after: Table<T>, at: int)
    requires
        before.wf(),
        0 <= at < before.entries@.len(),
        after.entries@ == before.entries@.remove(at),
    ensures
        after.wf(),
        after@ == before@.remove(before.entries@[at].0),
{
    let removed = before.entries@[at].0;
    let b = before.entries@;
    assert forall|i: int| 0 <= i < after.entries@.len() implies #[trigger] after.entries@[i] == (
    if i < at {
        b[i]
    } else {
        b[i + 1]
    }) by {}
    assert(after.wf());
    let target = before@.remove(removed);
    assert forall|id: u64| after@.dom().contains(id) == target.dom().contains(id) by {
        if after@.dom().contains(id) {
            let i = choose|i: int| after.holds_at(id, i);
            let j = if i < at {
                i
            } else {
                i + 1
            };
            assert(after.entries@[i] == b[j]);
            assert(before.holds_at(id, j));
            assert(id != removed);
        }
        if target.dom().contains(id) {
            let i = choose|i: int| before.holds_at(id, i);
            assert(i != at);
            let j = if i < at {
                i
            } else {
                i - 1
            };
            assert(after.entries@[j] == b[i]);
            assert(after.holds_at(id, j));
        }
    }
    assert forall|id: u64| after@.dom().contains(id) implies after@[id] == target[id] by {
        let i = choose|i: int| after.holds_at(id, i);
        let j = if i < at {
            i
        } else {
            i + 1
        };
        assert(after.entries@[i] == b[j]);
        lemma_table_entry(after, i);
        lemma_table_entry(before, j);
    }
    assert(after@ =~= target);
}

impl<T: Record> Table<T> {
    /// What the view holds is the view of a sound record.
    pub proof fn lemma_sound(&self, id: u64)
        requires
            self.wf(),
            self@.dom().contains(id),
        ensures
            exists|t: T| #[trigger] t.sound() && t@ == self@[id],
    {
        let i = choose|i: int| self.holds_at(id, i);
        lemma_table_entry(*self, i);
        assert(self.entries@[i].1.sound());
    }

    pub fn new() -> (r: Self)
        ensures
            r.wf(),
            r@ == Map::<u64, T::V>::empty(),
            r.entries@ == Seq::<(u64, T)>::empty(),
    {
        let r = Table { entries: Vec::new() };
        assert(r@ =~= Map::<u64, T::V>::empty());
        r
    }

    /// The first place whose id is not below `id`, and whether it is that id.
    fn find(&self, id: u64) -> (r: (usize, bool))
        requires
            self.wf(),
        ensures
            r.0 <= self.entries@.len(),
            forall|j: int| 0 <= j < r.0 ==> (#[trigger] self.entries@[j]).0 < id,
            r.1 ==> self.holds_at(id, r.0 as int),
            forall|j: int|
                r.0 <= j < self.entries@.len() && !(r.1 && j == r.0) ==> (
                #[trigger] self.entries@[j]).0 > id,
    {
        let mut low: usize = 0;
        let mut high: usize = self.entries.len();
        while low < high
            invariant
                self.wf(),
                low <= high <= self.entries@.len(),
                forall|j: int| 0 <= j < low ==> (#[trigger] self.entries@[j]).0 < id,
                forall|j: int|
                    high <= j < self.entries@.len() ==> (#[trigger] self.entries@[j]).0 >= id,
            decreases high - low,
        {
            let mid: usize = low + (high - low) / 2;
            if self.entries[mid].0 < id {
                low = mid + 1;
            } else {
                high = mid;
            }
        }
        (low, low < self.entries.len() && self.entries[low].0 == id)
    }

    /// The record of a market.
    pub fn get(&self, id: u64) -> (r: Option<&T>)
        requires
            self.wf(),
        ensures
            match r {
                Some(t) => t.sound() && self@.dom().contains(id) && self@[id] == t@,
                None => !self@.dom().contains(id),
            },
    {
        let (at, found) = self.find(id);
        if found {
            proof {
                lemma_table_entry(*self, at as int);
            }
            Some(&self.entries[at].1)
        } else {
            proof {
                if self@.dom().contains(id) {
                    let i = choose|i: int| self.holds_at(id, i);
                    assert(self.entries@[i].0 == id);
                }
            }
            None
        }
    }

    /// Takes the record of a market out.
    pub fn take(&mut self, id: u64) -> (r: Option<T>)
        requires
            old(self).wf(),
        ensures
            final(self).wf(),
            final(self)@ == old(self)@.remove(id),
            match r {
                Some(t) => t.sound() && old(self)@.dom().contains(id) && old(self)@[id] == t@,
                None => !old(self)@.dom().contains(id),
            },
            forall|measure: spec_fn(T) -> nat| #[trigger]
                total(old(self).entries@, measure) == total(final(self).entries@, measure) + (
                match r {
                    Some(t) => measure(t),
                    None => 0nat,
                }),
    {
        let (at, found) = self.find(id);
        let ghost before = *self;
        if found {
            let (_, t) = self.entries.remove(at);
            proof {
                lemma_table_entry(before, at as int);
                lemma_table_removed(before, *self, at as int);
                assert forall|measure: spec_fn(T) -> nat| #[trigger]
                    total(before.entries@, measure) == total(self.entries@, measure) + measure(
                        t,
                    ) by {
                    lemma_total_insert(self.entries@, at as int, before.entries@[at as int], measure);
                    assert(self.entries@.insert(at as int, before.entries@[at as int])
                        =~= before.entries@);
                }
            }
            Some(t)
        } else {
            proof {
                if before@.dom().contains(id) {
                    let i = choose|i: int| before.holds_at(id, i);
                    assert(before.entries@[i].0 == id);
                }
                assert(before@.remove(id) =~= before@);
            }
            None
        }
    }

    /// Puts the record of a market in, where there is none.
    pub fn put(&mut self, id: u64, record: T)
        requires
            old(self).wf(),
            !old(self)@.dom().contains(id),
            record.sound(),
        ensures
            final(self).wf(),
            final(self)@ == old(self)@.insert(id, record@),
            forall|measure: spec_fn(T) -> nat| #[trigger]
                total(final(self).entries@, measure) == total(old(self).entries@, measure)
                    + measure(record),
    {
        let (at, found) = self.find(id);
        let ghost before = *self;
        proof {
            if found {
                assert(before.holds_at(id, at as int));
                assert(before@.dom().contains(id));
            }
        }
        self.entries.insert(at, (id, record));
        proof {
            lemma_table_inserted(before, *self, at as int, (id, record));
            assert forall|measure: spec_fn(T) -> nat| #[trigger]
                total(self.entries@, measure) == total(before.entries@, measure) + measure(
                    record,
                ) by {
                lemma_total_insert(before.entries@, at as int, (id, record), measure);
            }
        }
    }
}

/// A table shows each of its entries under the entry's id, and nothing else.
pub proof fn law_table_shows_its_entries<T: Record>(table: Table<T>, i: int, id: u64)
    requires
        table.wf(),
    ensures
        0 <= i < table.entries@.len() ==> table@.dom().contains(table.entries@[i].0)
            && table@[table.entries@[i].0] == table.entries@[i].1@,
        table@.dom().contains(id) == exists|k: int|
            0 <= k < table.entries@.len() && (#[trigger] table.entries@[k]).0 == id,
{
    if 0 <= i < table.entries@.len() {
        lemma_table_entry(table, i);
    }
    if table@.dom().contains(id) {
        let k = choose|k: int| table.holds_at(id, k);
        assert(table.entries@[k].0 == id);
    }
    if exists|k: int| 0 <= k < table.entries@.len() && (#[trigger] table.entries@[k]).0 == id {
        let k = choose|k: int|
            0 <= k < table.entries@.len() && (#[trigger] table.entries@[k]).0 == id;
        assert(table.holds_at(id, k));
    }
}

/// A total is the sum over all entries: none of an empty table, and that of one
/// more entry added.
pub proof fn law_total<T>(entries: Seq<(u64, T)>, entry: (u64, T), measure: spec_fn(T) -> nat)
    ensures
        total(Seq::<(u64, T)>::empty(), measure) == 0,
        total(entries.push(entry), measure) == total(entries, measure) + measure(entry.1),
{
    lemma_total_push(entries, entry, measure);
}

} // verus!
