//! The projection of a document: each column name mapped to the value at its
//! position in the first row.
use vstd::prelude::*;
use crate::document::{Log, LogView};

verus! {

/// The first row of a document, or no values where it has no rows.
pub open spec fn first_row(d: LogView) -> Seq<serde_json::Value> {
    if d.rows.len() > 0 {
        d.rows[0]
    } else {
        Seq::empty()
    }
}

/// How many columns have a value in the first row: the shorter of the two.
pub open spec fn projected_len(d: LogView) -> nat {
    if d.columns.len() <= first_row(d).len() {
        d.columns.len()
    } else {
        first_row(d).len()
    }
}

/// The first `n` columns mapped, in order, to their values; a later column
/// with the same name overwrites an earlier one.
pub open spec fn project_prefix(d: LogView, n: nat) -> Map<Seq<char>, serde_json::Value>
    decreases n,
{
    if n == 0 {
        Map::empty()
    } else {
        project_prefix(d, (n - 1) as nat).insert(
            d.columns[n - 1].name,
            first_row(d)[n - 1],
        )
    }
}

/// The projection of a document.
pub open spec fn projection_of(d: LogView) -> Map<Seq<char>, serde_json::Value> {
    project_prefix(d, projected_len(d))
}

/// One key of a projection and its value.
pub struct Entry {
    pub key: String,
    pub value: serde_json::Value,
}

/// A projection held as entries with distinct keys.
pub struct Projection {
    entries: Vec<Entry>,
}

impl View for Projection {
    type V = Map<Seq<char>, serde_json::Value>;

    open spec fn view(&self) -> Map<Seq<char>, serde_json::Value> {
        Map::new(
            |k: Seq<char>| self.index_of(k) >= 0,
            |k: Seq<char>| self.entries()[self.index_of(k)].value,
        )
    }
}

impl Projection {
    /// The entries, in the order they were added.
    pub closed spec fn entries(&self) -> Seq<Entry> {
        self.entries@
    }

    /// No key occurs twice.
    pub open spec fn wf(&self) -> bool {
        forall|i: int, j: int|
            0 <= i < j < self.entries().len() ==> #[trigger] self.entries()[i].key@
                != #[trigger] self.entries()[j].key@
    }

    /// Where key `k` stands among the entries, or -1.
    pub open spec fn index_of(&self, k: Seq<char>) -> int {
        if exists|i: int| 0 <= i < self.entries().len() && #[trigger] self.entries()[i].key@ == k {
            choose|i: int| 0 <= i < self.entries().len() && #[trigger] self.entries()[i].key@ == k
        } else {
            -1
        }
    }

    proof fn lemma_index_of(&self, i: int)
        requires
            self.wf(),
            0 <= i < self.entries().len(),
        ensures
            self.index_of(self.entries()[i].key@) == i,
            self@.contains_key(self.entries()[i].key@),
            self@[self.entries()[i].key@] == self.entries()[i].value,
    {
        let k = self.entries()[i].key@;
        assert(self.entries()[i].key@ == k);
        let j = self.index_of(k);
        assert(0 <= j < self.entries().len() && self.entries()[j].key@ == k);
        if j != i {
            if i < j {
                assert(self.entries()[i].key@ != self.entries()[j].key@);
            } else {
                assert(self.entries()[j].key@ != self.entries()[i].key@);
            }
        }
    }

    /// The empty projection.
    pub fn new() -> (r: Projection)
        ensures
            r.wf(),
            r@ == Map::<Seq<char>, serde_json::Value>::empty(),
    {
        let r = Projection { entries: Vec::new() };
        assert(r@ =~= Map::<Seq<char>, serde_json::Value>::empty());
        r
    }

    /// How many keys the projection holds.
    pub fn len(&self) -> (r: usize)
        requires
            self.wf(),
        ensures
            r == self@.dom().len(),
    {
        proof {
            self.lemma_dom_len();
        }
        self.entries.len()
    }

    proof fn lemma_dom_len(&self)
        requires
            self.wf(),
        ensures
            self@.dom().finite(),
            self@.dom().len() == self.entries().len(),
        decreases self.entries().len(),
    {
        let n = self.entries().len();
        if n == 0 {
            assert(self@.dom() =~= Set::<Seq<char>>::empty());
        } else {
            let keys = Seq::new(n, |i: int| self.entries()[i].key@);
            assert(self@.dom() =~= keys.to_set()) by {
                assert forall|k: Seq<char>| self@.dom().contains(k) implies keys.to_set().contains(k) by {
                    let i = self.index_of(k);
                    assert(keys[i] == k);
                }
                assert forall|k: Seq<char>| keys.to_set().contains(k) implies self@.dom().contains(k) by {
                    let i = choose|i: int| 0 <= i < n && keys[i] == k;
                    self.lemma_index_of(i);
                }
            }
            assert(keys.no_duplicates());
            keys.unique_seq_to_set();
        }
    }

    /// The value stored under `key`, if any.
    pub fn get(&self, key: &String) -> (r: Option<&serde_json::Value>)
        requires
            self.wf(),
        ensures
            r is Some <==> self@.contains_key(key@),
            r is Some ==> *r->Some_0 == self@[key@],
    {
        let mut i: usize = 0;
        while i < self.entries.len()
            invariant
                self.wf(),
                i <= self.entries().len(),
                forall|j: int| 0 <= j < i ==> #[trigger] self.entries()[j].key@ != key@,
            decreases self.entries().len() - i,
        {
            if self.entries[i].key == *key {
                proof {
                    self.lemma_index_of(i as int);
                }
                return Some(&self.entries[i].value);
            }
            i = i + 1;
        }
        assert(!(exists|j: int| 0 <= j < self.entries().len() && #[trigger] self.entries()[j].key@ == key@));
        None
    }

    /// Sets the value of `key`, replacing the one it had.
    pub fn insert(&mut self, key: String, value: serde_json::Value)
        requires
            old(self).wf(),
        ensures
            final(self).wf(),
            final(self)@ == old(self)@.insert(key@, value),
    {
        let ghost k = key@;
        let mut i: usize = 0;
        while i < self.entries.len()
            invariant
                *self == *old(self),
                k == key@,
                self.wf(),
                i <= self.entries().len(),
                forall|j: int| 0 <= j < i ==> #[trigger] self.entries()[j].key@ != k,
            decreases self.entries().len() - i,
        {
            if self.entries[i].key == key {
                let ghost before = *self;
                self.entries.set(i, Entry { key, value });
                proof {
                    assert(self.entries() == before.entries().update(i as int, Entry { key, value }));
                    assert forall|a: int, b: int|
                        0 <= a < b < self.entries().len() implies #[trigger] self.entries()[a].key@
                        != #[trigger] self.entries()[b].key@ by {
                        assert(before.entries()[a].key@ != before.entries()[b].key@);
                    }
                    self.lemma_index_of(i as int);
                    before.lemma_index_of(i as int);
                    assert forall|k2: Seq<char>| k2 != k implies self.index_of(k2) == before.index_of(k2)
                        && (self.index_of(k2) >= 0 ==> self.entries()[self.index_of(k2)].value
                        == before.entries()[self.index_of(k2)].value) by {
                        if self.index_of(k2) >= 0 {
                            let a = self.index_of(k2);
                            assert(self.entries()[a].key@ == k2);
                            before.lemma_index_of(a);
                        }
                        if before.index_of(k2) >= 0 {
                            let a = before.index_of(k2);
                            assert(before.entries()[a].key@ == k2);
                            self.lemma_index_of(a);
                        }
                    }
                    assert(self@ =~= before@.insert(k, value));
                }
                return;
            }
            i = i + 1;
        }
        let ghost before = *self;
        self.entries.push(Entry { key, value });
        proof {
            assert(!(exists|j: int| 0 <= j < before.entries().len() && #[trigger] before.entries()[j].key@ == k));
            let n = before.entries().len() as int;
            assert forall|a: int, b: int|
                0 <= a < b < self.entries().len() implies #[trigger] self.entries()[a].key@
                != #[trigger] self.entries()[b].key@ by {
                if b == n {
                    assert(before.entries()[a].key@ != k);
                } else {
                    assert(before.entries()[a].key@ != before.entries()[b].key@);
                }
            }
            self.lemma_index_of(n);
            assert forall|k2: Seq<char>| k2 != k implies self.index_of(k2) == before.index_of(k2) by {
                if self.index_of(k2) >= 0 {
                    let a = self.index_of(k2);
                    assert(self.entries()[a].key@ == k2);
                    if a < n {
                        before.lemma_index_of(a);
                    }
                }
                if before.index_of(k2) >= 0 {
                    let a = before.index_of(k2);
                    assert(before.entries()[a].key@ == k2);
                    self.lemma_index_of(a);
                }
            }
            assert(self@ =~= before@.insert(k, value));
        }
    }

    /// A copy of this projection.
    pub fn duplicate(&self) -> (r: Projection)
        requires
            self.wf(),
        ensures
            r.wf(),
            r@ == self@,
    {
        let mut entries: Vec<Entry> = Vec::new();
        let mut i: usize = 0;
        while i < self.entries.len()
            invariant
                i <= self.entries().len(),
                entries@.len() == i,
                forall|j: int| 0 <= j < i ==> #[trigger] entries@[j].key@ == self.entries()[j].key@
                    && entries@[j].value == self.entries()[j].value,
            decreases self.entries().len() - i,
        {
            let e = &self.entries[i];
            entries.push(Entry { key: e.key.clone(), value: e.value.clone() });
            i = i + 1;
        }
        let r = Projection { entries };
        proof {
            assert forall|a: int, b: int|
                0 <= a < b < r.entries().len() implies #[trigger] r.entries()[a].key@
                != #[trigger] r.entries()[b].key@ by {
                assert(self.entries()[a].key@ != self.entries()[b].key@);
            }
            assert forall|k: Seq<char>| r.index_of(k) >= 0 <==> self.index_of(k) >= 0 by {
                if r.index_of(k) >= 0 {
                    let a = r.index_of(k);
                    assert(r.entries()[a].key@ == k);
                    self.lemma_index_of(a);
                }
                if self.index_of(k) >= 0 {
                    let a = self.index_of(k);
                    assert(self.entries()[a].key@ == k);
                    r.lemma_index_of(a);
                }
            }
            assert forall|k: Seq<char>| r@.contains_key(k) implies r@[k] == self@[k] by {
                let a = r.index_of(k);
                assert(r.entries()[a].key@ == k);
                self.lemma_index_of(a);
            }
            assert(r@ =~= self@);
        }
        r
    }
}

/// The projection of a document: for each column with a value at its
/// position in the first row, its name mapped to that value. Columns past the
/// end of the row are skipped; a document without rows projects to nothing.
pub fn project(d: &Log) -> (r: Projection)
    ensures
        r.wf(),
        r@ == projection_of(d@),
{
    let mut p = Projection::new();
    if d.values.len() == 0 {
        return p;
    }
    let row = &d.values[0];
    let n: usize = if d.columns.len() <= row.len() {
        d.columns.len()
    } else {
        row.len()
    };
    assert(first_row(d@) == row@);
    let mut i: usize = 0;
    while i < n
        invariant
            n == projected_len(d@),
            first_row(d@) == row@,
            n <= d.columns@.len(),
            n <= row@.len(),
            i <= n,
            p.wf(),
            p@ == project_prefix(d@, i as nat),
        decreases n - i,
    {
        p.insert(d.columns[i].name.clone(), row[i].clone());
        i = i + 1;
    }
    p
}

proof fn lemma_prefix_entries(d: LogView, m: nat)
    requires
        m <= projected_len(d),
        forall|i: int, j: int|
            0 <= i < j < m ==> #[trigger] d.columns[i].name != #[trigger] d.columns[j].name,
    ensures
        project_prefix(d, m).dom().finite(),
        project_prefix(d, m).dom().len() == m,
        forall|i: int|
            0 <= i < m ==> project_prefix(d, m).contains_key(#[trigger] d.columns[i].name)
                && project_prefix(d, m)[d.columns[i].name] == first_row(d)[i],
        forall|k: Seq<char>|
            #[trigger] project_prefix(d, m).contains_key(k) ==> exists|i: int|
                0 <= i < m && #[trigger] d.columns[i].name == k,
    decreases m,
{
    if m > 0 {
        let prev = (m - 1) as nat;
        lemma_prefix_entries(d, prev);
        let k = d.columns[prev as int].name;
        if project_prefix(d, prev).contains_key(k) {
            let i = choose|i: int| 0 <= i < prev && #[trigger] d.columns[i].name == k;
            assert(d.columns[i].name != d.columns[prev as int].name);
        }
        assert forall|i: int| 0 <= i < m implies project_prefix(d, m).contains_key(
            #[trigger] d.columns[i].name,
        ) && project_prefix(d, m)[d.columns[i].name] == first_row(d)[i] by {
            if i < prev {
                assert(d.columns[i].name != d.columns[prev as int].name);
            }
        }
        assert forall|k2: Seq<char>| #[trigger] project_prefix(d, m).contains_key(k2) implies exists|i: int|
            0 <= i < m && #[trigger] d.columns[i].name == k2 by {
            if k2 != k {
                assert(project_prefix(d, prev).contains_key(k2));
            } else {
                assert(d.columns[prev as int].name == k2);
            }
        }
    }
}

/// Where no two of the projected columns share a name, the projection of a
/// document holds exactly one entry per column that has a value in the first
/// row, the shorter of the two lengths in all, each name mapped to the value
/// at its position, and no other key.
pub proof fn lemma_projection_entries(d: LogView)
    requires
        forall|i: int, j: int|
            0 <= i < j < projected_len(d) ==> #[trigger] d.columns[i].name
                != #[trigger] d.columns[j].name,
    ensures
        projection_of(d).dom().finite(),
        projection_of(d).dom().len() == projected_len(d),
        forall|i: int|
            0 <= i < projected_len(d) ==> projection_of(d).contains_key(
                #[trigger] d.columns[i].name,
            ) && projection_of(d)[d.columns[i].name] == first_row(d)[i],
        forall|k: Seq<char>|
            #[trigger] projection_of(d).contains_key(k) ==> exists|i: int|
                0 <= i < projected_len(d) && #[trigger] d.columns[i].name == k,
{
    lemma_prefix_entries(d, projected_len(d));
}

} // verus!
