//! A backend held in memory: one sorted table for each subspace that has
//! been provisioned.

use crate::order::KeyRange;
use crate::subspace::{lemma_rank_unique, Subspace, COUNTER_WIDTH, SUBSPACE_COUNT};
use crate::table::{is_scan, pairs, Row, Table};
use vstd::prelude::*;
use vstd::slice::slice_to_vec;

verus! {

/// What a store holds: the value under each subspace and key.
pub type StoreMap = Map<(Subspace, Seq<u8>), Seq<u8>>;

/// The rows of one subspace.
pub open spec fn subspace_rows(m: StoreMap, s: Subspace) -> Map<Seq<u8>, Seq<u8>> {
    Map::new(|key: Seq<u8>| m.contains_key((s, key)), |key: Seq<u8>| m[(s, key)])
}

/// Whether every counter is held in the width of a counter.
pub open spec fn counters_whole(m: StoreMap) -> bool {
    forall|key: Seq<u8>| #[trigger]
        m.contains_key((Subspace::Counters, key)) ==> m[(Subspace::Counters, key)].len()
            == COUNTER_WIDTH
}

/// A backend in memory. It starts without tables; provisioning gives it one
/// for each subspace and leaves the tables it has as they are.
#[derive(Debug)]
pub struct MemoryBackend {
    tables: Vec<Option<Table>>,
}

impl MemoryBackend {
    /// Whether the backend is sound: each table that it has is sorted, and
    /// each counter is held in its full width.
    pub closed spec fn wf(&self) -> bool {
        &&& self.tables@.len() == SUBSPACE_COUNT
        &&& forall|i: int|
            0 <= i < SUBSPACE_COUNT ==> match #[trigger] self.tables@[i] {
                Some(table) => table.wf(),
                None => true,
            }
        &&& counters_whole(self@)
    }

    /// Whether the table of `s` has been provisioned.
    pub closed spec fn provisioned(&self, s: Subspace) -> bool {
        self.tables@[s.rank() as int] is Some
    }

    /// The rows of the table of `s`; none where it has not been provisioned.
    pub closed spec fn rows(&self, s: Subspace) -> Map<Seq<u8>, Seq<u8>> {
        match self.tables@[s.rank() as int] {
            Some(table) => table@,
            None => Map::empty(),
        }
    }

    /// All rows of all tables.
    pub closed spec fn view(&self) -> StoreMap {
        Map::new(
            |p: (Subspace, Seq<u8>)| self.rows(p.0).contains_key(p.1),
            |p: (Subspace, Seq<u8>)| self.rows(p.0)[p.1],
        )
    }

    /// The rows of a table are those that the backend holds for its subspace.
    pub proof fn lemma_rows(&self, s: Subspace)
        ensures
            self.rows(s) == subspace_rows(self@, s),
            !self.provisioned(s) ==> self.rows(s) == Map::<Seq<u8>, Seq<u8>>::empty(),
    {
        assert(self.rows(s) =~= subspace_rows(self@, s));
    }

    /// Every counter that a sound backend holds has the width of a counter.
    pub proof fn lemma_counters(&self, key: Seq<u8>)
        requires
            self.wf(),
            self@.contains_key((Subspace::Counters, key)),
        ensures
            self@[(Subspace::Counters, key)].len() == COUNTER_WIDTH,
    {
    }

    /// A backend without tables.
    pub fn new() -> (b: MemoryBackend)
        ensures
            b.wf(),
            b@ == StoreMap::empty(),
            forall|s: Subspace| !b.provisioned(s),
    {
        let mut tables: Vec<Option<Table>> = Vec::new();
        let mut i: usize = 0;
        while i < SUBSPACE_COUNT
            invariant
                i <= SUBSPACE_COUNT,
                tables@.len() == i,
                forall|j: int| 0 <= j < i ==> tables@[j] is None,
            decreases SUBSPACE_COUNT - i,
        {
            tables.push(None);
            i += 1;
        }
        let ghost shape = MemoryBackend { tables };
        assert(shape@ =~= StoreMap::empty());
        let b = MemoryBackend { tables };
        b
    }

    /// Whether the table of `s` has been provisioned.
    pub fn is_provisioned(&self, s: Subspace) -> (r: bool)
        requires
            self.wf(),
        ensures
            r == self.provisioned(s),
    {
        self.tables[s.index()].is_some()
    }

    /// Gives the backend a table for each subspace that has none. The rows
    /// that it holds stay as they are.
    pub fn provision(&mut self)
        requires
            old(self).wf(),
        ensures
            final(self).wf(),
            forall|s: Subspace| final(self).provisioned(s),
            final(self)@ == old(self)@,
    {
        let mut i: usize = 0;
        while i < SUBSPACE_COUNT
            invariant
                i <= SUBSPACE_COUNT,
                self.wf(),
                self@ == old(self)@,
                forall|j: int| 0 <= j < i ==> self.tables@[j] is Some,
            decreases SUBSPACE_COUNT - i,
        {
            let ghost before = *self;
            if self.tables[i].is_none() {
                self.tables.set(i, Some(Table::new()));
                proof {
                    assert forall|s: Subspace| self.rows(s) =~= before.rows(s) by {}
                    assert(self@ =~= before@);
                }
            }
            i += 1;
        }
        proof {
            assert forall|s: Subspace| self.provisioned(s) by {
                lemma_rank_unique(s, s);
            }
        }
    }

    /// The value under `key` in the table of `s`.
    pub fn read(&self, s: Subspace, key: &[u8]) -> (r: Option<Vec<u8>>)
        requires
            self.wf(),
        ensures
            match r {
                Some(value) => self@.contains_key((s, key@)) && self@[(s, key@)] == value@,
                None => !self@.contains_key((s, key@)),
            },
    {
        match &self.tables[s.index()] {
            Some(table) => match table.get(key) {
                Some(value) => Some(slice_to_vec(value.as_slice())),
                None => None,
            },
            None => None,
        }
    }

    /// The rows of the table of `s` whose keys `range` contains, in the
    /// order of their keys.
    pub fn range(&self, s: Subspace, range: &KeyRange) -> (out: Vec<Row>)
        requires
            self.wf(),
        ensures
            is_scan(subspace_rows(self@, s), range@, pairs(out@)),
    {
        proof {
            self.lemma_rows(s);
        }
        match &self.tables[s.index()] {
            Some(table) => table.scan(range),
            None => {
                let out: Vec<Row> = Vec::new();
                assert(pairs(out@) =~= Seq::empty());
                out
            },
        }
    }

    /// Puts `value` under `key` in the table of `s`, which must have been
    /// provisioned. A counter is written in its full width.
    pub(crate) fn write(&mut self, s: Subspace, key: &[u8], value: &[u8])
        requires
            old(self).wf(),
            old(self).provisioned(s),
            s is Counters ==> value@.len() == COUNTER_WIDTH,
        ensures
            final(self).wf(),
            final(self)@ == old(self)@.insert((s, key@), value@),
            forall|t: Subspace| final(self).provisioned(t) == old(self).provisioned(t),
    {
        let ghost before = *self;
        let i = s.index();
        let mut slot: Option<Table> = None;
        core::mem::swap(&mut slot, &mut self.tables[i]);
        let mut table = slot.unwrap();
        table.put(key, value);
        self.tables.set(i, Some(table));
        proof {
            assert forall|t: Subspace| t != s implies self.rows(t) == before.rows(t) by {
                if t.rank() == s.rank() {
                    lemma_rank_unique(t, s);
                }
            }
            assert(self.rows(s) == before.rows(s).insert(key@, value@));
            assert(self@ =~= before@.insert((s, key@), value@));
        }
    }

    /// Takes out the row of `key` from the table of `s`.
    pub(crate) fn erase(&mut self, s: Subspace, key: &[u8])
        requires
            old(self).wf(),
        ensures
            final(self).wf(),
            final(self)@ == old(self)@.remove((s, key@)),
            forall|t: Subspace| final(self).provisioned(t) == old(self).provisioned(t),
    {
        let ghost before = *self;
        let i = s.index();
        let mut slot: Option<Table> = None;
        core::mem::swap(&mut slot, &mut self.tables[i]);
        match slot {
            Some(mut table) => {
                table.remove(key);
                self.tables.set(i, Some(table));
                proof {
                    assert forall|t: Subspace| t != s implies self.rows(t) == before.rows(t) by {
                        if t.rank() == s.rank() {
                            lemma_rank_unique(t, s);
                        }
                    }
                    assert(self.rows(s) == before.rows(s).remove(key@));
                    assert(self@ =~= before@.remove((s, key@)));
                }
            },
            None => {
                proof {
                    assert forall|t: Subspace| self.rows(t) == before.rows(t) by {}
                    assert(self@ =~= before@.remove((s, key@)));
                }
            },
        }
    }
}

} // verus!
