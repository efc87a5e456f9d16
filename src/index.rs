use vstd::prelude::*;
use crate::error::AethelError;
use crate::text::text_eq;

verus! {

/// The identifiers of index rows are pairwise distinct.
pub open spec fn ids_unique(rows: Seq<(String, String)>) -> bool {
    forall|i: int, j: int| 0 <= i < j < rows.len() ==> rows[i].0@ != rows[j].0@
}

/// The identifier-to-path mapping that a list of rows holds.
pub open spec fn rows_map(rows: Seq<(String, String)>) -> Map<Seq<char>, Seq<char>>
    decreases rows.len(),
{
    if rows.len() == 0 {
        Map::empty()
    } else {
        rows_map(rows.drop_last()).insert(rows.last().0@, rows.last().1@)
    }
}

/// The secondary index: identifier to the document's path relative to the
/// vault root, one row per identifier.
pub struct IndexTable {
    pub rows: Vec<(String, String)>,
}

impl View for IndexTable {
    type V = Map<Seq<char>, Seq<char>>;

    open spec fn view(&self) -> Map<Seq<char>, Seq<char>> {
        rows_map(self.rows@)
    }
}

proof fn lemma_rows_map(rows: Seq<(String, String)>)
    requires
        ids_unique(rows),
    ensures
        forall|id: Seq<char>|
            #[trigger] rows_map(rows).contains_key(id) <==> exists|i: int|
                0 <= i < rows.len() && #[trigger] rows[i].0@ == id,
        forall|i: int| 0 <= i < rows.len() ==> #[trigger] rows_map(rows)[rows[i].0@] == rows[i].1@,
    decreases rows.len(),
{
    if rows.len() > 0 {
        let prev = rows.drop_last();
        lemma_rows_map(prev);
        assert forall|id: Seq<char>|
            #[trigger] rows_map(rows).contains_key(id) implies exists|i: int|
                0 <= i < rows.len() && #[trigger] rows[i].0@ == id by {
            if id != rows.last().0@ {
                assert(rows_map(prev).contains_key(id));
                let i = choose|i: int| 0 <= i < prev.len() && #[trigger] prev[i].0@ == id;
                assert(rows[i].0@ == id);
            } else {
                assert(rows[rows.len() - 1].0@ == id);
            }
        }
        assert forall|id: Seq<char>|
            (exists|i: int| 0 <= i < rows.len() && #[trigger] rows[i].0@ == id) implies #[trigger] rows_map(
            rows,
        ).contains_key(id) by {
            let i = choose|i: int| 0 <= i < rows.len() && #[trigger] rows[i].0@ == id;
            if i < rows.len() - 1 {
                assert(prev[i].0@ == id);
                assert(rows_map(prev).contains_key(id));
            }
        }
        assert forall|i: int| 0 <= i < rows.len() implies #[trigger] rows_map(rows)[rows[i].0@]
            == rows[i].1@ by {
            if i < rows.len() - 1 {
                assert(prev[i] == rows[i]);
                assert(rows[i].0@ != rows[rows.len() - 1].0@);
                assert(rows_map(prev)[prev[i].0@] == prev[i].1@);
            }
        }
    }
}

impl IndexTable {
    pub open spec fn wf(&self) -> bool {
        ids_unique(self.rows@)
    }

    /// The rows, in insertion order.
    pub open spec fn rows_view(&self) -> Seq<(String, String)> {
        self.rows@
    }

    /// An empty index.
    pub fn new() -> (r: IndexTable)
        ensures
            r.wf(),
            r@ == Map::<Seq<char>, Seq<char>>::empty(),
    {
        IndexTable { rows: Vec::new() }
    }

    /// The rows, in insertion order, for writing to the backing store.
    pub fn rows(&self) -> (r: &Vec<(String, String)>)
        ensures
            r@ == self.rows_view(),
    {
        &self.rows
    }

    fn position(&self, id: &str) -> (r: Option<usize>)
        requires
            self.wf(),
        ensures
            match r {
                Some(i) => i < self.rows@.len() && self.rows@[i as int].0@ == id@,
                None => forall|i: int| 0 <= i < self.rows@.len() ==> self.rows@[i].0@ != id@,
            },
    {
        let mut i: usize = 0;
        while i < self.rows.len()
            invariant
                i <= self.rows@.len(),
                forall|k: int| 0 <= k < i ==> self.rows@[k].0@ != id@,
            decreases self.rows@.len() - i,
        {
            if text_eq(self.rows[i].0.as_str(), id) {
                return Some(i);
            }
            i = i + 1;
        }
        None
    }

    /// The path stored for an identifier, if any.
    pub fn lookup(&self, id: &str) -> (r: Option<String>)
        requires
            self.wf(),
        ensures
            match r {
                Some(p) => self@.contains_key(id@) && self@[id@] == p@,
                None => !self@.contains_key(id@),
            },
    {
        proof {
            lemma_rows_map(self.rows@);
        }
        match self.position(id) {
            Some(i) => Some(self.rows[i].1.clone()),
            None => None,
        }
    }

    /// Adds a row; an identifier already present is refused and the index
    /// is left as it was.
    pub fn insert(&mut self, id: String, path: String) -> (r: Result<(), AethelError>)
        requires
            old(self).wf(),
        ensures
            final(self).wf(),
            match r {
                Ok(()) => !old(self)@.contains_key(id@) && final(self)@ == old(self)@.insert(
                    id@,
                    path@,
                ),
                Err(e) => old(self)@.contains_key(id@) && final(self)@ == old(self)@ && (e matches AethelError::DuplicateIdentifier(d) && d@ == id@),
            },
    {
        proof {
            lemma_rows_map(self.rows@);
        }
        if self.position(id.as_str()).is_some() {
            return Err(AethelError::DuplicateIdentifier(id));
        }
        let ghost prev = self.rows@;
        self.rows.push((id, path));
        assert(self.rows@.drop_last() =~= prev);
        Ok(())
    }

    /// Removes the row of an identifier, if there is one.
    pub fn delete(&mut self, id: &str)
        requires
            old(self).wf(),
        ensures
            final(self).wf(),
            final(self)@ == old(self)@.remove(id@),
    {
        proof {
            lemma_rows_map(self.rows@);
        }
        match self.position(id) {
            Some(i) => {
                let ghost prev = self.rows@;
                self.rows.remove(i);
                proof {
                    lemma_rows_map(self.rows@);
                    assert forall|k: int| 0 <= k < self.rows@.len() implies self.rows@[k] == (if k < i { prev[k] } else { prev[k + 1] }) by {}
                    assert(self@ =~= rows_map(prev).remove(id@)) by {
                        assert forall|key: Seq<char>| #[trigger] self@.contains_key(key) <==> rows_map(prev).remove(id@).contains_key(key) by {
                            if self@.contains_key(key) {
                                let k = choose|k: int| 0 <= k < self.rows@.len() && #[trigger] self.rows@[k].0@ == key;
                                if k < i { assert(prev[k].0@ == key); } else { assert(prev[k + 1].0@ == key); }
                            }
                            if rows_map(prev).remove(id@).contains_key(key) {
                                let k = choose|k: int| 0 <= k < prev.len() && #[trigger] prev[k].0@ == key;
                                if k < i { assert(self.rows@[k].0@ == key); } else { assert(self.rows@[k - 1].0@ == key); }
                            }
                        }
                        assert forall|key: Seq<char>| #[trigger] self@.contains_key(key) implies self@[key] == rows_map(prev).remove(id@)[key] by {
                            let k = choose|k: int| 0 <= k < self.rows@.len() && #[trigger] self.rows@[k].0@ == key;
                            if k < i { assert(prev[k].0@ == key); } else { assert(prev[k + 1].0@ == key); }
                        }
                    }
                }
            },
            None => {
                assert(self@ =~= self@.remove(id@));
            },
        }
    }

    /// Replaces the whole content with the given inventory, all or nothing:
    /// an inventory that repeats an identifier is refused and the index is
    /// left as it was.
    pub fn rebuild(&mut self, entries: Vec<(String, String)>) -> (r: Result<(), AethelError>)
        requires
            old(self).wf(),
        ensures
            final(self).wf(),
            r is Ok <==> ids_unique(entries@),
            r is Ok ==> final(self).rows_view() == entries@ && final(self)@ == rows_map(entries@),
            r is Err ==> final(self)@ == old(self)@ && r->Err_0 is DuplicateIdentifier,
    {
        let mut i: usize = 0;
        while i < entries.len()
            invariant
                i <= entries@.len(),
                self.rows@ == old(self).rows@,
                self.wf(),
                ids_unique(entries@.subrange(0, i as int)),
            decreases entries@.len() - i,
        {
            let mut j: usize = 0;
            while j < i
                invariant
                    i < entries@.len(),
                    self.rows@ == old(self).rows@,
                    self.wf(),
                    j <= i,
                    forall|k: int| 0 <= k < j ==> entries@[k].0@ != entries@[i as int].0@,
                decreases i - j,
            {
                if text_eq(entries[j].0.as_str(), entries[i].0.as_str()) {
                    return Err(AethelError::DuplicateIdentifier(entries[i].0.clone()));
                }
                j = j + 1;
            }
            i = i + 1;
            assert(ids_unique(entries@.subrange(0, i as int)));
        }
        assert(entries@.subrange(0, i as int) =~= entries@);
        self.rows = entries;
        Ok(())
    }
}

/// Rebuild idempotence: rebuilding from the same inventory twice yields the
/// same table, and a lookup afterwards finds exactly the paths of the
/// inventory.
pub proof fn lemma_rebuild_idempotent(entries: Seq<(String, String)>)
    requires
        ids_unique(entries),
    ensures
        forall|a: IndexTable, b: IndexTable|
            a.rows_view() == entries && b.rows_view() == entries ==> a@ == b@,
        forall|id: Seq<char>|
            #[trigger] rows_map(entries).contains_key(id) <==> exists|i: int|
                0 <= i < entries.len() && #[trigger] entries[i].0@ == id,
        forall|i: int| 0 <= i < entries.len() ==> #[trigger] rows_map(entries)[entries[i].0@] == entries[i].1@,
{
    lemma_rows_map(entries);
}

} // verus!
