//! A table from text to values, in which no key occurs twice.

use vstd::prelude::*;

verus! {

/// The map that a run of rows stands for: where a key occurs twice, the later
/// row counts.
pub open spec fn rows_map<T>(rows: Seq<(Seq<char>, T)>) -> Map<Seq<char>, T>
    decreases rows.len(),
{
    if rows.len() == 0 {
        Map::empty()
    } else {
        rows_map(rows.drop_last()).insert(rows.last().0, rows.last().1)
    }
}

/// Whether no key occurs twice.
pub open spec fn distinct_keys<T>(rows: Seq<(Seq<char>, T)>) -> bool {
    forall|i: int, j: int| 0 <= i < j < rows.len() ==> (#[trigger] rows[i]).0 != (#[trigger] rows[j]).0
}

/// The keys of the map are the keys of the rows.
pub proof fn lemma_rows_map_keys<T>(rows: Seq<(Seq<char>, T)>, k: Seq<char>)
    ensures
        rows_map(rows).contains_key(k) <==> exists|i: int| 0 <= i < rows.len() && (#[trigger] rows[i]).0 == k,
    decreases rows.len(),
{
    if rows.len() > 0 {
        lemma_rows_map_keys(rows.drop_last(), k);
        let before = rows.drop_last();
        if rows_map(before).contains_key(k) {
            let i = choose|i: int| 0 <= i < before.len() && (#[trigger] before[i]).0 == k;
            assert(rows[i].0 == k);
        }
        if exists|i: int| 0 <= i < rows.len() && (#[trigger] rows[i]).0 == k {
            let i = choose|i: int| 0 <= i < rows.len() && (#[trigger] rows[i]).0 == k;
            if i < before.len() {
                assert(before[i].0 == k);
            }
        }
    }
}

/// Each row of distinct keys is in the map.
pub proof fn lemma_rows_map_at<T>(rows: Seq<(Seq<char>, T)>, i: int)
    requires
        distinct_keys(rows),
        0 <= i < rows.len(),
    ensures
        rows_map(rows).contains_key(rows[i].0),
        rows_map(rows)[rows[i].0] == rows[i].1,
    decreases rows.len(),
{
    if i < rows.len() - 1 {
        let before = rows.drop_last();
        assert forall|a: int, b: int| 0 <= a < b < before.len() implies (#[trigger] before[a]).0 != (
        #[trigger] before[b]).0 by {
            assert(rows[a].0 != rows[b].0);
        }
        lemma_rows_map_at(before, i);
        assert(before[i] == rows[i]);
        assert(rows[i].0 != rows[rows.len() - 1].0);
    }
}

/// Replacing the value of a row replaces it in the map.
proof fn lemma_rows_map_update<T>(rows: Seq<(Seq<char>, T)>, i: int, t: T)
    requires
        distinct_keys(rows),
        0 <= i < rows.len(),
    ensures
        rows_map(rows.update(i, (rows[i].0, t))) == rows_map(rows).insert(rows[i].0, t),
    decreases rows.len(),
{
    let changed = rows.update(i, (rows[i].0, t));
    if i == rows.len() - 1 {
        assert(changed.drop_last() =~= rows.drop_last());
        assert(rows_map(changed) =~= rows_map(rows).insert(rows[i].0, t));
    } else {
        let before = rows.drop_last();
        assert forall|a: int, b: int| 0 <= a < b < before.len() implies (#[trigger] before[a]).0 != (
        #[trigger] before[b]).0 by {
            assert(rows[a].0 != rows[b].0);
        }
        lemma_rows_map_update(before, i, t);
        assert(changed.drop_last() =~= before.update(i, (rows[i].0, t)));
        assert(rows[i].0 != rows[rows.len() - 1].0);
        assert(rows_map(changed) =~= rows_map(rows).insert(rows[i].0, t));
    }
}

/// Taking out a row takes its key out of the map.
proof fn lemma_rows_map_remove<T>(rows: Seq<(Seq<char>, T)>, i: int)
    requires
        distinct_keys(rows),
        0 <= i < rows.len(),
    ensures
        rows_map(rows.remove(i)) == rows_map(rows).remove(rows[i].0),
        distinct_keys(rows.remove(i)),
    decreases rows.len(),
{
    let fewer = rows.remove(i);
    assert forall|a: int, b: int| 0 <= a < b < fewer.len() implies (#[trigger] fewer[a]).0 != (
    #[trigger] fewer[b]).0 by {
        let a2 = if a < i { a } else { a + 1 };
        let b2 = if b < i { b } else { b + 1 };
        assert(rows[a2].0 != rows[b2].0);
    }
    let before = rows.drop_last();
    assert forall|a: int, b: int| 0 <= a < b < before.len() implies (#[trigger] before[a]).0 != (
    #[trigger] before[b]).0 by {
        assert(rows[a].0 != rows[b].0);
    }
    if i == rows.len() - 1 {
        assert(fewer =~= before);
        lemma_rows_map_keys(before, rows[i].0);
        assert(!rows_map(before).contains_key(rows[i].0)) by {
            if rows_map(before).contains_key(rows[i].0) {
                let j = choose|j: int| 0 <= j < before.len() && (#[trigger] before[j]).0 == rows[i].0;
                assert(rows[j].0 != rows[i].0);
            }
        }
        assert(rows_map(fewer) =~= rows_map(rows).remove(rows[i].0));
    } else {
        lemma_rows_map_remove(before, i);
        assert(fewer.drop_last() =~= before.remove(i));
        assert(rows[i].0 != rows[rows.len() - 1].0);
        assert(rows_map(fewer) =~= rows_map(rows).remove(rows[i].0));
    }
}

/// A table from text to values. Its rows keep the order in which their keys
/// came in.
#[derive(Debug)]
pub struct Table<T> {
    entries: Vec<(String, T)>,
}

impl<T> Table<T> {
    #[verifier::type_invariant]
    spec fn has_distinct_keys(self) -> bool {
        forall|i: int, j: int|
            0 <= i < j < self.entries@.len() ==> (#[trigger] self.entries@[i]).0@ != (
            #[trigger] self.entries@[j]).0@
    }
}

impl<T: View> View for Table<T> {
    type V = Map<Seq<char>, T::V>;

    open spec fn view(&self) -> Map<Seq<char>, T::V> {
        rows_map(self.rows())
    }
}

impl<T: View> Table<T> {
    /// The keys and values, in the order of the rows.
    pub closed spec fn rows(&self) -> Seq<(Seq<char>, T::V)> {
        Seq::new(self.entries@.len(), |i: int| (self.entries@[i].0@, self.entries@[i].1@))
    }

    /// An empty table.
    pub fn new() -> (r: Self)
        ensures
            r@ == Map::<Seq<char>, T::V>::empty(),
            r.rows() == Seq::<(Seq<char>, T::V)>::empty(),
    {
        let r = Table { entries: Vec::new() };
        assert(r.rows() =~= Seq::empty());
        r
    }

    /// The number of rows.
    pub fn len(&self) -> (n: usize)
        ensures
            n == self.rows().len(),
            distinct_keys(self.rows()),
    {
        proof {
            use_type_invariant(self);
        }
        assert forall|i: int, j: int| 0 <= i < j < self.rows().len() implies (
        #[trigger] self.rows()[i]).0 != (#[trigger] self.rows()[j]).0 by {
            assert(self.entries@[i].0@ != self.entries@[j].0@);
        }
        self.entries.len()
    }

    /// The key of a row.
    pub fn key_at(&self, i: usize) -> (k: &String)
        requires
            i < self.rows().len(),
        ensures
            k@ == self.rows()[i as int].0,
    {
        &self.entries[i].0
    }

    /// The value of a row.
    pub fn value_at(&self, i: usize) -> (v: &T)
        requires
            i < self.rows().len(),
        ensures
            v@ == self.rows()[i as int].1,
    {
        &self.entries[i].1
    }

    /// The row of a key.
    fn position(&self, k: &str) -> (r: Option<usize>)
        ensures
            match r {
                Some(i) => i < self.rows().len() && self.rows()[i as int].0 == k@
                    && self@.contains_key(k@) && self@[k@] == self.rows()[i as int].1,
                None => !self@.contains_key(k@),
            },
            distinct_keys(self.rows()),
    {
        let n: usize = self.len();
        let key: String = k.to_owned();
        let mut i: usize = 0;
        while i < n
            invariant
                i <= n,
                n == self.rows().len(),
                key@ == k@,
                distinct_keys(self.rows()),
                forall|j: int| 0 <= j < i ==> (#[trigger] self.rows()[j]).0 != k@,
            decreases n - i,
        {
            if *self.key_at(i) == key {
                proof {
                    lemma_rows_map_at(self.rows(), i as int);
                }
                return Some(i);
            }
            i += 1;
        }
        proof {
            lemma_rows_map_keys(self.rows(), k@);
        }
        None
    }

    /// Whether a key is in the table.
    pub fn contains_key(&self, k: &str) -> (r: bool)
        ensures
            r == self@.contains_key(k@),
    {
        self.position(k).is_some()
    }

    /// The value of a key.
    pub fn get(&self, k: &str) -> (r: Option<&T>)
        ensures
            match r {
                Some(v) => self@.contains_key(k@) && v@ == self@[k@],
                None => !self@.contains_key(k@),
            },
    {
        match self.position(k) {
            Some(i) => Some(self.value_at(i)),
            None => None,
        }
    }

    /// Puts a value under a key, in place of the one that it had.
    pub fn insert(&mut self, k: String, v: T)
        ensures
            final(self)@ == old(self)@.insert(k@, v@),
    {
        let found: Option<usize> = self.position(&k);
        let ghost before = self.rows();
        proof {
            use_type_invariant(&*self);
        }
        let ghost key = k@;
        let ghost value = v@;
        let mut entries: Vec<(String, T)> = Vec::new();
        std::mem::swap(&mut entries, &mut self.entries);
        match found {
            Some(i) => {
                entries.set(i, (k, v));
                self.entries = entries;
                proof {
                    lemma_rows_map_update(before, i as int, value);
                    assert(self.rows() =~= before.update(i as int, (key, value)));
                }
            },
            None => {
                proof {
                    lemma_rows_map_keys(before, key);
                    assert forall|i: int| 0 <= i < entries@.len() implies (
                    #[trigger] entries@[i]).0@ != key by {
                        assert(before[i].0 != key);
                    }
                }
                entries.push((k, v));
                self.entries = entries;
                proof {
                    assert(self.rows().drop_last() =~= before);
                    assert(self.rows().last() == (key, value));
                }
            },
        }
    }

    /// Takes a key out, with the value that it had.
    pub fn remove(&mut self, k: &str) -> (r: Option<T>)
        ensures
            final(self)@ == old(self)@.remove(k@),
            match r {
                Some(v) => old(self)@.contains_key(k@) && v@ == old(self)@[k@],
                None => !old(self)@.contains_key(k@),
            },
    {
        let found: Option<usize> = self.position(k);
        match found {
            Some(i) => {
                let ghost before = self.rows();
                proof {
                    use_type_invariant(&*self);
                    lemma_rows_map_remove(before, i as int);
                }
                let mut entries: Vec<(String, T)> = Vec::new();
                std::mem::swap(&mut entries, &mut self.entries);
                let ghost all = entries@;
                let (_, v) = entries.remove(i);
                proof {
                    assert(entries@ =~= all.remove(i as int));
                    assert forall|a: int, b: int| 0 <= a < b < entries@.len() implies (
                    #[trigger] entries@[a]).0@ != (#[trigger] entries@[b]).0@ by {
                        let a2 = if a < i { a } else { a + 1 };
                        let b2 = if b < i { b } else { b + 1 };
                        assert(all[a2].0@ != all[b2].0@);
                    }
                }
                self.entries = entries;
                assert(self.rows() =~= before.remove(i as int));
                Some(v)
            },
            None => {
                assert(self@.remove(k@) =~= self@);
                None
            },
        }
    }
}

} // verus!
