//! A table of facts keyed by path.
//!
//! The table is a list of records; its meaning is the map from each path to
//! the value of the latest record made for it.

use vstd::prelude::*;

verus! {

/// The map that a list of records stands for: each record overrides the
/// earlier ones for the same path.
pub open spec fn records_map<V>(rows: Seq<(String, V)>) -> Map<Seq<char>, V>
    decreases rows.len(),
{
    if rows.len() == 0 {
        Map::empty()
    } else {
        records_map(rows.drop_last()).insert(rows.last().0@, rows.last().1)
    }
}

/// Records after position `from` that do not speak of `path` leave what the
/// table says of `path` to the records before `from`.
proof fn lemma_later_records_silent<V>(rows: Seq<(String, V)>, path: Seq<char>, from: int)
    requires
        0 <= from <= rows.len(),
        forall|j: int| from <= j < rows.len() ==> (#[trigger] rows[j]).0@ != path,
    ensures
        records_map(rows).contains_key(path) == records_map(rows.take(from)).contains_key(path),
        records_map(rows).contains_key(path) ==> records_map(rows)[path] == records_map(
            rows.take(from),
        )[path],
    decreases rows.len() - from,
{
    if from == rows.len() {
        assert(rows.take(from) =~= rows);
    } else {
        let shorter = rows.drop_last();
        assert(shorter.take(from) =~= rows.take(from));
        assert(rows.last() == rows[rows.len() - 1]);
        assert forall|j: int| from <= j < shorter.len() implies (#[trigger] shorter[j]).0@
            != path by {
            assert(shorter[j] == rows[j]);
        }
        lemma_later_records_silent(shorter, path, from);
    }
}

/// Facts about paths, one value per path.
#[derive(Debug)]
pub struct Table<V> {
    rows: Vec<(String, V)>,
}

impl<V> View for Table<V> {
    type V = Map<Seq<char>, V>;

    closed spec fn view(&self) -> Map<Seq<char>, V> {
        records_map(self.rows@)
    }
}

impl<V> Table<V> {
    /// A table that knows nothing.
    pub fn new() -> (table: Self)
        ensures
            table@ == Map::<Seq<char>, V>::empty(),
    {
        Table { rows: Vec::new() }
    }

    /// Records `value` for `path`, in place of what was known of it.
    pub fn insert(&mut self, path: &str, value: V)
        ensures
            final(self)@ == old(self)@.insert(path@, value),
    {
        let key = path.to_owned();
        proof {
            assert(self.rows@.push((key, value)).drop_last() =~= self.rows@);
        }
        self.rows.push((key, value));
    }

    /// What is known of `path`, if anything.
    pub fn get(&self, path: &str) -> (found: Option<&V>)
        ensures
            found is Some == self@.contains_key(path@),
            found matches Some(value) ==> *value == self@[path@],
    {
        let key = path.to_owned();
        let mut i = self.rows.len();
        while i > 0
            invariant
                i <= self.rows.len(),
                key@ == path@,
                forall|j: int| i <= j < self.rows.len() ==> (#[trigger] self.rows@[j]).0@ != path@,
            decreases i,
        {
            i = i - 1;
            if self.rows[i].0 == key {
                proof {
                    lemma_later_records_silent(self.rows@, path@, i + 1);
                    assert(self.rows@.take(i + 1).drop_last() =~= self.rows@.take(i as int));
                }
                return Some(&self.rows[i].1);
            }
        }
        proof {
            lemma_later_records_silent(self.rows@, path@, 0);
            assert(self.rows@.take(0) =~= Seq::<(String, V)>::empty());
        }
        None
    }
}

} // verus!
