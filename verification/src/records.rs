//! A small table of records keyed by process name: a vector of pairs with
//! unique keys, readable as a map from name to record, and walkable in a
//! fixed order for the per-tick evaluations.

use crate::textparse::str_eq;
use vstd::prelude::*;

verus! {

/// The pairs of a table, names as character sequences.
pub open spec fn entries_view<V>(entries: Seq<(String, V)>) -> Seq<(Seq<char>, V)> {
    entries.map_values(|e: (String, V)| (e.0@, e.1))
}

/// The pairs read as a map, a later pair overriding an earlier one.
pub open spec fn table_map<V>(s: Seq<(Seq<char>, V)>) -> Map<Seq<char>, V>
    decreases s.len(),
{
    if s.len() == 0 {
        Map::empty()
    } else {
        table_map(s.drop_last()).insert(s.last().0, s.last().1)
    }
}

pub open spec fn has_key<V>(s: Seq<(Seq<char>, V)>, k: Seq<char>) -> bool {
    exists|i: int| 0 <= i < s.len() && s[i].0 == k
}

pub open spec fn unique_keys<V>(s: Seq<(Seq<char>, V)>) -> bool {
    forall|i: int, j: int| 0 <= i < j < s.len() ==> s[i].0 != s[j].0
}

pub proof fn lemma_table_map_domain<V>(s: Seq<(Seq<char>, V)>, k: Seq<char>)
    ensures
        table_map(s).contains_key(k) <==> has_key(s, k),
    decreases s.len(),
{
    if s.len() > 0 {
        lemma_table_map_domain(s.drop_last(), k);
        if has_key(s.drop_last(), k) {
            let i = choose|i: int| 0 <= i < s.drop_last().len() && s.drop_last()[i].0 == k;
            assert(s[i].0 == k);
        }
        if has_key(s, k) && s.last().0 != k {
            let i = choose|i: int| 0 <= i < s.len() && s[i].0 == k;
            assert(s.drop_last()[i].0 == k);
        }
    }
}

pub proof fn lemma_table_map_at<V>(s: Seq<(Seq<char>, V)>, i: int)
    requires
        unique_keys(s),
        0 <= i < s.len(),
    ensures
        table_map(s).contains_key(s[i].0),
        table_map(s)[s[i].0] == s[i].1,
    decreases s.len(),
{
    lemma_table_map_domain(s, s[i].0);
    if i == s.len() - 1 {
    } else {
        assert(s.drop_last()[i] == s[i]);
        lemma_table_map_at(s.drop_last(), i);
    }
}

pub proof fn lemma_table_map_update<V>(s: Seq<(Seq<char>, V)>, i: int, v: V)
    requires
        unique_keys(s),
        0 <= i < s.len(),
    ensures
        table_map(s.update(i, (s[i].0, v))) == table_map(s).insert(s[i].0, v),
        unique_keys(s.update(i, (s[i].0, v))),
    decreases s.len(),
{
    let t = s.update(i, (s[i].0, v));
    assert(forall|j: int| 0 <= j < s.len() && j != i ==> t[j] == s[j]);
    if i == s.len() - 1 {
        assert(t.drop_last() =~= s.drop_last());
        assert(t.last() == (s[i].0, v));
        assert(table_map(t) =~= table_map(s).insert(s[i].0, v)) by {
            lemma_table_map_domain(s.drop_last(), s[i].0);
        };
    } else {
        assert(t.drop_last() =~= s.drop_last().update(i, (s[i].0, v)));
        assert(s.drop_last()[i] == s[i]);
        lemma_table_map_update(s.drop_last(), i, v);
        assert(t.last() == s.last());
        // Inserting at the changed key and then at the unchanged last key
        // commutes, since the keys differ.
        assert(s.last().0 != s[i].0);
        assert(table_map(t) =~= table_map(s).insert(s[i].0, v));
    }
}

pub proof fn lemma_table_map_remove<V>(s: Seq<(Seq<char>, V)>, i: int)
    requires
        unique_keys(s),
        0 <= i < s.len(),
    ensures
        table_map(s.remove(i)) == table_map(s).remove(s[i].0),
        unique_keys(s.remove(i)),
    decreases s.len(),
{
    let t = s.remove(i);
    assert(forall|j: int| 0 <= j < i ==> t[j] == s[j]);
    assert(forall|j: int| i <= j < t.len() ==> t[j] == s[j + 1]);
    if i == s.len() - 1 {
        assert(t =~= s.drop_last());
        assert(!has_key(s.drop_last(), s[i].0));
        lemma_table_map_domain(s.drop_last(), s[i].0);
        assert(table_map(t) =~= table_map(s).remove(s[i].0));
    } else {
        assert(t.drop_last() =~= s.drop_last().remove(i));
        assert(s.drop_last()[i] == s[i]);
        lemma_table_map_remove(s.drop_last(), i);
        assert(t.last() == s.last());
        assert(s.last().0 != s[i].0);
        assert(table_map(t) =~= table_map(s).remove(s[i].0));
    }
}

pub proof fn lemma_table_map_push<V>(s: Seq<(Seq<char>, V)>, name: Seq<char>, v: V)
    requires
        unique_keys(s),
        !has_key(s, name),
    ensures
        table_map(s.push((name, v))) == table_map(s).insert(name, v),
        unique_keys(s.push((name, v))),
{
    assert(s.push((name, v)).drop_last() =~= s);
    assert(forall|i: int| 0 <= i < s.len() ==> s.push((name, v))[i] == s[i]);
}

/// Looks a name up in a plain pair vector, the last occurrence winning, as
/// reading the pairs into a hash map and then looking the name up would.
pub fn assoc_get_last<'a, V>(entries: &'a Vec<(String, V)>, name: &str) -> (r: Option<&'a V>)
    ensures
        match r {
            Some(val) => table_map(entries_view(entries@)).contains_key(name@) && *val
                == table_map(entries_view(entries@))[name@],
            None => !table_map(entries_view(entries@)).contains_key(name@),
        },
{
    let ghost s = entries_view(entries@);
    let mut j = entries.len();
    proof {
        assert(s.take(j as int) =~= s);
    }
    while j > 0
        invariant
            s == entries_view(entries@),
            j <= entries@.len(),
            table_map(s).contains_key(name@) <==> table_map(s.take(j as int)).contains_key(
                name@,
            ),
            table_map(s).contains_key(name@) ==> table_map(s)[name@] == table_map(
                s.take(j as int),
            )[name@],
        decreases j,
    {
        let i = j - 1;
        proof {
            assert(s.take(i + 1).drop_last() =~= s.take(i as int));
            assert(s.take(i + 1).last() == s[i as int]);
        }
        if str_eq(entries[i].0.as_str(), name) {
            proof {
                assert(table_map(s.take(i + 1)) == table_map(s.take(i as int)).insert(
                    s[i as int].0,
                    s[i as int].1,
                ));
            }
            return Some(&entries[i].1);
        }
        j = i;
    }
    proof {
        assert(s.take(0) =~= Seq::<(Seq<char>, V)>::empty());
    }
    None
}

/// A table of records keyed by process name.
pub struct RecordTable<V> {
    pub entries: Vec<(String, V)>,
}

impl<V> RecordTable<V> {
    /// The pairs of the table, in walk order.
    pub open spec fn view_seq(self) -> Seq<(Seq<char>, V)> {
        entries_view(self.entries@)
    }

    /// The table read as a map from name to record.
    pub open spec fn as_map(self) -> Map<Seq<char>, V> {
        table_map(self.view_seq())
    }

    /// Every name appears at most once.
    pub open spec fn wf(self) -> bool {
        unique_keys(self.view_seq())
    }

    pub fn new() -> (r: Self)
        ensures
            r.wf(),
            r.view_seq() == Seq::<(Seq<char>, V)>::empty(),
            r.as_map() == Map::<Seq<char>, V>::empty(),
    {
        let r = RecordTable { entries: Vec::new() };
        proof {
            assert(r.view_seq() =~= Seq::<(Seq<char>, V)>::empty());
        }
        r
    }

    /// The position of `name` in the table, if it is there.
    fn find(&self, name: &str) -> (r: Option<usize>)
        ensures
            r matches Some(i) ==> i < self.view_seq().len() && self.view_seq()[i as int].0
                == name@,
            r is None ==> !has_key(self.view_seq(), name@),
    {
        let n = self.entries.len();
        let mut i: usize = 0;
        while i < n
            invariant
                n == self.entries@.len(),
                i <= n,
                forall|j: int| 0 <= j < i ==> self.view_seq()[j].0 != name@,
            decreases n - i,
        {
            if str_eq(self.entries[i].0.as_str(), name) {
                return Some(i);
            }
            i += 1;
        }
        None
    }

    pub fn contains(&self, name: &str) -> (r: bool)
        requires
            self.wf(),
        ensures
            r == self.as_map().contains_key(name@),
    {
        proof {
            lemma_table_map_domain(self.view_seq(), name@);
        }
        match self.find(name) {
            Some(i) => {
                proof {
                    assert(has_key(self.view_seq(), name@));
                }
                true
            },
            None => false,
        }
    }

    pub fn get(&self, name: &str) -> (r: Option<&V>)
        requires
            self.wf(),
        ensures
            match r {
                Some(v) => self.as_map().contains_key(name@) && *v == self.as_map()[name@],
                None => !self.as_map().contains_key(name@),
            },
    {
        proof {
            lemma_table_map_domain(self.view_seq(), name@);
        }
        match self.find(name) {
            Some(i) => {
                proof {
                    lemma_table_map_at(self.view_seq(), i as int);
                }
                Some(&self.entries[i].1)
            },
            None => None,
        }
    }

    /// Creates or overwrites the record of `name`.
    pub fn insert(&mut self, name: String, v: V)
        requires
            old(self).wf(),
        ensures
            final(self).wf(),
            final(self).as_map() == old(self).as_map().insert(name@, v),
    {
        match self.find(name.as_str()) {
            Some(i) => {
                proof {
                    lemma_table_map_update(self.view_seq(), i as int, v);
                }
                self.entries[i] = (name, v);
                proof {
                    assert(self.view_seq() =~= entries_view(old(self).entries@).update(
                        i as int,
                        (old(self).view_seq()[i as int].0, v),
                    ));
                }
            },
            None => {
                proof {
                    lemma_table_map_push(self.view_seq(), name@, v);
                }
                self.entries.push((name, v));
                proof {
                    assert(self.view_seq() =~= entries_view(old(self).entries@).push((name@, v)));
                }
            },
        }
    }

    /// Drops the record of `name`, if there is one.
    pub fn remove(&mut self, name: &str)
        requires
            old(self).wf(),
        ensures
            final(self).wf(),
            final(self).as_map() == old(self).as_map().remove(name@),
    {
        match self.find(name) {
            Some(i) => {
                proof {
                    lemma_table_map_remove(self.view_seq(), i as int);
                }
                self.entries.remove(i);
                proof {
                    assert(self.view_seq() =~= entries_view(old(self).entries@).remove(i as int));
                }
            },
            None => {
                proof {
                    lemma_table_map_domain(self.view_seq(), name@);
                    assert(self.as_map() =~= self.as_map().remove(name@));
                }
            },
        }
    }

    pub fn len(&self) -> (r: usize)
        ensures
            r == self.view_seq().len(),
    {
        self.entries.len()
    }
}

} // verus!
