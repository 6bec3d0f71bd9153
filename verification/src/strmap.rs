//! A small string-keyed map with last-write-wins inserts, viewed as a
//! `Map<Seq<char>, Seq<char>>`. Headers, query parameters and path
//! parameters are all held in one of these.

use vstd::prelude::*;

use crate::strutil::str_eq;

verus! {

/// The map described by an entry list: later entries win.
pub open spec fn spec_entries_map(es: Seq<(String, String)>) -> Map<Seq<char>, Seq<char>>
    decreases es.len(),
{
    if es.len() == 0 {
        Map::empty()
    } else {
        spec_entries_map(es.drop_last()).insert(es.last().0@, es.last().1@)
    }
}

/// No two entries share a key.
pub open spec fn spec_unique_keys(es: Seq<(String, String)>) -> bool {
    forall|i: int, j: int|
        0 <= i < j < es.len() ==> (#[trigger] es[i]).0@ != (#[trigger] es[j]).0@
}

proof fn lemma_entries_map_contains(es: Seq<(String, String)>, k: Seq<char>)
    ensures
        spec_entries_map(es).contains_key(k) <==> exists|i: int|
            0 <= i < es.len() && (#[trigger] es[i]).0@ == k,
    decreases es.len(),
{
    if es.len() > 0 {
        lemma_entries_map_contains(es.drop_last(), k);
        if es.last().0@ == k {
            assert(es[es.len() - 1].0@ == k);
        } else if spec_entries_map(es.drop_last()).contains_key(k) {
            let i = choose|i: int|
                0 <= i < es.drop_last().len() && (#[trigger] es.drop_last()[i]).0@ == k;
            assert(es[i].0@ == k);
        } else if exists|i: int| 0 <= i < es.len() && (#[trigger] es[i]).0@ == k {
            let i = choose|i: int| 0 <= i < es.len() && (#[trigger] es[i]).0@ == k;
            assert(i < es.len() - 1 ==> es.drop_last()[i].0@ == k);
        }
    }
}

proof fn lemma_entries_map_get(es: Seq<(String, String)>, i: int)
    requires
        spec_unique_keys(es),
        0 <= i < es.len(),
    ensures
        spec_entries_map(es).contains_key(es[i].0@),
        spec_entries_map(es)[es[i].0@] == es[i].1@,
    decreases es.len(),
{
    if i == es.len() - 1 {
    } else {
        assert(es.drop_last()[i] == es[i]);
        assert forall|a: int, b: int|
            0 <= a < b < es.drop_last().len() implies (#[trigger] es.drop_last()[a]).0@ != (
        #[trigger] es.drop_last()[b]).0@ by {
            assert(es.drop_last()[a] == es[a] && es.drop_last()[b] == es[b]);
        }
        lemma_entries_map_get(es.drop_last(), i);
        assert(es[i].0@ != es.last().0@);
    }
}

proof fn lemma_unique_drop_last(es: Seq<(String, String)>)
    requires
        spec_unique_keys(es),
        es.len() > 0,
    ensures
        spec_unique_keys(es.drop_last()),
{
    assert forall|a: int, b: int|
        0 <= a < b < es.drop_last().len() implies (#[trigger] es.drop_last()[a]).0@ != (
    #[trigger] es.drop_last()[b]).0@ by {
        assert(es.drop_last()[a] == es[a] && es.drop_last()[b] == es[b]);
    }
}

proof fn lemma_entries_map_remove(es: Seq<(String, String)>, i: int, k: Seq<char>)
    requires
        spec_unique_keys(es),
        0 <= i < es.len(),
        es[i].0@ == k,
    ensures
        spec_entries_map(es.remove(i)) == spec_entries_map(es).remove(k),
        spec_unique_keys(es.remove(i)),
    decreases es.len(),
{
    lemma_unique_drop_last(es);
    assert forall|a: int, b: int|
        0 <= a < b < es.remove(i).len() implies (#[trigger] es.remove(i)[a]).0@ != (
    #[trigger] es.remove(i)[b]).0@ by {
        let a0 = if a < i {
            a
        } else {
            a + 1
        };
        let b0 = if b < i {
            b
        } else {
            b + 1
        };
        assert(es.remove(i)[a] == es[a0] && es.remove(i)[b] == es[b0]);
    }
    if i == es.len() - 1 {
        assert(es.remove(i) =~= es.drop_last());
        lemma_entries_map_contains(es.drop_last(), k);
        assert forall|a: int| 0 <= a < es.drop_last().len() implies (#[trigger] es.drop_last()[a]).0@
            != k by {
            assert(es.drop_last()[a] == es[a]);
        }
        assert(!spec_entries_map(es.drop_last()).contains_key(k));
        assert(spec_entries_map(es.drop_last()).insert(k, es.last().1@).remove(k)
            =~= spec_entries_map(es.drop_last()));
    } else {
        assert(es[i].0@ != es.last().0@);
        assert(es.drop_last()[i] == es[i]);
        lemma_entries_map_remove(es.drop_last(), i, k);
        assert(es.remove(i).drop_last() =~= es.drop_last().remove(i));
        assert(es.remove(i).last() == es.last());
        assert(spec_entries_map(es.remove(i)) == spec_entries_map(es.drop_last().remove(i)).insert(
            es.last().0@,
            es.last().1@,
        ));
        assert(spec_entries_map(es.drop_last()).remove(k).insert(es.last().0@, es.last().1@)
            =~= spec_entries_map(es.drop_last()).insert(es.last().0@, es.last().1@).remove(k));
    }
}

proof fn lemma_entries_map_absent(es: Seq<(String, String)>, k: Seq<char>)
    requires
        forall|i: int| 0 <= i < es.len() ==> (#[trigger] es[i]).0@ != k,
    ensures
        !spec_entries_map(es).contains_key(k),
{
    lemma_entries_map_contains(es, k);
}

proof fn lemma_entries_map_len(es: Seq<(String, String)>)
    requires
        spec_unique_keys(es),
    ensures
        spec_entries_map(es).dom().finite(),
        spec_entries_map(es).len() == es.len(),
    decreases es.len(),
{
    if es.len() > 0 {
        lemma_unique_drop_last(es);
        lemma_entries_map_len(es.drop_last());
        assert forall|a: int| 0 <= a < es.drop_last().len() implies (#[trigger] es.drop_last()[a]).0@
            != es.last().0@ by {
            assert(es.drop_last()[a] == es[a]);
        }
        lemma_entries_map_absent(es.drop_last(), es.last().0@);
    }
}

/// An insertion-ordered list of key/value pairs with unique keys, read as a
/// map from key characters to value characters.
pub struct StrMap {
    entries: Vec<(String, String)>,
}

impl View for StrMap {
    type V = Map<Seq<char>, Seq<char>>;

    closed spec fn view(&self) -> Map<Seq<char>, Seq<char>> {
        spec_entries_map(self.entries@)
    }
}

impl StrMap {
    /// Every key occurs in one entry only.
    pub closed spec fn wf(&self) -> bool {
        spec_unique_keys(self.entries@)
    }

    /// The empty map.
    pub fn new() -> (r: StrMap)
        ensures
            r@ == Map::<Seq<char>, Seq<char>>::empty(),
            r.wf(),
    {
        StrMap { entries: Vec::new() }
    }

    /// How many keys are held.
    pub fn len(&self) -> (r: usize)
        requires
            self.wf(),
        ensures
            r == self@.len(),
            self@.dom().finite(),
    {
        proof {
            lemma_entries_map_len(self.entries@);
        }
        self.entries.len()
    }

    fn index_of(&self, key: &str) -> (r: Option<usize>)
        ensures
            match r {
                Some(i) => i < self.entries@.len() && self.entries@[i as int].0@ == key@,
                None => forall|i: int|
                    0 <= i < self.entries@.len() ==> (#[trigger] self.entries@[i]).0@ != key@,
            },
    {
        let n = self.entries.len();
        let mut i: usize = 0;
        while i < n
            invariant
                n == self.entries@.len(),
                i <= n,
                forall|j: int| 0 <= j < i ==> (#[trigger] self.entries@[j]).0@ != key@,
            decreases n - i,
        {
            if str_eq(self.entries[i].0.as_str(), key) {
                return Some(i);
            }
            i += 1;
        }
        None
    }

    /// The value stored under `key`, if any.
    pub fn get<'a>(&'a self, key: &str) -> (r: Option<&'a String>)
        requires
            self.wf(),
        ensures
            match r {
                Some(v) => self@.contains_key(key@) && v@ == self@[key@],
                None => !self@.contains_key(key@),
            },
    {
        match self.index_of(key) {
            Some(i) => {
                proof {
                    lemma_entries_map_get(self.entries@, i as int);
                }
                Some(&self.entries[i].1)
            },
            None => {
                proof {
                    lemma_entries_map_absent(self.entries@, key@);
                }
                None
            },
        }
    }

    /// Whether `key` is present.
    pub fn contains_key(&self, key: &str) -> (r: bool)
        requires
            self.wf(),
        ensures
            r == self@.contains_key(key@),
    {
        match self.get(key) {
            Some(_) => true,
            None => false,
        }
    }

    /// Removes `key` if present; the map no longer holds it.
    pub fn remove(&mut self, key: &str)
        requires
            old(self).wf(),
        ensures
            final(self)@ == old(self)@.remove(key@),
            final(self).wf(),
    {
        match self.index_of(key) {
            Some(i) => {
                proof {
                    lemma_entries_map_remove(self.entries@, i as int, key@);
                }
                self.entries.remove(i);
            },
            None => {
                proof {
                    lemma_entries_map_absent(self.entries@, key@);
                    assert(spec_entries_map(self.entries@).remove(key@) =~= spec_entries_map(
                        self.entries@,
                    ));
                }
            },
        }
    }

    /// Binds `key` to `value`; an earlier binding of the same key is
    /// overwritten.
    pub fn insert(&mut self, key: &str, value: &str)
        requires
            old(self).wf(),
        ensures
            final(self)@ == old(self)@.insert(key@, value@),
            final(self).wf(),
    {
        self.remove(key);
        let ghost before = self.entries@;
        self.entries.push((String::from_str(key), String::from_str(value)));
        proof {
            assert(self.entries@.drop_last() =~= before);
            assert(self.entries@.last().0@ == key@ && self.entries@.last().1@ == value@);
            assert(old(self)@.remove(key@).insert(key@, value@) =~= old(self)@.insert(
                key@,
                value@,
            ));
            lemma_entries_map_contains(before, key@);
            assert forall|a: int, b: int|
                0 <= a < b < self.entries@.len() implies (#[trigger] self.entries@[a]).0@ != (
            #[trigger] self.entries@[b]).0@ by {
                if b < self.entries@.len() - 1 {
                    assert(self.entries@[a] == before[a] && self.entries@[b] == before[b]);
                } else {
                    assert(self.entries@[a] == before[a]);
                }
            }
        }
    }

    /// The entry at position `i`, in insertion order.
    pub fn pair_at(&self, i: usize) -> (r: (&String, &String))
        requires
            self.wf(),
            i < self@.len(),
        ensures
            self@.contains_key(r.0@),
            self@[r.0@] == r.1@,
    {
        proof {
            lemma_entries_map_len(self.entries@);
            lemma_entries_map_get(self.entries@, i as int);
        }
        let p = &self.entries[i];
        (&p.0, &p.1)
    }

    /// A copy holding the same entries.
    pub fn duplicate(&self) -> (r: StrMap)
        ensures
            r@ == self@,
            r.wf() == self.wf(),
    {
        let n = self.entries.len();
        let mut entries: Vec<(String, String)> = Vec::new();
        let mut i: usize = 0;
        while i < n
            invariant
                n == self.entries@.len(),
                i <= n,
                entries@ =~= self.entries@.take(i as int),
            decreases n - i,
        {
            let k = self.entries[i].0.clone();
            let v = self.entries[i].1.clone();
            entries.push((k, v));
            proof {
                assert(entries@ =~= self.entries@.take(i as int + 1));
            }
            i += 1;
        }
        proof {
            assert(self.entries@.take(n as int) =~= self.entries@);
        }
        StrMap { entries }
    }
}

} // verus!
