//! The metadata index: a key-value map from composite keys to encoded
//! record lists, held in memory.
//!
//! Entries are kept in the order they were written; a later entry for a key
//! stands in for any earlier one.
use vstd::prelude::*;
use vstd::slice::slice_to_vec;

verus! {

/// The map that a list of entries stands for: later entries win.
pub open spec fn map_of(es: Seq<(Seq<u8>, Seq<u8>)>) -> Map<Seq<u8>, Seq<u8>>
    decreases es.len(),
{
    if es.len() == 0 {
        Map::empty()
    } else {
        map_of(es.drop_last()).insert(es.last().0, es.last().1)
    }
}

/// Whether two byte strings are equal.
pub fn bytes_eq(a: &[u8], b: &[u8]) -> (r: bool)
    ensures
        r == (a@ == b@),
{
    if a.len() != b.len() {
        return false;
    }
    let mut i: usize = 0;
    while i < a.len()
        invariant
            a@.len() == b@.len(),
            0 <= i <= a@.len(),
            forall|j: int| 0 <= j < i ==> a@[j] == b@[j],
        decreases a@.len() - i,
    {
        if a[i] != b[i] {
            return false;
        }
        i = i + 1;
    }
    assert(a@ =~= b@);
    true
}

/// The newest entry for `k` stands at `j`.
proof fn lemma_map_of_newest(es: Seq<(Seq<u8>, Seq<u8>)>, k: Seq<u8>, j: int)
    requires
        0 <= j < es.len(),
        es[j].0 == k,
        forall|i: int| j < i < es.len() ==> es[i].0 != k,
    ensures
        map_of(es).contains_key(k),
        map_of(es)[k] == es[j].1,
    decreases es.len(),
{
    if j < es.len() - 1 {
        lemma_map_of_newest(es.drop_last(), k, j);
    }
}

/// A key that no entry names is absent.
proof fn lemma_map_of_absent(es: Seq<(Seq<u8>, Seq<u8>)>, k: Seq<u8>)
    requires
        forall|i: int| 0 <= i < es.len() ==> es[i].0 != k,
    ensures
        !map_of(es).contains_key(k),
    decreases es.len(),
{
    if es.len() > 0 {
        lemma_map_of_absent(es.drop_last(), k);
    }
}

/// The metadata index, held in memory.
pub struct MetaIndex {
    entries: Vec<(Vec<u8>, Vec<u8>)>,
}

impl MetaIndex {
    /// The entries as byte strings.
    pub closed spec fn entries_view(&self) -> Seq<(Seq<u8>, Seq<u8>)> {
        self.entries@.map_values(|e: (Vec<u8>, Vec<u8>)| (e.0@, e.1@))
    }
}

impl View for MetaIndex {
    type V = Map<Seq<u8>, Seq<u8>>;

    closed spec fn view(&self) -> Map<Seq<u8>, Seq<u8>> {
        map_of(self.entries_view())
    }
}

impl MetaIndex {
    /// An empty index.
    pub fn new() -> (r: MetaIndex)
        ensures
            r@ == Map::<Seq<u8>, Seq<u8>>::empty(),
    {
        let r = MetaIndex { entries: Vec::new() };
        assert(r.entries_view() =~= Seq::empty());
        r
    }

    /// The position of the newest entry for `key`.
    fn find(&self, key: &[u8]) -> (r: Option<usize>)
        ensures
            match r {
                Some(j) => j < self.entries_view().len() && self.entries_view()[j as int].0
                    == key@ && forall|i: int|
                    j < i < self.entries_view().len() ==> self.entries_view()[i].0 != key@,
                None => forall|i: int|
                    0 <= i < self.entries_view().len() ==> self.entries_view()[i].0 != key@,
            },
    {
        let mut n: usize = self.entries.len();
        while n > 0
            invariant
                n <= self.entries_view().len(),
                self.entries_view().len() == self.entries@.len(),
                forall|i: int| n <= i < self.entries_view().len() ==> self.entries_view()[i].0 != key@,
            decreases n,
        {
            let j = n - 1;
            if bytes_eq(self.entries[j].0.as_slice(), key) {
                return Some(j);
            }
            n = j;
        }
        None
    }

    /// Whether `key` has a value.
    pub fn contains(&self, key: &[u8]) -> (r: bool)
        ensures
            r == self@.contains_key(key@),
    {
        match self.find(key) {
            Some(j) => {
                proof {
                    lemma_map_of_newest(self.entries_view(), key@, j as int);
                }
                true
            },
            None => {
                proof {
                    lemma_map_of_absent(self.entries_view(), key@);
                }
                false
            },
        }
    }

    /// The value of `key`, if it has one.
    pub fn get(&self, key: &[u8]) -> (r: Option<Vec<u8>>)
        ensures
            match r {
                Some(v) => self@.contains_key(key@) && v@ == self@[key@],
                None => !self@.contains_key(key@),
            },
    {
        match self.find(key) {
            Some(j) => {
                proof {
                    lemma_map_of_newest(self.entries_view(), key@, j as int);
                }
                Some(self.entries[j].1.clone())
            },
            None => {
                proof {
                    lemma_map_of_absent(self.entries_view(), key@);
                }
                None
            },
        }
    }

    /// Sets the value of `key`, replacing any earlier one.
    pub fn put(&mut self, key: &[u8], value: &[u8])
        ensures
            final(self)@ == old(self)@.insert(key@, value@),
    {
        let ghost before = self.entries_view();
        let k = slice_to_vec(key);
        let v = slice_to_vec(value);
        self.entries.push((k, v));
        assert(self.entries_view().drop_last() =~= before);
    }

    /// Removes `key` and its value. Removing an absent key changes nothing.
    pub fn delete(&mut self, key: &[u8])
        ensures
            final(self)@ == old(self)@.remove(key@),
    {
        let ghost es = self.entries_view();
        let mut kept: Vec<(Vec<u8>, Vec<u8>)> = Vec::new();
        let mut i: usize = 0;
        while i < self.entries.len()
            invariant
                es == self.entries_view(),
                es.len() == self.entries@.len(),
                0 <= i <= es.len(),
                map_of(kept@.map_values(|e: (Vec<u8>, Vec<u8>)| (e.0@, e.1@))) =~= map_of(
                    es.take(i as int),
                ).remove(key@),
            decreases es.len() - i,
        {
            let ghost kept_before = kept@.map_values(|e: (Vec<u8>, Vec<u8>)| (e.0@, e.1@));
            assert(es.take(i as int + 1).drop_last() =~= es.take(i as int));
            if !bytes_eq(self.entries[i].0.as_slice(), key) {
                let e = (self.entries[i].0.clone(), self.entries[i].1.clone());
                kept.push(e);
                assert(kept@.map_values(|e: (Vec<u8>, Vec<u8>)| (e.0@, e.1@)).drop_last()
                    =~= kept_before);
            }
            i = i + 1;
        }
        assert(es.take(es.len() as int) =~= es);
        self.entries = kept;
    }
}

} // verus!
