use vstd::prelude::*;

use crate::bytes::bytes_eq;

verus! {

/// The map that results from inserting `entries` in order, a later entry
/// replacing an earlier one with the same key.
pub open spec fn map_of<V>(entries: Seq<(Vec<u8>, V)>) -> Map<Seq<u8>, V>
    decreases entries.len(),
{
    if entries.len() == 0 {
        Map::empty()
    } else {
        map_of(entries.drop_last()).insert(entries.last().0@, entries.last().1)
    }
}

/// `entries` without those whose key is `k`, the rest in their order.
pub open spec fn without_key<V>(entries: Seq<(Vec<u8>, V)>, k: Seq<u8>) -> Seq<(Vec<u8>, V)>
    decreases entries.len(),
{
    if entries.len() == 0 {
        entries
    } else {
        let rest = without_key(entries.drop_last(), k);
        if entries.last().0@ == k {
            rest
        } else {
            rest.push(entries.last())
        }
    }
}

/// Entries past position `i` that do not carry key `k` do not change what the
/// map says of `k`.
proof fn lemma_map_of_suffix<V>(entries: Seq<(Vec<u8>, V)>, i: int, k: Seq<u8>)
    requires
        0 <= i <= entries.len(),
        forall|j: int| i <= j < entries.len() ==> (#[trigger] entries[j]).0@ != k,
    ensures
        map_of(entries).contains_key(k) == map_of(entries.take(i)).contains_key(k),
        map_of(entries).contains_key(k) ==> map_of(entries)[k] == map_of(entries.take(i))[k],
    decreases entries.len(),
{
    if entries.len() == i {
        assert(entries.take(i) =~= entries);
    } else {
        let d = entries.drop_last();
        assert(d.take(i) =~= entries.take(i));
        assert forall|j: int| i <= j < d.len() implies (#[trigger] d[j]).0@ != k by {
            assert(d[j] == entries[j]);
        }
        lemma_map_of_suffix(d, i, k);
    }
}

proof fn lemma_without_key<V>(entries: Seq<(Vec<u8>, V)>, k: Seq<u8>)
    ensures
        map_of(without_key(entries, k)) == map_of(entries).remove(k),
    decreases entries.len(),
{
    if entries.len() == 0 {
        assert(map_of(entries).remove(k) =~= Map::empty());
    } else {
        lemma_without_key(entries.drop_last(), k);
        let rest = without_key(entries.drop_last(), k);
        if entries.last().0@ == k {
            assert(map_of(entries).remove(k) =~= map_of(entries.drop_last()).remove(k));
        } else {
            assert(rest.push(entries.last()).drop_last() =~= rest);
            assert(map_of(without_key(entries, k)) =~= map_of(entries).remove(k));
        }
    }
}

/// A map from byte-string keys to values, kept as the list of its
/// insertions; a later insertion of a key hides the earlier ones.
pub struct Table<V> {
    entries: Vec<(Vec<u8>, V)>,
}

impl<V> View for Table<V> {
    type V = Map<Seq<u8>, V>;

    closed spec fn view(&self) -> Map<Seq<u8>, V> {
        map_of(self.entries@)
    }
}

impl<V> Table<V> {
    /// An empty table.
    pub fn new() -> (t: Self)
        ensures
            t@ == Map::<Seq<u8>, V>::empty(),
    {
        Table { entries: Vec::new() }
    }

    /// Sets the value of `key` to `value`, replacing any earlier one.
    pub fn insert(&mut self, key: Vec<u8>, value: V)
        ensures
            final(self)@ == old(self)@.insert(key@, value),
    {
        self.entries.push((key, value));
        assert(self.entries@.drop_last() =~= old(self).entries@);
    }

    /// The position of the entry that gives `key` its value, if any.
    fn find(&self, key: &[u8]) -> (r: Option<usize>)
        ensures
            match r {
                Some(i) => i < self.entries@.len() && self@.contains_key(key@)
                    && self.entries@[i as int].0@ == key@
                    && self@[key@] == self.entries@[i as int].1,
                None => !self@.contains_key(key@),
            },
    {
        let mut i: usize = self.entries.len();
        while i > 0
            invariant
                0 <= i <= self.entries@.len(),
                forall|j: int| i <= j < self.entries@.len() ==> (#[trigger] self.entries@[j]).0@
                    != key@,
            decreases i,
        {
            let found = bytes_eq(self.entries[i - 1].0.as_slice(), key);
            if found {
                proof {
                    let e = self.entries@;
                    lemma_map_of_suffix(e, i as int, key@);
                    assert(e.take(i as int).drop_last() =~= e.take(i - 1));
                }
                return Some(i - 1);
            }
            i -= 1;
        }
        proof {
            lemma_map_of_suffix(self.entries@, 0, key@);
        }
        None
    }

    /// Whether `key` has a value.
    pub fn contains_key(&self, key: &[u8]) -> (r: bool)
        ensures
            r == self@.contains_key(key@),
    {
        self.find(key).is_some()
    }

    /// The value of `key`, if it has one.
    pub fn get(&self, key: &[u8]) -> (r: Option<&V>)
        ensures
            match r {
                Some(v) => self@.contains_key(key@) && *v == self@[key@],
                None => !self@.contains_key(key@),
            },
    {
        match self.find(key) {
            Some(i) => Some(&self.entries[i].1),
            None => None,
        }
    }

    /// Takes `key` out of the table and hands back its value, if it had one.
    pub fn remove(&mut self, key: &[u8]) -> (r: Option<V>)
        ensures
            final(self)@ == old(self)@.remove(key@),
            r == (if old(self)@.contains_key(key@) {
                Some(old(self)@[key@])
            } else {
                None
            }),
    {
        let ghost e = self.entries@;
        let ghost mut j: int = 0;
        let mut i: usize = 0;
        let mut found: Option<V> = None;
        while i < self.entries.len()
            invariant
                0 <= j <= e.len(),
                i == without_key(e.take(j), key@).len(),
                self.entries@ == without_key(e.take(j), key@) + e.skip(j),
                found == (if map_of(e.take(j)).contains_key(key@) {
                    Some(map_of(e.take(j))[key@])
                } else {
                    None
                }),
            decreases e.len() - j,
        {
            proof {
                assert(self.entries@[i as int] == e[j]);
                assert(e.take(j + 1).drop_last() =~= e.take(j));
            }
            if bytes_eq(self.entries[i].0.as_slice(), key) {
                let (_, v) = self.entries.remove(i);
                found = Some(v);
                proof {
                    assert(self.entries@ =~= without_key(e.take(j + 1), key@) + e.skip(j + 1));
                    j = j + 1;
                }
            } else {
                proof {
                    assert(without_key(e.take(j + 1), key@) == without_key(e.take(j), key@).push(
                        e[j],
                    ));
                    assert(self.entries@ =~= without_key(e.take(j + 1), key@) + e.skip(j + 1));
                    j = j + 1;
                }
                i += 1;
            }
        }
        proof {
            if j < e.len() {
                assert(self.entries@.len() > i);
            }
            assert(e.take(j) =~= e);
            assert(self.entries@ =~= without_key(e, key@));
            lemma_without_key(e, key@);
        }
        found
    }
}

} // verus!
