//! A small keyed table: text key to unsigned value, keys unique,
//! entries kept in insertion order.
//!
//! Both the correction store's overrides and the registry's
//! per-interface averages are tables of this shape. A write replaces
//! the entry that carries the key or appends a new one; nothing is
//! ever deleted.

use vstd::prelude::*;

verus! {

/// Whether some entry carries `key`.
pub open spec fn has_key(entries: Seq<(String, u64)>, key: Seq<char>) -> bool {
    exists|i: int| 0 <= i < entries.len() && #[trigger] entries[i].0@ == key
}

/// The index of the entry carrying `key` (meaningful when the keys
/// are unique and `key` is present).
pub open spec fn key_index(entries: Seq<(String, u64)>, key: Seq<char>) -> int {
    choose|i: int| 0 <= i < entries.len() && #[trigger] entries[i].0@ == key
}

/// The value stored under `key`, if any entry carries it.
pub open spec fn lookup(entries: Seq<(String, u64)>, key: Seq<char>) -> Option<u64> {
    if has_key(entries, key) {
        Some(entries[key_index(entries, key)].1)
    } else {
        None
    }
}

/// No two entries carry the same key.
pub open spec fn unique_keys(entries: Seq<(String, u64)>) -> bool {
    forall|i: int, j: int|
        0 <= i < j < entries.len() ==> #[trigger] entries[i].0@ != #[trigger] entries[j].0@
}

/// The entries as plain values: (key, value), in table order.
pub open spec fn entry_views(entries: Seq<(String, u64)>) -> Seq<(Seq<char>, u64)> {
    entries.map_values(|p: (String, u64)| (p.0@, p.1))
}

/// Text-keyed table of unsigned values with unique keys.
pub struct Table {
    pub entries: Vec<(String, u64)>,
}

impl Table {
    /// Validity: no key occurs twice.
    pub open spec fn wf(self) -> bool {
        unique_keys(self.entries@)
    }

    /// The stored value for `key`, if the table carries it.
    pub open spec fn spec_get(self, key: Seq<char>) -> Option<u64> {
        lookup(self.entries@, key)
    }

    /// An empty table.
    pub fn new() -> (t: Self)
        ensures
            t.wf(),
            t.entries@ =~= Seq::<(String, u64)>::empty(),
            forall|k: Seq<char>| t.spec_get(k) is None,
    {
        Table { entries: Vec::new() }
    }

    /// Reads the value stored for `key`, if any.
    pub fn get(&self, key: &str) -> (v: Option<u64>)
        requires
            self.wf(),
        ensures
            v == self.spec_get(key@),
    {
        let key_owned: String = key.to_owned();
        let n: usize = self.entries.len();
        let mut i: usize = 0;
        while i < n
            invariant
                self.wf(),
                n == self.entries@.len(),
                i <= n,
                key_owned@ == key@,
                forall|j: int| 0 <= j < i ==> self.entries@[j].0@ != key@,
            decreases n - i,
        {
            if self.entries[i].0 == key_owned {
                proof {
                    assert(has_key(self.entries@, key@));
                    assert(key_index(self.entries@, key@) == i);
                }
                return Some(self.entries[i].1);
            }
            i = i + 1;
        }
        proof {
            assert(!has_key(self.entries@, key@));
        }
        None
    }

    /// Writes `value` under `key`: replaces the entry carrying `key`
    /// or appends a new one. Every other key keeps its value.
    pub fn put(&mut self, key: &str, value: u64)
        requires
            old(self).wf(),
        ensures
            final(self).wf(),
            final(self).spec_get(key@) == Some(value),
            forall|k: Seq<char>| k != key@ ==> final(self).spec_get(k) == old(self).spec_get(k),
            has_key(old(self).entries@, key@) ==> {
                let i = key_index(old(self).entries@, key@);
                &&& final(self).entries@.len() == old(self).entries@.len()
                &&& final(self).entries@[i].0@ == key@
                &&& final(self).entries@[i].1 == value
                &&& forall|j: int|
                    0 <= j < old(self).entries@.len() && j != i ==> final(self).entries@[j] == old(
                        self,
                    ).entries@[j]
                &&& entry_views(final(self).entries@) == entry_views(old(self).entries@).update(
                    i,
                    (key@, value),
                )
            },
            !has_key(old(self).entries@, key@) ==> {
                &&& final(self).entries@.len() == old(self).entries@.len() + 1
                &&& final(self).entries@.last().0@ == key@
                &&& final(self).entries@.last().1 == value
                &&& forall|j: int|
                    0 <= j < old(self).entries@.len() ==> final(self).entries@[j] == old(
                        self,
                    ).entries@[j]
                &&& entry_views(final(self).entries@) == entry_views(old(self).entries@).push(
                    (key@, value),
                )
            },
    {
        let key_owned: String = key.to_owned();
        let n: usize = self.entries.len();
        let mut i: usize = 0;
        while i < n
            invariant
                self.wf(),
                *self == *old(self),
                n == self.entries@.len(),
                i <= n,
                key_owned@ == key@,
                forall|j: int| 0 <= j < i ==> self.entries@[j].0@ != key@,
            decreases n - i,
        {
            if self.entries[i].0 == key_owned {
                proof {
                    assert(has_key(self.entries@, key@));
                    assert(key_index(self.entries@, key@) == i);
                }
                self.entries[i] = (key_owned, value);
                proof {
                    lemma_update_effect(
                        old(self).entries@,
                        self.entries@,
                        i as int,
                        key@,
                        value,
                    );
                    assert(entry_views(self.entries@) =~= entry_views(
                        old(self).entries@,
                    ).update(i as int, (key@, value)));
                }
                return ;
            }
            i = i + 1;
        }
        self.entries.push((key_owned, value));
        proof {
            lemma_push_effect(old(self).entries@, self.entries@, key@, value);
            assert(entry_views(self.entries@) =~= entry_views(old(self).entries@).push(
                (key@, value),
            ));
        }
    }
}

impl Table {
    /// A point-in-time copy with the same entries.
    pub fn snapshot(&self) -> (t: Self)
        requires
            self.wf(),
        ensures
            t.wf(),
            t.entries@ == self.entries@,
    {
        let n: usize = self.entries.len();
        let mut copied: Vec<(String, u64)> = Vec::new();
        let mut i: usize = 0;
        while i < n
            invariant
                self.wf(),
                n == self.entries@.len(),
                i <= n,
                copied@ =~= self.entries@.subrange(0, i as int),
            decreases n - i,
        {
            let pair = &self.entries[i];
            copied.push((pair.0.clone(), pair.1));
            proof {
                assert(copied@ =~= self.entries@.subrange(0, i as int + 1));
            }
            i = i + 1;
        }
        proof {
            assert(copied@ =~= self.entries@);
        }
        Table { entries: copied }
    }
}

/// Replacing the entry at the index that carries `key` (all other
/// entries untouched, keys unique) yields a table whose lookup gives
/// `value` for `key` and is unchanged for every other key.
proof fn lemma_update_effect(
    olds: Seq<(String, u64)>,
    news: Seq<(String, u64)>,
    i: int,
    key: Seq<char>,
    value: u64,
)
    requires
        unique_keys(olds),
        0 <= i < olds.len(),
        olds[i].0@ == key,
        news.len() == olds.len(),
        news[i].0@ == key,
        news[i].1 == value,
        forall|j: int| 0 <= j < olds.len() && j != i ==> news[j] == olds[j],
    ensures
        unique_keys(news),
        lookup(news, key) == Some(value),
        forall|k: Seq<char>| k != key ==> lookup(news, k) == lookup(olds, k),
{
    assert forall|p: int, q: int| 0 <= p < q < news.len() implies news[p].0@ != news[q].0@ by {
        assert(olds[p].0@ != olds[q].0@);
    }
    assert(has_key(news, key));
    assert(key_index(news, key) == i);
    assert forall|k: Seq<char>| k != key implies lookup(news, k) == lookup(olds, k) by {
        if has_key(olds, k) {
            let j = key_index(olds, k);
            assert(olds[j].0@ == k);
            assert(j != i);
            assert(news[j].0@ == k);
            assert(has_key(news, k));
            assert(key_index(news, k) == j);
        } else {
            assert forall|j: int| 0 <= j < news.len() implies news[j].0@ != k by {
                if j != i {
                    assert(news[j] == olds[j]);
                }
            }
            assert(!has_key(news, k));
        }
    }
}

/// Appending an entry for a key that no entry carries yields a table
/// whose lookup gives `value` for `key` and is unchanged for every
/// other key.
proof fn lemma_push_effect(
    olds: Seq<(String, u64)>,
    news: Seq<(String, u64)>,
    key: Seq<char>,
    value: u64,
)
    requires
        unique_keys(olds),
        !has_key(olds, key),
        news.len() == olds.len() + 1,
        forall|j: int| 0 <= j < olds.len() ==> news[j] == olds[j],
        news.last().0@ == key,
        news.last().1 == value,
    ensures
        unique_keys(news),
        lookup(news, key) == Some(value),
        forall|k: Seq<char>| k != key ==> lookup(news, k) == lookup(olds, k),
{
    assert forall|p: int, q: int| 0 <= p < q < news.len() implies news[p].0@ != news[q].0@ by {
        if q == news.len() - 1 {
            assert(news[p] == olds[p]);
            assert(news[q].0@ == key);
        } else {
            assert(olds[p].0@ != olds[q].0@);
        }
    }
    assert(news[news.len() - 1].0@ == key);
    assert(has_key(news, key));
    assert(key_index(news, key) == news.len() - 1);
    assert forall|k: Seq<char>| k != key implies lookup(news, k) == lookup(olds, k) by {
        if has_key(olds, k) {
            let j = key_index(olds, k);
            assert(olds[j].0@ == k);
            assert(news[j].0@ == k);
            assert(has_key(news, k));
            assert(key_index(news, k) == j);
        } else {
            assert forall|j: int| 0 <= j < news.len() implies news[j].0@ != k by {
                if j < news.len() - 1 {
                    assert(news[j] == olds[j]);
                }
            }
            assert(!has_key(news, k));
        }
    }
}

} // verus!
