//! A map from numbers to values, kept in the order of its keys.

use vstd::prelude::*;

verus! {

/// A map from numbers to values. The entries stand in the order of their
/// keys, each key once.
#[derive(Debug)]
pub struct IdMap<V> {
    entries: Vec<(u64, V)>,
}

/// The entries stand in strictly ascending order of their keys.
pub open spec fn ascending_ids<V>(entries: Seq<(u64, V)>) -> bool {
    forall|i: int, j: int|
        0 <= i < j < entries.len() ==> (#[trigger] entries[i]).0 < (#[trigger] entries[j]).0
}

/// Whether an entry has the key.
pub open spec fn has_id<V>(entries: Seq<(u64, V)>, key: u64) -> bool {
    exists|i: int| 0 <= i < entries.len() && (#[trigger] entries[i]).0 == key
}

/// Where a key stands.
pub open spec fn place_of<V>(entries: Seq<(u64, V)>, key: u64) -> int {
    choose|i: int| 0 <= i < entries.len() && (#[trigger] entries[i]).0 == key
}

/// A key of ascending entries stands in one place.
pub proof fn lemma_place_of<V>(entries: Seq<(u64, V)>, i: int)
    requires
        ascending_ids(entries),
        0 <= i < entries.len(),
    ensures
        has_id(entries, entries[i].0),
        place_of(entries, entries[i].0) == i,
{
    let p = place_of(entries, entries[i].0);
    assert(entries[i].0 == entries[i].0);
    if p < i {
        assert(entries[p].0 < entries[i].0);
    } else if i < p {
        assert(entries[i].0 < entries[p].0);
    }
}

impl<V> IdMap<V> {
    /// The entries, in the order of their keys.
    pub closed spec fn list(self) -> Seq<(u64, V)> {
        self.entries@
    }

    /// The order of the entries.
    pub open spec fn wf(self) -> bool {
        ascending_ids(self.list())
    }

    /// Whether a key stands anywhere.
    pub open spec fn has(self, key: u64) -> bool {
        has_id(self.list(), key)
    }

    /// The value of a key.
    pub open spec fn value(self, key: u64) -> V {
        self.list()[place_of(self.list(), key)].1
    }

    /// The value of a key, if it has one.
    pub open spec fn lookup(self, key: u64) -> Option<V> {
        if self.has(key) {
            Some(self.value(key))
        } else {
            None
        }
    }

    /// The map without entries.
    pub fn new() -> (m: IdMap<V>)
        ensures
            m.wf(),
            m.list() == Seq::<(u64, V)>::empty(),
    {
        IdMap { entries: Vec::new() }
    }

    /// How many keys there are.
    pub fn len(&self) -> (n: usize)
        ensures
            n == self.list().len(),
    {
        self.entries.len()
    }

    /// The entry at place `i`, in the order of the keys.
    pub fn at(&self, i: usize) -> (e: &(u64, V))
        requires
            i < self.list().len(),
        ensures
            *e == self.list()[i as int],
    {
        &self.entries[i]
    }

    /// The first place whose key is not below `key`.
    fn seek(&self, key: u64) -> (i: usize)
        requires
            self.wf(),
        ensures
            i <= self.list().len(),
            forall|j: int| 0 <= j < i ==> (#[trigger] self.list()[j]).0 < key,
            forall|j: int| i <= j < self.list().len() ==> (#[trigger] self.list()[j]).0 >= key,
            self.has(key) <==> (i < self.list().len() && self.list()[i as int].0 == key),
            self.has(key) ==> place_of(self.list(), key) == i,
    {
        let mut i: usize = 0;
        while i < self.entries.len() && self.entries[i].0 < key
            invariant
                self.wf(),
                i <= self.list().len(),
                forall|j: int| 0 <= j < i ==> (#[trigger] self.list()[j]).0 < key,
            decreases self.list().len() - i,
        {
            i += 1;
        }
        proof {
            if i < self.list().len() {
                lemma_place_of(self.list(), i as int);
            }
        }
        i
    }

    /// The value of a key.
    pub fn get(&self, key: u64) -> (r: Option<&V>)
        requires
            self.wf(),
        ensures
            match r {
                Some(v) => self.has(key) && *v == self.value(key),
                None => !self.has(key),
            },
    {
        let i: usize = self.seek(key);
        if i < self.entries.len() && self.entries[i].0 == key {
            Some(&self.entries[i].1)
        } else {
            None
        }
    }

    /// Whether a key is there.
    pub fn contains(&self, key: u64) -> (r: bool)
        requires
            self.wf(),
        ensures
            r == self.has(key),
    {
        self.get(key).is_some()
    }

    /// Sets the value of a key.
    pub fn insert(&mut self, key: u64, value: V)
        requires
            old(self).wf(),
        ensures
            final(self).wf(),
            forall|k: u64|
                #[trigger] final(self).lookup(k) == (if k == key {
                    Some(value)
                } else {
                    old(self).lookup(k)
                }),
    {
        let i: usize = self.seek(key);
        let ghost before = self.list();
        let found = i < self.entries.len() && self.entries[i].0 == key;
        if found {
            self.entries.set(i, (key, value));
        } else {
            self.entries.insert(i, (key, value));
        }
        proof {
            let shift = if found {
                0int
            } else {
                1int
            };
            let now = self.list();
            assert forall|j: int| 0 <= j < i implies #[trigger] now[j] == before[j] by {}
            assert forall|j: int| i < j < now.len() implies #[trigger] now[j] == before[j - shift] by {}
            assert(now[i as int] == (key, value));
            assert(ascending_ids(now)) by {
                assert forall|a: int, b: int| 0 <= a < b < now.len() implies (#[trigger] now[a]).0 < (
                #[trigger] now[b]).0 by {
                    if b == i {
                        assert(before[a].0 < key);
                    } else if a == i {
                        assert(before[b - shift].0 >= key);
                        if before[b - shift].0 == key {
                            lemma_place_of(before, b - shift);
                        }
                    } else {
                        let x = if a < i {
                            a
                        } else {
                            a - shift
                        };
                        let y = if b < i {
                            b
                        } else {
                            b - shift
                        };
                        assert(before[x].0 < before[y].0);
                    }
                }
            }
            lemma_place_of(now, i as int);
            assert forall|k: u64| k != key implies #[trigger] self.lookup(k) == old(self).lookup(k) by {
                if has_id(before, k) {
                    let p = place_of(before, k);
                    let q = if p < i {
                        p
                    } else {
                        p + shift
                    };
                    assert(now[q] == before[p]);
                    lemma_place_of(now, q);
                }
                if has_id(now, k) {
                    let q = place_of(now, k);
                    let p = if q < i {
                        q
                    } else {
                        q - shift
                    };
                    assert(now[q] == before[p]);
                    lemma_place_of(before, p);
                }
            }
        }
    }

    /// Takes a key out.
    pub fn remove(&mut self, key: u64)
        requires
            old(self).wf(),
        ensures
            final(self).wf(),
            forall|k: u64|
                #[trigger] final(self).lookup(k) == (if k == key {
                    None
                } else {
                    old(self).lookup(k)
                }),
    {
        let i: usize = self.seek(key);
        if i < self.entries.len() && self.entries[i].0 == key {
            self.remove_at(i);
        }
    }

    /// Keeps the entries whose key is in `ids`.
    pub fn retain(&mut self, ids: &Vec<u64>)
        requires
            old(self).wf(),
        ensures
            final(self).wf(),
            forall|k: u64|
                #[trigger] final(self).lookup(k) == (if ids@.contains(k) {
                    old(self).lookup(k)
                } else {
                    None
                }),
    {
        let mut i: usize = self.entries.len();
        let ghost first = *self;
        proof {
            let keys = self.list().take(i as int).map_values(|e: (u64, V)| e.0);
            assert forall|k: u64| !keys.contains(k) implies !(#[trigger] self.has(k)) by {
                if self.has(k) {
                    assert(keys[place_of(self.list(), k)] == k);
                }
            }
        }
        while i > 0
            invariant
                self.wf(),
                first.wf(),
                i <= self.list().len(),
                forall|k: u64|
                    #[trigger] self.lookup(k) == (if ids@.contains(k) || self.list().take(
                        i as int,
                    ).map_values(|e: (u64, V)| e.0).contains(k) {
                        first.lookup(k)
                    } else {
                        None
                    }),
            decreases i,
        {
            let key: u64 = self.entries[i - 1].0;
            let ghost before = *self;
            let ghost keys = before.list().take(i as int).map_values(|e: (u64, V)| e.0);
            if !holds_id(ids, key) {
                self.remove_at(i - 1);
                proof {
                    let fewer = self.list().take(i - 1).map_values(|e: (u64, V)| e.0);
                    assert(fewer =~= keys.drop_last());
                    assert(keys.last() == key);
                    assert forall|k: u64| #[trigger] self.lookup(k) == (if ids@.contains(k)
                        || fewer.contains(k) {
                        first.lookup(k)
                    } else {
                        None
                    }) by {
                        assert(before.lookup(k) == (if ids@.contains(k) || keys.contains(k) {
                            first.lookup(k)
                        } else {
                            None
                        }));
                        if k == key {
                            if fewer.contains(k) {
                                let p = choose|p: int| 0 <= p < fewer.len() && fewer[p] == k;
                                assert(before.list()[p].0 < before.list()[i - 1].0);
                            }
                        } else {
                            if keys.contains(k) {
                                let p = choose|p: int| 0 <= p < keys.len() && keys[p] == k;
                                assert(fewer[p] == k);
                            }
                            if fewer.contains(k) {
                                let p = choose|p: int| 0 <= p < fewer.len() && fewer[p] == k;
                                assert(keys[p] == k);
                            }
                        }
                    }
                }
            } else {
                proof {
                    let fewer = self.list().take(i - 1).map_values(|e: (u64, V)| e.0);
                    assert forall|k: u64| #[trigger] self.lookup(k) == (if ids@.contains(k)
                        || fewer.contains(k) {
                        first.lookup(k)
                    } else {
                        None
                    }) by {
                        if keys.contains(k) && k != key {
                            let p = choose|p: int| 0 <= p < keys.len() && keys[p] == k;
                            assert(fewer[p] == k);
                        }
                        if fewer.contains(k) {
                            let p = choose|p: int| 0 <= p < fewer.len() && fewer[p] == k;
                            assert(keys[p] == k);
                        }
                    }
                }
            }
            i -= 1;
        }
        proof {
            assert forall|k: u64| #[trigger] self.lookup(k) == (if ids@.contains(k) {
                first.lookup(k)
            } else {
                None
            }) by {
                assert(!self.list().take(0).map_values(|e: (u64, V)| e.0).contains(k));
            }
        }
    }

    /// Takes out the entry at place `i`.
    fn remove_at(&mut self, i: usize)
        requires
            old(self).wf(),
            i < old(self).list().len(),
        ensures
            final(self).wf(),
            final(self).list() == old(self).list().remove(i as int),
            forall|k: u64|
                #[trigger] final(self).lookup(k) == (if k == old(self).list()[i as int].0 {
                    None
                } else {
                    old(self).lookup(k)
                }),
    {
        let key: u64 = self.entries[i].0;
        proof {
            lemma_place_of(self.list(), i as int);
        }
        let ghost before = self.list();
        let gone = self.entries.remove(i);
        proof {
            let now = self.list();
            assert forall|j: int| 0 <= j < now.len() implies #[trigger] now[j] == before[if j < i {
                j
            } else {
                j + 1
            }] by {}
            assert(ascending_ids(now)) by {
                assert forall|a: int, b: int| 0 <= a < b < now.len() implies (#[trigger] now[a]).0 < (
                #[trigger] now[b]).0 by {
                    assert(before[if a < i {
                        a
                    } else {
                        a + 1
                    }].0 < before[if b < i {
                        b
                    } else {
                        b + 1
                    }].0);
                }
            }
            assert(!has_id(now, key)) by {
                if has_id(now, key) {
                    let q = place_of(now, key);
                    lemma_place_of(
                        before,
                        if q < i {
                            q
                        } else {
                            q + 1
                        },
                    );
                }
            }
            assert forall|k: u64| k != key implies #[trigger] self.lookup(k) == old(self).lookup(
                k,
            ) by {
                if has_id(before, k) {
                    let p = place_of(before, k);
                    let q = if p < i {
                        p
                    } else {
                        p - 1
                    };
                    assert(now[q] == before[p]);
                    lemma_place_of(now, q);
                }
                if has_id(now, k) {
                    let q = place_of(now, k);
                    let p = if q < i {
                        q
                    } else {
                        q + 1
                    };
                    assert(now[q] == before[p]);
                    lemma_place_of(before, p);
                }
            }
        }
    }
}

/// Whether a list of ids holds one.
pub fn holds_id(ids: &Vec<u64>, id: u64) -> (r: bool)
    ensures
        r == ids@.contains(id),
{
    let mut i: usize = 0;
    while i < ids.len()
        invariant
            i <= ids.len(),
            forall|k: int| 0 <= k < i ==> ids@[k] != id,
        decreases ids.len() - i,
    {
        if ids[i] == id {
            return true;
        }
        i += 1;
    }
    false
}

} // verus!
