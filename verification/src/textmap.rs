//! A map from text to values, kept in the order of its keys.

use vstd::prelude::*;
use vstd::string::*;

use crate::text;

verus! {

/// A map from text to values. The entries stand in the order of their keys,
/// each key once.
#[derive(Debug)]
pub struct TextMap<V> {
    entries: Vec<(String, V)>,
}

/// The keys of a run of entries, in order.
pub open spec fn entry_keys<V>(entries: Seq<(String, V)>) -> Seq<Seq<char>> {
    entries.map_values(|e: (String, V)| e.0@)
}

/// Each key comes before the next one.
pub open spec fn ascending(keys: Seq<Seq<char>>) -> bool {
    forall|i: int, j: int|
        0 <= i < j < keys.len() ==> text::precedes(#[trigger] keys[i], #[trigger] keys[j])
}

impl<V> TextMap<V> {
    /// The entries, in the order of their keys.
    pub closed spec fn list(self) -> Seq<(String, V)> {
        self.entries@
    }

    /// The keys, in order.
    pub open spec fn key_list(self) -> Seq<Seq<char>> {
        entry_keys(self.list())
    }

    /// The order of the entries.
    pub open spec fn wf(self) -> bool {
        ascending(self.key_list())
    }

    /// Where a key stands.
    pub open spec fn place(self, key: Seq<char>) -> int {
        choose|i: int| 0 <= i < self.list().len() && #[trigger] self.key_list()[i] == key
    }

    /// Whether a key stands anywhere.
    pub open spec fn has(self, key: Seq<char>) -> bool {
        self.key_list().contains(key)
    }

    /// The value of a key.
    pub open spec fn value(self, key: Seq<char>) -> V {
        self.list()[self.place(key)].1
    }

    /// A key that stands at `i` has its value there.
    pub proof fn lemma_place(self, i: int)
        requires
            self.wf(),
            0 <= i < self.list().len(),
        ensures
            self.has(self.list()[i].0@),
            self.place(self.list()[i].0@) == i,
            self.value(self.list()[i].0@) == self.list()[i].1,
    {
        let key = self.list()[i].0@;
        assert(self.key_list()[i] == key);
        let p = self.place(key);
        if p < i {
            text::lemma_precedes_total(self.key_list()[p], self.key_list()[i]);
        } else if i < p {
            text::lemma_precedes_total(self.key_list()[i], self.key_list()[p]);
        }
    }

    /// The map without entries.
    pub fn new() -> (m: TextMap<V>)
        ensures
            m.wf(),
            m.list().len() == 0,
    {
        TextMap { entries: Vec::new() }
    }

    /// How many keys there are.
    pub fn len(&self) -> (n: usize)
        ensures
            n == self.list().len(),
    {
        self.entries.len()
    }

    /// The entry at place `i`, in the order of the keys.
    pub fn at(&self, i: usize) -> (e: &(String, V))
        requires
            i < self.list().len(),
        ensures
            *e == self.list()[i as int],
    {
        &self.entries[i]
    }

    /// The first place whose key does not come before `key`.
    fn seek(&self, key: &str) -> (i: usize)
        requires
            self.wf(),
        ensures
            i <= self.list().len(),
            forall|j: int| 0 <= j < i ==> text::precedes(#[trigger] self.key_list()[j], key@),
            forall|j: int|
                i <= j < self.list().len() ==> !text::precedes(#[trigger] self.key_list()[j], key@),
    {
        let mut i: usize = 0;
        while i < self.entries.len() && text::before(self.entries[i].0.as_str(), key)
            invariant
                self.wf(),
                i <= self.list().len(),
                forall|j: int| 0 <= j < i ==> text::precedes(#[trigger] self.key_list()[j], key@),
            decreases self.list().len() - i,
        {
            assert(self.key_list()[i as int] == self.entries@[i as int].0@);
            i += 1;
        }
        proof {
            assert forall|j: int| i <= j < self.list().len() implies !text::precedes(
                #[trigger] self.key_list()[j],
                key@,
            ) by {
                assert(self.key_list()[i as int] == self.entries@[i as int].0@);
                if j > i && text::precedes(self.key_list()[j], key@) {
                    text::lemma_precedes_trans(
                        self.key_list()[i as int],
                        self.key_list()[j],
                        key@,
                    );
                }
            }
        }
        i
    }

    /// Whether the entry that `seek` found is the key's own.
    proof fn lemma_seek(self, i: int, key: Seq<char>)
        requires
            self.wf(),
            0 <= i <= self.list().len(),
            forall|j: int| 0 <= j < i ==> text::precedes(#[trigger] self.key_list()[j], key),
            forall|j: int|
                i <= j < self.list().len() ==> !text::precedes(#[trigger] self.key_list()[j], key),
        ensures
            self.has(key) <==> (i < self.list().len() && self.key_list()[i] == key),
            self.has(key) ==> self.place(key) == i,
    {
        if self.has(key) {
            let p = choose|p: int| 0 <= p < self.list().len() && self.key_list()[p] == key;
            text::lemma_precedes_total(key, key);
            assert(p >= i);
            if i < p {
                assert(text::precedes(self.key_list()[i], self.key_list()[p]));
            }
            assert(self.key_list()[i] == key);
            self.lemma_place(i);
        }
    }

    /// The value of a key.
    pub fn get(&self, key: &str) -> (r: Option<&V>)
        requires
            self.wf(),
        ensures
            match r {
                Some(v) => self.has(key@) && *v == self.value(key@),
                None => !self.has(key@),
            },
    {
        let i: usize = self.seek(key);
        proof {
            self.lemma_seek(i as int, key@);
        }
        if i < self.entries.len() {
            assert(self.key_list()[i as int] == self.entries@[i as int].0@);
            if text::same(self.entries[i].0.as_str(), key) {
                return Some(&self.entries[i].1);
            }
        }
        None
    }

    /// Whether a key is there.
    pub fn contains(&self, key: &str) -> (r: bool)
        requires
            self.wf(),
        ensures
            r == self.has(key@),
    {
        self.get(key).is_some()
    }

    /// Sets the value of a key.
    pub fn insert(&mut self, key: String, value: V)
        requires
            old(self).wf(),
        ensures
            final(self).wf(),
            final(self).has(key@),
            final(self).value(key@) == value,
            forall|k: Seq<char>|
                k != key@ ==> (#[trigger] final(self).has(k) <==> old(self).has(k)),
            forall|k: Seq<char>|
                k != key@ && old(self).has(k) ==> #[trigger] final(self).value(k) == old(
                    self,
                ).value(k),
            final(self).list().len() == old(self).list().len() + (if old(self).has(key@) {
                0int
            } else {
                1int
            }),
    {
        let i: usize = self.seek(key.as_str());
        let ghost before = *self;
        let ghost kv = key@;
        proof {
            self.lemma_seek(i as int, kv);
        }
        let found = if i < self.entries.len() {
            assert(self.key_list()[i as int] == self.entries@[i as int].0@);
            text::same(self.entries[i].0.as_str(), key.as_str())
        } else {
            false
        };
        assert(found == before.has(kv));
        if found {
            self.entries.set(i, (key, value));
        } else {
            self.entries.insert(i, (key, value));
        }
        proof {
            let shift = if found {
                0int
            } else {
                1int
            };
            let old_keys = before.key_list();
            let new_keys = self.key_list();
            assert(new_keys.len() == old_keys.len() + shift);
            assert(new_keys[i as int] == kv);
            assert forall|j: int| 0 <= j < i implies #[trigger] new_keys[j] == old_keys[j] by {}
            assert forall|j: int| i < j < new_keys.len() implies #[trigger] new_keys[j]
                == old_keys[j - shift] by {}
            assert forall|a: int, b: int| 0 <= a < b < new_keys.len() implies text::precedes(
                #[trigger] new_keys[a],
                #[trigger] new_keys[b],
            ) by {
                if a < i && b < i {
                    assert(text::precedes(old_keys[a], old_keys[b]));
                } else if a < i && b == i {
                    assert(text::precedes(old_keys[a], kv));
                } else if a < i {
                    assert(text::precedes(old_keys[a], old_keys[b - shift]));
                } else if a == i {
                    let o = old_keys[b - shift];
                    text::lemma_precedes_total(o, kv);
                    assert(!text::precedes(o, kv));
                    if o == kv {
                        before.lemma_place(b - shift);
                    }
                } else {
                    assert(text::precedes(old_keys[a - shift], old_keys[b - shift]));
                }
            }
            self.lemma_place(i as int);
            assert forall|k: Seq<char>| k != kv implies (#[trigger] self.has(k) <==> before.has(k)) by {
                if self.has(k) {
                    let p = choose|p: int| 0 <= p < new_keys.len() && new_keys[p] == k;
                    if p < i {
                        assert(old_keys[p] == k);
                    } else {
                        assert(old_keys[p - shift] == k);
                    }
                }
                if before.has(k) {
                    let p = choose|p: int| 0 <= p < old_keys.len() && old_keys[p] == k;
                    if p < i {
                        assert(new_keys[p] == k);
                    } else {
                        assert(new_keys[p + shift] == k);
                    }
                }
            }
            assert forall|k: Seq<char>| k != kv && before.has(k) implies #[trigger] self.value(k)
                == before.value(k) by {
                let p = choose|p: int| 0 <= p < old_keys.len() && old_keys[p] == k;
                before.lemma_place(p);
                if p < i {
                    self.lemma_place(p);
                } else {
                    self.lemma_place(p + shift);
                }
            }
        }
    }

    /// Takes a key out, with its value.
    pub fn remove(&mut self, key: &str) -> (r: Option<V>)
        requires
            old(self).wf(),
        ensures
            final(self).wf(),
            match r {
                Some(v) => old(self).has(key@) && v == old(self).value(key@),
                None => !old(self).has(key@),
            },
            !final(self).has(key@),
            forall|k: Seq<char>|
                k != key@ ==> (#[trigger] final(self).has(k) <==> old(self).has(k)),
            forall|k: Seq<char>|
                k != key@ && old(self).has(k) ==> #[trigger] final(self).value(k) == old(
                    self,
                ).value(k),
    {
        let i: usize = self.seek(key);
        let ghost before = *self;
        proof {
            self.lemma_seek(i as int, key@);
        }
        if i < self.entries.len() {
            assert(self.key_list()[i as int] == self.entries@[i as int].0@);
            if text::same(self.entries[i].0.as_str(), key) {
                let (_, v) = self.entries.remove(i);
                proof {
                    let old_keys = before.key_list();
                    let new_keys = self.key_list();
                    before.lemma_place(i as int);
                    assert forall|j: int| 0 <= j < new_keys.len() implies #[trigger] new_keys[j]
                        == old_keys[if j < i { j } else { j + 1 }] by {}
                    assert forall|k: Seq<char>|
                        #![trigger self.has(k)]
                        #![trigger self.value(k)]
                        k != key@ && before.has(k) implies self.has(k) && self.value(k)
                        == before.value(k) by {
                        let p = choose|p: int| 0 <= p < old_keys.len() && old_keys[p] == k;
                        before.lemma_place(p);
                        let q = if p < i {
                            p
                        } else {
                            p - 1
                        };
                        assert(new_keys[q] == k);
                        self.lemma_place(q);
                    }
                    assert forall|k: Seq<char>| #[trigger] self.has(k) implies before.has(k) && k
                        != key@ by {
                        let q = choose|q: int| 0 <= q < new_keys.len() && new_keys[q] == k;
                        let p = if q < i {
                            q
                        } else {
                            q + 1
                        };
                        assert(old_keys[p] == k);
                        before.lemma_place(p);
                    }
                }
                return Some(v);
            }
        }
        None
    }
}

} // verus!
