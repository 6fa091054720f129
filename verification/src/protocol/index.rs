//! A small map from names to server names, kept as a list of distinct keys.

use vstd::prelude::*;
use crate::text::{str_chars, chars_eq};

verus! {

/// A map from names (tool names, resource URIs, prompt names and their
/// fully-qualified forms) to the name of the server that answers them.
pub struct NameIndex {
    entries: Vec<(String, String)>,
}

impl NameIndex {
    /// No key occurs twice.
    pub closed spec fn wf(&self) -> bool {
        forall|i: int, j: int|
            0 <= i < self.entries.len() && 0 <= j < self.entries.len() && i != j
                ==> #[trigger] self.entries@[i].0@ != #[trigger] self.entries@[j].0@
    }

    spec fn has_key_at(&self, k: Seq<char>) -> bool {
        exists|i: int| 0 <= i < self.entries.len() && #[trigger] self.entries@[i].0@ == k
    }

    spec fn key_pos(&self, k: Seq<char>) -> int {
        choose|i: int| 0 <= i < self.entries.len() && #[trigger] self.entries@[i].0@ == k
    }

    /// The map that the index stands for.
    pub closed spec fn view(&self) -> Map<Seq<char>, Seq<char>> {
        Map::new(|k: Seq<char>| self.has_key_at(k), |k: Seq<char>| self.entries@[self.key_pos(k)].1@)
    }

    proof fn lemma_at(&self, i: int)
        requires
            self.wf(),
            0 <= i < self.entries.len(),
        ensures
            self.view().contains_key(self.entries@[i].0@),
            self.view()[self.entries@[i].0@] == self.entries@[i].1@,
    {
        let k = self.entries@[i].0@;
        assert(self.has_key_at(k));
        let p = self.key_pos(k);
        assert(self.entries@[p].0@ == k);
        if p != i {
            assert(self.entries@[p].0@ != self.entries@[i].0@);
        }
    }

    /// An empty index.
    pub fn new() -> (r: Self)
        ensures
            r.wf(),
            r.view() == Map::<Seq<char>, Seq<char>>::empty(),
    {
        let r = NameIndex { entries: Vec::new() };
        assert(r.view() =~= Map::<Seq<char>, Seq<char>>::empty());
        r
    }

    fn position(&self, key: &str) -> (r: Option<usize>)
        requires
            self.wf(),
        ensures
            r matches Some(i) ==> i < self.entries.len() && self.entries@[i as int].0@ == key@,
            r is None ==> !self.view().contains_key(key@),
    {
        let k = str_chars(key);
        let mut i: usize = 0;
        while i < self.entries.len()
            invariant
                i <= self.entries.len(),
                k@ == key@,
                forall|j: int| 0 <= j < i ==> self.entries@[j].0@ != key@,
            decreases self.entries.len() - i,
        {
            let e = str_chars(self.entries[i].0.as_str());
            if chars_eq(&e, &k) {
                return Some(i);
            }
            i = i + 1;
        }
        None
    }

    /// Looks a name up.
    pub fn get(&self, key: &str) -> (r: Option<String>)
        requires
            self.wf(),
        ensures
            r is Some <==> self.view().contains_key(key@),
            r matches Some(v) ==> v@ == self.view()[key@],
    {
        match self.position(key) {
            Some(i) => {
                proof {
                    self.lemma_at(i as int);
                }
                Some(self.entries[i].1.clone())
            },
            None => None,
        }
    }

    /// Whether a name is indexed.
    pub fn contains_key(&self, key: &str) -> (r: bool)
        requires
            self.wf(),
        ensures
            r == self.view().contains_key(key@),
    {
        match self.position(key) {
            Some(i) => {
                proof {
                    self.lemma_at(i as int);
                }
                true
            },
            None => false,
        }
    }

    /// Maps `key` to `value`, replacing any earlier value.
    pub fn insert(&mut self, key: String, value: String)
        requires
            old(self).wf(),
        ensures
            final(self).wf(),
            final(self).view() == old(self).view().insert(key@, value@),
    {
        let ghost old_entries = self.entries@;
        match self.position(key.as_str()) {
            Some(i) => {
                let ghost kv = key@;
                let ghost vv = value@;
                self.entries.set(i, (key, value));
                proof {
                    assert(self.entries@ == old_entries.update(i as int, self.entries@[i as int]));
                    assert forall|a: int, b: int|
                        0 <= a < self.entries.len() && 0 <= b < self.entries.len() && a != b
                            implies #[trigger] self.entries@[a].0@ != #[trigger] self.entries@[b].0@ by {
                        assert(old_entries[i as int].0@ == kv);
                        if a != i && b != i {
                            assert(old_entries[a].0@ != old_entries[b].0@);
                        } else if a == i {
                            assert(old_entries[b].0@ != old_entries[i as int].0@);
                        } else {
                            assert(old_entries[a].0@ != old_entries[i as int].0@);
                        }
                    }
                    assert forall|k: Seq<char>| #![auto] self.view().contains_key(k) <==> old(self).view().insert(kv, vv).contains_key(k) by {
                        if self.has_key_at(k) {
                            let p = self.key_pos(k);
                            if p != i {
                                assert(old_entries[p].0@ == k);
                                assert(old(self).has_key_at(k));
                            }
                        }
                        if old(self).has_key_at(k) {
                            let p = old(self).key_pos(k);
                            if p != i {
                                assert(self.entries@[p].0@ == k);
                            } else {
                                assert(self.entries@[i as int].0@ == k);
                            }
                            assert(self.has_key_at(k));
                        }
                        if k == kv {
                            assert(self.entries@[i as int].0@ == k);
                        }
                    }
                    assert forall|k: Seq<char>| #[trigger] self.view().contains_key(k) implies self.view()[k]
                        == old(self).view().insert(kv, vv)[k] by {
                        let p = self.key_pos(k);
                        self.lemma_at(p);
                        if p != i {
                            assert(old_entries[p] == self.entries@[p]);
                            old(self).lemma_at(p);
                        }
                    }
                    assert(self.view() =~= old(self).view().insert(kv, vv));
                }
            },
            None => {
                let ghost kv = key@;
                let ghost vv = value@;
                self.entries.push((key, value));
                proof {
                    let n = old_entries.len() as int;
                    assert forall|a: int, b: int|
                        0 <= a < self.entries.len() && 0 <= b < self.entries.len() && a != b
                            implies #[trigger] self.entries@[a].0@ != #[trigger] self.entries@[b].0@ by {
                        if a != n && b != n {
                            assert(old_entries[a].0@ != old_entries[b].0@);
                        } else if a == n {
                            assert(old_entries[b] == self.entries@[b]);
                            if old_entries[b].0@ == kv {
                                assert(old(self).has_key_at(kv));
                            }
                        } else {
                            assert(old_entries[a] == self.entries@[a]);
                            if old_entries[a].0@ == kv {
                                assert(old(self).has_key_at(kv));
                            }
                        }
                    }
                    assert forall|k: Seq<char>| #![auto] self.view().contains_key(k) <==> old(self).view().insert(kv, vv).contains_key(k) by {
                        if self.has_key_at(k) {
                            let p = self.key_pos(k);
                            if p != n {
                                assert(old_entries[p].0@ == k);
                                assert(old(self).has_key_at(k));
                            }
                        }
                        if old(self).has_key_at(k) {
                            let p = old(self).key_pos(k);
                            assert(self.entries@[p].0@ == k);
                            assert(self.has_key_at(k));
                        }
                        if k == kv {
                            assert(self.entries@[n].0@ == k);
                        }
                    }
                    assert forall|k: Seq<char>| #[trigger] self.view().contains_key(k) implies self.view()[k]
                        == old(self).view().insert(kv, vv)[k] by {
                        let p = self.key_pos(k);
                        self.lemma_at(p);
                        if p != n {
                            assert(old_entries[p] == self.entries@[p]);
                            old(self).lemma_at(p);
                        }
                    }
                    assert(self.view() =~= old(self).view().insert(kv, vv));
                }
            },
        }
    }

    /// Removes a name, if present.
    pub fn remove(&mut self, key: &str)
        requires
            old(self).wf(),
        ensures
            final(self).wf(),
            final(self).view() == old(self).view().remove(key@),
    {
        let ghost old_entries = self.entries@;
        match self.position(key) {
            Some(i) => {
                self.entries.remove(i);
                proof {
                    let ii = i as int;
                    assert(self.entries@ == old_entries.remove(ii));
                    assert forall|a: int| 0 <= a < self.entries.len() implies #[trigger] self.entries@[a]
                        == old_entries[if a < ii { a } else { a + 1 }] by {
                    }
                    assert forall|a: int, b: int|
                        0 <= a < self.entries.len() && 0 <= b < self.entries.len() && a != b
                            implies #[trigger] self.entries@[a].0@ != #[trigger] self.entries@[b].0@ by {
                        let a2 = if a < ii { a } else { a + 1 };
                        let b2 = if b < ii { b } else { b + 1 };
                        assert(self.entries@[a] == old_entries[a2]);
                        assert(self.entries@[b] == old_entries[b2]);
                        assert(old_entries[a2].0@ != old_entries[b2].0@);
                    }
                    assert forall|k: Seq<char>| #![auto] self.view().contains_key(k) <==> old(self).view().remove(key@).contains_key(k) by {
                        if self.has_key_at(k) {
                            let p = self.key_pos(k);
                            let p2 = if p < ii { p } else { p + 1 };
                            assert(self.entries@[p] == old_entries[p2]);
                            assert(old(self).has_key_at(k));
                            if k == key@ {
                                assert(old_entries[p2].0@ != old_entries[ii].0@);
                            }
                        }
                        if old(self).has_key_at(k) && k != key@ {
                            let p = old(self).key_pos(k);
                            assert(p != ii);
                            let p1 = if p < ii { p } else { p - 1 };
                            assert(self.entries@[p1] == old_entries[p]);
                            assert(self.has_key_at(k));
                        }
                    }
                    assert forall|k: Seq<char>| #[trigger] self.view().contains_key(k) implies self.view()[k]
                        == old(self).view().remove(key@)[k] by {
                        let p = self.key_pos(k);
                        self.lemma_at(p);
                        let p2 = if p < ii { p } else { p + 1 };
                        assert(self.entries@[p] == old_entries[p2]);
                        old(self).lemma_at(p2);
                    }
                    assert(self.view() =~= old(self).view().remove(key@));
                }
            },
            None => {
                proof {
                    assert(self.view() =~= old(self).view().remove(key@));
                }
            },
        }
    }
}

} // verus!
