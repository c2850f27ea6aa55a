use vstd::prelude::*;
use crate::merge::{
    atomic_merge_spec, lemma_merges_keep_stored_ok, merge_atomic_append_step,
    merge_transactional_step, stored_ok, tx_merge_spec,
};

verus! {

/// One stored row: an entity name and its packed timeline.
pub struct Entry {
    pub name: String,
    pub timeline: Vec<u8>,
}

/// An event store held in memory, one entry per entity name.
pub struct MemStore {
    entries: Vec<Entry>,
}

/// The map from entity name to timeline that `es` holds.
pub open spec fn entries_map(es: Seq<Entry>) -> Map<Seq<char>, Seq<u8>> {
    Map::new(
        |n: Seq<char>| exists|i: int| 0 <= i < es.len() && es[i].name@ == n,
        |n: Seq<char>| es[choose|i: int| 0 <= i < es.len() && es[i].name@ == n].timeline@,
    )
}

/// No two entries of `es` share a name.
pub open spec fn names_unique(es: Seq<Entry>) -> bool {
    forall|i: int, j: int| 0 <= i < j < es.len() ==> es[i].name@ != es[j].name@
}

proof fn lemma_entries_map_at(es: Seq<Entry>, i: int)
    requires
        names_unique(es),
        0 <= i < es.len(),
    ensures
        entries_map(es).contains_key(es[i].name@),
        entries_map(es)[es[i].name@] == es[i].timeline@,
{
    let n = es[i].name@;
    assert(entries_map(es).dom().contains(n));
    let c = choose|k: int| 0 <= k < es.len() && es[k].name@ == n;
    assert(c == i) by {
        if c < i {
            assert(es[c].name@ != es[i].name@);
        } else if c > i {
            assert(es[i].name@ != es[c].name@);
        }
    }
}

impl View for MemStore {
    type V = Map<Seq<char>, Seq<u8>>;

    closed spec fn view(&self) -> Map<Seq<char>, Seq<u8>> {
        entries_map(self.entries@)
    }
}

impl MemStore {
    /// Names are unique, and each timeline is well formed and within the capacity.
    pub closed spec fn wf(&self) -> bool {
        &&& names_unique(self.entries@)
        &&& forall|i: int| 0 <= i < self.entries@.len() ==> stored_ok(#[trigger] self.entries@[i].timeline@)
    }

    /// A store with no entity.
    pub fn new() -> (r: MemStore)
        ensures
            r.wf(),
            r@ == Map::<Seq<char>, Seq<u8>>::empty(),
    {
        let r = MemStore { entries: Vec::new() };
        assert(r@ =~= Map::<Seq<char>, Seq<u8>>::empty());
        r
    }

    /// Number of entities held.
    pub fn len(&self) -> (r: usize)
        requires
            self.wf(),
        ensures
            r == self@.len(),
    {
        proof {
            self.lemma_dom_len();
        }
        self.entries.len()
    }

    proof fn lemma_dom_len(&self)
        requires
            self.wf(),
        ensures
            self@.dom().finite(),
            self@.len() == self.entries@.len(),
    {
        let names = Seq::new(self.entries@.len(), |i: int| self.entries@[i].name@);
        assert(names.no_duplicates());
        names.unique_seq_to_set();
        assert forall|n: Seq<char>| #[trigger] self@.dom().contains(n) <==> names.to_set().contains(n) by {
            if names.contains(n) {
                let k = choose|k: int| 0 <= k < names.len() && names[k] == n;
                assert(self.entries@[k].name@ == n);
            }
            if self@.dom().contains(n) {
                let k = choose|k: int| 0 <= k < self.entries@.len() && self.entries@[k].name@ == n;
                assert(names[k] == n);
            }
        }
        assert(self@.dom() =~= names.to_set());
    }

    /// Position of `name`, if held.
    fn find(&self, name: &String) -> (r: Option<usize>)
        ensures
            r matches Some(i) ==> i < self.entries@.len() && self.entries@[i as int].name@ == name@,
            r is None ==> forall|k: int|
                0 <= k < self.entries@.len() ==> self.entries@[k].name@ != name@,
    {
        let mut i: usize = 0;
        while i < self.entries.len()
            invariant
                i <= self.entries@.len(),
                forall|k: int| 0 <= k < i ==> self.entries@[k].name@ != name@,
            decreases self.entries@.len() - i,
        {
            if self.entries[i].name == *name {
                return Some(i);
            }
            i += 1;
        }
        None
    }

    /// The stored timeline of `name`, or `None` when the entity is absent.
    pub fn get(&self, name: &String) -> (r: Option<&Vec<u8>>)
        requires
            self.wf(),
        ensures
            r is None <==> !self@.contains_key(name@),
            r matches Some(b) ==> b@ == self@[name@],
    {
        match self.find(name) {
            Some(i) => {
                proof {
                    lemma_entries_map_at(self.entries@, i as int);
                }
                Some(&self.entries[i].timeline)
            },
            None => None,
        }
    }

    /// Sets the timeline of `name` to `b`, adding the entity if absent.
    fn put(&mut self, name: &String, b: Vec<u8>)
        requires
            old(self).wf(),
            stored_ok(b@),
        ensures
            final(self).wf(),
            final(self)@ == old(self)@.insert(name@, b@),
    {
        let ghost pre = self@;
        match self.find(name) {
            Some(i) => {
                let ghost before = self.entries@;
                let e = Entry { name: self.entries[i].name.clone(), timeline: b };
                self.entries.set(i, e);
                proof {
                    assert forall|n: Seq<char>| #[trigger] self@.contains_key(n) == pre.insert(name@, b@).contains_key(n) by {
                        if pre.contains_key(n) {
                            let k = choose|k: int| 0 <= k < before.len() && before[k].name@ == n;
                            assert(self.entries@[k].name@ == n);
                        }
                        if self@.contains_key(n) {
                            let k = choose|k: int| 0 <= k < self.entries@.len() && self.entries@[k].name@ == n;
                            assert(before[k].name@ == n);
                        }
                    }
                    assert forall|n: Seq<char>| #[trigger] self@.contains_key(n) implies self@[n] == pre.insert(name@, b@)[n] by {
                        let k = choose|k: int| 0 <= k < self.entries@.len() && self.entries@[k].name@ == n;
                        lemma_entries_map_at(self.entries@, k);
                        if k != i {
                            assert(before[k] == self.entries@[k]);
                            lemma_entries_map_at(before, k);
                        }
                    }
                    assert(self@ =~= pre.insert(name@, b@));
                }
            },
            None => {
                let ghost before = self.entries@;
                self.entries.push(Entry { name: name.clone(), timeline: b });
                proof {
                    let len = self.entries@.len();
                    assert forall|n: Seq<char>| #[trigger] self@.contains_key(n) == pre.insert(name@, b@).contains_key(n) by {
                        if pre.contains_key(n) {
                            let k = choose|k: int| 0 <= k < before.len() && before[k].name@ == n;
                            assert(self.entries@[k].name@ == n);
                        }
                        if n == name@ {
                            assert(self.entries@[len - 1].name@ == n);
                        }
                        if self@.contains_key(n) {
                            let k = choose|k: int| 0 <= k < self.entries@.len() && self.entries@[k].name@ == n;
                            if k < len - 1 {
                                assert(before[k].name@ == n);
                            }
                        }
                    }
                    assert forall|n: Seq<char>| #[trigger] self@.contains_key(n) implies self@[n] == pre.insert(name@, b@)[n] by {
                        let k = choose|k: int| 0 <= k < self.entries@.len() && self.entries@[k].name@ == n;
                        lemma_entries_map_at(self.entries@, k);
                        if k != len - 1 {
                            assert(before[k] == self.entries@[k]);
                            lemma_entries_map_at(before, k);
                        }
                    }
                    assert(self@ =~= pre.insert(name@, b@));
                }
            },
        }
    }

    /// The timeline of `name`, empty when the entity is absent.
    pub open spec fn timeline_or_empty(&self, name: Seq<char>) -> Seq<u8> {
        if self@.contains_key(name) {
            self@[name]
        } else {
            Seq::empty()
        }
    }

    /// The timeline of `name`, if the entity is present.
    pub open spec fn timeline_opt(&self, name: Seq<char>) -> Option<Seq<u8>> {
        if self@.contains_key(name) {
            Some(self@[name])
        } else {
            None
        }
    }

    /// Transactional merge of `x` into the timeline of `name`: reads, decides and
    /// writes back as one unit, so no other merge can interleave.
    pub fn merge_transactional(&mut self, name: &String, x: i16)
        requires
            old(self).wf(),
        ensures
            final(self).wf(),
            final(self)@ == old(self)@.insert(name@, tx_merge_spec(old(self).timeline_or_empty(name@), x)),
    {
        let ghost pre = self@;
        let step = merge_transactional_step(self.get(name), x);
        proof {
            lemma_merges_keep_stored_ok(self.timeline_or_empty(name@), x);
        }
        match step {
            Ok(Some(b)) => self.put(name, b),
            _ => {
                assert(pre.insert(name@, tx_merge_spec(self.timeline_or_empty(name@), x)) =~= pre);
            },
        }
    }

    /// Atomic conditional append of `x` to the timeline of `name`: creates the
    /// entity if absent, appends while below the capacity, never deduplicates.
    pub fn merge_atomic_append(&mut self, name: &String, x: i16)
        requires
            old(self).wf(),
        ensures
            final(self).wf(),
            final(self)@ == old(self)@.insert(name@, atomic_merge_spec(old(self).timeline_opt(name@), x)),
    {
        let b = merge_atomic_append_step(self.get(name), x);
        proof {
            lemma_merges_keep_stored_ok(self.timeline_or_empty(name@), x);
        }
        self.put(name, b);
    }

    /// The entity name at position `i` of a scan.
    pub closed spec fn name_at(&self, i: int) -> Seq<char> {
        self.entries@[i].name@
    }

    /// A scan over positions `0..len()` visits every entity exactly once: the
    /// names at distinct positions differ, and every held name has a position.
    pub proof fn lemma_scan_covers(&self)
        requires
            self.wf(),
        ensures
            forall|i: int, j: int|
                0 <= i < self@.len() && 0 <= j < self@.len() && i != j ==> self.name_at(i)
                    != self.name_at(j),
            forall|i: int| 0 <= i < self@.len() ==> self@.contains_key(#[trigger] self.name_at(i)),
            forall|n: Seq<char>|
                #[trigger] self@.contains_key(n) ==> exists|i: int|
                    0 <= i < self@.len() && self.name_at(i) == n,
    {
        self.lemma_dom_len();
        assert forall|i: int| 0 <= i < self@.len() implies self@.contains_key(#[trigger] self.name_at(i)) by {
            lemma_entries_map_at(self.entries@, i);
        }
        assert forall|i: int, j: int|
            0 <= i < self@.len() && 0 <= j < self@.len() && i != j implies self.name_at(i)
                != self.name_at(j) by {
            if i > j {
                assert(self.entries@[j].name@ != self.entries@[i].name@);
            }
        }
        assert forall|n: Seq<char>| #[trigger] self@.contains_key(n) implies exists|i: int|
            0 <= i < self@.len() && self.name_at(i) == n by {
            let k = choose|k: int| 0 <= k < self.entries@.len() && self.entries@[k].name@ == n;
            assert(self.name_at(k) == n);
        }
    }

    /// The row at position `i` of a scan over positions `0..len()`.
    pub fn entry_at(&self, i: usize) -> (r: (&String, &Vec<u8>))
        requires
            self.wf(),
            i < self@.len(),
        ensures
            r.0@ == self.name_at(i as int),
            self@.contains_key(r.0@),
            self@[r.0@] == r.1@,
    {
        proof {
            self.lemma_dom_len();
            lemma_entries_map_at(self.entries@, i as int);
        }
        (&self.entries[i].name, &self.entries[i].timeline)
    }

    /// Every timeline the store holds is well formed and within the capacity,
    /// whatever merges of either strategy brought it there.
    pub proof fn lemma_timelines_stored_ok(&self)
        requires
            self.wf(),
        ensures
            forall|n: Seq<char>| #[trigger] self@.contains_key(n) ==> stored_ok(self@[n]),
    {
        assert forall|n: Seq<char>| #[trigger] self@.contains_key(n) implies stored_ok(self@[n]) by {
            let k = choose|k: int| 0 <= k < self.entries@.len() && self.entries@[k].name@ == n;
            lemma_entries_map_at(self.entries@, k);
        }
    }
}

} // verus!
