//! The metadata store: one metadata value for each path that was read.

use vstd::prelude::*;
use crate::metadata::{Metadata, MetadataView};
use crate::text::{chars_of, same_chars};

verus! {

/// A path of the source tree with the metadata that was read from it.
pub struct Entry {
    pub path: String,
    pub metadata: Metadata,
}

/// A mapping from paths to metadata values. No path has two entries: an
/// insertion under a path that is present takes the place of the old value.
pub struct MetadataStore {
    entries: Vec<Entry>,
}

spec fn holds_path(entries: Seq<Entry>, path: Seq<char>) -> bool {
    exists|i: int| 0 <= i < entries.len() && (#[trigger] entries[i]).path@ == path
}

spec fn position(entries: Seq<Entry>, path: Seq<char>) -> int {
    choose|i: int| 0 <= i < entries.len() && (#[trigger] entries[i]).path@ == path
}

spec fn distinct(entries: Seq<Entry>) -> bool {
    forall|i: int, j: int|
        0 <= i < j < entries.len() ==> (#[trigger] entries[i]).path@ != (#[trigger] entries[j]).path@
}

impl View for MetadataStore {
    type V = Map<Seq<char>, MetadataView>;

    closed spec fn view(&self) -> Map<Seq<char>, MetadataView> {
        Map::new(
            |path: Seq<char>| holds_path(self.entries@, path),
            |path: Seq<char>| self.entries@[position(self.entries@, path)].metadata@,
        )
    }
}

impl MetadataStore {
    #[verifier::type_invariant]
    spec fn distinct_paths(self) -> bool {
        distinct(self.entries@)
    }

    /// A store without entries.
    pub fn new() -> (store: MetadataStore)
        ensures
            store@ == Map::<Seq<char>, MetadataView>::empty(),
    {
        let store = MetadataStore { entries: Vec::new() };
        assert(store@ =~= Map::<Seq<char>, MetadataView>::empty());
        store
    }

    /// The entries of the store, each path once.
    pub fn entries(&self) -> (entries: &Vec<Entry>)
        ensures
            forall|i: int|
                0 <= i < entries@.len() ==> self@.contains_key((#[trigger] entries@[i]).path@)
                    && self@[entries@[i].path@] == entries@[i].metadata@,
            forall|path: Seq<char>| #[trigger]
                self@.contains_key(path) ==> exists|i: int|
                    0 <= i < entries@.len() && (#[trigger] entries@[i]).path@ == path,
            forall|i: int, j: int|
                0 <= i < j < entries@.len() ==> (#[trigger] entries@[i]).path@ != (
                #[trigger] entries@[j]).path@,
    {
        proof {
            use_type_invariant(self);
            assert forall|i: int| 0 <= i < self.entries@.len() implies self@.contains_key(
                (#[trigger] self.entries@[i]).path@,
            ) && self@[self.entries@[i].path@] == self.entries@[i].metadata@ by {
                let path = self.entries@[i].path@;
                assert(holds_path(self.entries@, path));
                let at = position(self.entries@, path);
                if at != i {
                    assert(self.entries@[at].path@ == self.entries@[i].path@);
                }
            }
        }
        &self.entries
    }

    fn find(&self, path: &str) -> (at: Option<usize>)
        ensures
            at is Some <==> self@.contains_key(path@),
            at is Some ==> at->Some_0 < self.entries@.len() && self.entries@[at->Some_0 as int].path@
                == path@ && self@[path@] == self.entries@[at->Some_0 as int].metadata@,
    {
        proof {
            use_type_invariant(self);
        }
        let wanted = chars_of(path);
        let mut i: usize = 0;
        while i < self.entries.len()
            invariant
                i <= self.entries.len(),
                wanted@ == path@,
                distinct(self.entries@),
                forall|j: int| 0 <= j < i ==> (#[trigger] self.entries@[j]).path@ != path@,
            decreases self.entries.len() - i,
        {
            let here = chars_of(self.entries[i].path.as_str());
            if same_chars(&here, &wanted) {
                assert(holds_path(self.entries@, path@));
                return Some(i);
            }
            i += 1;
        }
        None
    }

    /// The metadata that was read from `path`, if any was.
    pub fn get(&self, path: &str) -> (found: Option<&Metadata>)
        ensures
            found is Some <==> self@.contains_key(path@),
            found is Some ==> found->Some_0@ == self@[path@],
    {
        match self.find(path) {
            Some(at) => Some(&self.entries[at].metadata),
            None => None,
        }
    }

    /// Puts `metadata` under `path`, in place of what was there.
    pub fn insert(&mut self, path: String, metadata: Metadata)
        ensures
            final(self)@ == old(self)@.insert(path@, metadata@),
    {
        proof {
            use_type_invariant(&*self);
        }
        let ghost before = self.entries@;
        let ghost key = path@;
        let ghost value = metadata@;
        let found = self.find(path.as_str());
        let mut taken = MetadataStore::new();
        std::mem::swap(self, &mut taken);
        let mut entries = taken.entries;
        match found {
            Some(at) => {
                entries.set(at, Entry { path, metadata });
                proof {
                    let after = entries@;
                    assert(distinct(after)) by {
                        assert forall|i: int, j: int| 0 <= i < j < after.len() implies (
                        #[trigger] after[i]).path@ != (#[trigger] after[j]).path@ by {
                            assert(after[i].path@ == before[i].path@);
                            assert(after[j].path@ == before[j].path@);
                        }
                    }
                    assert forall|p: Seq<char>| holds_path(after, p) == holds_path(before, p) by {
                        if holds_path(before, p) {
                            let i = position(before, p);
                            assert(after[i].path@ == p);
                        }
                        if holds_path(after, p) {
                            let i = position(after, p);
                            assert(before[i].path@ == p);
                        }
                    }
                    assert forall|p: Seq<char>| holds_path(after, p) implies #[trigger] after[position(
                        after,
                        p,
                    )].metadata@ == (if p == key {
                        value
                    } else {
                        before[position(before, p)].metadata@
                    }) by {
                        let i = position(after, p);
                        let j = position(before, p);
                        assert(before[i].path@ == p);
                        if i != j {
                            assert(before[j].path@ == p);
                        }
                    }
                }
            },
            None => {
                entries.push(Entry { path, metadata });
                proof {
                    let after = entries@;
                    let last = before.len() as int;
                    assert(!holds_path(before, key));
                    assert(distinct(after)) by {
                        assert forall|i: int, j: int| 0 <= i < j < after.len() implies (
                        #[trigger] after[i]).path@ != (#[trigger] after[j]).path@ by {
                            if j == last {
                                assert(before[i].path@ == after[i].path@);
                                if before[i].path@ == key {
                                    assert(holds_path(before, key));
                                }
                            } else {
                                assert(after[i] == before[i] && after[j] == before[j]);
                            }
                        }
                    }
                    assert forall|p: Seq<char>| holds_path(after, p) == (p == key || holds_path(
                        before,
                        p,
                    )) by {
                        if holds_path(before, p) {
                            let i = position(before, p);
                            assert(after[i].path@ == p);
                        }
                        if p == key {
                            assert(after[last].path@ == p);
                        }
                        if holds_path(after, p) {
                            let i = position(after, p);
                            if i < last {
                                assert(before[i].path@ == p);
                            }
                        }
                    }
                    assert forall|p: Seq<char>| holds_path(after, p) implies #[trigger] after[position(
                        after,
                        p,
                    )].metadata@ == (if p == key {
                        value
                    } else {
                        before[position(before, p)].metadata@
                    }) by {
                        let i = position(after, p);
                        if p == key {
                            if i != last {
                                assert(before[i].path@ == key);
                            }
                        } else {
                            let j = position(before, p);
                            assert(before[i].path@ == p);
                            if i != j {
                                assert(before[j].path@ == p);
                            }
                        }
                    }
                }
            },
        }
        *self = MetadataStore { entries };
        assert(self@ =~= old(self)@.insert(key, value));
    }
}

} // verus!
