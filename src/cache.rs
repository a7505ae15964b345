//! The loaded record of prior outcomes, keyed by source path.
use vstd::prelude::*;
use vstd::hash_map::StringHashMap;
use crate::worker::{FileInfo, FileRecord};

verus! {

/// One record per source path, in insertion order, with a hashed index
/// from source path to position.
pub struct FileCache {
    entries: Vec<(String, FileInfo)>,
    slots: StringHashMap<usize>,
    model: Ghost<Map<Seq<char>, FileRecord>>,
}

impl View for FileCache {
    type V = Map<Seq<char>, FileRecord>;

    closed spec fn view(&self) -> Map<Seq<char>, FileRecord> {
        self.model@
    }
}

impl FileCache {
    /// The source paths, in the order in which they are walked.
    pub closed spec fn keys(&self) -> Seq<Seq<char>> {
        self.entries@.map_values(|e: (String, FileInfo)| e.0@)
    }

    pub closed spec fn inv(&self) -> bool {
        &&& forall|i: int|
            0 <= i < self.entries@.len() ==> #[trigger] self.model@.contains_key(self.entries@[i].0@)
                && self.model@[self.entries@[i].0@] == self.entries@[i].1@
        &&& forall|i: int, j: int|
            0 <= i < j < self.entries@.len() ==> #[trigger] self.entries@[i].0@
                != #[trigger] self.entries@[j].0@
        &&& forall|k: Seq<char>|
            #[trigger] self.model@.contains_key(k) ==> exists|i: int|
                0 <= i < self.entries@.len() && self.entries@[i].0@ == k
        &&& forall|k: Seq<char>|
            #[trigger] self.slots@.contains_key(k) ==> self.slots@[k] < self.entries@.len()
                && self.entries@[self.slots@[k] as int].0@ == k
        &&& forall|i: int|
            0 <= i < self.entries@.len() ==> #[trigger] self.slots@.contains_key(self.entries@[i].0@)
    }

    /// The keys are the map's domain, each once.
    pub open spec fn wf(&self) -> bool {
        &&& self.inv()
        &&& self.keys().no_duplicates()
        &&& forall|i: int| 0 <= i < self.keys().len() ==> #[trigger] self@.contains_key(self.keys()[i])
        &&& forall|k: Seq<char>| #[trigger] self@.contains_key(k) ==> self.keys().contains(k)
    }

    proof fn lemma_wf(&self)
        requires
            self.inv(),
        ensures
            self.wf(),
    {
        let keys = self.keys();
        assert forall|i: int, j: int| 0 <= i < keys.len() && 0 <= j < keys.len() && i != j implies keys[i]
            != keys[j] by {
            if i < j {
                assert(self.entries@[i].0@ != self.entries@[j].0@);
            } else {
                assert(self.entries@[j].0@ != self.entries@[i].0@);
            }
        }
        assert forall|i: int| 0 <= i < keys.len() implies #[trigger] self@.contains_key(keys[i]) by {
            assert(self.model@.contains_key(self.entries@[i].0@));
        }
        assert forall|k: Seq<char>| #[trigger] self@.contains_key(k) implies keys.contains(k) by {
            let i = choose|i: int| 0 <= i < self.entries@.len() && self.entries@[i].0@ == k;
            assert(keys[i] == k);
        }
    }

    pub fn new() -> (r: FileCache)
        ensures
            r.wf(),
            r@ == Map::<Seq<char>, FileRecord>::empty(),
    {
        let r = FileCache { entries: Vec::new(), slots: StringHashMap::new(), model: Ghost(Map::empty()) };
        proof {
            r.lemma_wf();
        }
        r
    }

    pub fn len(&self) -> (r: usize)
        requires
            self.wf(),
        ensures
            r == self.keys().len(),
    {
        self.entries.len()
    }

    /// The `i`th source path and its record.
    pub fn entry(&self, i: usize) -> (r: (&String, &FileInfo))
        requires
            self.wf(),
            i < self.keys().len(),
        ensures
            r.0@ == self.keys()[i as int],
            self@[r.0@] == r.1@,
    {
        let e = &self.entries[i];
        assert(self.model@.contains_key(self.entries@[i as int].0@));
        (&e.0, &e.1)
    }

    fn position(&self, src: &String) -> (r: Option<usize>)
        requires
            self.inv(),
        ensures
            match r {
                Some(i) => i < self.entries@.len() && self.entries@[i as int].0@ == src@,
                None => !self@.contains_key(src@),
            },
    {
        match self.slots.get(src.as_str()) {
            Some(i) => Some(*i),
            None => {
                proof {
                    if self.model@.contains_key(src@) {
                        let i = choose|i: int| 0 <= i < self.entries@.len() && self.entries@[i].0@ == src@;
                        assert(self.slots@.contains_key(self.entries@[i].0@));
                    }
                }
                None
            },
        }
    }

    /// The record of `src`, if there is one.
    pub fn get(&self, src: &String) -> (r: Option<&FileInfo>)
        requires
            self.wf(),
        ensures
            match r {
                Some(info) => self@.contains_key(src@) && self@[src@] == info@,
                None => !self@.contains_key(src@),
            },
    {
        match self.position(src) {
            Some(i) => {
                assert(self.model@.contains_key(self.entries@[i as int].0@));
                Some(&self.entries[i].1)
            },
            None => None,
        }
    }

    /// Insert or overwrite the record of `src`.
    pub fn insert(&mut self, src: String, info: FileInfo)
        requires
            old(self).wf(),
        ensures
            final(self).wf(),
            final(self)@ == old(self)@.insert(src@, info@),
    {
        let ghost m = self.model@.insert(src@, info@);
        match self.position(&src) {
            Some(i) => {
                self.entries.set(i, (src, info));
                self.model = Ghost(m);
                assert forall|k: Seq<char>| #[trigger] self.model@.contains_key(k) implies exists|j: int|
                    0 <= j < self.entries@.len() && self.entries@[j].0@ == k by {
                    if k != self.entries@[i as int].0@ {
                        assert(old(self).model@.contains_key(k));
                        let j = choose|j: int|
                            0 <= j < old(self).entries@.len() && old(self).entries@[j].0@ == k;
                        assert(self.entries@[j].0@ == k);
                    }
                }
            },
            None => {
                let ghost old_slots = self.slots@;
                self.slots.insert(src.clone(), self.entries.len());
                self.entries.push((src, info));
                self.model = Ghost(m);
                let ghost n: int = self.entries@.len() - 1;
                assert forall|k: Seq<char>| #[trigger] self.model@.contains_key(k) implies exists|j: int|
                    0 <= j < self.entries@.len() && self.entries@[j].0@ == k by {
                    if k != self.entries@[n].0@ {
                        assert(old(self).model@.contains_key(k));
                        let j = choose|j: int|
                            0 <= j < old(self).entries@.len() && old(self).entries@[j].0@ == k;
                        assert(self.entries@[j].0@ == k);
                    }
                }
            },
        }
        assert forall|i: int|
            0 <= i < self.entries@.len() implies #[trigger] self.model@.contains_key(self.entries@[i].0@)
                && self.model@[self.entries@[i].0@] == self.entries@[i].1@ by {
            if self.entries@[i].0@ != src@ {
                assert(old(self).entries@[i] == self.entries@[i]);
                assert(old(self).model@.contains_key(old(self).entries@[i].0@));
            }
        }
        assert forall|i: int, j: int|
            0 <= i < j < self.entries@.len() implies #[trigger] self.entries@[i].0@
                != #[trigger] self.entries@[j].0@ by {
            if self.entries@[i].0@ != src@ && self.entries@[j].0@ != src@ {
                assert(old(self).entries@[i] == self.entries@[i]);
                assert(old(self).entries@[j] == self.entries@[j]);
            } else if self.entries@[i].0@ == src@ {
                assert(old(self).entries@.len() > j ==> old(self).entries@[j] == self.entries@[j] || j == i);
            }
        }
        assert forall|k: Seq<char>|
            #[trigger] self.slots@.contains_key(k) implies self.slots@[k] < self.entries@.len()
                && self.entries@[self.slots@[k] as int].0@ == k by {
            if k != src@ {
                assert(old(self).slots@.contains_key(k));
                assert(old(self).entries@[old(self).slots@[k] as int] == self.entries@[self.slots@[k] as int]);
            }
        }
        assert forall|i: int|
            0 <= i < self.entries@.len() implies #[trigger] self.slots@.contains_key(self.entries@[i].0@) by {
            if self.entries@[i].0@ != src@ {
                assert(old(self).entries@[i] == self.entries@[i]);
            }
        }
        proof {
            self.lemma_wf();
        }
    }
}

} // verus!
