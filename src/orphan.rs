//! Records whose source path is gone this run, grouped by content hash.
use vstd::prelude::*;
use vstd::hash_map::StringHashMap;
use crate::worker::{FileInfo, FileRecord};

verus! {

/// The records of one group, as records.
pub open spec fn records(g: Seq<FileInfo>) -> Seq<FileRecord> {
    g.map_values(|i: FileInfo| i@)
}

/// Some string of `v` reads `d`.
pub open spec fn listed(v: Seq<String>, d: Seq<char>) -> bool {
    exists|a: int| 0 <= a < v.len() && v[a]@ == d
}

/// `d` is the destination of some record of the index.
pub open spec fn is_orphan_dst(m: Map<Seq<char>, Seq<FileRecord>>, d: Seq<char>) -> bool {
    exists|h: Seq<char>, i: int| m.contains_key(h) && 0 <= i < m[h].len() && m[h][i].dst == d
}

/// Orphaned records by content hash, each group in insertion order, with a
/// hashed index from content hash to group.
pub struct OrphanIndex {
    groups: Vec<(String, Vec<FileInfo>)>,
    slots: StringHashMap<usize>,
    model: Ghost<Map<Seq<char>, Seq<FileRecord>>>,
}

impl View for OrphanIndex {
    type V = Map<Seq<char>, Seq<FileRecord>>;

    closed spec fn view(&self) -> Map<Seq<char>, Seq<FileRecord>> {
        self.model@
    }
}

impl OrphanIndex {
    pub closed spec fn wf(&self) -> bool {
        &&& forall|i: int|
            0 <= i < self.groups@.len() ==> #[trigger] self.model@.contains_key(self.groups@[i].0@)
                && self.model@[self.groups@[i].0@] == records(self.groups@[i].1@)
        &&& forall|i: int, j: int|
            0 <= i < j < self.groups@.len() ==> #[trigger] self.groups@[i].0@
                != #[trigger] self.groups@[j].0@
        &&& forall|k: Seq<char>|
            #[trigger] self.model@.contains_key(k) ==> exists|i: int|
                0 <= i < self.groups@.len() && self.groups@[i].0@ == k
        &&& forall|k: Seq<char>|
            #[trigger] self.slots@.contains_key(k) ==> self.slots@[k] < self.groups@.len()
                && self.groups@[self.slots@[k] as int].0@ == k
        &&& forall|i: int|
            0 <= i < self.groups@.len() ==> #[trigger] self.slots@.contains_key(self.groups@[i].0@)
    }

    pub fn new() -> (r: OrphanIndex)
        ensures
            r.wf(),
            r@ == Map::<Seq<char>, Seq<FileRecord>>::empty(),
    {
        OrphanIndex { groups: Vec::new(), slots: StringHashMap::new(), model: Ghost(Map::empty()) }
    }

    fn position(&self, hash: &String) -> (r: Option<usize>)
        requires
            self.wf(),
        ensures
            match r {
                Some(i) => i < self.groups@.len() && self.groups@[i as int].0@ == hash@,
                None => !self@.contains_key(hash@),
            },
    {
        match self.slots.get(hash.as_str()) {
            Some(i) => Some(*i),
            None => {
                proof {
                    if self.model@.contains_key(hash@) {
                        let i = choose|i: int| 0 <= i < self.groups@.len() && self.groups@[i].0@ == hash@;
                        assert(self.slots@.contains_key(self.groups@[i].0@));
                    }
                }
                None
            },
        }
    }

    /// The records whose content hash is `hash`.
    pub fn get(&self, hash: &String) -> (r: Option<&Vec<FileInfo>>)
        requires
            self.wf(),
        ensures
            match r {
                Some(g) => self@.contains_key(hash@) && self@[hash@] == records(g@),
                None => !self@.contains_key(hash@),
            },
    {
        match self.position(hash) {
            Some(i) => {
                assert(self.model@.contains_key(self.groups@[i as int].0@));
                Some(&self.groups[i].1)
            },
            None => None,
        }
    }

    /// The destination of every orphan record, group by group.
    pub fn destinations(&self) -> (r: Vec<String>)
        requires
            self.wf(),
        ensures
            forall|h: Seq<char>, i: int|
                self@.contains_key(h) && 0 <= i < self@[h].len() ==> listed(r@, (#[trigger] self@[h][i]).dst),
            forall|a: int| 0 <= a < r@.len() ==> is_orphan_dst(self@, (#[trigger] r@[a])@),
    {
        let mut out: Vec<String> = Vec::new();
        let mut g: usize = 0;
        while g < self.groups.len()
            invariant
                self.wf(),
                g <= self.groups@.len(),
                forall|b: int, i: int|
                    0 <= b < g && 0 <= i < self.groups@[b].1@.len() ==> listed(out@, (#[trigger] self.groups@[b].1@[i]).dst@),
                forall|a: int| 0 <= a < out@.len() ==> is_orphan_dst(self@, (#[trigger] out@[a])@),
            decreases self.groups@.len() - g,
        {
            let list = &self.groups[g].1;
            assert(self.model@.contains_key(self.groups@[g as int].0@));
            let ghost h = self.groups@[g as int].0@;
            let mut i: usize = 0;
            while i < list.len()
                invariant
                    self.wf(),
                    g < self.groups@.len(),
                    h == self.groups@[g as int].0@,
                    self@.contains_key(h),
                    self@[h] == records(list@),
                    list@ == self.groups@[g as int].1@,
                    i <= list@.len(),
                    forall|b: int, j: int|
                        0 <= b < g && 0 <= j < self.groups@[b].1@.len() ==> listed(out@, (#[trigger] self.groups@[b].1@[j]).dst@),
                    forall|j: int| 0 <= j < i ==> listed(out@, (#[trigger] list@[j]).dst@),
                    forall|a: int| 0 <= a < out@.len() ==> is_orphan_dst(self@, (#[trigger] out@[a])@),
                decreases list@.len() - i,
            {
                let ghost before = out@;
                out.push(list[i].dst.clone());
                assert(self@[h][i as int] == list@[i as int]@);
                assert forall|d: Seq<char>| listed(before, d) implies listed(out@, d) by {
                    let a = choose|a: int| 0 <= a < before.len() && before[a]@ == d;
                    assert(out@[a] == before[a]);
                }
                assert(listed(out@, list@[i as int].dst@)) by {
                    assert(out@[out@.len() - 1]@ == list@[i as int].dst@);
                }
                assert forall|b: int, j: int|
                    0 <= b < g && 0 <= j < self.groups@[b].1@.len() implies listed(out@, (#[trigger] self.groups@[b].1@[j]).dst@) by {
                    assert(listed(before, self.groups@[b].1@[j].dst@));
                }
                assert forall|j: int| 0 <= j < i + 1 implies listed(out@, (#[trigger] list@[j]).dst@) by {
                    if j < i {
                        assert(listed(before, list@[j].dst@));
                    }
                }
                assert forall|a: int| 0 <= a < out@.len() implies is_orphan_dst(self@, (#[trigger] out@[a])@) by {
                    if a < before.len() {
                        assert(out@[a] == before[a]);
                    } else {
                        assert(out@[a]@ == self@[h][i as int].dst);
                    }
                }
                i += 1;
            }
            assert forall|b: int, j: int|
                0 <= b < g + 1 && 0 <= j < self.groups@[b].1@.len() implies listed(out@, (#[trigger] self.groups@[b].1@[j]).dst@) by {
                if b == g {
                    assert(self.groups@[b].1@[j] == list@[j]);
                }
            }
            g += 1;
        }
        assert forall|h: Seq<char>, i: int|
            self@.contains_key(h) && 0 <= i < self@[h].len() implies listed(out@, (#[trigger] self@[h][i]).dst) by {
            let b = choose|b: int| 0 <= b < self.groups@.len() && self.groups@[b].0@ == h;
            assert(self.model@.contains_key(self.groups@[b].0@));
            assert(self@[h][i] == self.groups@[b].1@[i]@);
            assert(listed(out@, self.groups@[b].1@[i].dst@));
        }
        out
    }

    /// Add `info` at the end of the group of its hash.
    pub fn push(&mut self, info: FileInfo)
        requires
            old(self).wf(),
        ensures
            final(self).wf(),
            final(self)@ == old(self)@.insert(
                info.hash@,
                if old(self)@.contains_key(info.hash@) {
                    old(self)@[info.hash@]
                } else {
                    Seq::<FileRecord>::empty()
                }.push(info@),
            ),
    {
        let ghost h = info.hash@;
        let ghost m = self.model@.insert(
            h,
            if self.model@.contains_key(h) {
                self.model@[h]
            } else {
                Seq::<FileRecord>::empty()
            }.push(info@),
        );
        match self.position(&info.hash) {
            Some(i) => {
                assert(self.model@.contains_key(self.groups@[i as int].0@));
                let (key, mut list) = self.groups.remove(i);
                let ghost before = list@;
                list.push(info);
                assert(records(list@) =~= records(before).push(info@));
                self.groups.insert(i, (key, list));
                self.model = Ghost(m);
                assert forall|k: Seq<char>| #[trigger] self.model@.contains_key(k) implies exists|j: int|
                    0 <= j < self.groups@.len() && self.groups@[j].0@ == k by {
                    if k != h {
                        assert(old(self).model@.contains_key(k));
                        let j = choose|j: int|
                            0 <= j < old(self).groups@.len() && old(self).groups@[j].0@ == k;
                        assert(self.groups@[j].0@ == k);
                    } else {
                        assert(self.groups@[i as int].0@ == k);
                    }
                }
                assert forall|a: int|
                    0 <= a < self.groups@.len() implies #[trigger] self.model@.contains_key(
                    self.groups@[a].0@) && self.model@[self.groups@[a].0@] == records(
                    self.groups@[a].1@) by {
                    if a != i {
                        assert(old(self).groups@[a] == self.groups@[a]);
                        assert(old(self).model@.contains_key(old(self).groups@[a].0@));
                    }
                }
                assert forall|a: int, b: int|
                    0 <= a < b < self.groups@.len() implies #[trigger] self.groups@[a].0@
                    != #[trigger] self.groups@[b].0@ by {
                    assert(old(self).groups@[a].0@ == self.groups@[a].0@);
                    assert(old(self).groups@[b].0@ == self.groups@[b].0@);
                }
                assert forall|a: int| 0 <= a < self.groups@.len() implies self.groups@[a].0@ == old(self).groups@[a].0@ by {}
                assert forall|k: Seq<char>|
                    #[trigger] self.slots@.contains_key(k) implies self.slots@[k] < self.groups@.len()
                        && self.groups@[self.slots@[k] as int].0@ == k by {}
                assert forall|a: int|
                    0 <= a < self.groups@.len() implies #[trigger] self.slots@.contains_key(self.groups@[a].0@) by {
                    assert(self.groups@[a].0@ == old(self).groups@[a].0@);
                }
            },
            None => {
                let mut list: Vec<FileInfo> = Vec::new();
                let key = info.hash.clone();
                self.slots.insert(info.hash.clone(), self.groups.len());
                list.push(info);
                assert(records(list@) =~= Seq::<FileRecord>::empty().push(info@));
                self.groups.push((key, list));
                self.model = Ghost(m);
                let ghost n: int = self.groups@.len() - 1;
                assert forall|k: Seq<char>| #[trigger] self.model@.contains_key(k) implies exists|j: int|
                    0 <= j < self.groups@.len() && self.groups@[j].0@ == k by {
                    if k != h {
                        assert(old(self).model@.contains_key(k));
                        let j = choose|j: int|
                            0 <= j < old(self).groups@.len() && old(self).groups@[j].0@ == k;
                        assert(self.groups@[j].0@ == k);
                    } else {
                        assert(self.groups@[n].0@ == k);
                    }
                }
                assert forall|a: int|
                    0 <= a < self.groups@.len() implies #[trigger] self.model@.contains_key(
                    self.groups@[a].0@) && self.model@[self.groups@[a].0@] == records(
                    self.groups@[a].1@) by {
                    if a != n {
                        assert(old(self).groups@[a] == self.groups@[a]);
                        assert(old(self).model@.contains_key(old(self).groups@[a].0@));
                    }
                }
                assert forall|k: Seq<char>|
                    #[trigger] self.slots@.contains_key(k) implies self.slots@[k] < self.groups@.len()
                        && self.groups@[self.slots@[k] as int].0@ == k by {
                    if k != h {
                        assert(old(self).slots@.contains_key(k));
                        assert(old(self).groups@[old(self).slots@[k] as int] == self.groups@[self.slots@[k] as int]);
                    }
                }
                assert forall|a: int|
                    0 <= a < self.groups@.len() implies #[trigger] self.slots@.contains_key(self.groups@[a].0@) by {
                    if a != n {
                        assert(old(self).groups@[a] == self.groups@[a]);
                    }
                }
            },
        }
    }
}

} // verus!
