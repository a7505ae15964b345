//! Run-level planning: which source files are candidates, which records
//! are orphaned, and how many workers to use.
use vstd::prelude::*;
use vstd::hash_map::StringHashMap;
use crate::cache::FileCache;
use crate::orphan::OrphanIndex;
use crate::util::{extension_in, has_extension, map_src_to_dst, mapped_path, texts, PathError};
use crate::worker::FileRecord;

verus! {

/// The paths of `v`, as sequences.
pub open spec fn paths(v: Seq<String>) -> Seq<Seq<char>> {
    texts(v)
}

/// A record whose source path is not among this run's candidates.
pub open spec fn is_orphan(cache: Map<Seq<char>, FileRecord>, files: Seq<Seq<char>>, k: Seq<char>) -> bool {
    cache.contains_key(k) && !files.contains(k)
}

/// Each record of the index is an orphan's record, filed under its own hash.
pub open spec fn only_orphans(
    index: Map<Seq<char>, Seq<FileRecord>>,
    cache: Map<Seq<char>, FileRecord>,
    files: Seq<Seq<char>>,
) -> bool {
    forall|h: Seq<char>, a: int|
        index.contains_key(h) && 0 <= a < index[h].len() ==> (#[trigger] index[h][a]).hash == h
            && exists|k: Seq<char>| is_orphan(cache, files, k) && cache[k] == index[h][a]
}

proof fn lemma_push_contains<A>(s: Seq<A>, x: A, k: A)
    ensures
        s.push(x).contains(k) <==> (s.contains(k) || k == x),
{
    if s.contains(k) {
        let a = choose|a: int| 0 <= a < s.len() && s[a] == k;
        assert(s.push(x)[a] == k);
    }
    if k == x {
        assert(s.push(x)[s.len() as int] == k);
    }
    if s.push(x).contains(k) {
        let a = choose|a: int| 0 <= a < s.push(x).len() && s.push(x)[a] == k;
        if a < s.len() {
            assert(s[a] == k);
        }
    }
}

/// The records, in order, of those paths of `keys` whose content hash is `h`.
pub open spec fn group_of(
    keys: Seq<Seq<char>>,
    cache: Map<Seq<char>, FileRecord>,
    h: Seq<char>,
) -> Seq<FileRecord>
    decreases keys.len(),
{
    if keys.len() == 0 {
        Seq::empty()
    } else {
        let rest = group_of(keys.drop_last(), cache, h);
        if cache[keys.last()].hash == h {
            rest.push(cache[keys.last()])
        } else {
            rest
        }
    }
}

/// The index has a group for exactly the hashes that some path of `keys`
/// has, and that group is those paths' records, in the order of `keys`.
pub open spec fn exact_groups(
    index: Map<Seq<char>, Seq<FileRecord>>,
    keys: Seq<Seq<char>>,
    cache: Map<Seq<char>, FileRecord>,
) -> bool {
    forall|h: Seq<char>|
        #![trigger index.contains_key(h)]
        #![trigger group_of(keys, cache, h)]
        (index.contains_key(h) <==> group_of(keys, cache, h).len() > 0) && (index.contains_key(h)
            ==> index[h] == group_of(keys, cache, h))
}

/// The set of `files`, hashed.
fn live_set(files: &[String]) -> (r: StringHashMap<bool>)
    ensures
        forall|k: Seq<char>| #[trigger] r@.contains_key(k) <==> paths(files@).contains(k),
{
    let mut set: StringHashMap<bool> = StringHashMap::new();
    let mut i: usize = 0;
    while i < files.len()
        invariant
            i <= files@.len(),
            forall|k: Seq<char>| #[trigger] set@.contains_key(k) <==> paths(files@).subrange(0, i as int).contains(k),
        decreases files@.len() - i,
    {
        let ghost done = paths(files@).subrange(0, i as int);
        set.insert(files[i].clone(), true);
        assert(paths(files@).subrange(0, i + 1) =~= done.push(files@[i as int]@));
        assert forall|k: Seq<char>| #[trigger] set@.contains_key(k) <==> paths(files@).subrange(0, i + 1).contains(k) by {
            lemma_push_contains(done, files@[i as int]@, k);
        }
        i += 1;
    }
    assert(paths(files@).subrange(0, i as int) =~= paths(files@));
    set
}

/// Splits the records of `cache` whose source path is not in `files` into
/// an index by content hash, and the list of their source paths.
pub fn find_orphans(cache: &FileCache, files: &[String]) -> (r: (OrphanIndex, Vec<String>))
    requires
        cache.wf(),
    ensures
        r.0.wf(),
        forall|k: Seq<char>|
            #[trigger] paths(r.1@).contains(k) <==> is_orphan(cache@, paths(files@), k),
        paths(r.1@).no_duplicates(),
        forall|k: Seq<char>|
            is_orphan(cache@, paths(files@), k) ==> #[trigger] r.0@.contains_key(cache@[k].hash)
                && r.0@[cache@[k].hash].contains(cache@[k]),
        only_orphans(r.0@, cache@, paths(files@)),
        exact_groups(r.0@, paths(r.1@), cache@),
{
    let live = live_set(files);
    let mut index = OrphanIndex::new();
    let mut to_prune: Vec<String> = Vec::new();
    let n = cache.len();
    let ghost keys = cache.keys();
    let ghost fs = paths(files@);
    let mut i: usize = 0;
    while i < n
        invariant
            cache.wf(),
            n == keys.len(),
            keys == cache.keys(),
            fs == paths(files@),
            i <= n,
            index.wf(),
            forall|k: Seq<char>|
                #[trigger] paths(to_prune@).contains(k) <==> (is_orphan(cache@, fs, k)
                    && keys.subrange(0, i as int).contains(k)),
            paths(to_prune@).no_duplicates(),
            forall|j: int|
                0 <= j < i && is_orphan(cache@, fs, #[trigger] keys[j]) ==> index@.contains_key(
                    cache@[keys[j]].hash) && index@[cache@[keys[j]].hash].contains(cache@[keys[j]]),
            only_orphans(index@, cache@, fs),
            exact_groups(index@, paths(to_prune@), cache@),
            forall|k: Seq<char>| #[trigger] live@.contains_key(k) <==> fs.contains(k),
        decreases n - i,
    {
        let (src, info) = cache.entry(i);
        let ghost old_index = index@;
        let ghost old_prune = paths(to_prune@);
        let ghost done = keys.subrange(0, i as int);
        assert(keys.subrange(0, i + 1) =~= done.push(keys[i as int]));
        let orphaned = !live.contains_key(src.as_str());
        if orphaned {
            assert(cache@.contains_key(src@));
            index.push(info.duplicate());
            to_prune.push(src.clone());
            assert(paths(to_prune@) =~= old_prune.push(src@));
            assert(!old_prune.contains(src@)) by {
                if old_prune.contains(src@) {
                    let j = choose|j: int| 0 <= j < i && keys[j] == src@;
                    assert(keys.subrange(0, i as int).contains(src@));
                    let a = choose|a: int| 0 <= a < i && keys.subrange(0, i as int)[a] == src@;
                    assert(keys[a] == keys[i as int]);
                }
            }
            assert forall|j: int|
                0 <= j < i + 1 && is_orphan(cache@, fs, #[trigger] keys[j]) implies index@.contains_key(
                cache@[keys[j]].hash) && index@[cache@[keys[j]].hash].contains(cache@[keys[j]]) by {
                if j < i {
                    let h = cache@[keys[j]].hash;
                    let a = choose|a: int| 0 <= a < old_index[h].len() && old_index[h][a] == cache@[keys[j]];
                    if h == info.hash@ {
                        assert(index@[h][a] == cache@[keys[j]]);
                    } else {
                        assert(index@[h] == old_index[h]);
                    }
                } else {
                    let h = info.hash@;
                    assert(index@[h][index@[h].len() - 1] == info@);
                }
            }
        }
        assert forall|h: Seq<char>, a: int|
            index@.contains_key(h) && 0 <= a < index@[h].len() implies (#[trigger] index@[h][a]).hash
            == h && exists|k: Seq<char>| is_orphan(cache@, fs, k) && cache@[k] == index@[h][a] by {
            if orphaned && h == info.hash@ && a == index@[h].len() - 1 {
                assert(index@[h][a] == info@);
                assert(is_orphan(cache@, fs, src@));
                assert(cache@[src@] == index@[h][a]);
            } else {
                assert(old_index.contains_key(h));
                assert(index@[h][a] == old_index[h][a]);
                let w = choose|k: Seq<char>| is_orphan(cache@, fs, k) && cache@[k] == old_index[h][a];
                assert(is_orphan(cache@, fs, w) && cache@[w] == index@[h][a]);
            }
        }
        if orphaned {
            let ghost np = paths(to_prune@);
            assert(np.drop_last() =~= old_prune);
            assert(np.last() == src@);
            assert forall|h: Seq<char>|
                #![trigger index@.contains_key(h)]
                #![trigger group_of(np, cache@, h)]
                (index@.contains_key(h) <==> group_of(np, cache@, h).len() > 0) && (index@.contains_key(h)
                    ==> index@[h] == group_of(np, cache@, h)) by {
                assert(group_of(np, cache@, h) == if cache@[src@].hash == h {
                    group_of(old_prune, cache@, h).push(cache@[src@])
                } else {
                    group_of(old_prune, cache@, h)
                });
                assert(old_index.contains_key(h) <==> group_of(old_prune, cache@, h).len() > 0);
                if h == info.hash@ && !old_index.contains_key(h) {
                    assert(group_of(old_prune, cache@, h) =~= Seq::<FileRecord>::empty());
                }
            }
        }
        assert forall|k: Seq<char>|
            #[trigger] paths(to_prune@).contains(k) <==> (is_orphan(cache@, fs, k)
                && keys.subrange(0, i + 1).contains(k)) by {
            lemma_push_contains(done, src@, k);
            if orphaned {
                lemma_push_contains(old_prune, src@, k);
            }
        }
        i += 1;
    }
    assert(keys.subrange(0, n as int) =~= keys);

    assert forall|k: Seq<char>| is_orphan(cache@, fs, k) implies #[trigger] index@.contains_key(cache@[k].hash)
        && index@[cache@[k].hash].contains(cache@[k]) by {
        let j = choose|j: int| 0 <= j < keys.len() && keys[j] == k;
    }
    (index, to_prune)
}

/// The extensions of `v`, as sequences.
pub open spec fn exts(v: Seq<String>) -> Seq<Seq<char>> {
    texts(v)
}

/// Where a candidate lands: transcoded files get the target format's extension.
pub open spec fn dest_of(
    p: Seq<char>,
    src_root: Seq<char>,
    dst_root: Seq<char>,
    allowed: Seq<Seq<char>>,
    format: Seq<char>,
) -> Option<Seq<char>> {
    mapped_path(p, src_root, dst_root, format, extension_in(p, allowed))
}

/// What the candidate list promises: each candidate (with its size) is a
/// walked file that is not ignored; sizes never grow along the list; no two
/// candidates share a destination; and each walked file that is not ignored
/// shares its destination with a candidate at least as large (itself, or
/// the one that won the collision).
pub open spec fn candidates_of(
    entries: Seq<(String, u64)>,
    files: Seq<String>,
    sizes: Seq<u64>,
    src_root: Seq<char>,
    dst_root: Seq<char>,
    allowed: Seq<Seq<char>>,
    ignored: Seq<Seq<char>>,
    format: Seq<char>,
) -> bool {
    &&& forall|a: int|
        0 <= a < files.len() ==> entries.contains((#[trigger] files[a], sizes[a])) && !extension_in(
            files[a]@,
            ignored,
        )
    &&& forall|a: int, b: int| 0 <= a < b < files.len() ==> sizes[a] >= sizes[b]
    &&& forall|a: int, b: int|
        0 <= a < b < files.len() ==> dest_of(#[trigger] files[a]@, src_root, dst_root, allowed, format)
            != dest_of(#[trigger] files[b]@, src_root, dst_root, allowed, format)
    &&& forall|a: int| 0 <= a < files.len() ==> dest_of(#[trigger] files[a]@, src_root, dst_root, allowed, format) is Some
    &&& forall|j: int|
        0 <= j < entries.len() && !extension_in(#[trigger] entries[j].0@, ignored) ==> exists|a: int|
            0 <= a < files.len() && dest_of(files[a]@, src_root, dst_root, allowed, format) == dest_of(
                entries[j].0@,
                src_root,
                dst_root,
                allowed,
                format,
            ) && sizes[a] >= entries[j].1
}

/// Some destination of `dsts` is `d`, with a size of at least `size`.
pub open spec fn covered(dsts: Seq<String>, sizes: Seq<u64>, d: Seq<char>, size: u64) -> bool {
    exists|a: int| 0 <= a < dsts.len() && dsts[a]@ == d && sizes[a] >= size
}

/// Relies on `slice::sort_by_key`: the same items, ordered by size, smallest first.
#[verifier::external_body]
fn sort_by_size(v: &mut Vec<(String, u64)>)
    ensures
        final(v)@.to_multiset() == old(v)@.to_multiset(),
        forall|i: int, j: int| 0 <= i < j < final(v)@.len() ==> final(v)@[i].1 <= final(v)@[j].1,
{
    v.sort_by_key(|e| e.1);
}

/// The files not ignored, in the order of the walk; fails when one of them
/// lies outside the source root.
fn drop_ignored(
    entries: &Vec<(String, u64)>,
    src_root: &str,
    dst_root: &str,
    allowed: &[String],
    ignored: &[String],
    format: &str,
) -> (r: Result<Vec<(String, u64)>, PathError>)
    requires
        src_root@.len() < usize::MAX,
    ensures
        match r {
            Ok(kept) => {
                &&& forall|a: int|
                    0 <= a < kept@.len() ==> entries@.contains(#[trigger] kept@[a]) && !extension_in(
                        kept@[a].0@,
                        exts(ignored@),
                    ) && dest_of(kept@[a].0@, src_root@, dst_root@, exts(allowed@), format@) is Some
                &&& forall|j: int|
                    0 <= j < entries@.len() && !extension_in(#[trigger] entries@[j].0@, exts(ignored@))
                        ==> kept@.contains(entries@[j])
            },
            Err(_) => exists|j: int|
                0 <= j < entries@.len() && !extension_in(#[trigger] entries@[j].0@, exts(ignored@))
                    && dest_of(entries@[j].0@, src_root@, dst_root@, exts(allowed@), format@) is None,
        },
{
    let mut kept: Vec<(String, u64)> = Vec::new();
    let mut i: usize = 0;
    while i < entries.len()
        invariant
            i <= entries@.len(),
            src_root@.len() < usize::MAX,
            forall|a: int|
                0 <= a < kept@.len() ==> entries@.contains(#[trigger] kept@[a]) && !extension_in(
                    kept@[a].0@,
                    exts(ignored@),
                ) && dest_of(kept@[a].0@, src_root@, dst_root@, exts(allowed@), format@) is Some,
            forall|j: int|
                0 <= j < i && !extension_in(#[trigger] entries@[j].0@, exts(ignored@))
                    ==> kept@.contains(entries@[j]),
        decreases entries@.len() - i,
    {
        let path = &entries[i].0;
        if !has_extension(path.as_str(), ignored) {
            let transcode = has_extension(path.as_str(), allowed);
            if map_src_to_dst(path.as_str(), src_root, dst_root, format, transcode).is_err() {
                return Err(PathError::OutsideRoot);
            }
            let ghost before = kept@;
            let item = (path.clone(), entries[i].1);
            assert(item == entries@[i as int]);
            kept.push(item);
            assert(kept@[kept@.len() - 1] == entries@[i as int]);
            assert forall|j: int|
                0 <= j < i + 1 && !extension_in(#[trigger] entries@[j].0@, exts(ignored@)) implies kept@.contains(
                entries@[j]) by {
                if j < i {
                    let a = choose|a: int| 0 <= a < before.len() && before[a] == entries@[j];
                    assert(kept@[a] == entries@[j]);
                }
            }
        }
        i += 1;
    }
    Ok(kept)
}

/// The candidate files: those not ignored, largest first; of several that
/// map to one destination, only the first in that order is kept.
pub fn find_src_files(
    entries: Vec<(String, u64)>,
    src_root: &str,
    dst_root: &str,
    allowed: &[String],
    ignored: &[String],
    format: &str,
) -> (r: Result<Vec<String>, PathError>)
    requires
        src_root@.len() < usize::MAX,
    ensures
        match r {
            Ok(files) => exists|sizes: Seq<u64>| #[trigger] sizes.len() == files@.len() && candidates_of(entries@, files@, sizes, src_root@, dst_root@, exts(allowed@), exts(ignored@), format@),
            Err(_) => exists|j: int|
                0 <= j < entries@.len() && !extension_in(#[trigger] entries@[j].0@, exts(ignored@))
                    && dest_of(entries@[j].0@, src_root@, dst_root@, exts(allowed@), format@) is None,
        },
{
    let mut kept = match drop_ignored(&entries, src_root, dst_root, allowed, ignored, format) {
        Ok(k) => k,
        Err(e) => {
            return Err(e);
        },
    };
    let ghost unsorted = kept@;
    sort_by_size(&mut kept);
    proof {
        broadcast use vstd::seq_lib::group_to_multiset_ensures;

        assert forall|x: (String, u64)| unsorted.contains(x) implies kept@.contains(x) by {
            assert(unsorted.to_multiset().count(x) > 0);
        }
        assert forall|x: (String, u64)| kept@.contains(x) implies unsorted.contains(x) by {
            assert(kept@.to_multiset().count(x) > 0);
        }
    }
    assert forall|a: int|
        0 <= a < kept@.len() implies dest_of(#[trigger] kept@[a].0@, src_root@, dst_root@, exts(allowed@), format@) is Some by {
        assert(unsorted.contains(kept@[a]));
        let b = choose|b: int| 0 <= b < unsorted.len() && unsorted[b] == kept@[a];
    }
    let ghost da = exts(allowed@);
    let mut files: Vec<String> = Vec::new();
    let mut dsts: Vec<String> = Vec::new();
    let mut seen: StringHashMap<bool> = StringHashMap::new();
    let ghost mut sizes: Seq<u64> = Seq::empty();
    let ghost mut from: Seq<int> = Seq::empty();
    let mut i: usize = kept.len();
    while i > 0
        invariant
            i <= kept@.len(),
            src_root@.len() < usize::MAX,
            da == exts(allowed@),
            forall|a: int, b: int| 0 <= a < b < kept@.len() ==> kept@[a].1 <= kept@[b].1,
            forall|a: int|
                0 <= a < kept@.len() ==> dest_of(#[trigger] kept@[a].0@, src_root@, dst_root@, da, format@) is Some,
            files@.len() == dsts@.len(),
            forall|k: Seq<char>|
                #[trigger] seen@.contains_key(k) <==> exists|a: int| 0 <= a < dsts@.len() && dsts@[a]@ == k,
            files@.len() == sizes.len(),
            files@.len() == from.len(),
            forall|a: int|
                0 <= a < from.len() ==> i <= #[trigger] from[a] < kept@.len() && kept@[from[a]].0
                    == files@[a] && kept@[from[a]].1 == sizes[a],
            forall|a: int, b: int| 0 <= a < b < from.len() ==> #[trigger] from[a] > #[trigger] from[b],
            forall|a: int|
                0 <= a < dsts@.len() ==> Some(#[trigger] dsts@[a]@) == dest_of(
                    files@[a]@,
                    src_root@,
                    dst_root@,
                    da,
                    format@,
                ),
            forall|a: int, b: int| 0 <= a < b < dsts@.len() ==> #[trigger] dsts@[a]@ != #[trigger] dsts@[b]@,
            forall|q: int|
                i <= q < kept@.len() ==> covered(
                    dsts@,
                    sizes,
                    dest_of(#[trigger] kept@[q].0@, src_root@, dst_root@, da, format@)->0,
                    kept@[q].1,
                ),
        decreases i,
    {
        i -= 1;
        let ghost old_dsts = dsts@;
        let ghost old_sizes = sizes;
        let path = &kept[i].0;
        let transcode = has_extension(path.as_str(), allowed);
        let dst = match map_src_to_dst(path.as_str(), src_root, dst_root, format, transcode) {
            Ok(d) => d,
            Err(_) => {
                assert(false);
                return Err(PathError::OutsideRoot);
            },
        };
        let present = seen.contains_key(dst.as_str());
        if !present {
            seen.insert(dst.clone(), true);
            proof {
                sizes = sizes.push(kept@[i as int].1);
                from = from.push(i as int);
            }
            files.push(path.clone());
            dsts.push(dst);
            assert forall|k: Seq<char>|
                #[trigger] seen@.contains_key(k) implies exists|a: int| 0 <= a < dsts@.len() && dsts@[a]@ == k by {
                if k != dst@ {
                    let a = choose|a: int| 0 <= a < old_dsts.len() && old_dsts[a]@ == k;
                    assert(dsts@[a] == old_dsts[a]);
                } else {
                    assert(dsts@[dsts@.len() - 1]@ == k);
                }
            }
            assert forall|k: Seq<char>|
                (exists|a: int| 0 <= a < dsts@.len() && dsts@[a]@ == k) implies #[trigger] seen@.contains_key(k) by {
                let a = choose|a: int| 0 <= a < dsts@.len() && dsts@[a]@ == k;
                if a < old_dsts.len() {
                    assert(old_dsts[a] == dsts@[a]);
                }
            }
        }
        assert forall|q: int|
            i <= q < kept@.len() implies covered(
            dsts@,
            sizes,
            dest_of(#[trigger] kept@[q].0@, src_root@, dst_root@, da, format@)->0,
            kept@[q].1,
        ) by {
            if q == i {
                let a = if present {
                    choose|a: int| 0 <= a < old_dsts.len() && old_dsts[a]@ == dst@
                } else {
                    dsts@.len() - 1
                };
                assert(dsts@[a]@ == dst@);
                assert(from[a] >= i);
                assert(kept@[i as int].1 <= kept@[from[a]].1);
            } else {
                let d = dest_of(kept@[q].0@, src_root@, dst_root@, da, format@)->0;
                assert(covered(old_dsts, old_sizes, d, kept@[q].1));
                let a = choose|a: int| 0 <= a < old_dsts.len() && old_dsts[a]@ == d && old_sizes[a] >= kept@[q].1;
                assert(dsts@[a]@ == d && sizes[a] >= kept@[q].1);
            }
        }
    }
    proof {
        assert(candidates_of(entries@, files@, sizes, src_root@, dst_root@, da, exts(ignored@), format@)) by {
            assert forall|a: int| 0 <= a < files@.len() implies entries@.contains((#[trigger] files@[a], sizes[a])) && !extension_in(files@[a]@, exts(ignored@)) by {
                let x = kept@[from[a]];
                assert(x == (files@[a], sizes[a]));
                assert(kept@.contains(x));
                assert(unsorted.contains(x));
                let b = choose|b: int| 0 <= b < unsorted.len() && unsorted[b] == x;
                assert(entries@.contains(unsorted[b]));
                assert(!extension_in(unsorted[b].0@, exts(ignored@)));
            }
            assert forall|a: int, b: int|
                0 <= a < b < files@.len() implies dest_of(#[trigger] files@[a]@, src_root@, dst_root@, da, format@)
                != dest_of(#[trigger] files@[b]@, src_root@, dst_root@, da, format@) by {
                assert(dsts@[a]@ != dsts@[b]@);
            }
            assert forall|a: int| 0 <= a < files@.len() implies dest_of(#[trigger] files@[a]@, src_root@, dst_root@, da, format@) is Some by {
                assert(Some(dsts@[a]@) == dest_of(files@[a]@, src_root@, dst_root@, da, format@));
            }
            assert forall|a: int, b: int| 0 <= a < b < files@.len() implies sizes[a] >= sizes[b] by {
                assert(from[a] > from[b]);
            }
            assert forall|j: int|
                0 <= j < entries@.len() && !extension_in(#[trigger] entries@[j].0@, exts(ignored@))
                implies exists|a: int| 0 <= a < files@.len()
                    && dest_of(files@[a]@, src_root@, dst_root@, da, format@) == dest_of(entries@[j].0@, src_root@, dst_root@, da, format@)
                    && sizes[a] >= entries@[j].1 by {
                assert(kept@.contains(entries@[j]));
                let q = choose|q: int| 0 <= q < kept@.len() && kept@[q] == entries@[j];
                let d = dest_of(kept@[q].0@, src_root@, dst_root@, da, format@)->0;
                assert(covered(dsts@, sizes, d, kept@[q].1));
                let a = choose|a: int| 0 <= a < dsts@.len() && dsts@[a]@ == d && sizes[a] >= kept@[q].1;
                assert(dest_of(files@[a]@, src_root@, dst_root@, da, format@) == Some(d));
            }
        }
    }
    Ok(files)
}

} // verus!
