//! What holds of every run of a job, and of the store across runs.
use vstd::prelude::*;
use crate::db::{delete_all, upsert_all};
use crate::scan::{candidates_of, dest_of};
use crate::util::{extension_in, mapped_path};
use crate::worker::{
    config_tag, fresh_job, group, next_eligible, reclaimable, step, ActionModel, EventModel,
    FileRecord, FileStatus, JobState, Outcome, Phase, Settings,
};

verus! {

/// The states and actions of a job fed the events `evs` in order.
pub open spec fn run(j: JobState, s: Settings, evs: Seq<EventModel>) -> (JobState, Seq<ActionModel>)
    decreases evs.len(),
{
    if evs.len() == 0 {
        (j, Seq::empty())
    } else {
        let (j1, a) = step(j, s, evs[0]);
        let (j2, rest) = run(j1, s, evs.drop_first());
        (j2, seq![a] + rest)
    }
}

/// The config tag that `src` is processed with under `s`.
pub open spec fn tag_of(s: Settings, src: Seq<char>) -> Seq<char> {
    config_tag(extension_in(src, s.allowed), s.target_ext, s.bitrate)
}

/// What holds of a job's state between steps.
pub open spec fn job_inv(j: JobState, s: Settings, src: Seq<char>) -> bool {
    &&& j.src == src
    &&& match j.phase {
        Phase::Start | Phase::Stat | Phase::Finished => true,
        _ => j.config == tag_of(s, src),
    }
    &&& (j.phase == Phase::Confirm ==> s.cache.contains_key(src) && s.cache[src] == FileRecord {
        dst: j.dst,
        hash: s.cache[src].hash,
        mtime: j.mtime,
        size: j.size,
        config: j.config,
    })
    &&& match j.phase {
        Phase::Probe(k) | Phase::Move(k) => k < group(s, j.hash).len() && reclaimable(
            group(s, j.hash)[k as int],
            j.config,
            j.size,
        ),
        _ => true,
    }
}

/// What holds of every action a job of `src` asks for.
pub open spec fn action_ok(a: ActionModel, s: Settings, src: Seq<char>) -> bool {
    match a {
        ActionModel::Finish(o) => {
            &&& o.src == src
            &&& o.info.config == tag_of(s, src)
            &&& (o.status == FileStatus::Skipped ==> s.cache.contains_key(src) && s.cache[src] == o.info)
            &&& (o.status == FileStatus::Reclaimed ==> exists|k: int|
                0 <= k < group(s, o.info.hash).len() && reclaimable(
                    #[trigger] group(s, o.info.hash)[k],
                    o.info.config,
                    o.info.size,
                ))
        },
        _ => true,
    }
}

proof fn lemma_next_eligible(g: Seq<FileRecord>, i: int, config: Seq<char>, size: u64)
    requires
        i >= 0,
    ensures
        i <= next_eligible(g, i, config, size) || next_eligible(g, i, config, size) == g.len(),
        next_eligible(g, i, config, size) <= g.len(),
        next_eligible(g, i, config, size) < g.len() ==> reclaimable(
            g[next_eligible(g, i, config, size)],
            config,
            size,
        ),
    decreases g.len() - i,
{
    if i < g.len() && !reclaimable(g[i], config, size) {
        lemma_next_eligible(g, i + 1, config, size);
    }
}

proof fn lemma_step(j: JobState, s: Settings, src: Seq<char>, ev: EventModel)
    requires
        job_inv(j, s, src),
    ensures
        job_inv(step(j, s, ev).0, s, src),
        action_ok(step(j, s, ev).1, s, src),
{
    lemma_next_eligible(group(s, j.hash), 0, j.config, j.size);
    match j.phase {
        Phase::Probe(k) | Phase::Move(k) => {
            lemma_next_eligible(group(s, j.hash), k + 1, j.config, j.size);
        },
        _ => {},
    }
    let (j1, a) = step(j, s, ev);
    if j.phase == Phase::Stat && j1.phase == Phase::Confirm {
        let r = s.cache[src];
        assert(r == FileRecord { dst: r.dst, hash: r.hash, mtime: r.mtime, size: r.size, config: r.config });
    }
    match a {
        ActionModel::Finish(o) => {
            if o.status == FileStatus::Reclaimed {
                match j.phase {
                    Phase::Move(k) => {
                        assert(reclaimable(group(s, o.info.hash)[k as int], o.info.config, o.info.size));
                    },
                    _ => {},
                }
            }
        },
        _ => {},
    }
}

proof fn lemma_run(j: JobState, s: Settings, src: Seq<char>, evs: Seq<EventModel>)
    requires
        job_inv(j, s, src),
    ensures
        forall|i: int| 0 <= i < run(j, s, evs).1.len() ==> action_ok(#[trigger] run(j, s, evs).1[i], s, src),
        run(j, s, evs).1.len() == evs.len(),
    decreases evs.len(),
{
    if evs.len() > 0 {
        lemma_step(j, s, src, evs[0]);
        let (j1, a) = step(j, s, evs[0]);
        lemma_run(j1, s, src, evs.drop_first());
        let acts = run(j, s, evs).1;
        assert forall|i: int| 0 <= i < acts.len() implies action_ok(#[trigger] acts[i], s, src) by {
            if i > 0 {
                assert(acts[i] == run(j1, s, evs.drop_first()).1[i - 1]);
            }
        }
    }
}

/// Whatever the events, a job ends Skipped only with exactly the stored
/// record of its source, whose config tag is the current one; every outcome
/// carries the current config tag; and a Reclaimed outcome has the hash,
/// config tag and size of an orphan it could take over.
pub proof fn lemma_outcomes(s: Settings, src: Seq<char>, evs: Seq<EventModel>)
    ensures
        forall|i: int|
            0 <= i < run(fresh_job(src), s, evs).1.len() ==> action_ok(
                #[trigger] run(fresh_job(src), s, evs).1[i],
                s,
                src,
            ),
{
    lemma_run(fresh_job(src), s, src, evs);
}

/// When the processing parameters of a file changed since its record, no
/// sequence of events makes its job end Skipped, and any outcome carries
/// the new config tag.
pub proof fn lemma_config_change_forces_work(s: Settings, src: Seq<char>, evs: Seq<EventModel>)
    requires
        s.cache.contains_key(src),
        s.cache[src].config != tag_of(s, src),
    ensures
        forall|i: int|
            0 <= i < run(fresh_job(src), s, evs).1.len() ==> (#[trigger] run(fresh_job(src), s, evs).1[i] matches ActionModel::Finish(o) ==> o.status
                != FileStatus::Skipped && o.info.config == tag_of(s, src)),
{
    lemma_run(fresh_job(src), s, src, evs);
}

/// A file may take over an orphan's output only when the orphan has the
/// same content hash, config tag and size: equal hashes with different
/// sizes never lead to a Reclaimed outcome.
pub proof fn lemma_reclaim_needs_equal_size(s: Settings, src: Seq<char>, evs: Seq<EventModel>)
    ensures
        forall|i: int|
            0 <= i < run(fresh_job(src), s, evs).1.len() ==> (#[trigger] run(fresh_job(src), s, evs).1[i] matches ActionModel::Finish(o) ==> (
            o.status == FileStatus::Reclaimed ==> exists|k: int|
                0 <= k < group(s, o.info.hash).len() && (#[trigger] group(s, o.info.hash)[k]).size
                    == o.info.size && group(s, o.info.hash)[k].config == o.info.config)),
{
    lemma_run(fresh_job(src), s, src, evs);
}

/// A file whose record matches its current config tag, destination,
/// modification time and size, and whose destination still exists, is
/// Skipped with exactly its stored record; writing that outcome back leaves
/// the store as it was.
pub proof fn lemma_unchanged_file_skipped(s: Settings, src: Seq<char>, mtime: i64, size: u64)
    requires
        s.cache.contains_key(src),
        s.cache[src].config == tag_of(s, src),
        mapped_path(src, s.src_root, s.dst_root, s.target_ext, extension_in(src, s.allowed)) == Some(
            s.cache[src].dst,
        ),
        s.cache[src].mtime == mtime,
        s.cache[src].size == size,
    ensures
        run(
            fresh_job(src),
            s,
            seq![EventModel::Begin, EventModel::Stat { mtime, size }, EventModel::Exists(true)],
        ).1 == seq![
            ActionModel::Stat { path: src },
            ActionModel::CheckExists { path: s.cache[src].dst },
            ActionModel::Finish(Outcome { src, info: s.cache[src], status: FileStatus::Skipped }),
        ],
        upsert_all(s.cache, seq![Outcome { src, info: s.cache[src], status: FileStatus::Skipped }])
            == s.cache,
{
    let evs = seq![EventModel::Begin, EventModel::Stat { mtime, size }, EventModel::Exists(true)];
    let j0 = fresh_job(src);
    let (j1, a1) = step(j0, s, evs[0]);
    let (j2, a2) = step(j1, s, evs[1]);
    let (j3, a3) = step(j2, s, evs[2]);
    let r = s.cache[src];
    assert(r == FileRecord { dst: r.dst, hash: r.hash, mtime: r.mtime, size: r.size, config: r.config });
    let e1 = evs.drop_first();
    let e2 = e1.drop_first();
    assert(e2.drop_first() =~= Seq::<EventModel>::empty());
    assert(e2[0] == evs[2]);
    assert(e1[0] == evs[1]);
    assert(run(j3, s, e2.drop_first()).1 =~= Seq::<ActionModel>::empty());
    assert(run(j2, s, e2).1 =~= seq![a3]);
    assert(run(j1, s, e1).1 =~= seq![a2, a3]);
    assert(run(j0, s, evs).1 =~= seq![a1, a2, a3]);
    let o = Outcome { src, info: r, status: FileStatus::Skipped };
    assert(seq![o].drop_last() =~= Seq::<Outcome>::empty());
    assert(upsert_all(s.cache, Seq::<Outcome>::empty()) == s.cache);
    assert(upsert_all(s.cache, seq![o]) =~= s.cache);
}

/// Writing outcomes that each repeat their source's stored record leaves
/// the store unchanged.
pub proof fn lemma_skips_keep_store(m: Map<Seq<char>, FileRecord>, batch: Seq<Outcome>)
    requires
        forall|i: int|
            0 <= i < batch.len() ==> m.contains_key((#[trigger] batch[i]).src) && m[batch[i].src]
                == batch[i].info,
    ensures
        upsert_all(m, batch) == m,
    decreases batch.len(),
{
    if batch.len() > 0 {
        let rest = batch.drop_last();
        assert forall|i: int| 0 <= i < rest.len() implies m.contains_key((#[trigger] rest[i]).src)
            && m[rest[i].src] == rest[i].info by {
            assert(rest[i] == batch[i]);
        }
        lemma_skips_keep_store(m, rest);
        assert(batch.last() == batch[batch.len() - 1]);
        assert(upsert_all(m, batch) =~= m);
    }
}

/// A new source path whose content hash leads to a reclaimable orphan whose
/// output is still there is satisfied by moving that output: the outcome is
/// Reclaimed and the encoder is never asked for.
pub proof fn lemma_renamed_file_reclaimed(
    s: Settings,
    src: Seq<char>,
    mtime: i64,
    size: u64,
    hash: Seq<char>,
)
    requires
        !s.cache.contains_key(src),
        mapped_path(src, s.src_root, s.dst_root, s.target_ext, extension_in(src, s.allowed)) is Some,
        next_eligible(group(s, hash), 0, tag_of(s, src), size) < group(s, hash).len(),
        next_eligible(group(s, hash), 0, tag_of(s, src), size) < usize::MAX,
    ensures
        ({
            let dst = mapped_path(src, s.src_root, s.dst_root, s.target_ext, extension_in(src, s.allowed))->0;
            let k = next_eligible(group(s, hash), 0, tag_of(s, src), size);
            let acts = run(
                fresh_job(src),
                s,
                seq![
                    EventModel::Begin,
                    EventModel::Stat { mtime, size },
                    EventModel::Hashed(hash),
                    EventModel::Done,
                    EventModel::Exists(true),
                    EventModel::Moved(true),
                ],
            ).1;
            &&& acts.len() == 6
            &&& acts[3] == ActionModel::CheckExists { path: group(s, hash)[k].dst }
            &&& acts[4] == ActionModel::Move { from: group(s, hash)[k].dst, to: dst }
            &&& acts[5] == ActionModel::Finish(
                Outcome {
                    src,
                    info: FileRecord { dst, hash, mtime, size, config: tag_of(s, src) },
                    status: FileStatus::Reclaimed,
                },
            )
            &&& forall|i: int| 0 <= i < 6 ==> !(#[trigger] acts[i] is Encode)
        }),
{
    let evs = seq![
        EventModel::Begin,
        EventModel::Stat { mtime, size },
        EventModel::Hashed(hash),
        EventModel::Done,
        EventModel::Exists(true),
        EventModel::Moved(true),
    ];
    let j0 = fresh_job(src);
    let (j1, a1) = step(j0, s, evs[0]);
    let (j2, a2) = step(j1, s, evs[1]);
    let (j3, a3) = step(j2, s, evs[2]);
    let (j4, a4) = step(j3, s, evs[3]);
    let (j5, a5) = step(j4, s, evs[4]);
    let (j6, a6) = step(j5, s, evs[5]);
    let e1 = evs.drop_first();
    let e2 = e1.drop_first();
    let e3 = e2.drop_first();
    let e4 = e3.drop_first();
    let e5 = e4.drop_first();
    assert(e5.drop_first() =~= Seq::<EventModel>::empty());
    assert(e5[0] == evs[5]);
    assert(e4[0] == evs[4]);
    assert(e3[0] == evs[3]);
    assert(e2[0] == evs[2]);
    assert(e1[0] == evs[1]);
    assert(run(j6, s, e5.drop_first()).1 =~= Seq::<ActionModel>::empty());
    assert(run(j5, s, e5).1 =~= seq![a6]);
    assert(run(j4, s, e4).1 =~= seq![a5, a6]);
    assert(run(j3, s, e3).1 =~= seq![a4, a5, a6]);
    assert(run(j2, s, e2).1 =~= seq![a3, a4, a5, a6]);
    assert(run(j1, s, e1).1 =~= seq![a2, a3, a4, a5, a6]);
    assert(run(j0, s, evs).1 =~= seq![a1, a2, a3, a4, a5, a6]);
    let g = group(s, hash);
    let k = next_eligible(g, 0, tag_of(s, src), size);
    lemma_next_eligible(g, 0, tag_of(s, src), size);
    assert(j2.phase == Phase::Hash && j2.config == tag_of(s, src) && j2.size == size);
    assert(j3.phase == Phase::Prepare && j3.hash == hash);
    assert(j4.phase == Phase::Probe(k as usize));
    assert(a4 == ActionModel::CheckExists { path: g[k].dst });
    assert(j5.phase == Phase::Move(k as usize));
    assert(a5 == ActionModel::Move { from: g[k].dst, to: j4.dst });
}

/// Deleting a list of source paths removes each of their records and keeps
/// every other record as it was.
pub proof fn lemma_pruned_records_gone(m: Map<Seq<char>, FileRecord>, srcs: Seq<Seq<char>>, k: Seq<char>)
    ensures
        srcs.contains(k) ==> !delete_all(m, srcs).contains_key(k),
        !srcs.contains(k) ==> (delete_all(m, srcs).contains_key(k) == m.contains_key(k) && (m.contains_key(k)
            ==> delete_all(m, srcs)[k] == m[k])),
    decreases srcs.len(),
{
    if srcs.len() > 0 {
        let rest = srcs.drop_last();
        lemma_pruned_records_gone(m, rest, k);
        if srcs.contains(k) && k != srcs.last() {
            let i = choose|i: int| 0 <= i < srcs.len() && srcs[i] == k;
            assert(i < srcs.len() - 1);
            assert(rest[i] == k);
        }
        if rest.contains(k) {
            let i = choose|i: int| 0 <= i < rest.len() && rest[i] == k;
            assert(srcs[i] == k);
        }
        if !srcs.contains(k) {
            assert(srcs[srcs.len() - 1] == srcs.last());
        }
    }
}

/// Of two walked files that are not ignored and share a destination, the
/// smaller is never a candidate; exactly one candidate takes that
/// destination, and it is at least as large as the larger file.
pub proof fn lemma_collision_keeps_larger(
    entries: Seq<(String, u64)>,
    files: Seq<String>,
    sizes: Seq<u64>,
    src_root: Seq<char>,
    dst_root: Seq<char>,
    allowed: Seq<Seq<char>>,
    ignored: Seq<Seq<char>>,
    format: Seq<char>,
    big: int,
    small: int,
)
    requires
        sizes.len() == files.len(),
        candidates_of(entries, files, sizes, src_root, dst_root, allowed, ignored, format),
        forall|a: int, b: int|
            0 <= a < entries.len() && 0 <= b < entries.len() && (#[trigger] entries[a]).0@ == (#[trigger] entries[b]).0@
                ==> a == b,
        0 <= big < entries.len(),
        0 <= small < entries.len(),
        !extension_in(entries[big].0@, ignored),
        !extension_in(entries[small].0@, ignored),
        dest_of(entries[big].0@, src_root, dst_root, allowed, format) == dest_of(
            entries[small].0@,
            src_root,
            dst_root,
            allowed,
            format,
        ),
        entries[big].1 > entries[small].1,
    ensures
        forall|a: int| 0 <= a < files.len() ==> (#[trigger] files[a])@ != entries[small].0@,
        exists|a: int|
            0 <= a < files.len() && dest_of(files[a]@, src_root, dst_root, allowed, format) == dest_of(
                entries[big].0@,
                src_root,
                dst_root,
                allowed,
                format,
            ) && sizes[a] >= entries[big].1 && forall|b: int|
                0 <= b < files.len() && dest_of(#[trigger] files[b]@, src_root, dst_root, allowed, format)
                    == dest_of(entries[big].0@, src_root, dst_root, allowed, format) ==> b == a,
{
    let d = dest_of(entries[big].0@, src_root, dst_root, allowed, format);
    let w = choose|a: int|
        0 <= a < files.len() && dest_of(files[a]@, src_root, dst_root, allowed, format) == d && sizes[a]
            >= entries[big].1;
    assert forall|b: int|
        0 <= b < files.len() && dest_of(#[trigger] files[b]@, src_root, dst_root, allowed, format) == d implies b == w by {
        if b < w {
            assert(dest_of(files[b]@, src_root, dst_root, allowed, format) != dest_of(files[w]@, src_root, dst_root, allowed, format));
        } else if w < b {
            assert(dest_of(files[w]@, src_root, dst_root, allowed, format) != dest_of(files[b]@, src_root, dst_root, allowed, format));
        }
    }
    assert forall|a: int| 0 <= a < files.len() implies (#[trigger] files[a])@ != entries[small].0@ by {
        if files[a]@ == entries[small].0@ {
            assert(entries.contains((files[a], sizes[a])));
            let c = choose|c: int| 0 <= c < entries.len() && entries[c] == (files[a], sizes[a]);
            assert(entries[c].0@ == entries[small].0@);
            assert(c == small);
            assert(dest_of(files[a]@, src_root, dst_root, allowed, format) == d);
            assert(a == w);
        }
    }
}

} // verus!
