use std::collections::HashMap;

use lossy_mirror::cache::FileCache;
use lossy_mirror::db::ResultBatcher;
use lossy_mirror::digest::ContentDigest;
use lossy_mirror::orphan::OrphanIndex;
use lossy_mirror::pipeline::is_removable_dir;
use lossy_mirror::scan::{find_orphans, find_src_files};
use lossy_mirror::worker::{
    make_config_tag, process_file, Action, Event, FileInfo, FileJob, FileStatus, JobError,
    ProcessedFile, WorkerSettings,
};

struct World {
    files: HashMap<String, (Vec<u8>, i64)>,
    store: HashMap<String, FileInfo>,
    encodes: Vec<(String, String, u32)>,
}

struct Config {
    allowed: Vec<String>,
    ignored: Vec<String>,
    format: String,
    bitrate: u32,
    copy: bool,
}

fn world() -> World {
    World { files: HashMap::new(), store: HashMap::new(), encodes: Vec::new() }
}

fn config(allowed: &[&str], format: &str, bitrate: u32) -> Config {
    Config {
        allowed: allowed.iter().map(|s| s.to_string()).collect(),
        ignored: Vec::new(),
        format: format.to_string(),
        bitrate,
        copy: false,
    }
}

fn content_hash(bytes: &[u8]) -> String {
    let mut d = ContentDigest::new();
    for chunk in bytes.chunks(65536) {
        d.update(chunk);
    }
    d.finish()
}

fn drive(
    files: &mut HashMap<String, (Vec<u8>, i64)>,
    encodes: &mut Vec<(String, String, u32)>,
    src: &str,
    settings: &WorkerSettings,
) -> Result<ProcessedFile, JobError> {
    let mut job = FileJob::new(src.to_string());
    let mut event = Event::Begin;
    loop {
        event = match process_file(&mut job, settings, event) {
            Action::Stat { path } => match files.get(&path) {
                Some((b, m)) => Event::Stat { mtime: *m, size: b.len() as u64 },
                None => Event::Failed("no such file".to_string()),
            },
            Action::CheckExists { path } => Event::Exists(files.contains_key(&path)),
            Action::Remove { path } => {
                files.remove(&path);
                Event::Done
            },
            Action::Hash { path } => match files.get(&path) {
                Some((b, _)) => Event::Hashed(content_hash(b)),
                None => Event::Failed("no such file".to_string()),
            },
            Action::MakeDirs { .. } => Event::Done,
            Action::Move { from, to } => match files.remove(&from) {
                Some(v) => {
                    files.insert(to, v);
                    Event::Moved(true)
                },
                None => Event::Moved(false),
            },
            Action::Encode { src, dst, bitrate } => {
                encodes.push((src.clone(), dst.clone(), bitrate));
                let out = format!("encoded {} at {}", src, bitrate).into_bytes();
                files.insert(dst, (out, 0));
                Event::Done
            },
            Action::Link { src, dst } | Action::Copy { src, dst } => match files.get(&src).cloned() {
                Some(v) => {
                    files.insert(dst, v);
                    Event::Done
                },
                None => Event::Failed("no such file".to_string()),
            },
            Action::Finish(p) => return Ok(p),
            Action::Fail(e) => return Err(e),
        };
    }
}

fn write_batch(store: &mut HashMap<String, FileInfo>, batch: Vec<ProcessedFile>) {
    for p in batch {
        store.insert(p.src, p.info);
    }
}

/// One full run: scan, load, reconcile each candidate, persist, clean up.
fn run(w: &mut World, cfg: &Config) -> Vec<(String, Result<FileStatus, JobError>)> {
    let mut entries: Vec<(String, u64)> = w
        .files
        .iter()
        .filter(|(p, _)| p.starts_with("/src/"))
        .map(|(p, (b, _))| (p.clone(), b.len() as u64))
        .collect();
    entries.sort();
    let files =
        find_src_files(entries, "/src", "/dst", &cfg.allowed, &cfg.ignored, &cfg.format).unwrap();
    let mut cache = FileCache::new();
    for (k, v) in &w.store {
        cache.insert(k.clone(), v.clone());
    }
    let (orphans, to_prune) = find_orphans(&cache, &files);
    let settings = WorkerSettings {
        src_root: "/src",
        dst_root: "/dst",
        allowed_exts: &cfg.allowed,
        target_ext: &cfg.format,
        bitrate: cfg.bitrate,
        should_copy: cfg.copy,
        orphans: &orphans,
        cache: &cache,
    };
    let mut batcher = ResultBatcher::new();
    let mut results = Vec::new();
    for f in &files {
        match drive(&mut w.files, &mut w.encodes, f, &settings) {
            Ok(p) => {
                results.push((p.src.clone(), Ok(p.status)));
                if let Some(b) = batcher.ingest(p) {
                    write_batch(&mut w.store, b);
                }
            },
            Err(e) => results.push((f.clone(), Err(e))),
        }
    }
    if let Some(b) = batcher.finish() {
        write_batch(&mut w.store, b);
    }
    for d in orphans.destinations() {
        w.files.remove(&d);
    }
    for p in to_prune {
        w.store.remove(&p);
    }
    results
}

fn status_of(results: &[(String, Result<FileStatus, JobError>)], src: &str) -> Option<Result<FileStatus, JobError>> {
    results.iter().find(|(s, _)| s == src).map(|(_, r)| r.clone())
}

fn put(w: &mut World, path: &str, bytes: Vec<u8>) {
    w.files.insert(path.to_string(), (bytes, 100));
}

#[test]
fn end_to_end_three_runs() {
    let mut w = world();
    let a = vec![7u8; 5_000_000];
    put(&mut w, "/src/a.flac", a.clone());
    put(&mut w, "/src/b.mp3", vec![3u8; 3_000_000]);
    let cfg = config(&["flac"], "ogg", 128);

    let r1 = run(&mut w, &cfg);
    assert_eq!(r1.len(), 2);
    assert_eq!(r1[0].0, "/src/a.flac");
    assert_eq!(status_of(&r1, "/src/a.flac"), Some(Ok(FileStatus::Transcoded)));
    assert_eq!(status_of(&r1, "/src/b.mp3"), Some(Ok(FileStatus::PassedThrough)));
    assert!(w.files.contains_key("/dst/a.ogg"));
    assert!(w.files.contains_key("/dst/b.mp3"));
    assert_eq!(w.encodes.len(), 1);
    assert_eq!(w.store["/src/a.flac"].config, "ogg:128");
    assert_eq!(w.store["/src/b.mp3"].config, "passthrough");

    let store_after_first = w.store.clone();
    let r2 = run(&mut w, &cfg);
    assert_eq!(status_of(&r2, "/src/a.flac"), Some(Ok(FileStatus::Skipped)));
    assert_eq!(status_of(&r2, "/src/b.mp3"), Some(Ok(FileStatus::Skipped)));
    assert_eq!(w.encodes.len(), 1);
    assert_eq!(w.store.len(), store_after_first.len());
    for (k, v) in &store_after_first {
        let now = &w.store[k];
        assert_eq!((&now.dst, &now.hash, now.mtime, now.size, &now.config), (&v.dst, &v.hash, v.mtime, v.size, &v.config));
    }

    w.files.remove("/src/a.flac");
    put(&mut w, "/src/c.flac", a);
    let r3 = run(&mut w, &cfg);
    assert_eq!(status_of(&r3, "/src/c.flac"), Some(Ok(FileStatus::Reclaimed)));
    assert_eq!(status_of(&r3, "/src/b.mp3"), Some(Ok(FileStatus::Skipped)));
    assert_eq!(w.encodes.len(), 1);
    assert!(w.files.contains_key("/dst/c.ogg"));
    assert!(!w.files.contains_key("/dst/a.ogg"));
    assert!(!w.store.contains_key("/src/a.flac"));
    assert_eq!(w.store["/src/c.flac"].dst, "/dst/c.ogg");
}

#[test]
fn second_run_skips_everything() {
    let mut w = world();
    put(&mut w, "/src/x/one.flac", vec![1u8; 40]);
    put(&mut w, "/src/x/y/two.FLAC", vec![2u8; 30]);
    put(&mut w, "/src/cover.jpg", vec![3u8; 20]);
    let cfg = config(&["flac"], "opus", 96);
    let r1 = run(&mut w, &cfg);
    assert!(r1.iter().all(|(_, r)| r.is_ok()));
    assert!(w.files.contains_key("/dst/x/y/two.opus"));
    let before = w.store.clone();
    let r2 = run(&mut w, &cfg);
    assert_eq!(r2.len(), 3);
    assert!(r2.iter().all(|(_, r)| *r == Ok(FileStatus::Skipped)));
    assert_eq!(before.len(), w.store.len());
    for (k, v) in &before {
        assert_eq!(w.store[k].hash, v.hash);
        assert_eq!(w.store[k].dst, v.dst);
    }
}

#[test]
fn bitrate_change_forces_transcode() {
    let mut w = world();
    put(&mut w, "/src/a.flac", vec![1u8; 50]);
    put(&mut w, "/src/b.txt", vec![2u8; 10]);
    run(&mut w, &config(&["flac"], "ogg", 128));
    let r = run(&mut w, &config(&["flac"], "ogg", 192));
    assert_eq!(status_of(&r, "/src/a.flac"), Some(Ok(FileStatus::Transcoded)));
    assert_eq!(status_of(&r, "/src/b.txt"), Some(Ok(FileStatus::Skipped)));
    assert_eq!(w.store["/src/a.flac"].config, "ogg:192");
    assert_eq!(w.encodes.len(), 2);
    assert_eq!(w.encodes[1].2, 192);
}

#[test]
fn format_change_forces_transcode() {
    let mut w = world();
    put(&mut w, "/src/a.flac", vec![1u8; 50]);
    run(&mut w, &config(&["flac"], "ogg", 128));
    let r = run(&mut w, &config(&["flac"], "mp3", 128));
    assert_eq!(status_of(&r, "/src/a.flac"), Some(Ok(FileStatus::Transcoded)));
    assert_eq!(w.store["/src/a.flac"].config, "mp3:128");
    assert_eq!(w.store["/src/a.flac"].dst, "/dst/a.mp3");
    assert!(w.files.contains_key("/dst/a.mp3"));
    assert!(!w.files.contains_key("/dst/a.ogg"));
}

#[test]
fn moved_file_is_reclaimed_without_encoding() {
    let mut w = world();
    put(&mut w, "/src/old/song.flac", vec![9u8; 64]);
    let cfg = config(&["flac"], "ogg", 128);
    run(&mut w, &cfg);
    assert_eq!(w.encodes.len(), 1);
    let v = w.files.remove("/src/old/song.flac").unwrap();
    w.files.insert("/src/new/song.flac".to_string(), v);
    let r = run(&mut w, &cfg);
    assert_eq!(status_of(&r, "/src/new/song.flac"), Some(Ok(FileStatus::Reclaimed)));
    assert_eq!(w.encodes.len(), 1);
    assert!(!w.store.contains_key("/src/old/song.flac"));
    assert!(w.files.contains_key("/dst/new/song.ogg"));
    assert!(!w.files.contains_key("/dst/old/song.ogg"));
}

#[test]
fn colliding_destinations_keep_the_larger() {
    let mut w = world();
    put(&mut w, "/src/x.flac", vec![1u8; 10]);
    put(&mut w, "/src/x.ogg", vec![2u8; 20]);
    let r = run(&mut w, &config(&["flac"], "ogg", 128));
    assert_eq!(r.len(), 1);
    assert_eq!(status_of(&r, "/src/x.ogg"), Some(Ok(FileStatus::PassedThrough)));
    assert!(!w.store.contains_key("/src/x.flac"));
    assert_eq!(w.files["/dst/x.ogg"].0, vec![2u8; 20]);
    assert!(w.encodes.is_empty());
}

#[test]
fn colliding_destinations_larger_transcode_wins() {
    let mut w = world();
    put(&mut w, "/src/x.flac", vec![1u8; 30]);
    put(&mut w, "/src/x.ogg", vec![2u8; 20]);
    let r = run(&mut w, &config(&["flac"], "ogg", 128));
    assert_eq!(r.len(), 1);
    assert_eq!(status_of(&r, "/src/x.flac"), Some(Ok(FileStatus::Transcoded)));
    assert!(!w.store.contains_key("/src/x.ogg"));
}

#[test]
fn equal_hash_different_size_is_not_reclaimed() {
    let mut files: HashMap<String, (Vec<u8>, i64)> = HashMap::new();
    let bytes = vec![5u8; 40];
    let hash = content_hash(&bytes);
    files.insert("/src/a.flac".to_string(), (bytes, 1));
    files.insert("/dst/old.ogg".to_string(), (b"old output".to_vec(), 1));
    let mut orphans = OrphanIndex::new();
    orphans.push(FileInfo {
        dst: "/dst/old.ogg".to_string(),
        hash: hash.clone(),
        mtime: 1,
        size: 41,
        config: "ogg:128".to_string(),
    });
    let cache = FileCache::new();
    let allowed = vec!["flac".to_string()];
    let settings = WorkerSettings {
        src_root: "/src",
        dst_root: "/dst",
        allowed_exts: &allowed,
        target_ext: "ogg",
        bitrate: 128,
        should_copy: false,
        orphans: &orphans,
        cache: &cache,
    };
    let mut encodes = Vec::new();
    let p = drive(&mut files, &mut encodes, "/src/a.flac", &settings).unwrap();
    assert_eq!(p.status, FileStatus::Transcoded);
    assert_eq!(p.info.hash, hash);
    assert_eq!(encodes.len(), 1);
    assert!(files.contains_key("/dst/old.ogg"));
}

#[test]
fn equal_hash_equal_size_other_config_is_not_reclaimed() {
    let mut files: HashMap<String, (Vec<u8>, i64)> = HashMap::new();
    let bytes = vec![5u8; 40];
    let hash = content_hash(&bytes);
    files.insert("/src/a.flac".to_string(), (bytes, 1));
    files.insert("/dst/old.ogg".to_string(), (b"old".to_vec(), 1));
    let mut orphans = OrphanIndex::new();
    orphans.push(FileInfo {
        dst: "/dst/old.ogg".to_string(),
        hash: hash.clone(),
        mtime: 1,
        size: 40,
        config: "ogg:96".to_string(),
    });
    let cache = FileCache::new();
    let allowed = vec!["flac".to_string()];
    let settings = WorkerSettings {
        src_root: "/src",
        dst_root: "/dst",
        allowed_exts: &allowed,
        target_ext: "ogg",
        bitrate: 128,
        should_copy: true,
        orphans: &orphans,
        cache: &cache,
    };
    let mut encodes = Vec::new();
    let p = drive(&mut files, &mut encodes, "/src/a.flac", &settings).unwrap();
    assert_eq!(p.status, FileStatus::Transcoded);
}

#[test]
fn lost_move_race_falls_back_to_regeneration() {
    let mut files: HashMap<String, (Vec<u8>, i64)> = HashMap::new();
    let bytes = vec![5u8; 40];
    let hash = content_hash(&bytes);
    files.insert("/src/a.flac".to_string(), (bytes, 1));
    files.insert("/dst/old.ogg".to_string(), (b"old".to_vec(), 1));
    let mut orphans = OrphanIndex::new();
    orphans.push(FileInfo {
        dst: "/dst/old.ogg".to_string(),
        hash,
        mtime: 1,
        size: 40,
        config: "ogg:128".to_string(),
    });
    let cache = FileCache::new();
    let allowed = vec!["flac".to_string()];
    let settings = WorkerSettings {
        src_root: "/src",
        dst_root: "/dst",
        allowed_exts: &allowed,
        target_ext: "ogg",
        bitrate: 128,
        should_copy: false,
        orphans: &orphans,
        cache: &cache,
    };
    let mut job = FileJob::new("/src/a.flac".to_string());
    assert!(matches!(process_file(&mut job, &settings, Event::Begin), Action::Stat { .. }));
    assert!(matches!(
        process_file(&mut job, &settings, Event::Stat { mtime: 1, size: 40 }),
        Action::Hash { .. }
    ));
    let h = content_hash(&files["/src/a.flac"].0);
    match process_file(&mut job, &settings, Event::Hashed(h)) {
        Action::MakeDirs { path } => assert_eq!(path, "/dst"),
        _ => panic!("expected MakeDirs"),
    }
    match process_file(&mut job, &settings, Event::Done) {
        Action::CheckExists { path } => assert_eq!(path, "/dst/old.ogg"),
        _ => panic!("expected CheckExists"),
    }
    match process_file(&mut job, &settings, Event::Exists(true)) {
        Action::Move { from, to } => {
            assert_eq!(from, "/dst/old.ogg");
            assert_eq!(to, "/dst/a.ogg");
        },
        _ => panic!("expected Move"),
    }
    match process_file(&mut job, &settings, Event::Moved(false)) {
        Action::Encode { src, dst, bitrate } => {
            assert_eq!(src, "/src/a.flac");
            assert_eq!(dst, "/dst/a.ogg");
            assert_eq!(bitrate, 128);
        },
        _ => panic!("expected Encode"),
    }
    match process_file(&mut job, &settings, Event::Done) {
        Action::Finish(p) => assert_eq!(p.status, FileStatus::Transcoded),
        _ => panic!("expected Finish"),
    }
}

#[test]
fn deleted_source_is_cleaned_up() {
    let mut w = world();
    put(&mut w, "/src/keep.flac", vec![1u8; 10]);
    put(&mut w, "/src/sub/gone.flac", vec![2u8; 11]);
    let cfg = config(&["flac"], "ogg", 128);
    run(&mut w, &cfg);
    assert!(w.files.contains_key("/dst/sub/gone.ogg"));
    w.files.remove("/src/sub/gone.flac");
    run(&mut w, &cfg);
    assert!(!w.files.contains_key("/dst/sub/gone.ogg"));
    assert!(!w.store.contains_key("/src/sub/gone.flac"));
    assert!(w.store.contains_key("/src/keep.flac"));
    assert!(w.files.contains_key("/dst/keep.ogg"));
    assert!(is_removable_dir(&"/dst/sub".to_string(), &"/dst".to_string()));
    assert!(!is_removable_dir(&"/dst".to_string(), &"/dst".to_string()));
}

#[test]
fn changed_content_is_reprocessed() {
    let mut w = world();
    put(&mut w, "/src/a.flac", vec![1u8; 10]);
    let cfg = config(&["flac"], "ogg", 128);
    run(&mut w, &cfg);
    w.files.insert("/src/a.flac".to_string(), (vec![4u8; 12], 200));
    let r = run(&mut w, &cfg);
    assert_eq!(status_of(&r, "/src/a.flac"), Some(Ok(FileStatus::Transcoded)));
    assert_eq!(w.store["/src/a.flac"].size, 12);
    assert_eq!(w.store["/src/a.flac"].mtime, 200);
    assert_eq!(w.store["/src/a.flac"].hash, content_hash(&vec![4u8; 12]));
}

#[test]
fn missing_destination_is_regenerated() {
    let mut w = world();
    put(&mut w, "/src/a.txt", vec![1u8; 10]);
    let cfg = config(&["flac"], "ogg", 128);
    run(&mut w, &cfg);
    w.files.remove("/dst/a.txt");
    let r = run(&mut w, &cfg);
    assert_eq!(status_of(&r, "/src/a.txt"), Some(Ok(FileStatus::PassedThrough)));
    assert!(w.files.contains_key("/dst/a.txt"));
}

#[test]
fn ignored_files_are_not_candidates() {
    let mut w = world();
    put(&mut w, "/src/a.flac", vec![1u8; 10]);
    put(&mut w, "/src/notes.LOG", vec![1u8; 10]);
    let mut cfg = config(&["flac"], "ogg", 128);
    cfg.ignored = vec!["log".to_string()];
    let r = run(&mut w, &cfg);
    assert_eq!(r.len(), 1);
    assert!(!w.files.contains_key("/dst/notes.LOG"));
}

#[test]
fn ignored_dominates_allowed() {
    let entries = vec![("/src/a.flac".to_string(), 5u64), ("/src/b.mp3".to_string(), 9u64)];
    let allowed = vec!["flac".to_string()];
    let ignored = vec!["FLAC".to_string()];
    let files = find_src_files(entries, "/src", "/dst", &allowed, &ignored, "ogg").unwrap();
    assert_eq!(files, vec!["/src/b.mp3".to_string()]);
}

#[test]
fn candidates_are_sorted_by_descending_size() {
    let entries = vec![
        ("/src/s.flac".to_string(), 5u64),
        ("/src/l.flac".to_string(), 500u64),
        ("/src/m.txt".to_string(), 50u64),
    ];
    let allowed = vec!["flac".to_string()];
    let files = find_src_files(entries, "/src", "/dst", &allowed, &[], "ogg").unwrap();
    assert_eq!(files, vec!["/src/l.flac".to_string(), "/src/m.txt".to_string(), "/src/s.flac".to_string()]);
}

#[test]
fn candidate_outside_root_is_an_error() {
    let entries = vec![("/elsewhere/a.flac".to_string(), 5u64)];
    let allowed = vec!["flac".to_string()];
    assert!(find_src_files(entries, "/src", "/dst", &allowed, &[], "ogg").is_err());
}

#[test]
fn stat_failure_ends_the_job() {
    let orphans = OrphanIndex::new();
    let cache = FileCache::new();
    let allowed = vec!["flac".to_string()];
    let settings = WorkerSettings {
        src_root: "/src",
        dst_root: "/dst",
        allowed_exts: &allowed,
        target_ext: "ogg",
        bitrate: 128,
        should_copy: false,
        orphans: &orphans,
        cache: &cache,
    };
    let mut job = FileJob::new("/src/a.flac".to_string());
    process_file(&mut job, &settings, Event::Begin);
    match process_file(&mut job, &settings, Event::Failed("denied".to_string())) {
        Action::Fail(e) => assert_eq!(e, JobError::Stat("denied".to_string())),
        _ => panic!("expected Fail"),
    }
    match process_file(&mut job, &settings, Event::Done) {
        Action::Fail(e) => assert_eq!(e, JobError::Unexpected),
        _ => panic!("expected Fail"),
    }
}

#[test]
fn encoder_failure_ends_the_job() {
    let mut files: HashMap<String, (Vec<u8>, i64)> = HashMap::new();
    files.insert("/src/a.flac".to_string(), (vec![1u8; 3], 1));
    let orphans = OrphanIndex::new();
    let cache = FileCache::new();
    let allowed = vec!["flac".to_string()];
    let settings = WorkerSettings {
        src_root: "/src",
        dst_root: "/dst",
        allowed_exts: &allowed,
        target_ext: "ogg",
        bitrate: 128,
        should_copy: false,
        orphans: &orphans,
        cache: &cache,
    };
    let mut job = FileJob::new("/src/a.flac".to_string());
    process_file(&mut job, &settings, Event::Begin);
    process_file(&mut job, &settings, Event::Stat { mtime: 1, size: 3 });
    process_file(&mut job, &settings, Event::Hashed(content_hash(&[1, 1, 1])));
    assert!(matches!(process_file(&mut job, &settings, Event::Done), Action::Encode { .. }));
    match process_file(&mut job, &settings, Event::Failed("exit 1".to_string())) {
        Action::Fail(e) => assert_eq!(e, JobError::Produce("exit 1".to_string())),
        _ => panic!("expected Fail"),
    }
}

#[test]
fn source_outside_root_fails_the_job() {
    let orphans = OrphanIndex::new();
    let cache = FileCache::new();
    let allowed = vec!["flac".to_string()];
    let settings = WorkerSettings {
        src_root: "/src",
        dst_root: "/dst",
        allowed_exts: &allowed,
        target_ext: "ogg",
        bitrate: 128,
        should_copy: false,
        orphans: &orphans,
        cache: &cache,
    };
    let mut job = FileJob::new("/other/a.flac".to_string());
    process_file(&mut job, &settings, Event::Begin);
    match process_file(&mut job, &settings, Event::Stat { mtime: 1, size: 1 }) {
        Action::Fail(e) => assert_eq!(e, JobError::OutsideRoot),
        _ => panic!("expected Fail"),
    }
}

#[test]
fn config_tags() {
    assert_eq!(make_config_tag(true, "ogg", 128), "ogg:128");
    assert_eq!(make_config_tag(true, "opus", 0), "opus:0");
    assert_eq!(make_config_tag(true, "mp3", 4294967295), "mp3:4294967295");
    assert_eq!(make_config_tag(false, "ogg", 128), "passthrough");
}
