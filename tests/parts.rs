use lossy_mirror::cache::FileCache;
use lossy_mirror::db::{ResultBatcher, BATCH_SIZE};
use lossy_mirror::digest::ContentDigest;
use lossy_mirror::orphan::OrphanIndex;
use lossy_mirror::pipeline::{worker_count, WorkStats};
use lossy_mirror::scan::find_orphans;
use lossy_mirror::util::{extension_matches, has_extension, map_src_to_dst, parent_of, PathError};
use lossy_mirror::worker::{FileInfo, FileStatus, ProcessedFile};

fn info(dst: &str, hash: &str, size: u64) -> FileInfo {
    FileInfo { dst: dst.to_string(), hash: hash.to_string(), mtime: 1, size, config: "ogg:128".to_string() }
}

fn exts(v: &[&str]) -> Vec<String> {
    v.iter().map(|s| s.to_string()).collect()
}

#[test]
fn extension_matching() {
    assert!(has_extension("/m/a/Song.FLAC", &exts(&["flac"])));
    assert!(has_extension("/m/a/song.flac", &exts(&["mp3", "FlAc"])));
    assert!(!has_extension("/m/a/song.mp3", &exts(&["flac"])));
    assert!(!has_extension("/m/a/flac", &exts(&["flac"])));
    assert!(!has_extension("/m/a/.flac", &exts(&["flac"])));
    assert!(!has_extension("/m/a.flac/song", &exts(&["flac"])));
    assert!(has_extension("/m/a/x.tar.gz", &exts(&["gz"])));
    assert!(!has_extension("/m/a/x.tar.gz", &exts(&["tar"])));
    assert!(!has_extension("/m/a/x.flac", &[]));
}

#[test]
fn destination_mapping() {
    assert_eq!(map_src_to_dst("/music/a/b.flac", "/music", "/out", "ogg", true), Ok("/out/a/b.ogg".to_string()));
    assert_eq!(map_src_to_dst("/music/a/b.flac", "/music", "/out", "ogg", false), Ok("/out/a/b.flac".to_string()));
    assert_eq!(map_src_to_dst("/music/a/b.flac", "/music/", "/out/", "ogg", true), Ok("/out/a/b.ogg".to_string()));
    assert_eq!(map_src_to_dst("/music/a/noext", "/music", "/out", "ogg", true), Ok("/out/a/noext.ogg".to_string()));
    assert_eq!(map_src_to_dst("/music/a.b/c.d.flac", "/music", "/out", "mp3", true), Ok("/out/a.b/c.d.mp3".to_string()));
}

#[test]
fn destination_outside_root() {
    assert_eq!(map_src_to_dst("/other/b.flac", "/music", "/out", "ogg", true), Err(PathError::OutsideRoot));
    assert_eq!(map_src_to_dst("/musicx/b.flac", "/music", "/out", "ogg", true), Err(PathError::OutsideRoot));
}

#[test]
fn source_root_maps_to_destination_root() {
    assert_eq!(map_src_to_dst("/music", "/music", "/out", "ogg", true), Ok("/out/".to_string()));
    assert_eq!(map_src_to_dst("/music/", "/music", "/out/", "ogg", false), Ok("/out/".to_string()));
}

#[test]
fn lowered_extension_matching() {
    let lowered = exts(&["flac", "wav"]);
    assert!(extension_matches(&"wav".to_string(), &lowered));
    assert!(!extension_matches(&"WAV".to_string(), &lowered));
    assert!(!extension_matches(&"mp3".to_string(), &lowered));
    assert!(!extension_matches(&"flac".to_string(), &Vec::new()));
}

#[test]
fn parent_directories() {
    assert_eq!(parent_of("/out/a/b.ogg"), "/out/a");
    assert_eq!(parent_of("b.ogg"), "");
}

#[test]
fn cache_insert_overwrites() {
    let mut c = FileCache::new();
    c.insert("/s/a".to_string(), info("/d/a", "h1", 1));
    c.insert("/s/b".to_string(), info("/d/b", "h2", 2));
    c.insert("/s/a".to_string(), info("/d/a2", "h3", 3));
    assert_eq!(c.len(), 2);
    assert_eq!(c.get(&"/s/a".to_string()).unwrap().hash, "h3");
    assert!(c.get(&"/s/z".to_string()).is_none());
}

#[test]
fn orphans_are_grouped_by_hash() {
    let mut c = FileCache::new();
    c.insert("/s/a".to_string(), info("/d/a", "h1", 1));
    c.insert("/s/b".to_string(), info("/d/b", "h1", 2));
    c.insert("/s/c".to_string(), info("/d/c", "h2", 3));
    c.insert("/s/live".to_string(), info("/d/live", "h1", 4));
    let (index, prune) = find_orphans(&c, &["/s/live".to_string()]);
    let mut prune = prune;
    prune.sort();
    assert_eq!(prune, vec!["/s/a".to_string(), "/s/b".to_string(), "/s/c".to_string()]);
    let g1 = index.get(&"h1".to_string()).unwrap();
    assert_eq!(g1.len(), 2);
    assert!(g1.iter().all(|i| i.hash == "h1" && i.dst != "/d/live"));
    assert_eq!(index.get(&"h2".to_string()).unwrap().len(), 1);
    assert!(index.get(&"h3".to_string()).is_none());
    let mut d = index.destinations();
    d.sort();
    assert_eq!(d, vec!["/d/a".to_string(), "/d/b".to_string(), "/d/c".to_string()]);
}

#[test]
fn no_orphans_when_all_live() {
    let mut c = FileCache::new();
    c.insert("/s/a".to_string(), info("/d/a", "h1", 1));
    let (index, prune) = find_orphans(&c, &["/s/a".to_string()]);
    assert!(prune.is_empty());
    assert!(index.destinations().is_empty());
}

#[test]
fn orphan_index_keeps_insertion_order() {
    let mut o = OrphanIndex::new();
    o.push(info("/d/1", "h", 1));
    o.push(info("/d/2", "h", 2));
    let g = o.get(&"h".to_string()).unwrap();
    assert_eq!(g[0].dst, "/d/1");
    assert_eq!(g[1].dst, "/d/2");
}

fn processed(i: usize, status: FileStatus) -> ProcessedFile {
    ProcessedFile { src: format!("/s/{i}"), info: info("/d", "h", 1), status }
}

#[test]
fn batches_are_bounded() {
    let mut b = ResultBatcher::new();
    for i in 0..BATCH_SIZE - 1 {
        assert!(b.ingest(processed(i, FileStatus::Skipped)).is_none());
    }
    let full = b.ingest(processed(BATCH_SIZE, FileStatus::Transcoded)).unwrap();
    assert_eq!(full.len(), 1000);
    assert_eq!(full[999].status, FileStatus::Transcoded);
    assert!(b.finish().is_none());
    assert!(b.ingest(processed(1, FileStatus::Reclaimed)).is_none());
    let rest = b.finish().unwrap();
    assert_eq!(rest.len(), 1);
    assert_eq!(rest[0].src, "/s/1");
}

#[test]
fn stats_count_outcomes() {
    let mut s = WorkStats::new();
    s.record(Some(FileStatus::Skipped));
    s.record(Some(FileStatus::Transcoded));
    s.record(Some(FileStatus::Reclaimed));
    s.record(Some(FileStatus::PassedThrough));
    s.record(None);
    assert_eq!((s.successes, s.skips, s.fails), (3, 1, 1));
}

#[test]
fn pool_sizes() {
    assert_eq!(worker_count(Some(8), Some(2)), 8);
    assert_eq!(worker_count(Some(0), Some(2)), 1);
    assert_eq!(worker_count(None, Some(8)), 7);
    assert_eq!(worker_count(None, Some(1)), 1);
    assert_eq!(worker_count(None, None), 3);
}

#[test]
fn digest_matches_blake3() {
    let data: Vec<u8> = (0..200_000u32).map(|i| (i % 251) as u8).collect();
    let mut d = ContentDigest::new();
    for chunk in data.chunks(65536) {
        d.update(chunk);
    }
    let h = d.finish();
    assert_eq!(h, blake3::hash(&data).to_hex().to_string());
    assert_eq!(h.len(), 64);
    let mut whole = ContentDigest::new();
    whole.update(&data);
    assert_eq!(whole.finish(), h);
    let empty = ContentDigest::new().finish();
    assert_eq!(empty, "af1349b9f5f9a1a6a0404dea36dcc9499bcb25c9adc112b7cc9a93cae41f3262");
}
