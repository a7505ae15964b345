//! The per-file reconciliation engine: records, outcomes, and the decisions
//! that take one candidate file from its first stat to its outcome.
use vstd::prelude::*;
use crate::cache::FileCache;
use crate::orphan::{records, OrphanIndex};
use crate::util::{
    decimal, extension_in, has_extension, map_src_to_dst, mapped_path, parent_dir, parent_of,
    push_decimal, texts,
};

verus! {

/// What is known of a processed source file.
pub ghost struct FileRecord {
    pub dst: Seq<char>,
    pub hash: Seq<char>,
    pub mtime: i64,
    pub size: u64,
    pub config: Seq<char>,
}

/// The last known state of a processed source file, as persisted.
#[derive(Debug, Clone, Default)]
pub struct FileInfo {
    pub dst: String,
    pub hash: String,
    pub mtime: i64,
    pub size: u64,
    pub config: String,
}

impl View for FileInfo {
    type V = FileRecord;

    open spec fn view(&self) -> FileRecord {
        FileRecord {
            dst: self.dst@,
            hash: self.hash@,
            mtime: self.mtime,
            size: self.size,
            config: self.config@,
        }
    }
}

impl FileInfo {
    /// A copy with the same contents.
    pub fn duplicate(&self) -> (r: FileInfo)
        ensures
            r@ == self@,
    {
        FileInfo {
            dst: self.dst.clone(),
            hash: self.hash.clone(),
            mtime: self.mtime,
            size: self.size,
            config: self.config.clone(),
        }
    }
}

/// How a candidate file was brought up to date.
#[derive(Debug, Clone, Copy, PartialEq, Eq, Structural)]
pub enum FileStatus {
    PassedThrough,
    Transcoded,
    Reclaimed,
    Skipped,
}

/// The outcome of one candidate file.
pub ghost struct Outcome {
    pub src: Seq<char>,
    pub info: FileRecord,
    pub status: FileStatus,
}

/// A source file and the record that now describes it.
#[derive(Debug, Clone)]
pub struct ProcessedFile {
    pub src: String,
    pub info: FileInfo,
    pub status: FileStatus,
}

impl View for ProcessedFile {
    type V = Outcome;

    open spec fn view(&self) -> Outcome {
        Outcome { src: self.src@, info: self.info@, status: self.status }
    }
}

/// The fixed configuration of a run, and the snapshots every worker reads.
pub struct WorkerSettings<'a> {
    pub src_root: &'a str,
    pub dst_root: &'a str,
    pub allowed_exts: &'a [String],
    pub target_ext: &'a str,
    pub bitrate: u32,
    pub should_copy: bool,
    pub orphans: &'a OrphanIndex,
    pub cache: &'a FileCache,
}

pub ghost struct Settings {
    pub src_root: Seq<char>,
    pub dst_root: Seq<char>,
    pub allowed: Seq<Seq<char>>,
    pub target_ext: Seq<char>,
    pub bitrate: u32,
    pub copy: bool,
    pub orphans: Map<Seq<char>, Seq<FileRecord>>,
    pub cache: Map<Seq<char>, FileRecord>,
}

impl<'a> View for WorkerSettings<'a> {
    type V = Settings;

    open spec fn view(&self) -> Settings {
        Settings {
            src_root: self.src_root@,
            dst_root: self.dst_root@,
            allowed: texts(self.allowed_exts@),
            target_ext: self.target_ext@,
            bitrate: self.bitrate,
            copy: self.should_copy,
            orphans: self.orphans@,
            cache: self.cache@,
        }
    }
}

impl<'a> WorkerSettings<'a> {
    pub open spec fn wf(&self) -> bool {
        &&& self.orphans.wf()
        &&& self.cache.wf()
        &&& self.src_root@.len() < usize::MAX
    }
}

/// The tag that marks a passed-through file.
pub open spec fn passthrough_tag() -> Seq<char> {
    seq!['p', 'a', 's', 's', 't', 'h', 'r', 'o', 'u', 'g', 'h']
}

/// The processing parameters a file is produced with: "format:bitrate" when
/// transcoded, the passthrough tag otherwise.
pub open spec fn config_tag(transcode: bool, target_ext: Seq<char>, bitrate: u32) -> Seq<char> {
    if transcode {
        target_ext + seq![':'] + decimal(bitrate as nat)
    } else {
        passthrough_tag()
    }
}

pub fn make_config_tag(transcode: bool, target_ext: &str, bitrate: u32) -> (r: String)
    ensures
        r@ == config_tag(transcode, target_ext@, bitrate),
{
    if transcode {
        let mut tag = String::from_str(target_ext);
        proof {
            reveal_strlit(":");
        }
        tag.append(":");
        push_decimal(&mut tag, bitrate);
        tag
    } else {
        proof {
            reveal_strlit("passthrough");
        }
        let tag = String::from_str("passthrough");
        assert(tag@ =~= passthrough_tag());
        tag
    }
}

/// Where a job stands.
#[derive(Debug, Clone, Copy, PartialEq, Eq, Structural)]
pub enum Phase {
    /// Nothing asked yet.
    Start,
    /// Waiting for the source's modification time and size.
    Stat,
    /// Everything matched the record: waiting to learn whether the destination is still there.
    Confirm,
    /// Waiting for the previous destination to be removed.
    Clear,
    /// Waiting for the content hash.
    Hash,
    /// Waiting for the destination's directory.
    Prepare,
    /// Waiting to learn whether the destination of orphan `k` of the hash's group is there.
    Probe(usize),
    /// Waiting for the move of orphan `k`'s destination.
    Move(usize),
    /// Waiting for the encoder, or the link or copy.
    Produce,
    /// An outcome or an error was given.
    Finished,
}

/// The reconciliation of one candidate file.
pub struct FileJob {
    src: String,
    dst: String,
    config: String,
    hash: String,
    mtime: i64,
    size: u64,
    transcode: bool,
    phase: Phase,
}

pub ghost struct JobState {
    pub src: Seq<char>,
    pub dst: Seq<char>,
    pub config: Seq<char>,
    pub hash: Seq<char>,
    pub mtime: i64,
    pub size: u64,
    pub transcode: bool,
    pub phase: Phase,
}

impl View for FileJob {
    type V = JobState;

    closed spec fn view(&self) -> JobState {
        JobState {
            src: self.src@,
            dst: self.dst@,
            config: self.config@,
            hash: self.hash@,
            mtime: self.mtime,
            size: self.size,
            transcode: self.transcode,
            phase: self.phase,
        }
    }
}

/// A job for `src` that has asked nothing yet.
pub open spec fn fresh_job(src: Seq<char>) -> JobState {
    JobState {
        src,
        dst: Seq::empty(),
        config: Seq::empty(),
        hash: Seq::empty(),
        mtime: 0,
        size: 0,
        transcode: false,
        phase: Phase::Start,
    }
}

impl FileJob {
    pub fn new(src: String) -> (r: FileJob)
        ensures
            r@ == fresh_job(src@),
    {
        FileJob {
            src,
            dst: String::new(),
            config: String::new(),
            hash: String::new(),
            mtime: 0,
            size: 0,
            transcode: false,
            phase: Phase::Start,
        }
    }

    pub fn phase(&self) -> (r: Phase)
        ensures
            r == self@.phase,
    {
        self.phase
    }
}

/// What the surroundings report after carrying out an action.
pub enum Event {
    /// Sent once, to start the job.
    Begin,
    /// The source's modification time (seconds) and size (bytes).
    Stat { mtime: i64, size: u64 },
    /// Whether the asked path exists.
    Exists(bool),
    /// The asked work is done (for best-effort work: whatever its result).
    Done,
    /// The content hash of the source.
    Hashed(String),
    /// Whether the move succeeded.
    Moved(bool),
    /// The asked work failed, with the reason.
    Failed(String),
}

pub ghost enum EventModel {
    Begin,
    Stat { mtime: i64, size: u64 },
    Exists(bool),
    Done,
    Hashed(Seq<char>),
    Moved(bool),
    Failed(Seq<char>),
}

impl View for Event {
    type V = EventModel;

    open spec fn view(&self) -> EventModel {
        match self {
            Event::Begin => EventModel::Begin,
            Event::Stat { mtime, size } => EventModel::Stat { mtime: *mtime, size: *size },
            Event::Exists(b) => EventModel::Exists(*b),
            Event::Done => EventModel::Done,
            Event::Hashed(h) => EventModel::Hashed(h@),
            Event::Moved(b) => EventModel::Moved(*b),
            Event::Failed(m) => EventModel::Failed(m@),
        }
    }
}

/// Why a job ended without an outcome.
#[derive(Debug, Clone, PartialEq, Eq)]
pub enum JobError {
    /// The source could not be read for its metadata.
    Stat(String),
    /// The source does not lie below the source root.
    OutsideRoot,
    /// The source could not be hashed.
    Hash(String),
    /// The encoder, link or copy failed.
    Produce(String),
    /// An event that the job did not wait for.
    Unexpected,
}

pub ghost enum JobErrorModel {
    Stat(Seq<char>),
    OutsideRoot,
    Hash(Seq<char>),
    Produce(Seq<char>),
    Unexpected,
}

impl View for JobError {
    type V = JobErrorModel;

    open spec fn view(&self) -> JobErrorModel {
        match self {
            JobError::Stat(m) => JobErrorModel::Stat(m@),
            JobError::OutsideRoot => JobErrorModel::OutsideRoot,
            JobError::Hash(m) => JobErrorModel::Hash(m@),
            JobError::Produce(m) => JobErrorModel::Produce(m@),
            JobError::Unexpected => JobErrorModel::Unexpected,
        }
    }
}

/// What the job asks the surroundings to do next.
pub enum Action {
    /// Read the modification time and size of `path`: answer `Stat` or `Failed`.
    Stat { path: String },
    /// Answer `Exists`.
    CheckExists { path: String },
    /// Remove the file, ignoring failure: answer `Done`.
    Remove { path: String },
    /// Hash the file's content: answer `Hashed` or `Failed`.
    Hash { path: String },
    /// Create the directory and its parents, ignoring failure: answer `Done`.
    MakeDirs { path: String },
    /// Remove `to` if present (ignoring failure), then rename `from` to `to`: answer `Moved`.
    Move { from: String, to: String },
    /// Remove `dst` if present, then encode `src` into `dst` at `bitrate` kbps: answer `Done` or `Failed`.
    Encode { src: String, dst: String, bitrate: u32 },
    /// Remove `dst` if present, then hardlink `src` there: answer `Done` or `Failed`.
    Link { src: String, dst: String },
    /// Remove `dst` if present, then copy `src` there: answer `Done` or `Failed`.
    Copy { src: String, dst: String },
    /// The job is over with this outcome.
    Finish(ProcessedFile),
    /// The job is over without an outcome.
    Fail(JobError),
}

pub ghost enum ActionModel {
    Stat { path: Seq<char> },
    CheckExists { path: Seq<char> },
    Remove { path: Seq<char> },
    Hash { path: Seq<char> },
    MakeDirs { path: Seq<char> },
    Move { from: Seq<char>, to: Seq<char> },
    Encode { src: Seq<char>, dst: Seq<char>, bitrate: u32 },
    Link { src: Seq<char>, dst: Seq<char> },
    Copy { src: Seq<char>, dst: Seq<char> },
    Finish(Outcome),
    Fail(JobErrorModel),
}

impl View for Action {
    type V = ActionModel;

    open spec fn view(&self) -> ActionModel {
        match self {
            Action::Stat { path } => ActionModel::Stat { path: path@ },
            Action::CheckExists { path } => ActionModel::CheckExists { path: path@ },
            Action::Remove { path } => ActionModel::Remove { path: path@ },
            Action::Hash { path } => ActionModel::Hash { path: path@ },
            Action::MakeDirs { path } => ActionModel::MakeDirs { path: path@ },
            Action::Move { from, to } => ActionModel::Move { from: from@, to: to@ },
            Action::Encode { src, dst, bitrate } => ActionModel::Encode {
                src: src@,
                dst: dst@,
                bitrate: *bitrate,
            },
            Action::Link { src, dst } => ActionModel::Link { src: src@, dst: dst@ },
            Action::Copy { src, dst } => ActionModel::Copy { src: src@, dst: dst@ },
            Action::Finish(p) => ActionModel::Finish(p@),
            Action::Fail(e) => ActionModel::Fail(e@),
        }
    }
}

/// The orphans that share the content hash `h`.
pub open spec fn group(s: Settings, h: Seq<char>) -> Seq<FileRecord> {
    if s.orphans.contains_key(h) {
        s.orphans[h]
    } else {
        Seq::empty()
    }
}

/// An orphan may be reclaimed only with the same processing parameters and size.
pub open spec fn reclaimable(o: FileRecord, config: Seq<char>, size: u64) -> bool {
    o.config == config && o.size == size
}

/// The first reclaimable orphan of `g` at or after `i`, or the group's length.
pub open spec fn next_eligible(g: Seq<FileRecord>, i: int, config: Seq<char>, size: u64) -> int
    decreases g.len() - i,
{
    if i >= g.len() {
        g.len() as int
    } else if i >= 0 && reclaimable(g[i], config, size) {
        i
    } else {
        next_eligible(g, i + 1, config, size)
    }
}

/// The record that the job's outcome carries.
pub open spec fn job_record(j: JobState, hash: Seq<char>) -> FileRecord {
    FileRecord { dst: j.dst, hash, mtime: j.mtime, size: j.size, config: j.config }
}

pub open spec fn finish(j: JobState, hash: Seq<char>, status: FileStatus) -> (JobState, ActionModel) {
    (
        JobState { phase: Phase::Finished, ..j },
        ActionModel::Finish(Outcome { src: j.src, info: job_record(j, hash), status }),
    )
}

pub open spec fn fail(j: JobState, e: JobErrorModel) -> (JobState, ActionModel) {
    (JobState { phase: Phase::Finished, ..j }, ActionModel::Fail(e))
}

/// Regenerate: encode when transcoding, else link or copy.
pub open spec fn produce(j: JobState, s: Settings) -> (JobState, ActionModel) {
    (
        JobState { phase: Phase::Produce, ..j },
        if j.transcode {
            ActionModel::Encode { src: j.src, dst: j.dst, bitrate: s.bitrate }
        } else if s.copy {
            ActionModel::Copy { src: j.src, dst: j.dst }
        } else {
            ActionModel::Link { src: j.src, dst: j.dst }
        },
    )
}

/// Try the orphans of the job's hash from index `i` on, then regenerate.
pub open spec fn scan_from(j: JobState, s: Settings, i: int) -> (JobState, ActionModel) {
    let g = group(s, j.hash);
    let k = next_eligible(g, i, j.config, j.size);
    if k < g.len() && k < usize::MAX {
        (JobState { phase: Phase::Probe(k as usize), ..j }, ActionModel::CheckExists { path: g[k].dst })
    } else {
        produce(j, s)
    }
}

/// After the stat: classify, map, and consult the record of the source.
pub open spec fn after_stat(j: JobState, s: Settings, mtime: i64, size: u64) -> (JobState, ActionModel) {
    let transcode = extension_in(j.src, s.allowed);
    let config = config_tag(transcode, s.target_ext, s.bitrate);
    match mapped_path(j.src, s.src_root, s.dst_root, s.target_ext, transcode) {
        None => fail(j, JobErrorModel::OutsideRoot),
        Some(dst) => {
            let j2 = JobState { dst, config, transcode, mtime, size, ..j };
            if s.cache.contains_key(j.src) {
                let hit = s.cache[j.src];
                if hit.config == config && hit.dst == dst && hit.mtime == mtime && hit.size == size {
                    (JobState { phase: Phase::Confirm, ..j2 }, ActionModel::CheckExists { path: hit.dst })
                } else {
                    (JobState { phase: Phase::Clear, ..j2 }, ActionModel::Remove { path: hit.dst })
                }
            } else {
                (JobState { phase: Phase::Hash, ..j2 }, ActionModel::Hash { path: j.src })
            }
        },
    }
}

/// One step of a job: its next state and the action it asks for.
pub open spec fn step(j: JobState, s: Settings, ev: EventModel) -> (JobState, ActionModel) {
    match j.phase {
        Phase::Start => (JobState { phase: Phase::Stat, ..j }, ActionModel::Stat { path: j.src }),
        Phase::Stat => match ev {
            EventModel::Stat { mtime, size } => after_stat(j, s, mtime, size),
            EventModel::Failed(m) => fail(j, JobErrorModel::Stat(m)),
            _ => fail(j, JobErrorModel::Unexpected),
        },
        Phase::Confirm => match ev {
            EventModel::Exists(true) => if s.cache.contains_key(j.src) {
                finish(j, s.cache[j.src].hash, FileStatus::Skipped)
            } else {
                fail(j, JobErrorModel::Unexpected)
            },
            EventModel::Exists(false) => (
                JobState { phase: Phase::Clear, ..j },
                ActionModel::Remove { path: j.dst },
            ),
            _ => fail(j, JobErrorModel::Unexpected),
        },
        Phase::Clear => match ev {
            EventModel::Done => (JobState { phase: Phase::Hash, ..j }, ActionModel::Hash { path: j.src }),
            _ => fail(j, JobErrorModel::Unexpected),
        },
        Phase::Hash => match ev {
            EventModel::Hashed(h) => (
                JobState { phase: Phase::Prepare, hash: h, ..j },
                ActionModel::MakeDirs { path: parent_dir(j.dst) },
            ),
            EventModel::Failed(m) => fail(j, JobErrorModel::Hash(m)),
            _ => fail(j, JobErrorModel::Unexpected),
        },
        Phase::Prepare => match ev {
            EventModel::Done => scan_from(j, s, 0),
            _ => fail(j, JobErrorModel::Unexpected),
        },
        Phase::Probe(k) => if k >= group(s, j.hash).len() {
            fail(j, JobErrorModel::Unexpected)
        } else {
            match ev {
                EventModel::Exists(true) => (
                    JobState { phase: Phase::Move(k), ..j },
                    ActionModel::Move { from: group(s, j.hash)[k as int].dst, to: j.dst },
                ),
                EventModel::Exists(false) => scan_from(j, s, k + 1),
                _ => fail(j, JobErrorModel::Unexpected),
            }
        },
        Phase::Move(k) => if k >= group(s, j.hash).len() {
            fail(j, JobErrorModel::Unexpected)
        } else {
            match ev {
                EventModel::Moved(true) => finish(j, j.hash, FileStatus::Reclaimed),
                EventModel::Moved(false) => scan_from(j, s, k + 1),
                _ => fail(j, JobErrorModel::Unexpected),
            }
        },
        Phase::Produce => match ev {
            EventModel::Done => finish(
                j,
                j.hash,
                if j.transcode {
                    FileStatus::Transcoded
                } else {
                    FileStatus::PassedThrough
                },
            ),
            EventModel::Failed(m) => fail(j, JobErrorModel::Produce(m)),
            _ => fail(j, JobErrorModel::Unexpected),
        },
        Phase::Finished => (j, ActionModel::Fail(JobErrorModel::Unexpected)),
    }
}

fn fail_job(job: &mut FileJob, e: JobError) -> (a: Action)
    ensures
        (final(job)@, a@) == fail(old(job)@, e@),
{
    job.phase = Phase::Finished;
    Action::Fail(e)
}

fn finish_job(job: &mut FileJob, hash: String, status: FileStatus) -> (a: Action)
    ensures
        (final(job)@, a@) == finish(old(job)@, hash@, status),
{
    job.phase = Phase::Finished;
    let info = FileInfo {
        dst: job.dst.clone(),
        hash,
        mtime: job.mtime,
        size: job.size,
        config: job.config.clone(),
    };
    Action::Finish(ProcessedFile { src: job.src.clone(), info, status })
}

fn produce_job(job: &mut FileJob, args: &WorkerSettings) -> (a: Action)
    ensures
        (final(job)@, a@) == produce(old(job)@, args@),
{
    job.phase = Phase::Produce;
    if job.transcode {
        Action::Encode { src: job.src.clone(), dst: job.dst.clone(), bitrate: args.bitrate }
    } else if args.should_copy {
        Action::Copy { src: job.src.clone(), dst: job.dst.clone() }
    } else {
        Action::Link { src: job.src.clone(), dst: job.dst.clone() }
    }
}

fn scan_job(job: &mut FileJob, args: &WorkerSettings, start: usize) -> (a: Action)
    requires
        args.wf(),
    ensures
        (final(job)@, a@) == scan_from(old(job)@, args@, start as int),
{
    match args.orphans.get(&job.hash) {
        Some(g) => {
            let ghost gs = records(g@);
            let mut i: usize = start;
            while i < g.len()
                invariant
                    gs == records(g@),
                    gs == group(args@, job@.hash),
                    job@ == old(job)@,
                    start <= i,
                    next_eligible(gs, start as int, job@.config, job@.size) == next_eligible(
                        gs,
                        i as int,
                        job@.config,
                        job@.size,
                    ),
                decreases g@.len() - i,
            {
                assert(gs[i as int] == g@[i as int]@);
                if g[i].config == job.config && g[i].size == job.size {
                    job.phase = Phase::Probe(i);
                    return Action::CheckExists { path: g[i].dst.clone() };
                }
                i += 1;
            }
            assert(next_eligible(gs, i as int, job@.config, job@.size) == gs.len());
            produce_job(job, args)
        },
        None => {
            assert(next_eligible(group(args@, job@.hash), start as int, job@.config, job@.size) == 0);
            produce_job(job, args)
        },
    }
}

fn stat_job(job: &mut FileJob, args: &WorkerSettings, mtime: i64, size: u64) -> (a: Action)
    requires
        args.wf(),
    ensures
        (final(job)@, a@) == after_stat(old(job)@, args@, mtime, size),
{
    let transcode = has_extension(job.src.as_str(), args.allowed_exts);
    let config = make_config_tag(transcode, args.target_ext, args.bitrate);
    let dst = match map_src_to_dst(
        job.src.as_str(),
        args.src_root,
        args.dst_root,
        args.target_ext,
        transcode,
    ) {
        Ok(d) => d,
        Err(_) => {
            return fail_job(job, JobError::OutsideRoot);
        },
    };
    job.dst = dst;
    job.config = config;
    job.transcode = transcode;
    job.mtime = mtime;
    job.size = size;
    match args.cache.get(&job.src) {
        Some(hit) => {
            if hit.config == job.config && hit.dst == job.dst && hit.mtime == mtime && hit.size
                == size {
                job.phase = Phase::Confirm;
                Action::CheckExists { path: hit.dst.clone() }
            } else {
                job.phase = Phase::Clear;
                Action::Remove { path: hit.dst.clone() }
            }
        },
        None => {
            job.phase = Phase::Hash;
            Action::Hash { path: job.src.clone() }
        },
    }
}

/// Advances the reconciliation of one file by one event: the job's new
/// state and the action it asks for are those of `step`.
pub fn process_file(job: &mut FileJob, args: &WorkerSettings, event: Event) -> (a: Action)
    requires
        args.wf(),
    ensures
        (final(job)@, a@) == step(old(job)@, args@, event@),
{
    match job.phase {
        Phase::Start => {
            job.phase = Phase::Stat;
            Action::Stat { path: job.src.clone() }
        },
        Phase::Stat => match event {
            Event::Stat { mtime, size } => stat_job(job, args, mtime, size),
            Event::Failed(m) => fail_job(job, JobError::Stat(m)),
            _ => fail_job(job, JobError::Unexpected),
        },
        Phase::Confirm => match event {
            Event::Exists(true) => match args.cache.get(&job.src) {
                Some(hit) => finish_job(job, hit.hash.clone(), FileStatus::Skipped),
                None => fail_job(job, JobError::Unexpected),
            },
            Event::Exists(false) => {
                job.phase = Phase::Clear;
                Action::Remove { path: job.dst.clone() }
            },
            _ => fail_job(job, JobError::Unexpected),
        },
        Phase::Clear => match event {
            Event::Done => {
                job.phase = Phase::Hash;
                Action::Hash { path: job.src.clone() }
            },
            _ => fail_job(job, JobError::Unexpected),
        },
        Phase::Hash => match event {
            Event::Hashed(h) => {
                job.phase = Phase::Prepare;
                job.hash = h;
                Action::MakeDirs { path: parent_of(job.dst.as_str()) }
            },
            Event::Failed(m) => fail_job(job, JobError::Hash(m)),
            _ => fail_job(job, JobError::Unexpected),
        },
        Phase::Prepare => match event {
            Event::Done => scan_job(job, args, 0),
            _ => fail_job(job, JobError::Unexpected),
        },
        Phase::Probe(k) => {
            let (in_group, from) = match args.orphans.get(&job.hash) {
                Some(g) => if k < g.len() {
                    (true, g[k].dst.clone())
                } else {
                    (false, String::new())
                },
                None => (false, String::new()),
            };
            if !in_group {
                return fail_job(job, JobError::Unexpected);
            }
            match event {
                Event::Exists(true) => {
                    job.phase = Phase::Move(k);
                    Action::Move { from, to: job.dst.clone() }
                },
                Event::Exists(false) => scan_job(job, args, k + 1),
                _ => fail_job(job, JobError::Unexpected),
            }
        },
        Phase::Move(k) => {
            let in_group = match args.orphans.get(&job.hash) {
                Some(g) => k < g.len(),
                None => false,
            };
            if !in_group {
                return fail_job(job, JobError::Unexpected);
            }
            match event {
                Event::Moved(true) => {
                    let h = job.hash.clone();
                    finish_job(job, h, FileStatus::Reclaimed)
                },
                Event::Moved(false) => scan_job(job, args, k + 1),
                _ => fail_job(job, JobError::Unexpected),
            }
        },
        Phase::Produce => match event {
            Event::Done => {
                let h = job.hash.clone();
                let status = if job.transcode {
                    FileStatus::Transcoded
                } else {
                    FileStatus::PassedThrough
                };
                finish_job(job, h, status)
            },
            Event::Failed(m) => fail_job(job, JobError::Produce(m)),
            _ => fail_job(job, JobError::Unexpected),
        },
        Phase::Finished => Action::Fail(JobError::Unexpected),
    }
}

} // verus!
