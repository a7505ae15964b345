//! The persistence side: outcomes are gathered into bounded batches, each
//! written to the store as one transaction; the store is modelled as a map
//! from source path to record.
use vstd::prelude::*;
use crate::worker::{FileRecord, Outcome, ProcessedFile};

verus! {

/// The most outcomes written in one transaction.
pub const BATCH_SIZE: usize = 1000;

/// The store after writing `batch` in order: each outcome's record is
/// inserted, or overwrites the one of its source path.
pub open spec fn upsert_all(m: Map<Seq<char>, FileRecord>, batch: Seq<Outcome>) -> Map<Seq<char>, FileRecord>
    decreases batch.len(),
{
    if batch.len() == 0 {
        m
    } else {
        upsert_all(m, batch.drop_last()).insert(batch.last().src, batch.last().info)
    }
}

/// The store after deleting the records of `srcs`.
pub open spec fn delete_all(m: Map<Seq<char>, FileRecord>, srcs: Seq<Seq<char>>) -> Map<Seq<char>, FileRecord>
    decreases srcs.len(),
{
    if srcs.len() == 0 {
        m
    } else {
        delete_all(m, srcs.drop_last()).remove(srcs.last())
    }
}

/// The outcomes of a list, as outcomes.
pub open spec fn outcomes(v: Seq<ProcessedFile>) -> Seq<Outcome> {
    v.map_values(|p: ProcessedFile| p@)
}

/// Gathers outcomes into batches of `BATCH_SIZE`.
pub struct ResultBatcher {
    buf: Vec<ProcessedFile>,
}

impl View for ResultBatcher {
    type V = Seq<Outcome>;

    /// The outcomes not handed out yet.
    closed spec fn view(&self) -> Seq<Outcome> {
        outcomes(self.buf@)
    }
}

impl ResultBatcher {
    /// Fewer than `BATCH_SIZE` outcomes are pending.
    pub open spec fn wf(&self) -> bool {
        self@.len() < BATCH_SIZE
    }

    pub fn new() -> (r: ResultBatcher)
        ensures
            r.wf(),
            r@ == Seq::<Outcome>::empty(),
    {
        let r = ResultBatcher { buf: Vec::new() };
        assert(r@ =~= Seq::<Outcome>::empty());
        r
    }

    /// Every outcome is durable: it joins the pending batch, and a batch
    /// that reaches `BATCH_SIZE` is handed out to be written.
    pub fn ingest(&mut self, file: ProcessedFile) -> (r: Option<Vec<ProcessedFile>>)
        requires
            old(self).wf(),
        ensures
            final(self).wf(),
            old(self)@.len() + 1 == BATCH_SIZE ==> (r matches Some(b) && outcomes(b@) == old(self)@.push(
                file@,
            ) && final(self)@ == Seq::<Outcome>::empty()),
            old(self)@.len() + 1 < BATCH_SIZE ==> r is None && final(self)@ == old(self)@.push(file@),
    {
        let ghost before = self.buf@;
        self.buf.push(file);
        assert(outcomes(self.buf@) =~= outcomes(before).push(file@));
        if self.buf.len() >= BATCH_SIZE {
            let mut full: Vec<ProcessedFile> = Vec::new();
            std::mem::swap(&mut full, &mut self.buf);
            assert(self@ =~= Seq::<Outcome>::empty());
            Some(full)
        } else {
            None
        }
    }

    /// Hands out what is pending, if anything.
    pub fn finish(&mut self) -> (r: Option<Vec<ProcessedFile>>)
        requires
            old(self).wf(),
        ensures
            final(self).wf(),
            final(self)@ == Seq::<Outcome>::empty(),
            old(self)@.len() == 0 ==> r is None,
            old(self)@.len() > 0 ==> (r matches Some(b) && outcomes(b@) == old(self)@),
    {
        if self.buf.len() == 0 {
            assert(self@ =~= Seq::<Outcome>::empty());
            None
        } else {
            let mut rest: Vec<ProcessedFile> = Vec::new();
            std::mem::swap(&mut rest, &mut self.buf);
            assert(self@ =~= Seq::<Outcome>::empty());
            Some(rest)
        }
    }
}

} // verus!
