//! Resumable transfers: chunk planning, checkpoints and segment payloads.
use vstd::prelude::*;
use crate::config::business::{copy_opt_string, copy_strings};
use crate::config::policy::ResumePolicy;
use crate::error::NetError;
use crate::strmap::StrMap;
use crate::types::body::{Body, BodyView};
use crate::types::endpoint::opt_text;
use crate::types::request::{Request, RequestView};
use crate::types::response::Response;

verus! {

/// A half-open range of byte offsets, `start` included, `end` excluded.
#[derive(Debug, Clone, Copy, PartialEq, Eq, Structural)]
pub struct ByteRange {
    pub start: u64,
    pub end: u64,
}

/// Bytes in a range; an inverted range holds none.
pub open spec fn range_len(r: ByteRange) -> nat {
    if r.end >= r.start { (r.end - r.start) as nat } else { 0 }
}

impl ByteRange {
    /// Number of bytes in the range (zero when `end` is before `start`).
    pub fn len(&self) -> (n: u64)
        ensures
            n == range_len(*self),
    {
        self.end.saturating_sub(self.start)
    }
}

/// What is transferred: its identifier, size, ETag, content type and tags.
#[derive(Debug)]
pub struct TransferSpec {
    pub transfer_id: String,
    pub total_size: u64,
    pub etag: Option<String>,
    pub content_type: Option<String>,
    pub business_tags: Vec<String>,
}

impl Clone for TransferSpec {
    fn clone(&self) -> (r: Self)
        ensures
            r.transfer_id == self.transfer_id,
            r.total_size == self.total_size,
            r.etag == self.etag,
            r.content_type == self.content_type,
            r.business_tags@ == self.business_tags@,
    {
        TransferSpec {
            transfer_id: self.transfer_id.clone(),
            total_size: self.total_size,
            etag: copy_opt_string(&self.etag),
            content_type: copy_opt_string(&self.content_type),
            business_tags: copy_strings(&self.business_tags),
        }
    }
}

/// The `index`-th piece of a transfer and the bytes it covers.
#[derive(Debug, Clone, Copy, PartialEq, Eq, Structural)]
pub struct TransferChunk {
    pub index: usize,
    pub range: ByteRange,
}

/// How far a transfer got: the next offset to fetch and the ranges done.
#[derive(Debug)]
pub struct ResumeCheckpoint {
    pub transfer_id: String,
    pub next_offset: u64,
    pub total_size: u64,
    pub etag: Option<String>,
    pub completed: Vec<ByteRange>,
}

/// A checkpoint as plain values.
pub struct CheckpointView {
    pub transfer_id: Seq<char>,
    pub next_offset: u64,
    pub total_size: u64,
    pub etag: Option<Seq<char>>,
    pub completed: Seq<ByteRange>,
}

impl View for ResumeCheckpoint {
    type V = CheckpointView;

    open spec fn view(&self) -> CheckpointView {
        CheckpointView {
            transfer_id: self.transfer_id@,
            next_offset: self.next_offset,
            total_size: self.total_size,
            etag: opt_text(self.etag),
            completed: self.completed@,
        }
    }
}

/// A copy of a list of ranges.
fn copy_ranges(v: &Vec<ByteRange>) -> (r: Vec<ByteRange>)
    ensures
        r@ == v@,
{
    let mut r: Vec<ByteRange> = Vec::new();
    let mut i: usize = 0;
    while i < v.len()
        invariant
            i <= v@.len(),
            r@ == v@.take(i as int),
        decreases v.len() - i,
    {
        r.push(v[i]);
        assert(v@.take(i + 1) =~= v@.take(i as int).push(v@[i as int]));
        i = i + 1;
    }
    assert(v@.take(v@.len() as int) =~= v@);
    r
}

impl Clone for ResumeCheckpoint {
    fn clone(&self) -> (r: Self)
        ensures
            r@ == self@,
    {
        ResumeCheckpoint {
            transfer_id: self.transfer_id.clone(),
            next_offset: self.next_offset,
            total_size: self.total_size,
            etag: copy_opt_string(&self.etag),
            completed: copy_ranges(&self.completed),
        }
    }
}

/// Keeps checkpoints of transfers by transfer identifier.
pub trait ResumeStore {
    /// The checkpoint stored for `transfer_id`, if any.
    fn load(&self, transfer_id: &str) -> Result<Option<ResumeCheckpoint>, NetError>;

    /// Stores `checkpoint` under its transfer identifier.
    fn save(&mut self, checkpoint: ResumeCheckpoint) -> Result<(), NetError>;

    /// Forgets the checkpoint of `transfer_id`.
    fn clear(&mut self, transfer_id: &str) -> Result<(), NetError>;
}

/// Checkpoints kept in memory.
#[derive(Debug)]
pub struct MemoryResumeStore {
    inner: StrMap<ResumeCheckpoint>,
}

/// The checkpoints of a map, each taken as plain values.
pub open spec fn checkpoint_views(m: Map<Seq<char>, ResumeCheckpoint>) -> Map<Seq<char>, CheckpointView> {
    Map::new(|k: Seq<char>| m.contains_key(k), |k: Seq<char>| m[k]@)
}

impl MemoryResumeStore {
    /// The stored checkpoints by transfer identifier.
    pub closed spec fn stored(&self) -> Map<Seq<char>, CheckpointView> {
        checkpoint_views(self.inner@)
    }

    /// An empty store.
    pub fn new() -> (s: MemoryResumeStore)
        ensures
            s.stored() == Map::<Seq<char>, CheckpointView>::empty(),
    {
        let s = MemoryResumeStore { inner: StrMap::new() };
        assert(s.stored() =~= Map::<Seq<char>, CheckpointView>::empty());
        s
    }
}

impl Default for MemoryResumeStore {
    fn default() -> (s: Self)
        ensures
            s.stored() == Map::<Seq<char>, CheckpointView>::empty(),
    {
        MemoryResumeStore::new()
    }
}

impl ResumeStore for MemoryResumeStore {
    fn load(&self, transfer_id: &str) -> (r: Result<Option<ResumeCheckpoint>, NetError>)
        ensures
            r matches Ok(found) && (found matches Some(c) ==> self.stored().contains_key(transfer_id@)
                && c@ == self.stored()[transfer_id@]) && (found is None <==> !self.stored().contains_key(transfer_id@)),
    {
        match self.inner.get(transfer_id) {
            Some(c) => Ok(Some(c.clone())),
            None => Ok(None),
        }
    }

    fn save(&mut self, checkpoint: ResumeCheckpoint) -> (r: Result<(), NetError>)
        ensures
            r is Ok,
            final(self).stored() == old(self).stored().insert(checkpoint.transfer_id@, checkpoint@),
    {
        let id = checkpoint.transfer_id.clone();
        let ghost before = self.inner@;
        let _ = self.inner.insert(id, checkpoint);
        assert(checkpoint_views(self.inner@) =~= checkpoint_views(before).insert(checkpoint.transfer_id@, checkpoint@));
        Ok(())
    }

    fn clear(&mut self, transfer_id: &str) -> (r: Result<(), NetError>)
        ensures
            r is Ok,
            final(self).stored() == old(self).stored().remove(transfer_id@),
    {
        let ghost before = self.inner@;
        let _ = self.inner.remove(transfer_id);
        assert(checkpoint_views(self.inner@) =~= checkpoint_views(before).remove(transfer_id@));
        Ok(())
    }
}

/// The smaller of two offsets.
pub open spec fn min_offset(a: int, b: int) -> int {
    if a <= b { a } else { b }
}

/// `chunks` cut `[start, total)` into consecutive pieces of `chunk` bytes, the
/// last one possibly shorter, numbered from zero; nothing when `start >= total`.
pub open spec fn is_plan(chunks: Seq<TransferChunk>, start: u64, total: u64, chunk: u64) -> bool {
    &&& (chunks.len() == 0 <==> start >= total)
    &&& chunks.len() > 0 ==> chunks[0].range.start == start && chunks.last().range.end == total
    &&& forall|i: int| 0 <= i < chunks.len() ==> {
        &&& (#[trigger] chunks[i]).index == i
        &&& chunks[i].range.start < chunks[i].range.end
        &&& chunks[i].range.end == min_offset(chunks[i].range.start + chunk, total as int)
    }
    &&& forall|i: int| 1 <= i < chunks.len() ==> (#[trigger] chunks[i]).range.start == chunks[i - 1].range.end
}

/// Where planning starts: the checkpoint's next offset, or zero.
pub open spec fn resume_offset(checkpoint: Option<CheckpointView>) -> u64 {
    match checkpoint {
        Some(c) => c.next_offset,
        None => 0,
    }
}

/// The view of an optional checkpoint.
pub open spec fn opt_checkpoint(c: Option<&ResumeCheckpoint>) -> Option<CheckpointView> {
    match c {
        Some(p) => Some(p@),
        None => None,
    }
}

/// The checkpoint recorded once `chunk` of `spec` is done, after `previous`.
pub open spec fn next_checkpoint(spec: &TransferSpec, chunk: TransferChunk, previous: Option<CheckpointView>) -> CheckpointView {
    CheckpointView {
        transfer_id: spec.transfer_id@,
        next_offset: chunk.range.end,
        total_size: spec.total_size,
        etag: opt_text(spec.etag),
        completed: match previous {
            Some(p) => p.completed,
            None => Seq::empty(),
        }.push(chunk.range),
    }
}

/// Plans chunks and checkpoints under the resume policy.
#[derive(Debug, Clone, Copy)]
pub struct ResumableTransferManager {
    policy: ResumePolicy,
}

impl ResumableTransferManager {
    /// The manager's policy.
    pub closed spec fn rules(&self) -> ResumePolicy {
        self.policy
    }

    /// A manager with `policy`.
    pub fn new(policy: ResumePolicy) -> (m: ResumableTransferManager)
        ensures
            m.rules() == policy,
    {
        ResumableTransferManager { policy }
    }

    /// The chunk size of the policy.
    pub fn chunk_size(&self) -> (n: usize)
        ensures
            n == self.rules().chunk_size,
    {
        self.policy.chunk_size
    }

    /// The chunks still to transfer: from the checkpoint's next offset (or
    /// zero) to the end, in pieces of the policy's chunk size. A chunk size of
    /// zero plans nothing only when there is nothing left.
    pub fn plan(&self, spec: &TransferSpec, checkpoint: Option<&ResumeCheckpoint>) -> (chunks: Vec<TransferChunk>)
        requires
            self.rules().chunk_size > 0 || resume_offset(opt_checkpoint(checkpoint)) >= spec.total_size,
        ensures
            is_plan(chunks@, resume_offset(opt_checkpoint(checkpoint)), spec.total_size, self.rules().chunk_size as u64),
    {
        let start: u64 = match checkpoint {
            Some(point) => point.next_offset,
            None => 0,
        };
        let chunk_size = self.policy.chunk_size as u64;
        let total = spec.total_size;
        let mut chunks: Vec<TransferChunk> = Vec::new();
        let mut offset = start;
        while offset < total
            invariant
                chunk_size > 0 || start >= total,
                chunk_size == self.policy.chunk_size as u64,
                total == spec.total_size,
                start == resume_offset(opt_checkpoint(checkpoint)),
                start <= offset,
                chunks@.len() == 0 <==> offset == start,
                chunks@.len() > 0 ==> chunks@[0].range.start == start && chunks@.last().range.end == offset && offset <= total,
                forall|i: int| 0 <= i < chunks@.len() ==> {
                    &&& (#[trigger] chunks@[i]).index == i
                    &&& chunks@[i].range.start < chunks@[i].range.end
                    &&& chunks@[i].range.end == min_offset(chunks@[i].range.start + chunk_size, total as int)
                },
                forall|i: int| 1 <= i < chunks@.len() ==> (#[trigger] chunks@[i]).range.start == chunks@[i - 1].range.end,
                chunks@.len() <= offset - start,
            decreases total - offset,
        {
            let end = if total - offset <= chunk_size { total } else { offset + chunk_size };
            let piece = TransferChunk { index: chunks.len(), range: ByteRange { start: offset, end } };
            let ghost before = chunks@;
            chunks.push(piece);
            assert(chunks@[chunks@.len() - 1] == piece);
            assert forall|i: int| 1 <= i < chunks@.len() implies (#[trigger] chunks@[i]).range.start == chunks@[i - 1].range.end by {
                if i < before.len() {
                    assert(chunks@[i] == before[i]);
                    assert(chunks@[i - 1] == before[i - 1]);
                }
            }
            offset = end;
        }
        chunks
    }

    /// The checkpoint once `chunk` is done: the ranges done before plus this
    /// one, with the next offset at the chunk's end.
    pub fn checkpoint_after(&self, spec: &TransferSpec, chunk: &TransferChunk, previous: Option<&ResumeCheckpoint>) -> (c: ResumeCheckpoint)
        ensures
            c@ == next_checkpoint(spec, *chunk, opt_checkpoint(previous)),
    {
        let mut completed = match previous {
            Some(p) => copy_ranges(&p.completed),
            None => Vec::new(),
        };
        completed.push(chunk.range);
        ResumeCheckpoint {
            transfer_id: spec.transfer_id.clone(),
            next_offset: chunk.range.end,
            total_size: spec.total_size,
            etag: copy_opt_string(&spec.etag),
            completed,
        }
    }

    /// The payload of one uploaded chunk: its bytes at the chunk's start offset.
    pub fn build_segment_body(&self, chunk: &TransferChunk, bytes: Vec<u8>, total_size: u64) -> (b: Body)
        ensures
            b@ == (BodyView::Segment { offset: chunk.range.start, total_size: Some(total_size), bytes: bytes@ }),
    {
        Body::Segment { offset: chunk.range.start, total_size: Some(total_size), bytes }
    }
}

/// A download: the request to repeat per chunk and what is fetched.
#[derive(Debug)]
pub struct DownloadRequest {
    pub request: Request,
    pub spec: TransferSpec,
}

/// A finished download: the bytes, the chunks, the checkpoints taken and the
/// last response.
#[derive(Debug)]
pub struct DownloadOutcome {
    pub bytes: Vec<u8>,
    pub chunks: Vec<TransferChunk>,
    pub checkpoints: Vec<ResumeCheckpoint>,
    pub final_response: Response,
}

/// An upload: the request to repeat per chunk, what is sent, and its bytes.
#[derive(Debug)]
pub struct UploadRequest {
    pub request: Request,
    pub spec: TransferSpec,
    pub bytes: Vec<u8>,
}

/// A finished upload: bytes sent, the chunks, the checkpoints and the last
/// response.
#[derive(Debug)]
pub struct UploadOutcome {
    pub uploaded_bytes: usize,
    pub chunks: Vec<TransferChunk>,
    pub checkpoints: Vec<ResumeCheckpoint>,
    pub final_response: Response,
}

/// A plan covers `[start, total)` exactly: the chunk lengths add up to what is
/// left, every chunk but the last is full, and none is longer than the chunk
/// size.
pub proof fn lemma_plan_covers(chunks: Seq<TransferChunk>, start: u64, total: u64, chunk: u64)
    requires
        is_plan(chunks, start, total, chunk),
        start < total,
    ensures
        forall|i: int| 0 <= i < chunks.len() ==> range_len((#[trigger] chunks[i]).range) <= chunk,
        forall|i: int| 0 <= i < chunks.len() - 1 ==> range_len((#[trigger] chunks[i]).range) == chunk,
        covered(chunks) == total - start,
{
    assert forall|i: int| 0 <= i < chunks.len() - 1 implies range_len((#[trigger] chunks[i]).range) == chunk by {
        let j = i + 1;
        assert(chunks[j].range.start == chunks[j - 1].range.end);
        assert(chunks[j].range.end <= total);
    }
    lemma_covered_prefix(chunks, start, total, chunk, chunks.len() as int);
    assert(chunks.take(chunks.len() as int) =~= chunks);
}

/// Bytes covered by the ranges of `chunks`.
pub open spec fn covered(chunks: Seq<TransferChunk>) -> nat
    decreases chunks.len(),
{
    if chunks.len() == 0 { 0 } else { covered(chunks.drop_last()) + range_len(chunks.last().range) }
}

proof fn lemma_covered_prefix(chunks: Seq<TransferChunk>, start: u64, total: u64, chunk: u64, n: int)
    requires
        is_plan(chunks, start, total, chunk),
        start < total,
        1 <= n <= chunks.len(),
    ensures
        covered(chunks.take(n)) == chunks[n - 1].range.end - start,
    decreases n,
{
    let p = chunks.take(n);
    assert(p.drop_last() =~= chunks.take(n - 1));
    assert(p.last() == chunks[n - 1]);
    let c = chunks[n - 1];
    assert(c.range.start < c.range.end);
    assert(covered(p) == covered(chunks.take(n - 1)) + range_len(c.range));
    if n == 1 {
        assert(chunks.take(0) =~= Seq::<TransferChunk>::empty());
        assert(covered(chunks.take(0)) == 0);
    } else {
        lemma_covered_prefix(chunks, start, total, chunk, n - 1);
        let j = n - 1;
        assert(chunks[j].range.start == chunks[j - 1].range.end);
    }
}

/// A store gives back what was saved: once `c` is saved, its transfer loads
/// as `c` and every other transfer loads as before; once a transfer is
/// cleared, it loads as nothing.
pub proof fn lemma_store_read_after_write(stored: Map<Seq<char>, CheckpointView>, c: CheckpointView, other: Seq<char>)
    ensures
        stored.insert(c.transfer_id, c).contains_key(c.transfer_id),
        stored.insert(c.transfer_id, c)[c.transfer_id] == c,
        other != c.transfer_id ==> stored.insert(c.transfer_id, c).contains_key(other) == stored.contains_key(other),
        other != c.transfer_id && stored.contains_key(other) ==> stored.insert(c.transfer_id, c)[other] == stored[other],
        !stored.remove(other).contains_key(other),
{
}

/// A checkpoint after a chunk resumes right after it: planning again from it
/// starts at the chunk's end.
pub proof fn lemma_resume_after_chunk(spec: &TransferSpec, chunk: TransferChunk, previous: Option<CheckpointView>)
    ensures
        resume_offset(Some(next_checkpoint(spec, chunk, previous))) == chunk.range.end,
        next_checkpoint(spec, chunk, previous).completed.last() == chunk.range,
{
}

} // verus!
