//! The record of a processing session that lets an interrupted run resume:
//! the parameters it ran with and the progress of each video chunk.
use std::collections::HashMap;
use vstd::prelude::*;
use vstd::set::fold::is_fun_commutative;
use vstd::std_specs::iter::IteratorSpec;

use crate::text::append_chars;
use crate::text::chars_equal;
use crate::text::chars_of;
use crate::text::append_str;
use crate::text::decimal;
use crate::text::push_decimal;
use crate::text::push_zero_padded;
use crate::text::string_from_chars;
use crate::text::zero_padded;

verus! {

broadcast use vstd::std_specs::hash::group_hash_axioms;

#[verifier::external_type_specification]
#[verifier::external_body]
pub struct ExSystemTime(std::time::SystemTime);

/// Reads the system clock (`SystemTime::now`). Nothing is stated of the
/// reading: it is the time.
#[verifier::external_body]
fn system_now() -> (r: std::time::SystemTime) {
    std::time::SystemTime::now()
}

/// Calls `SystemTime::duration_since(UNIX_EPOCH)` and gives the duration in
/// whole seconds, or `None` for a reading before the epoch. Nothing is
/// stated of the value: it comes from the clock.
#[verifier::external_body]
fn seconds_since_epoch(t: &std::time::SystemTime) -> (r: Option<u64>) {
    match t.duration_since(std::time::UNIX_EPOCH) {
        Ok(d) => Some(d.as_secs()),
        Err(_) => None,
    }
}

/// The seconds of a clock reading since the Unix epoch: the reading's
/// seconds, or zero for a reading before the epoch.
fn seconds_or_zero(reading: Option<u64>) -> (r: u64)
    ensures
        r == match reading {
            Some(s) => s,
            None => 0,
        },
{
    match reading {
        Some(s) => s,
        None => 0,
    }
}

/// The seconds elapsed since the Unix epoch, now; zero for a clock set
/// before the epoch. The value comes from the clock, so nothing more is
/// stated of it.
fn unix_time_secs() -> (r: u64) {
    seconds_or_zero(seconds_since_epoch(&system_now()))
}

/// The file name `chunk_NNN<extension>` of the chunk numbered `n` (from one),
/// with at least three digits.
pub open spec fn chunk_file_name(n: nat, extension: Seq<char>) -> Seq<char> {
    "chunk_"@ + zero_padded(decimal(n), 3) + extension
}

/// The file name `chunk_NNN<extension>` of the chunk numbered `n`.
pub fn numbered_chunk_file(n: usize, extension: &str) -> (r: String)
    ensures
        r@ == chunk_file_name(n as nat, extension@),
{
    let mut v: Vec<char> = Vec::new();
    append_str(&mut v, "chunk_");
    push_zero_padded(&mut v, n as u64, 3);
    append_str(&mut v, extension);
    string_from_chars(&v)
}

/// Where a chunk stands in its processing.
#[derive(Clone, Copy, Debug, PartialEq, Eq, Structural)]
pub enum ChunkProcessingStatus {
    NotStarted,
    Processing,
    Completed,
    Failed,
    Interrupted,
}

/// The progress of one video chunk.
#[derive(Debug)]
pub struct ChunkState {
    pub chunk_id: usize,
    pub video_file: String,
    pub jsonl_file: String,
    pub status: ChunkProcessingStatus,
    pub last_frame_processed: u64,
    pub qr_codes_found: usize,
    pub processing_time_ms: u64,
    pub error_count: usize,
    pub last_error: Option<String>,
}

/// The record of a processing session.
#[derive(Debug)]
pub struct ResumeState {
    pub version: String,
    pub input_file: String,
    pub output_dir: String,
    pub chunk_count: usize,
    pub thread_count: usize,
    pub skip_frames: usize,
    pub phase_completed: u8,
    pub chunks: HashMap<usize, ChunkState>,
    pub total_frames: u64,
    pub start_time: Option<u64>,
    pub last_update: u64,
}

/// What the record of one chunk holds.
pub struct ChunkModel {
    pub chunk_id: usize,
    pub video_file: Seq<char>,
    pub jsonl_file: Seq<char>,
    pub status: ChunkProcessingStatus,
    pub last_frame_processed: u64,
    pub qr_codes_found: usize,
    pub processing_time_ms: u64,
    pub error_count: usize,
    pub last_error: Option<Seq<char>>,
}

impl View for ChunkState {
    type V = ChunkModel;

    open spec fn view(&self) -> ChunkModel {
        ChunkModel {
            chunk_id: self.chunk_id,
            video_file: self.video_file@,
            jsonl_file: self.jsonl_file@,
            status: self.status,
            last_frame_processed: self.last_frame_processed,
            qr_codes_found: self.qr_codes_found,
            processing_time_ms: self.processing_time_ms,
            error_count: self.error_count,
            last_error: match self.last_error {
                Some(e) => Some(e@),
                None => None,
            },
        }
    }
}

/// The records of the chunks, by chunk id.
pub open spec fn chunk_models(m: Map<usize, ChunkState>) -> Map<usize, ChunkModel> {
    m.map_values(|c: ChunkState| c@)
}

/// The records after the progress of chunk `id` is recorded: its last frame,
/// QR code count and status are set, and a chunk not yet recorded gets a
/// fresh record first (its files named after its number, `id + 1`).
pub open spec fn progress_updated(
    ms: Map<usize, ChunkModel>,
    id: usize,
    frame: u64,
    qr_codes: usize,
    status: ChunkProcessingStatus,
) -> Map<usize, ChunkModel> {
    ms.insert(
        id,
        if ms.contains_key(id) {
            ChunkModel { last_frame_processed: frame, qr_codes_found: qr_codes, status, ..ms[id] }
        } else {
            ChunkModel {
                chunk_id: id,
                video_file: chunk_file_name(id as nat + 1, ".mp4"@),
                jsonl_file: chunk_file_name(id as nat + 1, ".jsonl"@),
                status,
                last_frame_processed: frame,
                qr_codes_found: qr_codes,
                processing_time_ms: 0,
                error_count: 0,
                last_error: None,
            }
        },
    )
}

/// The records after an interruption: each chunk being processed is
/// marked interrupted.
pub open spec fn interrupted(ms: Map<usize, ChunkModel>) -> Map<usize, ChunkModel> {
    ms.map_values(
        |c: ChunkModel|
            if c.status == ChunkProcessingStatus::Processing {
                ChunkModel { status: ChunkProcessingStatus::Interrupted, ..c }
            } else {
                c
            },
    )
}

/// Whether chunk `id` can be (re)processed, and the frame to start from: a
/// completed chunk cannot; a chunk being processed or interrupted resumes
/// after its last frame; a failed, unstarted or unrecorded one starts over.
pub open spec fn resume_decision(ms: Map<usize, ChunkModel>, id: usize) -> (bool, u64) {
    if ms.contains_key(id) {
        match ms[id].status {
            ChunkProcessingStatus::Completed => (false, 0u64),
            ChunkProcessingStatus::Processing | ChunkProcessingStatus::Interrupted => (true, ms[id].last_frame_processed),
            ChunkProcessingStatus::Failed => (true, 0u64),
            ChunkProcessingStatus::NotStarted => (true, 0u64),
        }
    } else {
        (true, 0u64)
    }
}

/// After the progress of a chunk is recorded, the chunk resumes as that
/// progress says: not at all once completed, after the recorded frame
/// while processing or interrupted, from the start otherwise. The other
/// chunks resume as before.
pub proof fn lemma_resume_after_progress(
    ms: Map<usize, ChunkModel>,
    id: usize,
    frame: u64,
    qr_codes: usize,
    status: ChunkProcessingStatus,
    other: usize,
)
    ensures
        resume_decision(progress_updated(ms, id, frame, qr_codes, status), id) == match status {
            ChunkProcessingStatus::Completed => (false, 0u64),
            ChunkProcessingStatus::Processing | ChunkProcessingStatus::Interrupted => (true, frame),
            _ => (true, 0u64),
        },
        other != id ==> resume_decision(progress_updated(ms, id, frame, qr_codes, status), other) == resume_decision(ms, other),
{
}

/// An interruption leaves no chunk marked as being processed, and changes
/// no chunk's resume decision.
pub proof fn lemma_interruption_keeps_resume(ms: Map<usize, ChunkModel>, id: usize)
    ensures
        interrupted(ms).contains_key(id) ==> interrupted(ms)[id].status != ChunkProcessingStatus::Processing,
        resume_decision(interrupted(ms), id) == resume_decision(ms, id),
{
}

/// Adds one for each chunk whose status is `s`.
pub open spec fn status_counter(m: Map<usize, ChunkState>, s: ChunkProcessingStatus) -> spec_fn(nat, usize) -> nat {
    |acc: nat, k: usize| acc + if m[k].status == s {
        1nat
    } else {
        0nat
    }
}

/// Adds each chunk's count of QR codes.
pub open spec fn qr_adder(m: Map<usize, ChunkState>) -> spec_fn(nat, usize) -> nat {
    |acc: nat, k: usize| acc + m[k].qr_codes_found as nat
}

/// How many chunks of `m` have status `s`.
pub open spec fn count_status(m: Map<usize, ChunkState>, s: ChunkProcessingStatus) -> nat {
    m.dom().fold(0nat, status_counter(m, s))
}

/// The QR codes found over all chunks of `m`.
pub open spec fn total_qr_codes(m: Map<usize, ChunkState>) -> nat {
    m.dom().fold(0nat, qr_adder(m))
}

/// Whether the first `chunk_count` entries of `present` are all there and
/// all true.
pub open spec fn videos_present(chunk_count: usize, present: Seq<bool>) -> bool {
    &&& chunk_count <= present.len()
    &&& forall|i: int| 0 <= i < chunk_count ==> #[trigger] present[i]
}

/// Whether chunk `i` (from zero) still needs processing: a recorded chunk
/// that is not completed, or an unrecorded one whose JSONL file is missing,
/// unreadable or shorter than a hundred lines.
pub open spec fn chunk_incomplete(m: Map<usize, ChunkState>, jsonl_lines: Seq<Option<usize>>, i: usize) -> bool {
    if m.contains_key(i) {
        m[i].status != ChunkProcessingStatus::Completed
    } else {
        !(0 <= i < jsonl_lines.len() && (jsonl_lines[i as int] matches Some(n) && n >= 100))
    }
}

proof fn lemma_counter_commutes(m: Map<usize, ChunkState>, s: ChunkProcessingStatus)
    ensures
        is_fun_commutative(status_counter(m, s)),
{
    let f = status_counter(m, s);
    assert forall|a1: usize, a2: usize, b: nat| #[trigger] f(f(b, a2), a1) == f(f(b, a1), a2) by {}
}

proof fn lemma_adder_commutes(m: Map<usize, ChunkState>)
    ensures
        is_fun_commutative(qr_adder(m)),
{
    let f = qr_adder(m);
    assert forall|a1: usize, a2: usize, b: nat| #[trigger] f(f(b, a2), a1) == f(f(b, a1), a2) by {}
}

/// Folding over the first `i + 1` entries of a sequence without repetitions
/// is one more step than folding over the first `i`.
proof fn lemma_fold_prefix_step(ids: Seq<usize>, i: int, f: spec_fn(nat, usize) -> nat)
    requires
        ids.no_duplicates(),
        0 <= i < ids.len(),
        is_fun_commutative(f),
    ensures
        ids.take(i + 1).to_set().fold(0nat, f) == f(ids.take(i).to_set().fold(0nat, f), ids[i]),
{
    let pre = ids.take(i);
    assert(ids.take(i + 1).to_set() =~= pre.to_set().insert(ids[i])) by {
        assert forall|x: usize| ids.take(i + 1).to_set().contains(x) <==> pre.to_set().insert(ids[i]).contains(x) by {
            if ids.take(i + 1).to_set().contains(x) {
                let k = choose|k: int| 0 <= k < i + 1 && #[trigger] ids.take(i + 1)[k] == x;
                if k < i {
                    assert(pre[k] == x);
                }
            }
            if pre.to_set().contains(x) {
                let k = choose|k: int| 0 <= k < i && #[trigger] pre[k] == x;
                assert(ids.take(i + 1)[k] == x);
            }
            if x == ids[i] {
                assert(ids.take(i + 1)[i] == x);
            }
        }
    }
    assert(!pre.to_set().contains(ids[i])) by {
        if pre.to_set().contains(ids[i]) {
            let k = choose|k: int| 0 <= k < i && #[trigger] pre[k] == ids[i];
            assert(ids[k] == ids[i]);
        }
    }
    vstd::seq_lib::seq_to_set_is_finite(pre);
    vstd::set::fold::lemma_fold_insert(pre.to_set(), 0nat, f, ids[i]);
}

/// `r` is a fresh record for a run with these parameters: version 0.1.0,
/// no phase completed, no chunk recorded, no frame counted, a start time.
pub open spec fn fresh_state(
    r: ResumeState,
    input_file: Seq<char>,
    output_dir: Seq<char>,
    chunk_count: usize,
    thread_count: usize,
    skip_frames: usize,
) -> bool {
    &&& r.version@ == "0.1.0"@
    &&& r.input_file@ == input_file
    &&& r.output_dir@ == output_dir
    &&& r.chunk_count == chunk_count
    &&& r.thread_count == thread_count
    &&& r.skip_frames == skip_frames
    &&& r.phase_completed == 0
    &&& r.chunks@ == Map::<usize, ChunkState>::empty()
    &&& r.total_frames == 0
    &&& r.start_time is Some
}

/// Marks each chunk being processed as interrupted.
fn interrupt_all(chunks: &mut HashMap<usize, ChunkState>, ids: &Vec<usize>)
    requires
        ids@.to_set() == old(chunks)@.dom(),
        ids@.no_duplicates(),
    ensures
        chunk_models(final(chunks)@) == interrupted(chunk_models(old(chunks)@)),
{
    let ghost orig = chunk_models(chunks@);
    let mut i: usize = 0;
    while i < ids.len()
        invariant
            i <= ids@.len(),
            ids@.to_set() == orig.dom(),
            ids@.no_duplicates(),
            chunk_models(chunks@).dom() == orig.dom(),
            forall|k: usize| #[trigger] orig.contains_key(k) ==> chunk_models(chunks@)[k] == if ids@.take(i as int).contains(k) {
                interrupted(orig)[k]
            } else {
                orig[k]
            },
        decreases ids.len() - i,
    {
        let id = ids[i];
        proof {
            assert(ids@.to_set().contains(id));
            assert(!ids@.take(i as int).contains(id)) by {
                if ids@.take(i as int).contains(id) {
                    let j = choose|j: int| 0 <= j < i && #[trigger] ids@.take(i as int)[j] == id;
                    assert(ids@[j] == ids@[i as int]);
                }
            }
        }
        let ghost before = chunk_models(chunks@);
        match chunks.remove(&id) {
            Some(mut c) => {
                if c.status == ChunkProcessingStatus::Processing {
                    c.status = ChunkProcessingStatus::Interrupted;
                }
                chunks.insert(id, c);
            },
            None => {},
        }
        proof {
            assert(ids@.take(i + 1) =~= ids@.take(i as int).push(id));
            assert(chunk_models(chunks@).dom() =~= orig.dom());
            assert forall|k: usize| #[trigger] orig.contains_key(k) implies chunk_models(chunks@)[k] == if ids@.take(i + 1).contains(k) {
                interrupted(orig)[k]
            } else {
                orig[k]
            } by {
                if k != id {
                    assert(chunk_models(chunks@)[k] == before[k]);
                    assert(ids@.take(i + 1).contains(k) == ids@.take(i as int).contains(k));
                } else {
                    assert(ids@.take(i + 1)[i as int] == id);
                }
            }
        }
        i += 1;
    }
    proof {
        assert(ids@.take(ids@.len() as int) =~= ids@);
        assert(chunk_models(chunks@) =~= interrupted(orig)) by {
            assert forall|k: usize| #[trigger] chunk_models(chunks@).contains_key(k) implies chunk_models(chunks@)[k] == interrupted(orig)[k] by {
                assert(ids@.to_set().contains(k));
            }
        }
    }
}

impl ResumeState {
    /// A fresh record for a run with these parameters, started now.
    pub fn new(input_file: &str, output_dir: &str, chunk_count: usize, thread_count: usize, skip_frames: usize) -> (r: Self)
        ensures
            fresh_state(r, input_file@, output_dir@, chunk_count, thread_count, skip_frames),
    {
        ResumeState {
            version: String::from_str("0.1.0"),
            input_file: String::from_str(input_file),
            output_dir: String::from_str(output_dir),
            chunk_count,
            thread_count,
            skip_frames,
            phase_completed: 0,
            chunks: HashMap::new(),
            total_frames: 0,
            start_time: Some(unix_time_secs()),
            last_update: unix_time_secs(),
        }
    }

    /// Every chunk is recorded, and completed.
    pub open spec fn all_completed(&self) -> bool {
        &&& self.chunks@.len() == self.chunk_count
        &&& forall|k: usize| #[trigger] self.chunks@.contains_key(k) ==> self.chunks@[k].status == ChunkProcessingStatus::Completed
    }

    /// The recorded chunk ids, each once.
    fn chunk_ids(&self) -> (r: Vec<usize>)
        ensures
            r@.to_set() == self.chunks@.dom(),
            r@.no_duplicates(),
            r@.len() == self.chunks@.dom().len(),
    {
        let mut r: Vec<usize> = Vec::new();
        for k in it: self.chunks.keys()
            invariant
                it.seq() == vstd::std_specs::hash::spec_keys_iter(&self.chunks).remaining(),
                r@ == it.seq().take(it.index() as int).unref(),
        {
            r.push(*k);
            proof {
                assert(it.seq().take(it.index() + 1).unref() =~= it.seq().take(it.index() as int).unref().push(*it.seq()[it.index() as int]));
            }
        }
        proof {
            let s = vstd::std_specs::hash::spec_keys_iter(&self.chunks).remaining();
            assert(s.take(s.len() as int) =~= s);
            assert(r@.no_duplicates()) by {
                assert forall|a: int, b: int| 0 <= a < r@.len() && 0 <= b < r@.len() && a != b implies r@[a] != r@[b] by {
                    assert(s[a] != s[b]);
                }
            }
        }
        r
    }

    /// Whether every chunk is recorded and completed.
    pub fn all_chunks_completed(&self) -> (r: bool)
        ensures
            r == self.all_completed(),
    {
        if self.chunks.len() != self.chunk_count {
            return false;
        }
        let ids = self.chunk_ids();
        let mut i: usize = 0;
        while i < ids.len()
            invariant
                i <= ids.len(),
                ids@.to_set() == self.chunks@.dom(),
                forall|j: int| 0 <= j < i ==> self.chunks@[#[trigger] ids@[j]].status == ChunkProcessingStatus::Completed,
            decreases ids.len() - i,
        {
            proof {
                assert(ids@.to_set().contains(ids@[i as int]));
            }
            let chunk = match self.chunks.get(&ids[i]) {
                Some(c) => c,
                None => {
                    return false;
                },
            };
            if chunk.status != ChunkProcessingStatus::Completed {
                return false;
            }
            i += 1;
        }
        proof {
            assert forall|k: usize| #[trigger] self.chunks@.contains_key(k) implies self.chunks@[k].status == ChunkProcessingStatus::Completed by {
                assert(ids@.to_set().contains(k));
                let j = choose|j: int| 0 <= j < ids@.len() && ids@[j] == k;
            }
        }
        true
    }

    /// Whether the video file of every chunk exists, where entry `i` of
    /// `chunk_videos_present` tells whether `chunk_NNN.mp4` of chunk `i + 1`
    /// exists under the output directory.
    pub fn video_chunks_exist(&self, chunk_videos_present: &Vec<bool>) -> (r: bool)
        ensures
            r == videos_present(self.chunk_count, chunk_videos_present@),
    {
        if chunk_videos_present.len() < self.chunk_count {
            return false;
        }
        let mut i: usize = 0;
        while i < self.chunk_count
            invariant
                i <= self.chunk_count,
                self.chunk_count <= chunk_videos_present@.len(),
                i <= chunk_videos_present@.len(),
                forall|j: int| 0 <= j < i ==> #[trigger] chunk_videos_present@[j],
            decreases self.chunk_count - i,
        {
            if i >= chunk_videos_present.len() {
                return false;
            }
            if !chunk_videos_present[i] {
                return false;
            }
            i += 1;
        }
        true
    }

    /// The phase a run can resume from: 3 when every chunk is completed, 2
    /// when every chunk's video exists, 1 otherwise.
    pub fn can_resume_from_phase(&self, chunk_videos_present: &Vec<bool>) -> (r: u8)
        ensures
            r == if self.all_completed() {
                3u8
            } else if videos_present(self.chunk_count, chunk_videos_present@) {
                2u8
            } else {
                1u8
            },
    {
        if self.all_chunks_completed() {
            return 3;
        }
        if self.video_chunks_exist(chunk_videos_present) {
            return 2;
        }
        1
    }

    /// The chunks (from zero, ascending) that still need processing, where
    /// entry `i` of `jsonl_lines` is the line count of the JSONL file of
    /// chunk `i + 1` when it exists and can be read.
    pub fn get_incomplete_chunks(&self, jsonl_lines: &Vec<Option<usize>>) -> (r: Vec<usize>)
        ensures
            forall|k: usize| r@.contains(k) <==> (k < self.chunk_count && chunk_incomplete(self.chunks@, jsonl_lines@, k)),
            forall|a: int, b: int| 0 <= a < b < r@.len() ==> r@[a] < r@[b],
    {
        let mut incomplete: Vec<usize> = Vec::new();
        let mut i: usize = 0;
        while i < self.chunk_count
            invariant
                i <= self.chunk_count,
                forall|k: usize| incomplete@.contains(k) <==> (k < i && chunk_incomplete(self.chunks@, jsonl_lines@, k)),
                forall|a: int, b: int| 0 <= a < b < incomplete@.len() ==> incomplete@[a] < incomplete@[b],
                forall|a: int| 0 <= a < incomplete@.len() ==> incomplete@[a] < i,
            decreases self.chunk_count - i,
        {
            let ghost before = incomplete@;
            let flag = match self.chunks.get(&i) {
                Some(chunk) => chunk.status != ChunkProcessingStatus::Completed,
                None => {
                    if i < jsonl_lines.len() {
                        match jsonl_lines[i] {
                            Some(n) => n < 100,
                            None => true,
                        }
                    } else {
                        true
                    }
                },
            };
            proof {
                assert(flag == chunk_incomplete(self.chunks@, jsonl_lines@, i));
            }
            if flag {
                incomplete.push(i);
            }
            proof {
                assert forall|k: usize| incomplete@.contains(k) <==> (k < i + 1 && chunk_incomplete(self.chunks@, jsonl_lines@, k)) by {
                    if incomplete@.contains(k) {
                        let t = choose|t: int| 0 <= t < incomplete@.len() && incomplete@[t] == k;
                        if t < before.len() {
                            assert(before[t] == k);
                            assert(before.contains(k));
                        }
                    }
                    if k < i && chunk_incomplete(self.chunks@, jsonl_lines@, k) {
                        assert(before.contains(k));
                        let t = choose|t: int| 0 <= t < before.len() && before[t] == k;
                        assert(incomplete@[t] == k);
                    }
                    if k == i && flag {
                        assert(incomplete@[incomplete@.len() - 1] == k);
                    }
                }
            }
            i += 1;
        }
        incomplete
    }

    /// Records the progress of a chunk, creating its record when needed,
    /// and notes the time of the update.
    pub fn update_chunk_progress(&mut self, chunk_id: usize, frame: u64, qr_codes: usize, status: ChunkProcessingStatus)
        requires
            chunk_id < usize::MAX,
        ensures
            chunk_models(final(self).chunks@) == progress_updated(chunk_models(old(self).chunks@), chunk_id, frame, qr_codes, status),
            final(self).version == old(self).version,
            final(self).input_file == old(self).input_file,
            final(self).output_dir == old(self).output_dir,
            final(self).chunk_count == old(self).chunk_count,
            final(self).thread_count == old(self).thread_count,
            final(self).skip_frames == old(self).skip_frames,
            final(self).phase_completed == old(self).phase_completed,
            final(self).total_frames == old(self).total_frames,
            final(self).start_time == old(self).start_time,
    {
        let mut chunk_state = match self.chunks.remove(&chunk_id) {
            Some(st) => st,
            None => ChunkState {
                chunk_id,
                video_file: numbered_chunk_file(chunk_id + 1, ".mp4"),
                jsonl_file: numbered_chunk_file(chunk_id + 1, ".jsonl"),
                status: ChunkProcessingStatus::NotStarted,
                last_frame_processed: 0,
                qr_codes_found: 0,
                processing_time_ms: 0,
                error_count: 0,
                last_error: None,
            },
        };
        chunk_state.last_frame_processed = frame;
        chunk_state.qr_codes_found = qr_codes;
        chunk_state.status = status;
        self.chunks.insert(chunk_id, chunk_state);
        self.last_update = unix_time_secs();
        proof {
            assert(chunk_models(self.chunks@) =~= progress_updated(chunk_models(old(self).chunks@), chunk_id, frame, qr_codes, status));
        }
    }

    /// Counts a failure of a recorded chunk and marks it failed; nothing
    /// happens for a chunk that is not recorded.
    pub fn mark_chunk_error(&mut self, chunk_id: usize, error: String)
        requires
            old(self).chunks@.contains_key(chunk_id) ==> old(self).chunks@[chunk_id].error_count < usize::MAX,
        ensures
            final(self).chunks@.dom() == old(self).chunks@.dom(),
            forall|k: usize| #[trigger] old(self).chunks@.contains_key(k) && k != chunk_id ==> final(self).chunks@[k] == old(self).chunks@[k],
            old(self).chunks@.contains_key(chunk_id) ==> ({
                let st = final(self).chunks@[chunk_id];
                let prev = old(self).chunks@[chunk_id];
                &&& st.error_count == prev.error_count + 1
                &&& st.last_error == Some(error)
                &&& st.status == ChunkProcessingStatus::Failed
                &&& st.chunk_id == prev.chunk_id
                &&& st.video_file == prev.video_file
                &&& st.jsonl_file == prev.jsonl_file
                &&& st.last_frame_processed == prev.last_frame_processed
                &&& st.qr_codes_found == prev.qr_codes_found
                &&& st.processing_time_ms == prev.processing_time_ms
            }),
            final(self).version == old(self).version,
            final(self).input_file == old(self).input_file,
            final(self).output_dir == old(self).output_dir,
            final(self).chunk_count == old(self).chunk_count,
            final(self).thread_count == old(self).thread_count,
            final(self).skip_frames == old(self).skip_frames,
            final(self).phase_completed == old(self).phase_completed,
            final(self).total_frames == old(self).total_frames,
            final(self).start_time == old(self).start_time,
            final(self).last_update == old(self).last_update,
    {
        match self.chunks.remove(&chunk_id) {
            Some(mut chunk) => {
                chunk.error_count += 1;
                chunk.last_error = Some(error);
                chunk.status = ChunkProcessingStatus::Failed;
                self.chunks.insert(chunk_id, chunk);
                proof {
                    assert(self.chunks@.dom() =~= old(self).chunks@.dom());
                }
            },
            None => {},
        }
    }

    /// How many chunks have status `s`.
    fn count_with_status(&self, ids: &Vec<usize>, s: ChunkProcessingStatus) -> (r: usize)
        requires
            ids@.to_set() == self.chunks@.dom(),
            ids@.no_duplicates(),
            ids@.len() == self.chunks@.dom().len(),
        ensures
            r == count_status(self.chunks@, s),
    {
        let ghost f = status_counter(self.chunks@, s);
        proof {
            lemma_counter_commutes(self.chunks@, s);
            assert(ids@.take(0).to_set() =~= Set::<usize>::empty());
            vstd::set::fold::lemma_fold_empty(0nat, f);
        }
        let mut count: usize = 0;
        let mut i: usize = 0;
        while i < ids.len()
            invariant
                i <= ids.len(),
                f == status_counter(self.chunks@, s),
                is_fun_commutative(f),
                ids@.to_set() == self.chunks@.dom(),
                ids@.no_duplicates(),
                count as nat == ids@.take(i as int).to_set().fold(0nat, f),
                count <= i,
            decreases ids.len() - i,
        {
            proof {
                lemma_fold_prefix_step(ids@, i as int, f);
                assert(ids@.to_set().contains(ids@[i as int]));
            }
            let matches_status = match self.chunks.get(&ids[i]) {
                Some(c) => c.status == s,
                None => false,
            };
            if matches_status {
                count += 1;
            }
            i += 1;
        }
        proof {
            assert(ids@.take(ids@.len() as int) =~= ids@);
        }
        count
    }

    /// The QR codes found over all chunks.
    fn sum_qr_codes(&self, ids: &Vec<usize>) -> (r: usize)
        requires
            ids@.to_set() == self.chunks@.dom(),
            ids@.no_duplicates(),
            total_qr_codes(self.chunks@) <= usize::MAX,
        ensures
            r == total_qr_codes(self.chunks@),
    {
        let ghost f = qr_adder(self.chunks@);
        proof {
            lemma_adder_commutes(self.chunks@);
            assert(ids@.take(0).to_set() =~= Set::<usize>::empty());
            vstd::set::fold::lemma_fold_empty(0nat, f);
        }
        let mut total: usize = 0;
        let mut i: usize = 0;
        while i < ids.len()
            invariant
                i <= ids.len(),
                f == qr_adder(self.chunks@),
                is_fun_commutative(f),
                ids@.to_set() == self.chunks@.dom(),
                ids@.no_duplicates(),
                total as nat == ids@.take(i as int).to_set().fold(0nat, f),
                total_qr_codes(self.chunks@) <= usize::MAX,
            decreases ids.len() - i,
        {
            proof {
                lemma_fold_prefix_step(ids@, i as int, f);
                assert(ids@.to_set().contains(ids@[i as int]));
                lemma_partial_sum_bounded(self.chunks@, ids@, (i + 1) as int);
            }
            let found = match self.chunks.get(&ids[i]) {
                Some(c) => c.qr_codes_found,
                None => 0,
            };
            total = total + found;
            i += 1;
        }
        proof {
            assert(ids@.take(ids@.len() as int) =~= ids@);
        }
        total
    }

    /// A line that counts the chunks by status and totals their QR codes.
    pub fn get_progress_summary(&self) -> (r: String)
        requires
            total_qr_codes(self.chunks@) <= usize::MAX,
        ensures
            r@ == "Chunks: "@ + decimal(count_status(self.chunks@, ChunkProcessingStatus::Completed)) + "/"@
                + decimal(self.chunk_count as nat) + " completed, "@
                + decimal(count_status(self.chunks@, ChunkProcessingStatus::Processing)) + " processing, "@
                + decimal(count_status(self.chunks@, ChunkProcessingStatus::Failed)) + " failed | QR codes: "@
                + decimal(total_qr_codes(self.chunks@)),
    {
        let ids = self.chunk_ids();
        let completed = self.count_with_status(&ids, ChunkProcessingStatus::Completed);
        let processing = self.count_with_status(&ids, ChunkProcessingStatus::Processing);
        let failed = self.count_with_status(&ids, ChunkProcessingStatus::Failed);
        let total_qr = self.sum_qr_codes(&ids);
        let mut v: Vec<char> = Vec::new();
        append_str(&mut v, "Chunks: ");
        push_decimal(&mut v, completed as u64);
        append_str(&mut v, "/");
        push_decimal(&mut v, self.chunk_count as u64);
        append_str(&mut v, " completed, ");
        push_decimal(&mut v, processing as u64);
        append_str(&mut v, " processing, ");
        push_decimal(&mut v, failed as u64);
        append_str(&mut v, " failed | QR codes: ");
        push_decimal(&mut v, total_qr as u64);
        string_from_chars(&v)
    }

    /// Whether a chunk can be (re)processed, and the frame to start from: a
    /// completed chunk cannot; a processing or interrupted one resumes after
    /// its last frame; a failed, unstarted or unrecorded one starts over.
    pub fn can_resume_chunk(&self, chunk_id: usize) -> (r: (bool, u64))
        ensures
            r == resume_decision(chunk_models(self.chunks@), chunk_id),
    {
        match self.chunks.get(&chunk_id) {
            Some(chunk) => match chunk.status {
                ChunkProcessingStatus::Completed => (false, 0),
                ChunkProcessingStatus::Processing | ChunkProcessingStatus::Interrupted => (true, chunk.last_frame_processed),
                ChunkProcessingStatus::Failed => (true, 0),
                ChunkProcessingStatus::NotStarted => (true, 0),
            },
            None => (true, 0),
        }
    }
}

impl ResumeState {
    /// The record to go on with, given one read back from disk: a record of
    /// another input file or chunk count is replaced by a fresh one; a
    /// matching one is kept, with its update time set to now.
    pub fn resume_loaded(loaded: ResumeState, input_file: &str, output_dir: &str, chunk_count: usize, thread_count: usize, skip_frames: usize) -> (r: Self)
        ensures
            if loaded.input_file@ != input_file@ || loaded.chunk_count != chunk_count {
                fresh_state(r, input_file@, output_dir@, chunk_count, thread_count, skip_frames)
            } else {
                &&& r.version == loaded.version
                &&& r.input_file == loaded.input_file
                &&& r.output_dir == loaded.output_dir
                &&& r.chunk_count == loaded.chunk_count
                &&& r.thread_count == loaded.thread_count
                &&& r.skip_frames == loaded.skip_frames
                &&& r.phase_completed == loaded.phase_completed
                &&& r.chunks == loaded.chunks
                &&& r.total_frames == loaded.total_frames
                &&& r.start_time == loaded.start_time
            },
    {
        let same_input = chars_equal(&chars_of(loaded.input_file.as_str()), &chars_of(input_file));
        if !same_input || loaded.chunk_count != chunk_count {
            return ResumeState::new(input_file, output_dir, chunk_count, thread_count, skip_frames);
        }
        let mut state = loaded;
        state.last_update = unix_time_secs();
        state
    }

    /// Marks each chunk being processed as interrupted.
    pub fn interrupt_processing(&mut self)
        ensures
            chunk_models(final(self).chunks@) == interrupted(chunk_models(old(self).chunks@)),
            final(self).version == old(self).version,
            final(self).input_file == old(self).input_file,
            final(self).output_dir == old(self).output_dir,
            final(self).chunk_count == old(self).chunk_count,
            final(self).thread_count == old(self).thread_count,
            final(self).skip_frames == old(self).skip_frames,
            final(self).phase_completed == old(self).phase_completed,
            final(self).total_frames == old(self).total_frames,
            final(self).start_time == old(self).start_time,
            final(self).last_update == old(self).last_update,
    {
        let ids = self.chunk_ids();
        interrupt_all(&mut self.chunks, &ids);
    }

    /// How many chunks have status `s`.
    pub fn status_count(&self, s: ChunkProcessingStatus) -> (r: usize)
        ensures
            r == count_status(self.chunks@, s),
    {
        let ids = self.chunk_ids();
        self.count_with_status(&ids, s)
    }
}

/// A sum over some of the chunks is no more than the sum over all.
proof fn lemma_partial_sum_bounded(m: Map<usize, ChunkState>, ids: Seq<usize>, i: int)
    requires
        ids.to_set() == m.dom(),
        ids.no_duplicates(),
        0 <= i <= ids.len(),
    ensures
        ids.take(i).to_set().fold(0nat, qr_adder(m)) <= total_qr_codes(m),
    decreases ids.len() - i,
{
    lemma_adder_commutes(m);
    if i < ids.len() {
        lemma_fold_prefix_step(ids, i, qr_adder(m));
        lemma_partial_sum_bounded(m, ids, i + 1);
    } else {
        assert(ids.take(i) =~= ids);
    }
}

} // verus!
