//! Reconstruction of the files carried by a stream of QR payloads.
//!
//! The payloads are read in frame order. A metadata payload (`M:...`)
//! starts a new file under a numbered key; each data payload (`D:...`)
//! that follows stores one chunk of the current file. A file whose chunks
//! `0..count` are all present is joined, cut to its announced size and
//! described by its checksums.
use std::collections::HashMap;
use std::collections::HashSet;
use vstd::prelude::*;

pub use crate::decode_qr_files::DataPacket;
pub use crate::decode_qr_files::FileMetadata;
pub use crate::decode_qr_files::MetadataModel;
pub use crate::decode_qr_files::SystematicChunk;

use crate::decode_qr_files::concat_chunks;
use crate::decode_qr_files::lemma_concat_chunks;
use crate::decode_qr_files::prefix_upto;

use crate::codec::base64_standard_decode;
use crate::codec::crc32_checksum;
use crate::codec::crc32_of;
use crate::codec::decode_base64;
use crate::codec::decode_url;
use crate::codec::fnv1a64;
use crate::codec::fnv1a64_from;
use crate::codec::fnv_slice_hash;
use crate::codec::usize_bytes;
use crate::codec::md5_digest;
use crate::codec::md5_of;
use crate::codec::sha1_digest;
use crate::codec::sha1_of;
use crate::codec::sha256_digest;
use crate::codec::sha256_of;
use crate::codec::url_decoded;
use crate::events::ProcessingEvent;
use crate::keyed::keyed;
use crate::keyed::lemma_keyed;
use crate::keyed::names_distinct;
use crate::keyed::put_entry;
use crate::keyed::take_entry;
use crate::qr_extraction::QrCodeData;
use crate::text::append_str;
use crate::text::chars_of;
use crate::text::decimal;
use crate::text::hex;
use crate::text::hex_byte_chars;
use crate::text::hex_bytes;
use crate::text::hex_chars;
use crate::text::int_error_message;
use crate::text::int_error_text;
use crate::text::parse_unsigned;
use crate::text::IntErrorKind;
use crate::text::parse_usize;
use crate::text::push_decimal;
use crate::text::push_zero_padded;
use crate::text::split_chars;
use crate::text::split_on;
use crate::text::string_from_chars;
use crate::text::views;
use crate::text::zero_padded;

verus! {

broadcast use vstd::std_specs::hash::group_hash_axioms;

// ------------------------------------------------------------------
// One file in progress
// ------------------------------------------------------------------

/// The chunks gathered so far for one announced file.
pub struct FileDecoder {
    metadata: FileMetadata,
    chunks: HashMap<usize, Vec<u8>>,
    received_chunks: HashSet<usize>,
    coded_packets: Vec<DataPacket>,
    is_complete: bool,
}

/// What a file decoder holds: the announcement, the chunks by index, and
/// whether as many chunks arrived as were announced.
pub struct DecoderModel {
    pub metadata: MetadataModel,
    pub chunks: Map<usize, Seq<u8>>,
    pub complete: bool,
}

pub open spec fn byte_views(m: Map<usize, Vec<u8>>) -> Map<usize, Seq<u8>> {
    m.map_values(|v: Vec<u8>| v@)
}

impl View for FileDecoder {
    type V = DecoderModel;

    closed spec fn view(&self) -> DecoderModel {
        DecoderModel { metadata: self.metadata@, chunks: byte_views(self.chunks@), complete: self.is_complete }
    }
}

/// A decoder for a file that has just been announced.
pub open spec fn fresh_decoder(md: MetadataModel) -> DecoderModel {
    DecoderModel { metadata: md, chunks: Map::empty(), complete: false }
}

impl FileDecoder {
    /// The set of received chunk indices is the set of stored ones.
    pub closed spec fn wf(&self) -> bool {
        self.received_chunks@ == self.chunks@.dom()
    }

    /// A decoder for the announced file, with no chunk yet.
    pub fn new(metadata: FileMetadata) -> (r: FileDecoder)
        ensures
            r.wf(),
            r@ == fresh_decoder(metadata@),
    {
        let r = FileDecoder {
            metadata,
            chunks: HashMap::new(),
            received_chunks: HashSet::new(),
            coded_packets: Vec::new(),
            is_complete: false,
        };
        proof {
            assert(byte_views(r.chunks@) =~= Map::<usize, Seq<u8>>::empty());
        }
        r
    }

    /// The announcement of the file.
    pub fn metadata(&self) -> (r: &FileMetadata)
        ensures
            r@ == self@.metadata,
    {
        &self.metadata
    }
}

// ------------------------------------------------------------------
// Payload texts
// ------------------------------------------------------------------

/// The payload starts with the two characters `c:`.
pub open spec fn tagged(text: Seq<char>, c: char) -> bool {
    text.len() >= 2 && text[0] == c && text[1] == ':'
}

/// What a metadata payload `M:version:name:type:size:count:...` announces,
/// or the text of the error that ends its reading. The name and type are
/// percent-decoded; field 14, when present and not empty, is the file's
/// checksum.
pub open spec fn metadata_fields(text: Seq<char>) -> Result<MetadataModel, Seq<char>> {
    let parts = split_on(text, ':');
    if parts.len() < 6 {
        Err("Invalid metadata format"@)
    } else {
        match url_decoded(parts[2]) {
            Err(e) => Err(e),
            Ok(name) => match url_decoded(parts[3]) {
                Err(e) => Err(e),
                Ok(ty) => match parse_unsigned(parts[4], usize::MAX as nat) {
                    Err(k) => Err(int_error_text(k)),
                    Ok(size) => match parse_unsigned(parts[5], usize::MAX as nat) {
                        Err(k) => Err(int_error_text(k)),
                        Ok(count) => Ok(
                            MetadataModel {
                                version: parts[1],
                                file_name: name,
                                file_type: ty,
                                file_size: size,
                                chunks_count: count,
                                file_checksum: if parts.len() > 13 && parts[13].len() > 0 {
                                    Some(parts[13])
                                } else {
                                    None
                                },
                            },
                        ),
                    },
                },
            },
        }
    }
}

/// What a data payload `D:...:index:base64` carries.
pub enum PacketRead {
    /// A chunk: its index and bytes.
    Chunk(usize, Seq<u8>),
    /// A payload refused with this message.
    Refused(Seq<char>),
}

/// Reads a data payload: the seventh field is the chunk index, the eighth
/// its base64 data; a payload with a chunk index and no data field is
/// refused as badly formed.
pub open spec fn read_packet(text: Seq<char>) -> PacketRead {
    let parts = split_on(text, ':');
    if parts.len() < 7 {
        PacketRead::Refused("Invalid data packet format"@)
    } else {
        match parse_unsigned(parts[6], usize::MAX as nat) {
            Err(k) => PacketRead::Refused(int_error_text(k)),
            Ok(idx) => if parts.len() < 8 {
                PacketRead::Refused("Invalid data packet format"@)
            } else {
                match base64_standard_decode(parts[7]) {
                    Err(e) => PacketRead::Refused("Failed to decode base64: "@ + e),
                    Ok(bytes) => PacketRead::Chunk(idx as usize, bytes),
                }
            },
        }
    }
}

/// The decoder with one more chunk stored: it is complete once the stored
/// indices are at least as many as the announced chunk count.
pub open spec fn store_chunk(d: DecoderModel, idx: usize, bytes: Seq<u8>) -> DecoderModel {
    let chunks = d.chunks.insert(idx, bytes);
    DecoderModel {
        metadata: d.metadata,
        chunks,
        complete: d.complete || chunks.dom().len() >= d.metadata.chunks_count,
    }
}

/// The key of the `n`-th file started: `file_NNN_name`.
pub open spec fn file_key(n: nat, name: Seq<char>) -> Seq<char> {
    "file_"@ + zero_padded(decimal(n), 3) + "_"@ + name
}

/// The progress message of a started file.
pub open spec fn started_text(name: Seq<char>, count: nat) -> Seq<char> {
    "Started file: "@ + name + " ("@ + decimal(count) + " chunks expected)"@
}

// ------------------------------------------------------------------
// Routing payloads to files
// ------------------------------------------------------------------

/// The state of routing: the number of files started, the files by key,
/// the key of the current file, and the name and chunk count of each file
/// started, in order.
pub struct RouteState {
    pub counter: nat,
    pub files: Map<Seq<char>, DecoderModel>,
    pub current: Option<Seq<char>>,
    pub started: Seq<(Seq<char>, nat)>,
}

/// Where routing stands after some payloads.
pub enum RouteOutcome {
    Running(RouteState),
    /// A data payload of the current file was refused with this message;
    /// that file's decoder is dropped and routing stops.
    Failed(RouteState, Seq<char>),
}

/// One payload routed: a readable metadata payload starts a new file and
/// makes it current (an unreadable one is skipped); a data payload goes to
/// the current file, if there is one; anything else is skipped.
pub open spec fn route_step(st: RouteState, text: Seq<char>) -> RouteOutcome {
    if tagged(text, 'M') {
        match metadata_fields(text) {
            Ok(md) => {
                let n = st.counter + 1;
                let key = file_key(n, md.file_name);
                RouteOutcome::Running(
                    RouteState {
                        counter: n,
                        files: st.files.insert(key, fresh_decoder(md)),
                        current: Some(key),
                        started: st.started.push((md.file_name, md.chunks_count)),
                    },
                )
            },
            Err(_) => RouteOutcome::Running(st),
        }
    } else if tagged(text, 'D') {
        match st.current {
            None => RouteOutcome::Running(st),
            Some(key) => if !st.files.contains_key(key) {
                RouteOutcome::Running(st)
            } else {
                match read_packet(text) {
                    PacketRead::Chunk(idx, bytes) => RouteOutcome::Running(
                        RouteState { files: st.files.insert(key, store_chunk(st.files[key], idx, bytes)), ..st },
                    ),
                    PacketRead::Refused(e) => RouteOutcome::Failed(
                        RouteState { files: st.files.remove(key), ..st },
                        e,
                    ),
                }
            },
        }
    } else {
        RouteOutcome::Running(st)
    }
}

/// The outcome of routing the first `n` payloads from state `st`.
pub open spec fn route_prefix(st: RouteState, texts: Seq<Seq<char>>, n: nat) -> RouteOutcome
    decreases n,
{
    if n == 0 {
        RouteOutcome::Running(st)
    } else {
        match route_prefix(st, texts, (n - 1) as nat) {
            RouteOutcome::Running(s) => route_step(s, texts[n - 1]),
            other => other,
        }
    }
}

/// The payload texts.
pub open spec fn payload_texts(qr_codes: Seq<QrCodeData>) -> Seq<Seq<char>> {
    qr_codes.map_values(|q: QrCodeData| q.data@)
}

/// The events that announce the started files: one progress event of
/// phase 3, step 1 of 6, per file.
pub open spec fn announces(events: Seq<ProcessingEvent>, started: Seq<(Seq<char>, nat)>) -> bool {
    &&& events.len() == started.len()
    &&& forall|i: int| 0 <= i < events.len() ==> (#[trigger] events[i] matches ProcessingEvent::Progress { phase, current, total, message }
        && phase == 3 && current == 1 && total == 6 && message@ == started_text(started[i].0, started[i].1))
}

/// The events appended to `before` make `after`, and they announce the
/// started files.
pub open spec fn extends_with_announcements(before: Seq<ProcessingEvent>, after: Seq<ProcessingEvent>, started: Seq<(Seq<char>, nat)>) -> bool {
    &&& after.len() >= before.len()
    &&& after.take(before.len() as int) == before
    &&& announces(after.skip(before.len() as int), started)
}

/// What routing all of `texts` from `start` leaves: the files and the
/// counter, the events appended, and the result.
pub open spec fn route_result(
    start: RouteState,
    texts: Seq<Seq<char>>,
    files: Map<Seq<char>, DecoderModel>,
    counter: nat,
    before: Seq<ProcessingEvent>,
    after: Seq<ProcessingEvent>,
    r: Result<(), String>,
) -> bool {
    match route_prefix(start, texts, texts.len()) {
        RouteOutcome::Running(st) => {
            &&& r is Ok
            &&& files == st.files
            &&& counter == st.counter
            &&& extends_with_announcements(before, after, st.started)
        },
        RouteOutcome::Failed(st, e) => {
            &&& r matches Err(msg) && msg@ == e
            &&& files == st.files
            &&& counter == st.counter
            &&& extends_with_announcements(before, after, st.started)
        },
    }
}

/// Once routing has failed, later payloads change nothing.
proof fn lemma_route_prefix_absorbing(st: RouteState, texts: Seq<Seq<char>>, n: nat, m: nat)
    requires
        n <= m,
        !(route_prefix(st, texts, n) is Running),
    ensures
        route_prefix(st, texts, m) == route_prefix(st, texts, n),
    decreases m - n,
{
    if n < m {
        lemma_route_prefix_absorbing(st, texts, n, (m - 1) as nat);
    }
}

/// A data payload as read.
pub enum ReadPacket {
    Chunk(usize, Vec<u8>),
    Refused(String),
}

/// Reads a data payload.
pub fn read_data_packet(qr_data: &str) -> (r: ReadPacket)
    ensures
        match (r, read_packet(qr_data@)) {
            (ReadPacket::Chunk(i, b), PacketRead::Chunk(j, c)) => i == j && b@ == c,
            (ReadPacket::Refused(e), PacketRead::Refused(f)) => e@ == f,
            _ => false,
        },
{
    let text = chars_of(qr_data);
    let parts = split_chars(&text, ':');
    proof {
        assert(views(parts@).len() == parts@.len());
    }
    if parts.len() < 7 {
        return ReadPacket::Refused(String::from_str("Invalid data packet format"));
    }
    proof {
        assert(views(parts@)[6] == parts@[6]@);
    }
    let chunk_index = match parse_usize(&parts[6]) {
        Ok(v) => v,
        Err(k) => {
            return ReadPacket::Refused(int_error_message(k));
        },
    };
    if parts.len() == 7 {
        return ReadPacket::Refused(String::from_str("Invalid data packet format"));
    }
    proof {
        assert(views(parts@)[7] == parts@[7]@);
    }
    let data_text = string_from_chars(&parts[7]);
    match decode_base64(data_text.as_str()) {
        Ok(bytes) => ReadPacket::Chunk(chunk_index, bytes),
        Err(e) => {
            let mut msg: Vec<char> = Vec::new();
            append_str(&mut msg, "Failed to decode base64: ");
            append_str(&mut msg, e.as_str());
            ReadPacket::Refused(string_from_chars(&msg))
        },
    }
}

// ------------------------------------------------------------------
// The reconstructed file
// ------------------------------------------------------------------

/// The index of the first of the chunks `0..n` that is missing.
pub open spec fn first_gap(chunks: Map<usize, Seq<u8>>, n: nat) -> Option<nat>
    decreases n,
{
    if n == 0 {
        None
    } else {
        match first_gap(chunks, (n - 1) as nat) {
            Some(g) => Some(g),
            None => if chunks.contains_key((n - 1) as usize) {
                None
            } else {
                Some((n - 1) as nat)
            },
        }
    }
}

/// The content of the file: the announced chunks joined and cut to the
/// announced size, or the index of the first missing chunk.
pub open spec fn assembled(d: DecoderModel) -> Result<Seq<u8>, nat> {
    match first_gap(d.chunks, d.metadata.chunks_count) {
        Some(g) => Err(g),
        None => Ok(prefix_upto(concat_chunks(d.chunks, d.metadata.chunks_count), d.metadata.file_size)),
    }
}

/// The checksums of one file.
pub struct FileChecksums {
    pub qr_checksum: String,
    pub md5: String,
    pub sha1: String,
    pub sha256: String,
    pub crc32: String,
}

/// The checksums of `data` in lower-case hexadecimal; the checksum carried
/// by the QR payloads is `qr_checksum` when there is one, and otherwise the
/// 64-bit FNV-1a hash of the data as a slice hashes it: its length as a
/// `usize` in the machine's byte order, then its bytes.
pub open spec fn checksums_of(data: Seq<u8>, qr_checksum: Option<Seq<char>>, c: FileChecksums) -> bool {
    &&& c.md5@ == hex_bytes(md5_digest(data))
    &&& c.sha1@ == hex_bytes(sha1_digest(data))
    &&& c.sha256@ == hex_bytes(sha256_digest(data))
    &&& c.crc32@ == hex(crc32_checksum(data) as nat)
    &&& match qr_checksum {
        Some(q) => c.qr_checksum@ == q,
        None => exists|little: bool| c.qr_checksum@ == hex(fnv1a64(#[trigger] usize_bytes(data.len(), little) + data) as nat),
    }
}

/// A file written out, with its checksums and size.
#[derive(Debug)]
pub struct ReconstructedFile {
    pub qr_checksum: String,
    pub md5: String,
    pub sha1: String,
    pub sha256: String,
    pub crc32: String,
    pub size: u64,
    pub file_path: String,
}

/// The report of one run: when, where, and each file by its key.
pub struct FinalReport {
    pub scan_date: String,
    pub directory: String,
    pub files: Vec<(String, ReconstructedFile)>,
}

impl FinalReport {
    /// The files of the report by key.
    pub open spec fn files(&self) -> Map<Seq<char>, ReconstructedFile> {
        keyed(self.files@)
    }

    /// No two files share a key.
    pub open spec fn wf(&self) -> bool {
        names_distinct(self.files@)
    }

    /// A report with no file yet.
    pub fn new(scan_date: String, directory: String) -> (r: FinalReport)
        ensures
            r.wf(),
            r.scan_date == scan_date,
            r.directory == directory,
            r.files() == Map::<Seq<char>, ReconstructedFile>::empty(),
    {
        FinalReport { scan_date, directory, files: Vec::new() }
    }

    /// Records a file under its key, in place of one recorded under the
    /// same key.
    pub fn insert_file(&mut self, key: String, file: ReconstructedFile)
        requires
            old(self).wf(),
        ensures
            final(self).wf(),
            final(self).files() == old(self).files().insert(key@, file),
            final(self).scan_date == old(self).scan_date,
            final(self).directory == old(self).directory,
    {
        put_entry(&mut self.files, key, file);
    }

    /// The number of files recorded.
    pub fn file_count(&self) -> (r: usize)
        requires
            self.wf(),
        ensures
            r == self.files().len(),
    {
        proof {
            lemma_keyed(self.files@);
        }
        self.files.len()
    }

}

// ------------------------------------------------------------------
// The reconstructor
// ------------------------------------------------------------------

/// Routes payloads to the files they belong to and reconstructs them.
pub struct FileReconstructor {
    output_dir: String,
    active_files: Vec<(String, FileDecoder)>,
    file_counter: usize,
}

pub open spec fn decoder_views(m: Map<Seq<char>, FileDecoder>) -> Map<Seq<char>, DecoderModel> {
    m.map_values(|d: FileDecoder| d@)
}

impl FileReconstructor {
    /// The directory the files are written to.
    pub closed spec fn output_dir(&self) -> Seq<char> {
        self.output_dir@
    }

    /// The files in progress, by key.
    pub closed spec fn files(&self) -> Map<Seq<char>, DecoderModel> {
        decoder_views(keyed(self.active_files@))
    }

    /// The number of files started.
    pub closed spec fn counter(&self) -> nat {
        self.file_counter as nat
    }

    pub closed spec fn wf(&self) -> bool {
        &&& names_distinct(self.active_files@)
        &&& forall|i: int| 0 <= i < self.active_files@.len() ==> (#[trigger] self.active_files@[i]).1.wf()
    }

    /// The routing state at the start of a run over new payloads.
    pub open spec fn route_start(&self) -> RouteState {
        RouteState { counter: self.counter(), files: self.files(), current: None, started: Seq::empty() }
    }

    /// A reconstructor that writes to `output_dir`, with no file started.
    pub fn new(output_dir: &str) -> (r: Self)
        ensures
            r.wf(),
            r.output_dir() == output_dir@,
            r.files() == Map::<Seq<char>, DecoderModel>::empty(),
            r.counter() == 0,
    {
        let r = FileReconstructor { output_dir: String::from_str(output_dir), active_files: Vec::new(), file_counter: 0 };
        proof {
            assert(decoder_views(keyed(r.active_files@)) =~= Map::<Seq<char>, DecoderModel>::empty());
        }
        r
    }

    /// Reads a metadata payload.
    pub fn parse_metadata(&self, qr_data: &str) -> (r: Result<FileMetadata, String>)
        ensures
            match r {
                Ok(m) => metadata_fields(qr_data@) == Ok::<MetadataModel, Seq<char>>(m@),
                Err(e) => metadata_fields(qr_data@) == Err::<MetadataModel, Seq<char>>(e@),
            },
    {
        let text = chars_of(qr_data);
        let parts = split_chars(&text, ':');
        proof {
            assert(views(parts@).len() == parts@.len());
        }
        if parts.len() < 6 {
            return Err(String::from_str("Invalid metadata format"));
        }
        proof {
            assert(views(parts@)[1] == parts@[1]@);
            assert(views(parts@)[2] == parts@[2]@);
            assert(views(parts@)[3] == parts@[3]@);
            assert(views(parts@)[4] == parts@[4]@);
            assert(views(parts@)[5] == parts@[5]@);
        }
        let version = string_from_chars(&parts[1]);
        let name_text = string_from_chars(&parts[2]);
        let file_name = match decode_url(name_text.as_str()) {
            Ok(n) => n,
            Err(e) => {
                return Err(e);
            },
        };
        let type_text = string_from_chars(&parts[3]);
        let file_type = match decode_url(type_text.as_str()) {
            Ok(t) => t,
            Err(e) => {
                return Err(e);
            },
        };
        let file_size = match parse_usize(&parts[4]) {
            Ok(v) => v,
            Err(k) => {
                return Err(int_error_message(k));
            },
        };
        let chunks_count = match parse_usize(&parts[5]) {
            Ok(v) => v,
            Err(k) => {
                return Err(int_error_message(k));
            },
        };
        let file_checksum = if parts.len() > 13 && parts[13].len() > 0 {
            proof {
                assert(views(parts@)[13] == parts@[13]@);
            }
            Some(string_from_chars(&parts[13]))
        } else {
            proof {
                if parts@.len() > 13 {
                    assert(views(parts@)[13] == parts@[13]@);
                }
            }
            None
        };
        Ok(FileMetadata { version, file_name, file_type, file_size, chunks_count, file_checksum })
    }

    /// Stores the chunk that a data payload carries in the file decoder.
    pub fn process_data_packet(&mut self, file_decoder: &mut FileDecoder, qr_data: &str) -> (r: Result<(), String>)
        requires
            old(file_decoder).wf(),
        ensures
            final(file_decoder).wf(),
            *final(self) == *old(self),
            match read_packet(qr_data@) {
                PacketRead::Chunk(idx, bytes) => r is Ok && final(file_decoder)@ == store_chunk(old(file_decoder)@, idx, bytes),
                PacketRead::Refused(e) => (r matches Err(msg) && msg@ == e) && final(file_decoder)@ == old(file_decoder)@,
            },
    {
        match read_data_packet(qr_data) {
            ReadPacket::Chunk(chunk_index, chunk_data) => {
                let ghost old_chunks = file_decoder.chunks@;
                let ghost bytes = chunk_data@;
                file_decoder.chunks.insert(chunk_index, chunk_data);
                file_decoder.received_chunks.insert(chunk_index);
                if file_decoder.received_chunks.len() >= file_decoder.metadata.chunks_count {
                    file_decoder.is_complete = true;
                }
                proof {
                    assert(byte_views(file_decoder.chunks@) =~= byte_views(old_chunks).insert(chunk_index, bytes));
                    assert(byte_views(file_decoder.chunks@).dom() =~= file_decoder.received_chunks@);
                }
                Ok(())
            },
            ReadPacket::Refused(e) => Err(e),
        }
    }

    /// Routes each payload, in order, to the file it belongs to, and
    /// appends to `events` an event for each file started. A data payload
    /// that is refused ends the routing with its message.
    pub fn route_qr_data_to_files(&mut self, qr_codes: &[QrCodeData], events: &mut Vec<ProcessingEvent>) -> (r: Result<(), String>)
        requires
            old(self).wf(),
            old(self).counter() + qr_codes@.len() <= usize::MAX,
        ensures
            final(self).wf(),
            final(self).output_dir() == old(self).output_dir(),
            route_result(
                old(self).route_start(),
                payload_texts(qr_codes@),
                final(self).files(),
                final(self).counter(),
                old(events)@,
                final(events)@,
                r,
            ),
    {
        let ghost texts = payload_texts(qr_codes@);
        let ghost start = self.route_start();
        let ghost ev0 = events@;
        let mut current: Option<String> = None;
        let mut i: usize = 0;
        while i < qr_codes.len()
            invariant
                i <= qr_codes@.len(),
                texts == payload_texts(qr_codes@),
                texts.len() == qr_codes@.len(),
                start == old(self).route_start(),
                ev0 == old(events)@,
                start.counter + qr_codes@.len() <= usize::MAX,
                self.wf(),
                self.output_dir() == old(self).output_dir(),
                events@.len() >= ev0.len(),
                events@.take(ev0.len() as int) == ev0,
                route_prefix(start, texts, i as nat) matches RouteOutcome::Running(st) && {
                    &&& self.files() == st.files
                    &&& self.counter() == st.counter
                    &&& st.counter <= start.counter + i
                    &&& st.current == match current {
                        Some(c) => Some(c@),
                        None => None::<Seq<char>>,
                    }
                    &&& (st.current matches Some(k) ==> st.files.contains_key(k))
                    &&& announces(events@.skip(ev0.len() as int), st.started)
                },
            decreases qr_codes@.len() - i,
        {
            let ghost st = route_prefix(start, texts, i as nat)->Running_0;
            let ghost text = texts[i as int];
            let data = chars_of(qr_codes[i].data.as_str());
            assert(data@ == text);
            if data.len() >= 2 && data[0] == 'M' && data[1] == ':' {
                match self.parse_metadata(qr_codes[i].data.as_str()) {
                    Ok(metadata) => {
                        self.file_counter = self.file_counter + 1;
                        let mut key_chars: Vec<char> = Vec::new();
                        append_str(&mut key_chars, "file_");
                        push_zero_padded(&mut key_chars, self.file_counter as u64, 3);
                        append_str(&mut key_chars, "_");
                        append_str(&mut key_chars, metadata.file_name.as_str());
                        let key = string_from_chars(&key_chars);
                        let mut msg: Vec<char> = Vec::new();
                        append_str(&mut msg, "Started file: ");
                        append_str(&mut msg, metadata.file_name.as_str());
                        append_str(&mut msg, " (");
                        push_decimal(&mut msg, metadata.chunks_count as u64);
                        append_str(&mut msg, " chunks expected)");
                        let message = string_from_chars(&msg);
                        let ghost md = metadata@;
                        let decoder = FileDecoder::new(metadata);
                        let ghost before = self.active_files@;
                        put_entry(&mut self.active_files, key.clone(), decoder);
                        let ghost ev_before = events@;
                        events.push(ProcessingEvent::Progress { phase: 3, current: 1, total: 6, message });
                        current = Some(key);
                        proof {
                            lemma_keyed(before);
                            lemma_keyed(self.active_files@);
                            assert forall|j: int| 0 <= j < self.active_files@.len() implies (#[trigger] self.active_files@[j]).1.wf() by {
                                let kj = self.active_files@[j].0@;
                                if kj != key@ {
                                    let j2 = choose|j2: int| 0 <= j2 < before.len() && before[j2].0@ == kj;
                                    assert(keyed(before)[kj] == before[j2].1);
                                }
                            }
                            assert(self.files() =~= st.files.insert(key@, fresh_decoder(md)));
                            assert(events@.skip(ev0.len() as int) =~= ev_before.skip(ev0.len() as int).push(events@[events@.len() - 1]));
                            assert(events@.take(ev0.len() as int) =~= ev_before.take(ev0.len() as int));
                        }
                    },
                    Err(_) => {},
                }
            } else if data.len() >= 2 && data[0] == 'D' && data[1] == ':' {
                match &current {
                    Some(name) => {
                        let ghost before = self.active_files@;
                        proof {
                            lemma_keyed(before);
                        }
                        match take_entry(&mut self.active_files, name.as_str()) {
                            Some(mut file_decoder) => {
                                proof {
                                    let j = choose|j: int| 0 <= j < before.len() && before[j].0@ == name@;
                                    assert(keyed(before)[name@] == before[j].1);
                                    lemma_keyed(self.active_files@);
                                    assert forall|j: int| 0 <= j < self.active_files@.len() implies (#[trigger] self.active_files@[j]).1.wf() by {
                                        let kj = self.active_files@[j].0@;
                                        let j2 = choose|j2: int| 0 <= j2 < before.len() && before[j2].0@ == kj;
                                        assert(keyed(before)[kj] == before[j2].1);
                                    }
                                }
                                let ghost removed = self.active_files@;
                                match self.process_data_packet(&mut file_decoder, qr_codes[i].data.as_str()) {
                                    Ok(()) => {
                                        put_entry(&mut self.active_files, name.clone(), file_decoder);
                                        proof {
                                            lemma_keyed(removed);
                                            lemma_keyed(self.active_files@);
                                            assert forall|j: int| 0 <= j < self.active_files@.len() implies (#[trigger] self.active_files@[j]).1.wf() by {
                                                let kj = self.active_files@[j].0@;
                                                if kj != name@ {
                                                    let j2 = choose|j2: int| 0 <= j2 < removed.len() && removed[j2].0@ == kj;
                                                    assert(keyed(removed)[kj] == removed[j2].1);
                                                }
                                            }
                                            assert(self.files() =~= st.files.insert(name@, file_decoder@));
                                        }
                                    },
                                    Err(e) => {
                                        proof {
                                            assert(self.files() =~= st.files.remove(name@));
                                            assert(route_prefix(start, texts, (i + 1) as nat) == route_step(st, text));
                                            lemma_route_prefix_absorbing(start, texts, (i + 1) as nat, qr_codes@.len() as nat);
                                        }
                                        return Err(e);
                                    },
                                }
                            },
                            None => {},
                        }
                    },
                    None => {},
                }
            }
            i += 1;
        }
        Ok(())
    }

    /// The keys of the files in progress.
    pub fn active_file_names(&self) -> (r: Vec<String>)
        requires
            self.wf(),
        ensures
            r@.len() == self.files().len(),
            forall|k: Seq<char>| self.files().contains_key(k) <==> exists|i: int| 0 <= i < r@.len() && #[trigger] r@[i]@ == k,
    {
        proof {
            lemma_keyed(self.active_files@);
        }
        let mut r: Vec<String> = Vec::new();
        let mut i: usize = 0;
        while i < self.active_files.len()
            invariant
                i <= self.active_files@.len(),
                r@.len() == i,
                forall|j: int| 0 <= j < i ==> #[trigger] r@[j]@ == self.active_files@[j].0@,
            decreases self.active_files.len() - i,
        {
            r.push(self.active_files[i].0.clone());
            i += 1;
        }
        proof {
            assert(self.files().dom() =~= keyed(self.active_files@).dom());
            assert forall|k: Seq<char>| self.files().contains_key(k) <==> exists|i: int| 0 <= i < r@.len() && #[trigger] r@[i]@ == k by {
                if self.files().contains_key(k) {
                    let j = choose|j: int| 0 <= j < self.active_files@.len() && self.active_files@[j].0@ == k;
                    assert(r@[j]@ == k);
                }
                if exists|i: int| 0 <= i < r@.len() && #[trigger] r@[i]@ == k {
                    let j = choose|j: int| 0 <= j < r@.len() && #[trigger] r@[j]@ == k;
                    assert(self.active_files@[j].0@ == k);
                }
            }
        }
        r
    }

    /// Takes the decoder of a file in progress out of the reconstructor.
    pub fn take_file_decoder(&mut self, file_name: &str) -> (r: Option<FileDecoder>)
        requires
            old(self).wf(),
        ensures
            final(self).wf(),
            final(self).files() == old(self).files().remove(file_name@),
            final(self).counter() == old(self).counter(),
            final(self).output_dir() == old(self).output_dir(),
            match r {
                Some(d) => old(self).files().contains_key(file_name@) && d@ == old(self).files()[file_name@] && d.wf(),
                None => !old(self).files().contains_key(file_name@),
            },
    {
        let ghost before = self.active_files@;
        proof {
            lemma_keyed(before);
        }
        let r = take_entry(&mut self.active_files, file_name);
        proof {
            lemma_keyed(self.active_files@);
            assert forall|j: int| 0 <= j < self.active_files@.len() implies (#[trigger] self.active_files@[j]).1.wf() by {
                let kj = self.active_files@[j].0@;
                let j2 = choose|j2: int| 0 <= j2 < before.len() && before[j2].0@ == kj;
                assert(keyed(before)[kj] == before[j2].1);
            }
            assert(self.files() =~= old(self).files().remove(file_name@));
            if r is Some {
                let j = choose|j: int| 0 <= j < before.len() && before[j].0@ == file_name@;
                assert(keyed(before)[file_name@] == before[j].1);
            }
        }
        r
    }

    /// Recovers missing chunks of an incomplete file from coded packets;
    /// no coded packets are kept, so there is nothing to recover and this
    /// always succeeds.
    pub fn attempt_fountain_recovery(&self, _file_decoder: &FileDecoder) -> (r: Result<(), String>)
        ensures
            r is Ok,
    {
        Ok(())
    }

    /// Joins the chunks of a file, cuts them to the announced size and
    /// describes the result with its checksums, as written to
    /// `output_path`. The bytes to write come back beside the description.
    pub fn reconstruct_file_owned(&mut self, file_decoder: FileDecoder, file_name: &str, output_path: String) -> (r: Result<(ReconstructedFile, Vec<u8>), String>)
        requires
            file_decoder.wf(),
        ensures
            *final(self) == *old(self),
            match assembled(file_decoder@) {
                Ok(data) => r matches Ok((f, bytes)) && {
                    &&& bytes@ == data
                    &&& f.size == data.len()
                    &&& f.file_path == output_path
                    &&& checksums_of(
                        data,
                        file_decoder@.metadata.file_checksum,
                        FileChecksums { qr_checksum: f.qr_checksum, md5: f.md5, sha1: f.sha1, sha256: f.sha256, crc32: f.crc32 },
                    )
                },
                Err(g) => r matches Err(e) && e@ == "Missing chunk "@ + decimal(g) + " for file "@ + file_name@,
            },
    {
        if !file_decoder.is_complete {
            let _ = self.attempt_fountain_recovery(&file_decoder);
        }
        let count = file_decoder.metadata.chunks_count;
        let ghost chunks = file_decoder@.chunks;
        let mut file_data: Vec<u8> = Vec::new();
        let mut idx: usize = 0;
        while idx < count
            invariant
                idx <= count,
                count == file_decoder@.metadata.chunks_count,
                chunks == file_decoder@.chunks,
                chunks == byte_views(file_decoder.chunks@),
                first_gap(chunks, idx as nat) is None,
                file_data@ == concat_chunks(chunks, idx as nat),
            decreases count - idx,
        {
            match file_decoder.chunks.get(&idx) {
                Some(chunk_data) => {
                    let ghost before = file_data@;
                    let mut t: usize = 0;
                    while t < chunk_data.len()
                        invariant
                            t <= chunk_data@.len(),
                            file_data@ == before + chunk_data@.take(t as int),
                        decreases chunk_data.len() - t,
                    {
                        file_data.push(chunk_data[t]);
                        proof {
                            assert(before + chunk_data@.take(t + 1) =~= (before + chunk_data@.take(t as int)).push(chunk_data@[t as int]));
                        }
                        t += 1;
                    }
                    proof {
                        assert(chunk_data@.take(chunk_data@.len() as int) =~= chunk_data@);
                    }
                },
                None => {
                    let mut msg: Vec<char> = Vec::new();
                    append_str(&mut msg, "Missing chunk ");
                    push_decimal(&mut msg, idx as u64);
                    append_str(&mut msg, " for file ");
                    append_str(&mut msg, file_name);
                    proof {
                        lemma_first_gap_stays(chunks, (idx + 1) as nat, count as nat);
                    }
                    return Err(string_from_chars(&msg));
                },
            }
            idx += 1;
        }
        let ghost all = file_data@;
        file_data.truncate(file_decoder.metadata.file_size);
        proof {
            if all.len() > file_decoder.metadata.file_size {
                assert(file_data@ =~= all.take(file_decoder.metadata.file_size as int));
            } else {
                assert(file_data@ =~= all);
            }
            assert(assembled(file_decoder@) == Ok::<Seq<u8>, nat>(file_data@));
            assert(file_decoder@.metadata.file_checksum == match file_decoder.metadata.file_checksum {
                Some(q) => Some(q@),
                None => None::<Seq<char>>,
            });
        }
        let checksums = self.calculate_checksums(&file_data, &file_decoder.metadata.file_checksum);
        let size = file_data.len() as u64;
        Ok((
            ReconstructedFile {
                qr_checksum: checksums.qr_checksum,
                md5: checksums.md5,
                sha1: checksums.sha1,
                sha256: checksums.sha256,
                crc32: checksums.crc32,
                size,
                file_path: output_path,
            },
            file_data,
        ))
    }

    /// The checksums of the data.
    pub fn calculate_checksums(&self, data: &Vec<u8>, qr_checksum: &Option<String>) -> (r: FileChecksums)
        ensures
            checksums_of(
                data@,
                match qr_checksum {
                    Some(q) => Some(q@),
                    None => None,
                },
                r,
            ),
    {
        let md5_hash = string_from_chars(&hex_byte_chars(&md5_of(data.as_slice())));
        let sha1_hash = string_from_chars(&hex_byte_chars(&sha1_of(data.as_slice())));
        let sha256_hash = string_from_chars(&hex_byte_chars(&sha256_of(data.as_slice())));
        let crc32_hash = string_from_chars(&hex_chars(crc32_of(data.as_slice()) as u64));
        let qr_checksum_value = match qr_checksum {
            Some(q) => q.clone(),
            None => {
                let h = fnv_slice_hash(data.as_slice());
                string_from_chars(&hex_chars(h))
            },
        };
        FileChecksums {
            qr_checksum: qr_checksum_value,
            md5: md5_hash,
            sha1: sha1_hash,
            sha256: sha256_hash,
            crc32: crc32_hash,
        }
    }
}

/// A file decoder that holds every announced chunk, each chunk being the
/// file's bytes at its place (`chunk_len` bytes per chunk, the last one
/// padded), reconstructs the file when the announced size is the file's.
pub proof fn lemma_reconstruction_gives_original(d: DecoderModel, original: Seq<u8>, chunk_len: nat)
    requires
        d.metadata.chunks_count <= usize::MAX,
        d.metadata.chunks_count * chunk_len >= original.len(),
        d.metadata.file_size == original.len(),
        forall|i: usize| (i as nat) < d.metadata.chunks_count ==> #[trigger] d.chunks.contains_key(i) && d.chunks[i].len() == chunk_len,
        forall|i: usize, q: int|
            (i as nat) < d.metadata.chunks_count && 0 <= q < chunk_len && i * chunk_len + q < original.len() ==> #[trigger] d.chunks[i][q]
                == original[i * chunk_len + q],
    ensures
        assembled(d) == Ok::<Seq<u8>, nat>(original),
{
    let n = d.metadata.chunks_count;
    lemma_no_gap(d.chunks, n);
    lemma_concat_chunks(d.chunks, n, chunk_len);
    let c = concat_chunks(d.chunks, n);
    assert(prefix_upto(c, d.metadata.file_size) =~= original) by {
        assert forall|p: int| 0 <= p < original.len() implies #[trigger] c[p] == original[p] by {
            let L = chunk_len as int;
            if chunk_len == 0 {
                assert(n * chunk_len == 0) by (nonlinear_arith)
                    requires
                        chunk_len == 0,
                ;
                assert(false);
            }
            let i = p / L;
            let q = p % L;
            assert(p == i * L + q && 0 <= q < L) by (nonlinear_arith)
                requires
                    L > 0,
                    i == p / L,
                    q == p % L,
            ;
            assert(i < n) by (nonlinear_arith)
                requires
                    p == i * L + q,
                    0 <= q,
                    p < n * L,
                    L > 0,
            ;
            let iu = i as usize;
            assert(iu * chunk_len + q == p);
            assert(c[iu * chunk_len + q] == d.chunks[iu][q]);
        }
    }
}

/// With every chunk below `n` present there is no gap.
proof fn lemma_no_gap(chunks: Map<usize, Seq<u8>>, n: nat)
    requires
        n <= usize::MAX + 1,
        forall|i: usize| (i as nat) < n ==> #[trigger] chunks.contains_key(i),
    ensures
        first_gap(chunks, n) is None,
    decreases n,
{
    if n > 0 {
        lemma_no_gap(chunks, (n - 1) as nat);
        assert(chunks.contains_key((n - 1) as usize));
    }
}

/// A gap among the first chunks is the first gap among more chunks.
proof fn lemma_first_gap_stays(chunks: Map<usize, Seq<u8>>, n: nat, m: nat)
    requires
        n <= m,
        first_gap(chunks, n) is Some,
    ensures
        first_gap(chunks, m) == first_gap(chunks, n),
    decreases m - n,
{
    if n < m {
        lemma_first_gap_stays(chunks, n, (m - 1) as nat);
    }
}

/// Hashing two pieces one after the other with FNV-1a is hashing them
/// joined.
proof fn lemma_fnv1a64_join(h: u64, a: Seq<u8>, b: Seq<u8>)
    ensures
        fnv1a64_from(h, a + b) == fnv1a64_from(fnv1a64_from(h, a), b),
    decreases b.len(),
{
    if b.len() == 0 {
        assert(a + b =~= a);
    } else {
        lemma_fnv1a64_join(h, a, b.drop_last());
        assert((a + b).drop_last() =~= a + b.drop_last());
        assert((a + b).last() == b.last());
    }
}

/// The checksum reported for a file's QR payloads is the announced one when
/// the metadata announced one, whatever the data; otherwise it is computed
/// from the data: the FNV-1a hasher is fed the data's length, as the
/// machine holds a `usize`, and then the data's bytes, and its 64-bit state
/// is reported in lower-case hexadecimal. The other checksums are those of
/// the data.
pub proof fn lemma_reported_checksums(data: Seq<u8>, qr_checksum: Option<Seq<char>>, c: FileChecksums)
    requires
        checksums_of(data, qr_checksum, c),
    ensures
        qr_checksum matches Some(q) ==> c.qr_checksum@ == q,
        qr_checksum is None ==> exists|little: bool|
            c.qr_checksum@ == hex(fnv1a64_from(#[trigger] fnv1a64(usize_bytes(data.len(), little)), data) as nat),
        c.md5@ == hex_bytes(md5_digest(data)),
        c.sha1@ == hex_bytes(sha1_digest(data)),
        c.sha256@ == hex_bytes(sha256_digest(data)),
        c.crc32@ == hex(crc32_checksum(data) as nat),
{
    if qr_checksum is None {
        let little = choose|little: bool| c.qr_checksum@ == hex(fnv1a64(#[trigger] usize_bytes(data.len(), little) + data) as nat);
        lemma_fnv1a64_join(0xcbf29ce484222325u64, usize_bytes(data.len(), little), data);
        assert(c.qr_checksum@ == hex(fnv1a64_from(fnv1a64(usize_bytes(data.len(), little)), data) as nat));
    }
}

/// A metadata payload with at least six `:`-separated fields, whose third
/// and fourth fields percent-decode and whose fifth and sixth are numbers,
/// announces the file named by the percent-decoded third field, of the
/// percent-decoded type, size and chunk count, with the fourteenth field
/// (index 13) as its checksum when the payload has one and it is not empty,
/// whatever fields follow it.
pub proof fn lemma_metadata_payload_read(text: Seq<char>, name: Seq<char>, file_type: Seq<char>, size: nat, count: nat)
    requires
        split_on(text, ':').len() >= 6,
        url_decoded(split_on(text, ':')[2]) == Ok::<Seq<char>, Seq<char>>(name),
        url_decoded(split_on(text, ':')[3]) == Ok::<Seq<char>, Seq<char>>(file_type),
        parse_unsigned(split_on(text, ':')[4], usize::MAX as nat) == Ok::<nat, IntErrorKind>(size),
        parse_unsigned(split_on(text, ':')[5], usize::MAX as nat) == Ok::<nat, IntErrorKind>(count),
    ensures
        ({
            let parts = split_on(text, ':');
            metadata_fields(text) == Ok::<MetadataModel, Seq<char>>(
                MetadataModel {
                    version: parts[1],
                    file_name: name,
                    file_type,
                    file_size: size,
                    chunks_count: count,
                    file_checksum: if parts.len() > 13 && parts[13].len() > 0 {
                        Some(parts[13])
                    } else {
                        None
                    },
                },
            )
        }),
{
}

} // verus!
