//! The QR payloads read from the video frames, and their ordering by frame.
use vstd::prelude::*;

use crate::text::string_from_chars;

verus! {

/// What `image::imageops::grayscale` gives for an RGB image of this size
/// made with `ImageBuffer::from_raw` from these bytes: the luma bytes, or
/// `None` when the bytes are too few for the size.
pub uninterp spec fn grayscale_of(width: u32, height: u32, rgb: Seq<u8>) -> Option<Seq<u8>>;

/// What rqrr reads from a greyscale image: for each grid that
/// `PreparedImage::detect_grids` finds, in its order, the text that
/// `Grid::decode` gives, or `None` where decoding fails.
pub uninterp spec fn rqrr_contents(width: usize, height: usize, luma: Seq<u8>) -> Seq<Option<Seq<char>>>;

/// What quircs reads from a greyscale image: for each code that
/// `Quirc::identify` gives, in its order, the payload that `Code::decode`
/// gives, or `None` where identifying or decoding fails.
pub uninterp spec fn quirc_payloads(width: usize, height: usize, luma: Seq<u8>) -> Seq<Option<Seq<u8>>>;

/// What `image::load_from_memory` followed by `DynamicImage::to_luma8`
/// gives for the bytes of an image file: its width, height and luma bytes,
/// or `None` when the crate cannot decode the bytes.
pub uninterp spec fn decoded_luma(bytes: Seq<u8>) -> Option<(usize, usize, Seq<u8>)>;

/// What `String::from_utf8` gives for the bytes: their text when they are
/// UTF-8.
pub uninterp spec fn utf8_text(bytes: Seq<u8>) -> Option<Seq<char>>;

/// Builds an RGB image with `ImageBuffer::from_raw` and converts it with
/// `image::imageops::grayscale`, giving the luma bytes. The contract claims
/// that the result is the one named `grayscale_of`, that there is one
/// exactly when the bytes cover three per pixel (`from_raw`'s check), and
/// that it has one byte per pixel (the new buffer's size).
#[verifier::external_body]
fn luma_of_rgb(width: u32, height: u32, rgb: &Vec<u8>) -> (r: Option<Vec<u8>>)
    ensures
        match r {
            Some(l) => grayscale_of(width, height, rgb@) == Some(l@) && l@.len() == width * height,
            None => grayscale_of(width, height, rgb@) is None,
        },
        r is Some <==> 3 * width * height <= rgb@.len(),
{
    let img = image::ImageBuffer::<image::Rgb<u8>, Vec<u8>>::from_raw(width, height, rgb.clone())?;
    Some(image::imageops::grayscale(&img).into_raw())
}

/// Decodes an image file held in memory with `image::load_from_memory` and
/// converts it with `DynamicImage::to_luma8`. The contract claims that the
/// result is the one named `decoded_luma`, and that the luma buffer has one
/// byte per pixel of a size given by two `u32`s (the image crate's sizes).
#[verifier::external_body]
fn decode_luma(bytes: &Vec<u8>) -> (r: Option<(usize, usize, Vec<u8>)>)
    ensures
        r is None <==> decoded_luma(bytes@) is None,
        r matches Some((w, h, l)) ==> decoded_luma(bytes@) == Some((w, h, l@)) && l@.len() == w * h && w <= u32::MAX && h <= u32::MAX,
{
    match image::load_from_memory(bytes) {
        Ok(img) => {
            let luma = img.to_luma8();
            Some((luma.width() as usize, luma.height() as usize, luma.into_raw()))
        },
        Err(_) => None,
    }
}

/// Makes a greyscale image with `image::GrayImage::from_raw`, prepares it
/// with `rqrr::PreparedImage::prepare`, and decodes each grid that
/// `detect_grids` finds with `Grid::decode`. The contract claims only that
/// the texts are the ones named `rqrr_contents`. rqrr's source holds
/// assertions and `expect`s on its own intermediate results (in its
/// geometry, grid and preparation code) that it treats as unreachable;
/// that the call returns on every image is not stated here.
#[verifier::external_body]
fn rqrr_decode(width: usize, height: usize, luma: &Vec<u8>) -> (r: Vec<Option<String>>)
    requires
        luma@.len() == width * height,
        width <= u32::MAX,
        height <= u32::MAX,
    ensures
        r@.map_values(|t: Option<String>| match t { Some(s) => Some(s@), None => None }) == rqrr_contents(width, height, luma@),
{
    let mut out = Vec::new();
    if let Some(img) = image::GrayImage::from_raw(width as u32, height as u32, luma.clone()) {
        let mut prepared = rqrr::PreparedImage::prepare(img);
        for grid in prepared.detect_grids() {
            out.push(match grid.decode() {
                Ok((_, content)) => Some(content),
                Err(_) => None,
            });
        }
    }
    out
}

/// Runs `quircs::Quirc::identify` on the greyscale image and decodes each
/// code with `Code::decode`. `identify` asserts that the image has one byte
/// per pixel, which `requires` states. The contract claims only that the
/// payloads are the ones named `quirc_payloads`. quircs' source also holds
/// panics on its own internal bookkeeping (region user data, grid version)
/// that it treats as unreachable; that the call returns on every image is
/// not stated here.
#[verifier::external_body]
fn quirc_decode(width: usize, height: usize, luma: &Vec<u8>) -> (r: Vec<Option<Vec<u8>>>)
    requires
        luma@.len() == width * height,
    ensures
        r@.map_values(|p: Option<Vec<u8>>| match p { Some(b) => Some(b@), None => None }) == quirc_payloads(width, height, luma@),
{
    let mut decoder = quircs::Quirc::new();
    let mut out = Vec::new();
    for code in decoder.identify(width, height, luma) {
        out.push(match code {
            Ok(c) => match c.decode() {
                Ok(data) => Some(data.payload),
                Err(_) => None,
            },
            Err(_) => None,
        });
    }
    out
}

/// Calls `String::from_utf8`. The contract claims only that the text is the
/// one named `utf8_text`.
#[verifier::external_body]
fn utf8_string(bytes: Vec<u8>) -> (r: Option<String>)
    ensures
        match r {
            Some(s) => utf8_text(bytes@) == Some(s@),
            None => utf8_text(bytes@) is None,
        },
{
    String::from_utf8(bytes).ok()
}

/// The texts among `ts`, in order.
pub open spec fn texts_read(ts: Seq<Option<Seq<char>>>) -> Seq<Seq<char>>
    decreases ts.len(),
{
    if ts.len() == 0 {
        Seq::empty()
    } else {
        match ts.last() {
            Some(t) => texts_read(ts.drop_last()).push(t),
            None => texts_read(ts.drop_last()),
        }
    }
}

/// The UTF-8 texts among the payloads `ps`, in order.
pub open spec fn payload_texts_read(ps: Seq<Option<Seq<u8>>>) -> Seq<Seq<char>>
    decreases ps.len(),
{
    if ps.len() == 0 {
        Seq::empty()
    } else {
        match ps.last() {
            Some(b) => match utf8_text(b) {
                Some(t) => payload_texts_read(ps.drop_last()).push(t),
                None => payload_texts_read(ps.drop_last()),
            },
            None => payload_texts_read(ps.drop_last()),
        }
    }
}

/// The payloads of a frame, in order: those rqrr reads, or, when it reads
/// none, those quircs reads.
pub open spec fn frame_texts(width: usize, height: usize, luma: Seq<u8>) -> Seq<Seq<char>> {
    if texts_read(rqrr_contents(width, height, luma)).len() > 0 {
        texts_read(rqrr_contents(width, height, luma))
    } else {
        payload_texts_read(quirc_payloads(width, height, luma))
    }
}

/// The texts of the strings, in order.
pub open spec fn string_views_of(v: Seq<String>) -> Seq<Seq<char>> {
    v.map_values(|s: String| s@)
}

/// One QR payload and the frame it was read from.
#[derive(Debug, Clone)]
pub struct QrCodeData {
    pub frame_number: u64,
    pub data: String,
    pub chunk_id: usize,
}

/// All payloads read from the chunks of a video, ordered by frame.
#[derive(Debug)]
pub struct QrExtractionResults {
    pub qr_codes: Vec<QrCodeData>,
    pub chunks_processed: usize,
    pub total_frames_processed: u64,
    pub processing_time_ms: u64,
}

/// The settings of the extraction: worker threads and frame skipping.
pub struct QrExtractor {
    pub thread_count: usize,
    pub skip_frames: usize,
}

/// The payloads of `s` read from frame `k`, in their order in `s`.
pub open spec fn from_frame(s: Seq<QrCodeData>, k: u64) -> Seq<QrCodeData> {
    s.filter(|q: QrCodeData| q.frame_number == k)
}

/// Frame numbers never decrease along `s`.
pub open spec fn frames_ascending(s: Seq<QrCodeData>) -> bool {
    forall|i: int, j: int| 0 <= i < j < s.len() ==> s[i].frame_number <= s[j].frame_number
}

/// `r` is `s` ordered by frame number, payloads of one frame keeping their
/// order in `s` (a stable sort): the same payloads, as often.
pub open spec fn stably_sorted_by_frame(s: Seq<QrCodeData>, r: Seq<QrCodeData>) -> bool {
    &&& r.len() == s.len()
    &&& r.to_multiset() == s.to_multiset()
    &&& frames_ascending(r)
    &&& forall|k: u64| #[trigger] from_frame(r, k) == from_frame(s, k)
}

/// Inserting `x` where every entry before has a smaller frame and every
/// entry from there on has no smaller one puts `x` first among the entries
/// of its frame and leaves the other frames alone.
proof fn lemma_insert_by_frame(r: Seq<QrCodeData>, pos: int, x: QrCodeData, k: u64)
    requires
        0 <= pos <= r.len(),
        forall|j: int| 0 <= j < pos ==> r[j].frame_number < x.frame_number,
    ensures
        from_frame(r.insert(pos, x), k) == if k == x.frame_number {
            seq![x] + from_frame(r, k)
        } else {
            from_frame(r, k)
        },
{
    let p = |q: QrCodeData| q.frame_number == k;
    let a = r.take(pos);
    let b = r.skip(pos);
    assert(r =~= a + b);
    assert(r.insert(pos, x) =~= a + (seq![x] + b));
    Seq::filter_distributes_over_add(a, b, p);
    Seq::filter_distributes_over_add(a, seq![x] + b, p);
    b.lemma_filter_prepend(x, p);
    if k == x.frame_number {
        assert(a.all(|q: QrCodeData| !p(q)));
        a.lemma_all_neg_filter_empty(p);
        assert(a.filter(p) =~= Seq::<QrCodeData>::empty());
    }
}

/// Sorts the payloads by frame number, keeping the order of those read from
/// the same frame.
pub fn sort_by_frame(qr_codes: Vec<QrCodeData>) -> (r: Vec<QrCodeData>)
    ensures
        stably_sorted_by_frame(qr_codes@, r@),
{
    let mut rest = qr_codes;
    let ghost all = rest@;
    let mut sorted: Vec<QrCodeData> = Vec::new();
    proof {
        assert(sorted@ =~= all.skip(rest@.len() as int));
    }
    while rest.len() > 0
        invariant
            rest@ == all.take(rest@.len() as int),
            rest@.len() <= all.len(),
            sorted@.len() + rest@.len() == all.len(),
            frames_ascending(sorted@),
            forall|k: u64| #[trigger] from_frame(sorted@, k) == from_frame(all.skip(rest@.len() as int), k),
            sorted@.to_multiset() == all.skip(rest@.len() as int).to_multiset(),
        decreases rest.len(),
    {
        let ghost n = rest@.len() as int;
        let x = rest.pop().unwrap();
        assert(x == all[n - 1]);
        let mut pos: usize = sorted.len();
        while pos > 0 && sorted[pos - 1].frame_number >= x.frame_number
            invariant
                pos <= sorted.len(),
                forall|j: int| pos <= j < sorted@.len() ==> sorted@[j].frame_number >= x.frame_number,
            decreases pos,
        {
            pos -= 1;
        }
        proof {
            assert forall|j: int| 0 <= j < pos implies sorted@[j].frame_number < x.frame_number by {
                assert(sorted@[j].frame_number <= sorted@[pos - 1].frame_number);
            }
            let old_sorted = sorted@;
            assert forall|k: u64| #[trigger] from_frame(old_sorted.insert(pos as int, x), k) == from_frame(all.skip(n - 1), k) by {
                lemma_insert_by_frame(old_sorted, pos as int, x, k);
                assert(all.skip(n - 1) =~= seq![x] + all.skip(n));
                all.skip(n).lemma_filter_prepend(x, |q: QrCodeData| q.frame_number == k);
            }
            assert(all.skip(n - 1) =~= all.skip(n).insert(0, x));
            vstd::seq_lib::to_multiset_insert(all.skip(n), 0, x);
            vstd::seq_lib::to_multiset_insert(old_sorted, pos as int, x);
        }
        sorted.insert(pos, x);
        proof {
            assert(rest@ =~= all.take(n - 1));
        }
    }
    proof {
        assert(all.skip(0) =~= all);
    }
    sorted
}

/// The payloads found in frame `frame_number` of chunk `chunk_id`, each
/// text as read, in order.
pub open spec fn frame_records(texts: Seq<Seq<char>>, frame_number: u64, chunk_id: usize, r: Seq<QrCodeData>) -> bool {
    &&& r.len() == texts.len()
    &&& forall|i: int| 0 <= i < r.len() ==> (#[trigger] r[i]).frame_number == frame_number && r[i].chunk_id == chunk_id
        && r[i].data@ == texts[i]
}

impl QrExtractor {
    /// An extractor with these settings.
    pub fn new(thread_count: usize, skip_frames: usize) -> (r: Self)
        ensures
            r.thread_count == thread_count,
            r.skip_frames == skip_frames,
    {
        QrExtractor { thread_count, skip_frames }
    }

    /// The texts that rqrr reads from a greyscale image, in order.
    pub fn detect_qr_codes_rqrr(&self, width: usize, height: usize, luma: &Vec<u8>) -> (r: Vec<String>)
        requires
            luma@.len() == width * height,
            width <= u32::MAX,
            height <= u32::MAX,
        ensures
            string_views_of(r@) == texts_read(rqrr_contents(width, height, luma@)),
    {
        let contents = rqrr_decode(width, height, luma);
        let ghost cs = contents@.map_values(|t: Option<String>| match t { Some(s) => Some(s@), None => None });
        let mut codes: Vec<String> = Vec::new();
        let mut i: usize = 0;
        while i < contents.len()
            invariant
                i <= contents@.len(),
                cs == contents@.map_values(|t: Option<String>| match t { Some(s) => Some(s@), None => None }),
                string_views_of(codes@) == texts_read(cs.take(i as int)),
            decreases contents.len() - i,
        {
            proof {
                assert(cs.take(i + 1).drop_last() =~= cs.take(i as int));
            }
            match &contents[i] {
                Some(text) => {
                    let ghost before = codes@;
                    codes.push(text.clone());
                    proof {
                        assert(string_views_of(codes@) =~= string_views_of(before).push(text@));
                    }
                },
                None => {},
            }
            i += 1;
        }
        proof {
            assert(cs.take(cs.len() as int) =~= cs);
        }
        codes
    }

    /// The texts that rqrr reads from an image file held in memory, in
    /// order; `None` when the bytes are not an image that can be decoded.
    pub fn qr_codes_in_image(&self, bytes: &Vec<u8>) -> (r: Option<Vec<String>>)
        ensures
            r is None <==> decoded_luma(bytes@) is None,
            r matches Some(v) ==> decoded_luma(bytes@) matches Some((w, h, l)) && string_views_of(v@) == texts_read(rqrr_contents(w, h, l)),
    {
        match decode_luma(bytes) {
            Some((w, h, l)) => Some(self.detect_qr_codes_rqrr(w, h, &l)),
            None => None,
        }
    }

    /// The UTF-8 payloads that quircs reads from a greyscale image, in order.
    pub fn detect_qr_codes_quircs(&self, width: usize, height: usize, luma: &Vec<u8>) -> (r: Vec<String>)
        requires
            luma@.len() == width * height,
        ensures
            string_views_of(r@) == payload_texts_read(quirc_payloads(width, height, luma@)),
    {
        let payloads = quirc_decode(width, height, luma);
        let ghost ps = payloads@.map_values(|p: Option<Vec<u8>>| match p { Some(b) => Some(b@), None => None });
        let mut codes: Vec<String> = Vec::new();
        let mut i: usize = 0;
        while i < payloads.len()
            invariant
                i <= payloads@.len(),
                ps == payloads@.map_values(|p: Option<Vec<u8>>| match p { Some(b) => Some(b@), None => None }),
                string_views_of(codes@) == payload_texts_read(ps.take(i as int)),
            decreases payloads.len() - i,
        {
            proof {
                assert(ps.take(i + 1).drop_last() =~= ps.take(i as int));
            }
            match &payloads[i] {
                Some(bytes) => {
                    match utf8_string(bytes.clone()) {
                        Some(text) => {
                            let ghost before = codes@;
                            codes.push(text);
                            proof {
                                assert(string_views_of(codes@) =~= string_views_of(before).push(codes@[codes@.len() - 1]@));
                            }
                        },
                        None => {},
                    }
                },
                None => {},
            }
            i += 1;
        }
        proof {
            assert(ps.take(ps.len() as int) =~= ps);
        }
        codes
    }

    /// The payloads of an RGB frame of this size: those rqrr reads, or,
    /// when it reads none, those quircs reads, each with the frame number
    /// and chunk id; an error when the bytes are too few for the size.
    pub fn extract_qr_from_frame(&self, width: u32, height: u32, rgb: &Vec<u8>, frame_number: u64, chunk_id: usize) -> (r: Result<Vec<QrCodeData>, String>)
        ensures
            match grayscale_of(width, height, rgb@) {
                None => r matches Err(e) && e@ == "Failed to create image buffer"@,
                Some(luma) => r matches Ok(v) && frame_records(frame_texts(width as usize, height as usize, luma), frame_number, chunk_id, v@),
            },
    {
        let luma = match luma_of_rgb(width, height, rgb) {
            Some(l) => l,
            None => {
                return Err(string_from_chars(&crate::text::chars_of("Failed to create image buffer")));
            },
        };
        let w = width as usize;
        let h = height as usize;
        let mut codes = self.detect_qr_codes_rqrr(w, h, &luma);
        if codes.len() == 0 {
            codes = self.detect_qr_codes_quircs(w, h, &luma);
        }
        let ghost texts = string_views_of(codes@);
        let mut out: Vec<QrCodeData> = Vec::new();
        let mut rest = codes;
        let ghost total = rest@.len();
        let mut taken: Vec<String> = Vec::new();
        while rest.len() > 0
            invariant
                rest@.len() + out@.len() == total,
                total == texts.len(),
                forall|k: int| 0 <= k < rest@.len() ==> (#[trigger] rest@[k])@ == texts[k],
                forall|k: int| 0 <= k < out@.len() ==> (#[trigger] out@[k]).frame_number == frame_number && out@[k].chunk_id == chunk_id
                    && out@[k].data@ == texts[rest@.len() + k],
            decreases rest.len(),
        {
            let data = rest.pop().unwrap();
            let ghost before = out@;
            out.insert(0, QrCodeData { frame_number, data, chunk_id });
            proof {
                assert forall|k: int| 0 <= k < out@.len() implies (#[trigger] out@[k]).frame_number == frame_number && out@[k].chunk_id == chunk_id
                    && out@[k].data@ == texts[rest@.len() + k] by {
                    if k > 0 {
                        assert(out@[k] == before[k - 1]);
                    }
                }
            }
        }
        Ok(out)
    }

    /// The frame sampling interval handed to the frame extractor: every
    /// `skip_frames` frames, and at least every thirty.
    pub fn sample_rate(&self) -> (r: usize)
        ensures
            r == if self.skip_frames > 30 {
                self.skip_frames
            } else {
                30
            },
    {
        if self.skip_frames > 30 {
            self.skip_frames
        } else {
            30
        }
    }

    /// The results of a run over `chunks_processed` chunks that read the
    /// payloads `collected`, in any order: the payloads ordered by frame,
    /// and one frame counted per payload.
    pub fn collect_results(&self, collected: Vec<QrCodeData>, chunks_processed: usize, processing_time_ms: u64) -> (r: QrExtractionResults)
        ensures
            stably_sorted_by_frame(collected@, r.qr_codes@),
            r.chunks_processed == chunks_processed,
            r.total_frames_processed == collected@.len(),
            r.processing_time_ms == processing_time_ms,
    {
        let qr_codes = sort_by_frame(collected);
        let total = qr_codes.len() as u64;
        QrExtractionResults {
            qr_codes,
            chunks_processed,
            total_frames_processed: total,
            processing_time_ms,
        }
    }
}

} // verus!
