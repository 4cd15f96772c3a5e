//! Decoding of QR payloads into files.
//!
//! A metadata frame (`M:...`) announces a file; the data frames (`D:...`)
//! that follow it carry either systematic chunks (`index:base64` records
//! separated by `|`) or fountain packets (the XOR of several chunks). The
//! fountain decoder gathers the chunks of one file and recovers missing ones
//! by peeling: a fountain packet with exactly one unknown chunk yields that
//! chunk.
use std::collections::HashMap;
use vstd::prelude::*;

use crate::codec::base64_standard_decode;
use crate::codec::decode_base64;
use crate::codec::decode_url;
use crate::codec::url_decoded;
use crate::text::append_chars;
use crate::text::chars_equal;
use crate::text::chars_of;
use crate::text::contains_char;
use crate::text::hex;
use crate::text::hex_chars;
use crate::text::int_error_message;
use crate::text::int_error_text;
use crate::text::IntErrorKind;
use crate::text::join_from;
use crate::text::join_on;
use crate::text::parse_unsigned;
use crate::text::parse_usize;
use crate::text::split_chars;
use crate::text::split_on;
use crate::text::split_once;
use crate::text::split_once_chars;
use crate::text::starts_with_chars;
use crate::text::string_from_chars;
use crate::text::views;

verus! {

broadcast use vstd::std_specs::hash::group_hash_axioms;

// ------------------------------------------------------------------
// Frame contents
// ------------------------------------------------------------------

/// What a metadata frame announces about a file.
#[derive(Debug)]
pub struct FileMetadata {
    pub version: String,
    pub file_name: String,
    pub file_type: String,
    pub file_size: usize,
    pub chunks_count: usize,
    pub file_checksum: Option<String>,
}

/// The abstract content of a metadata frame.
pub struct MetadataModel {
    pub version: Seq<char>,
    pub file_name: Seq<char>,
    pub file_type: Seq<char>,
    pub file_size: nat,
    pub chunks_count: nat,
    pub file_checksum: Option<Seq<char>>,
}

pub open spec fn opt_view(s: Option<String>) -> Option<Seq<char>> {
    match s {
        Some(t) => Some(t@),
        None => None,
    }
}

impl View for FileMetadata {
    type V = MetadataModel;

    open spec fn view(&self) -> MetadataModel {
        MetadataModel {
            version: self.version@,
            file_name: self.file_name@,
            file_type: self.file_type@,
            file_size: self.file_size as nat,
            chunks_count: self.chunks_count as nat,
            file_checksum: opt_view(self.file_checksum),
        }
    }
}

fn copy_string(s: &String) -> (r: String)
    ensures
        r@ == s@,
{
    s.clone()
}

/// One chunk carried as is by a data frame.
#[derive(Debug)]
pub struct SystematicChunk {
    pub chunk_index: usize,
    pub chunk_data: Vec<u8>,
}

/// A parsed data frame.
#[derive(Debug)]
pub struct DataPacket {
    pub packet_id: usize,
    pub source_chunks: Vec<usize>,
    pub systematic_data_chunks: Vec<SystematicChunk>,
    pub xor_data: Option<Vec<u8>>,
}

/// The abstract content of a data frame.
pub struct PacketModel {
    pub packet_id: nat,
    pub source_chunks: Seq<usize>,
    pub systematic: Seq<(usize, Seq<u8>)>,
    pub xor_data: Option<Seq<u8>>,
}

pub open spec fn chunk_views(cs: Seq<SystematicChunk>) -> Seq<(usize, Seq<u8>)> {
    cs.map_values(|c: SystematicChunk| (c.chunk_index, c.chunk_data@))
}

pub open spec fn bytes_view(b: Option<Vec<u8>>) -> Option<Seq<u8>> {
    match b {
        Some(v) => Some(v@),
        None => None,
    }
}

impl View for DataPacket {
    type V = PacketModel;

    open spec fn view(&self) -> PacketModel {
        PacketModel {
            packet_id: self.packet_id as nat,
            source_chunks: self.source_chunks@,
            systematic: chunk_views(self.systematic_data_chunks@),
            xor_data: bytes_view(self.xor_data),
        }
    }
}

// ------------------------------------------------------------------
// XOR over chunks
// ------------------------------------------------------------------

/// Byte `j` of chunk `k` in `m`, or zero where `m` has no such byte.
pub open spec fn byte_or_zero(m: Map<usize, Seq<u8>>, k: usize, j: int) -> u8 {
    if m.contains_key(k) && 0 <= j < m[k].len() {
        m[k][j]
    } else {
        0
    }
}

/// The XOR of byte `j` of the chunks listed in `idxs` (with repetitions).
pub open spec fn xor_at(m: Map<usize, Seq<u8>>, idxs: Seq<usize>, j: int) -> u8
    decreases idxs.len(),
{
    if idxs.len() == 0 {
        0
    } else {
        xor_at(m, idxs.drop_last(), j) ^ byte_or_zero(m, idxs.last(), j)
    }
}

/// The entries of `idxs` that are not in `known`, in order.
pub open spec fn missing_of(known: Set<usize>, idxs: Seq<usize>) -> Seq<usize>
    decreases idxs.len(),
{
    if idxs.len() == 0 {
        Seq::empty()
    } else {
        let rest = missing_of(known, idxs.drop_last());
        if known.contains(idxs.last()) {
            rest
        } else {
            rest.push(idxs.last())
        }
    }
}

/// The entries of `idxs` other than `x`, in order.
pub open spec fn without(idxs: Seq<usize>, x: usize) -> Seq<usize>
    decreases idxs.len(),
{
    if idxs.len() == 0 {
        Seq::empty()
    } else {
        let rest = without(idxs.drop_last(), x);
        if idxs.last() == x {
            rest
        } else {
            rest.push(idxs.last())
        }
    }
}

/// How often `x` occurs in `idxs`.
pub open spec fn occurrences(idxs: Seq<usize>, x: usize) -> nat
    decreases idxs.len(),
{
    if idxs.len() == 0 {
        0
    } else {
        occurrences(idxs.drop_last(), x) + if idxs.last() == x {
            1nat
        } else {
            0nat
        }
    }
}

/// A fountain packet over `idxs` carrying `data` is the XOR of the chunks
/// of `truth`, all of which have `len` bytes.
pub open spec fn packet_consistent(
    truth: Map<usize, Seq<u8>>,
    len: nat,
    idxs: Seq<usize>,
    data: Seq<u8>,
) -> bool {
    &&& data.len() == len
    &&& forall|i: int|
        0 <= i < idxs.len() ==> #[trigger] truth.contains_key(idxs[i]) && truth[idxs[i]].len()
            == len
    &&& forall|j: int| 0 <= j < len ==> #[trigger] data[j] == xor_at(truth, idxs, j)
}

/// Every chunk carried by the packet agrees with `truth`: systematic chunks
/// are the true chunks, and a fountain packet is the XOR of true chunks of
/// `len` bytes.
pub open spec fn data_packet_consistent(truth: Map<usize, Seq<u8>>, len: nat, p: PacketModel) -> bool {
    &&& forall|i: int|
        0 <= i < p.systematic.len() ==> #[trigger] truth.contains_key(p.systematic[i].0)
            && truth[p.systematic[i].0] == p.systematic[i].1
    &&& p.systematic.len() == 0 ==> match p.xor_data {
        Some(d) => packet_consistent(truth, len, p.source_chunks, d),
        None => true,
    }
}

proof fn lemma_xor_cancel(a: u8, b: u8)
    ensures
        (a ^ b) ^ b == a,
        a ^ 0 == a,
        0 ^ a == a,
{
    assert((a ^ b) ^ b == a) by (bit_vector);
    assert(a ^ 0 == a) by (bit_vector);
    assert(0 ^ a == a) by (bit_vector);
}

/// The XOR over `idxs` is the XOR over the entries other than `x`, plus
/// byte `j` of `x` once for each odd number of occurrences.
proof fn lemma_xor_without(m: Map<usize, Seq<u8>>, idxs: Seq<usize>, x: usize, j: int)
    ensures
        xor_at(m, idxs, j) == xor_at(m, without(idxs, x), j) ^ (if occurrences(idxs, x) % 2 == 1 {
            byte_or_zero(m, x, j)
        } else {
            0u8
        }),
    decreases idxs.len(),
{
    if idxs.len() == 0 {
        lemma_xor_cancel(0, 0);
    } else {
        let init = idxs.drop_last();
        let last = idxs.last();
        lemma_xor_without(m, init, x, j);
        let a = xor_at(m, without(init, x), j);
        let b = byte_or_zero(m, x, j);
        let l = byte_or_zero(m, last, j);
        let odd_init = occurrences(init, x) % 2 == 1;
        let c = if odd_init {
            b
        } else {
            0u8
        };
        assert(xor_at(m, idxs, j) == xor_at(m, init, j) ^ l);
        assert(xor_at(m, init, j) == a ^ c);
        if last == x {
            assert(without(idxs, x) == without(init, x));
            assert(occurrences(idxs, x) == occurrences(init, x) + 1);
            assert(l == b);
            if odd_init {
                assert(((a ^ b) ^ b) == a) by (bit_vector);
                assert((a ^ 0u8) == a) by (bit_vector);
            } else {
                assert(((a ^ 0u8) ^ b) == (a ^ b)) by (bit_vector);
            }
        } else {
            assert(without(idxs, x) == without(init, x).push(last));
            assert(without(idxs, x).drop_last() =~= without(init, x));
            assert(xor_at(m, without(idxs, x), j) == a ^ l);
            assert(occurrences(idxs, x) == occurrences(init, x));
            assert(((a ^ c) ^ l) == ((a ^ l) ^ c)) by (bit_vector);
        }
    }
}

/// XORs over chunk maps that agree on the listed chunks are equal.
proof fn lemma_xor_agree(m1: Map<usize, Seq<u8>>, m2: Map<usize, Seq<u8>>, idxs: Seq<usize>, j: int)
    requires
        forall|i: int| 0 <= i < idxs.len() ==> byte_or_zero(m1, #[trigger] idxs[i], j) == byte_or_zero(m2, idxs[i], j),
    ensures
        xor_at(m1, idxs, j) == xor_at(m2, idxs, j),
    decreases idxs.len(),
{
    if idxs.len() > 0 {
        let init = idxs.drop_last();
        assert forall|i: int| 0 <= i < init.len() implies byte_or_zero(m1, #[trigger] init[i], j) == byte_or_zero(m2, init[i], j) by {
            assert(init[i] == idxs[i]);
        }
        lemma_xor_agree(m1, m2, init, j);
        assert(idxs.last() == idxs[idxs.len() - 1]);
    }
}

/// When exactly one entry of `idxs` is unknown, that entry occurs once and
/// every other entry is known.
proof fn lemma_single_missing(known: Set<usize>, idxs: Seq<usize>)
    requires
        missing_of(known, idxs).len() == 1,
    ensures
        occurrences(idxs, missing_of(known, idxs)[0]) == 1,
        !known.contains(missing_of(known, idxs)[0]),
        forall|i: int|
            0 <= i < idxs.len() && idxs[i] != missing_of(known, idxs)[0] ==> known.contains(
                #[trigger] idxs[i],
            ),
    decreases idxs.len(),
{
    let init = idxs.drop_last();
    let last = idxs.last();
    let x = missing_of(known, idxs)[0];
    if known.contains(last) {
        lemma_single_missing(known, init);
        lemma_occurrences_known(known, init, x);
        assert forall|i: int| 0 <= i < idxs.len() && idxs[i] != x implies known.contains(
            #[trigger] idxs[i],
        ) by {
            if i < init.len() {
                assert(init[i] == idxs[i]);
            }
        }
    } else {
        assert(missing_of(known, init).len() == 0);
        assert(x == last);
        lemma_none_missing(known, init);
        lemma_occurrences_known(known, init, x);
        assert forall|i: int| 0 <= i < idxs.len() && idxs[i] != x implies known.contains(
            #[trigger] idxs[i],
        ) by {
            if i < init.len() {
                assert(init[i] == idxs[i]);
            }
        }
    }
}

proof fn lemma_none_missing(known: Set<usize>, idxs: Seq<usize>)
    requires
        missing_of(known, idxs).len() == 0,
    ensures
        forall|i: int| 0 <= i < idxs.len() ==> known.contains(#[trigger] idxs[i]),
    decreases idxs.len(),
{
    if idxs.len() > 0 {
        let init = idxs.drop_last();
        lemma_none_missing(known, init);
        assert forall|i: int| 0 <= i < idxs.len() implies known.contains(#[trigger] idxs[i]) by {
            if i < init.len() {
                assert(init[i] == idxs[i]);
            }
        }
    }
}

/// An unknown entry occurs in `idxs` no more often than unknown entries do.
proof fn lemma_occurrences_known(known: Set<usize>, idxs: Seq<usize>, x: usize)
    requires
        !known.contains(x),
    ensures
        occurrences(idxs, x) <= missing_of(known, idxs).len(),
        missing_of(known, idxs).len() == 0 ==> occurrences(idxs, x) == 0,
        missing_of(known, idxs).len() == 1 && missing_of(known, idxs)[0] != x ==> occurrences(idxs, x) == 0,
    decreases idxs.len(),
{
    if idxs.len() > 0 {
        lemma_occurrences_known(known, idxs.drop_last(), x);
    }
}

// ------------------------------------------------------------------
// Assembling a file from its chunks
// ------------------------------------------------------------------

/// Chunks `0..n` of `m` one after the other.
pub open spec fn concat_chunks(m: Map<usize, Seq<u8>>, n: nat) -> Seq<u8>
    decreases n,
{
    if n == 0 {
        Seq::empty()
    } else {
        concat_chunks(m, (n - 1) as nat) + m[(n - 1) as usize]
    }
}

/// The first `n` elements of `s`, or all of `s` when it is shorter.
pub open spec fn prefix_upto(s: Seq<u8>, n: nat) -> Seq<u8> {
    if n <= s.len() {
        s.take(n as int)
    } else {
        s
    }
}

/// The 32-bit FNV-1a hash of `data`.
pub open spec fn fnv1a32(data: Seq<u8>) -> u32
    decreases data.len(),
{
    if data.len() == 0 {
        2166136261u32
    } else {
        (fnv1a32(data.drop_last()) ^ (data.last() as u32)).wrapping_mul(16777619u32)
    }
}

/// The checksum text of `data`: its FNV-1a hash in lower-case hexadecimal.
pub open spec fn fnv_checksum_text(data: Seq<u8>) -> Seq<char> {
    hex(fnv1a32(data) as nat)
}

/// The chunks known after taking the systematic chunks in order, each only
/// where its index is not yet known.
pub open spec fn absorb_systematic(known: Map<usize, Seq<u8>>, cs: Seq<(usize, Seq<u8>)>) -> Map<usize, Seq<u8>>
    decreases cs.len(),
{
    if cs.len() == 0 {
        known
    } else {
        let m = absorb_systematic(known, cs.drop_last());
        if m.contains_key(cs.last().0) {
            m
        } else {
            m.insert(cs.last().0, cs.last().1)
        }
    }
}

/// Taking systematic chunks never changes a chunk already known, and
/// leaves every index it was given known.
pub proof fn lemma_systematic_keeps_known(known: Map<usize, Seq<u8>>, cs: Seq<(usize, Seq<u8>)>)
    ensures
        forall|k: usize| #[trigger] known.contains_key(k) ==> absorb_systematic(known, cs).contains_key(k)
            && absorb_systematic(known, cs)[k] == known[k],
        forall|i: int| 0 <= i < cs.len() ==> absorb_systematic(known, cs).contains_key(#[trigger] cs[i].0),
    decreases cs.len(),
{
    if cs.len() > 0 {
        lemma_systematic_keeps_known(known, cs.drop_last());
        assert forall|i: int| 0 <= i < cs.len() implies absorb_systematic(known, cs).contains_key(#[trigger] cs[i].0) by {
            if i < cs.len() - 1 {
                assert(cs.drop_last()[i] == cs[i]);
            }
        }
    }
}

/// Taking systematic chunks whose indices are all known changes nothing.
proof fn lemma_systematic_known_noop(known: Map<usize, Seq<u8>>, cs: Seq<(usize, Seq<u8>)>)
    requires
        forall|i: int| 0 <= i < cs.len() ==> known.contains_key(#[trigger] cs[i].0),
    ensures
        absorb_systematic(known, cs) == known,
    decreases cs.len(),
{
    if cs.len() > 0 {
        assert forall|i: int| 0 <= i < cs.drop_last().len() implies known.contains_key(#[trigger] cs.drop_last()[i].0) by {
            assert(cs.drop_last()[i] == cs[i]);
        }
        lemma_systematic_known_noop(known, cs.drop_last());
        assert(known.contains_key(cs[cs.len() - 1].0));
    }
}

/// The same systematic chunks taken twice leave what taking them once
/// leaves: a repeated QR frame changes nothing.
pub proof fn lemma_systematic_repeat(known: Map<usize, Seq<u8>>, cs: Seq<(usize, Seq<u8>)>)
    ensures
        absorb_systematic(absorb_systematic(known, cs), cs) == absorb_systematic(known, cs),
{
    lemma_systematic_keeps_known(known, cs);
    lemma_systematic_known_noop(absorb_systematic(known, cs), cs);
}

/// Known chunks and pending fountain packets agree with `truth`.
pub open spec fn state_consistent(
    known: Map<usize, Seq<u8>>,
    pending: Seq<(Seq<usize>, Seq<u8>)>,
    truth: Map<usize, Seq<u8>>,
    len: nat,
) -> bool {
    &&& forall|k: usize| #[trigger] known.contains_key(k) ==> truth.contains_key(k) && known[k] == truth[k]
    &&& forall|i: int| 0 <= i < pending.len() ==> packet_consistent(truth, len, (#[trigger] pending[i]).0, pending[i].1)
}

/// Every pending packet lacks at least two chunks.
pub open spec fn fully_peeled(known: Map<usize, Seq<u8>>, pending: Seq<(Seq<usize>, Seq<u8>)>) -> bool {
    forall|i: int| 0 <= i < pending.len() ==> (#[trigger] missing_of(known.dom(), pending[i].0)).len() >= 2
}

/// `new_known`/`new_pending` is what peeling leaves of `known`/`pending`:
/// known chunks stay; the packets that stay are, in their order and with
/// their repetitions, those that still lack a chunk, and each lacks at
/// least two; every chunk learned is the XOR of a packet's data with that
/// packet's other chunks; the chunks learned are those that peeling must
/// learn (they lie in every set of indices that contains the known ones and
/// leaves no packet lacking exactly one); and agreement with any truth is
/// kept.
pub open spec fn peel_outcome(
    known: Map<usize, Seq<u8>>,
    pending: Seq<(Seq<usize>, Seq<u8>)>,
    new_known: Map<usize, Seq<u8>>,
    new_pending: Seq<(Seq<usize>, Seq<u8>)>,
) -> bool {
    &&& forall|k: usize| #[trigger] known.contains_key(k) ==> new_known.contains_key(k) && new_known[k] == known[k]
    &&& fully_peeled(new_known, new_pending)
    &&& new_pending.len() <= pending.len()
    &&& forall|i: int| 0 <= i < new_pending.len() ==> pending.contains(#[trigger] new_pending[i])
    &&& forall|k: usize| #[trigger] new_known.contains_key(k) && !known.contains_key(k) ==> exists|i: int| 0 <= i < pending.len() && recovered_from(new_known, #[trigger] pending[i], k)
    &&& new_pending == still_lacking(new_known.dom(), pending)
    &&& forall|d: Set<usize>| known.dom().subset_of(d) && #[trigger] peel_closed(d, pending) ==> new_known.dom().subset_of(d)
    &&& forall|truth: Map<usize, Seq<u8>>, len: nat| state_consistent(known, pending, truth, len) ==> #[trigger] state_consistent(new_known, new_pending, truth, len)
    &&& forall|i: int| 0 <= i < pending.len() && !new_pending.contains(#[trigger] pending[i]) ==> missing_of(new_known.dom(), pending[i].0).len() == 0
    &&& forall|i: int| 0 <= i < pending.len() && #[trigger] missing_of(known.dom(), pending[i].0).len() == 1 ==> new_known.contains_key(missing_of(known.dom(), pending[i].0)[0])
}

/// Learning more chunks never makes a packet lack more of them.
proof fn lemma_missing_mono(k1: Set<usize>, k2: Set<usize>, idxs: Seq<usize>)
    requires
        k1.subset_of(k2),
    ensures
        missing_of(k2, idxs).len() <= missing_of(k1, idxs).len(),
    decreases idxs.len(),
{
    if idxs.len() > 0 {
        lemma_missing_mono(k1, k2, idxs.drop_last());
    }
}

/// Learning chunk `m` removes `m`, and only `m`, from what a packet lacks.
proof fn lemma_missing_insert(k: Set<usize>, idxs: Seq<usize>, m: usize)
    ensures
        missing_of(k.insert(m), idxs) == without(missing_of(k, idxs), m),
    decreases idxs.len(),
{
    if idxs.len() > 0 {
        lemma_missing_insert(k, idxs.drop_last(), m);
        let rest = missing_of(k, idxs.drop_last());
        if !k.contains(idxs.last()) {
            assert(missing_of(k, idxs) == rest.push(idxs.last()));
            assert(missing_of(k, idxs).drop_last() =~= rest);
        }
    }
}

/// The packets of `ps` that still lack a chunk outside `known`, in order,
/// repetitions kept.
pub open spec fn still_lacking(known: Set<usize>, ps: Seq<(Seq<usize>, Seq<u8>)>) -> Seq<(Seq<usize>, Seq<u8>)>
    decreases ps.len(),
{
    if ps.len() == 0 {
        Seq::empty()
    } else {
        let rest = still_lacking(known, ps.drop_last());
        if missing_of(known, ps.last().0).len() > 0 {
            rest.push(ps.last())
        } else {
            rest
        }
    }
}

/// No packet of `ps` lacks exactly one chunk outside `known`: peeling has
/// nothing more to learn.
pub open spec fn peel_closed(known: Set<usize>, ps: Seq<(Seq<usize>, Seq<u8>)>) -> bool {
    forall|i: int| 0 <= i < ps.len() ==> #[trigger] missing_of(known, ps[i].0).len() != 1
}

/// Chunk `k` of `known` is what packet `q` gives for it: `q` covers `k`,
/// its other chunks are known, and chunk `k` is the packet's data XORed
/// with them, byte by byte.
pub open spec fn recovered_from(known: Map<usize, Seq<u8>>, q: (Seq<usize>, Seq<u8>), k: usize) -> bool {
    &&& q.0.contains(k)
    &&& forall|e: int| 0 <= e < without(q.0, k).len() ==> known.contains_key(#[trigger] without(q.0, k)[e])
    &&& known.contains_key(k)
    &&& known[k].len() == q.1.len()
    &&& forall|j: int| 0 <= j < q.1.len() ==> #[trigger] known[k][j] == q.1[j] ^ xor_at(known, without(q.0, k), j)
}

/// Dropping a packet that lacks nothing leaves the packets that still
/// lack a chunk as they were.
proof fn lemma_still_lacking_remove(known: Set<usize>, ps: Seq<(Seq<usize>, Seq<u8>)>, i: int)
    requires
        0 <= i < ps.len(),
        missing_of(known, ps[i].0).len() == 0,
    ensures
        still_lacking(known, ps.remove(i)) == still_lacking(known, ps),
    decreases ps.len(),
{
    if i == ps.len() - 1 {
        assert(ps.remove(i) =~= ps.drop_last());
    } else {
        lemma_still_lacking_remove(known, ps.drop_last(), i);
        assert(ps.remove(i).drop_last() =~= ps.drop_last().remove(i));
        assert(ps.remove(i).last() == ps.last());
    }
}

/// When every packet still lacks a chunk, all of them stay.
proof fn lemma_still_lacking_all(known: Set<usize>, ps: Seq<(Seq<usize>, Seq<u8>)>)
    requires
        forall|i: int| 0 <= i < ps.len() ==> #[trigger] missing_of(known, ps[i].0).len() > 0,
    ensures
        still_lacking(known, ps) == ps,
    decreases ps.len(),
{
    if ps.len() > 0 {
        assert forall|i: int| 0 <= i < ps.drop_last().len() implies #[trigger] missing_of(known, ps.drop_last()[i].0).len() > 0 by {
            assert(ps.drop_last()[i] == ps[i]);
        }
        lemma_still_lacking_all(known, ps.drop_last());
        assert(missing_of(known, ps[ps.len() - 1].0).len() > 0);
        assert(ps.drop_last().push(ps.last()) =~= ps);
    }
}

/// An entry of `idxs` that is not known is among those a packet lacks.
proof fn lemma_missing_complete(k: Set<usize>, idxs: Seq<usize>, x: usize)
    requires
        idxs.contains(x),
        !k.contains(x),
    ensures
        missing_of(k, idxs).contains(x),
    decreases idxs.len(),
{
    let init = idxs.drop_last();
    if idxs.last() == x {
        assert(missing_of(k, idxs).last() == x);
    } else {
        let j = choose|j: int| 0 <= j < idxs.len() && idxs[j] == x;
        assert(init[j] == x);
        lemma_missing_complete(k, init, x);
        let q = choose|q: int| 0 <= q < missing_of(k, init).len() && missing_of(k, init)[q] == x;
        assert(missing_of(k, idxs)[q] == x);
    }
}

proof fn lemma_missing_elems(known: Set<usize>, idxs: Seq<usize>)
    ensures
        forall|i: int| 0 <= i < missing_of(known, idxs).len() ==> idxs.contains(#[trigger] missing_of(known, idxs)[i]) && !known.contains(missing_of(known, idxs)[i]),
        missing_of(known, idxs).len() <= idxs.len(),
    decreases idxs.len(),
{
    if idxs.len() > 0 {
        let init = idxs.drop_last();
        lemma_missing_elems(known, init);
        let m = missing_of(known, idxs);
        assert forall|i: int| 0 <= i < m.len() implies idxs.contains(#[trigger] m[i]) && !known.contains(m[i]) by {
            if i < missing_of(known, init).len() {
                let k = choose|k: int| 0 <= k < init.len() && init[k] == m[i];
                assert(idxs[k] == m[i]);
            } else {
                assert(idxs[idxs.len() - 1] == m[i]);
            }
        }
    }
}

proof fn lemma_without_elems(idxs: Seq<usize>, x: usize)
    ensures
        forall|i: int| 0 <= i < without(idxs, x).len() ==> idxs.contains(#[trigger] without(idxs, x)[i]) && without(idxs, x)[i] != x,
    decreases idxs.len(),
{
    if idxs.len() > 0 {
        let init = idxs.drop_last();
        lemma_without_elems(init, x);
        let w = without(idxs, x);
        assert forall|i: int| 0 <= i < w.len() implies idxs.contains(#[trigger] w[i]) && w[i] != x by {
            if i < without(init, x).len() {
                let k = choose|k: int| 0 <= k < init.len() && init[k] == w[i];
                assert(idxs[k] == w[i]);
            } else {
                assert(idxs[idxs.len() - 1] == w[i]);
            }
        }
    }
}

/// The unknown entries of `idxs`, in order.
fn missing_indices(chunks: &HashMap<usize, Vec<u8>>, idxs: &Vec<usize>) -> (r: Vec<usize>)
    ensures
        r@ == missing_of(chunks@.dom(), idxs@),
{
    let mut r: Vec<usize> = Vec::new();
    let mut t: usize = 0;
    while t < idxs.len()
        invariant
            t <= idxs.len(),
            r@ == missing_of(chunks@.dom(), idxs@.take(t as int)),
        decreases idxs.len() - t,
    {
        let k = idxs[t];
        proof {
            assert(idxs@.take(t + 1).drop_last() =~= idxs@.take(t as int));
        }
        if !chunks.contains_key(&k) {
            r.push(k);
        }
        t += 1;
    }
    proof {
        assert(idxs@.take(idxs@.len() as int) =~= idxs@);
    }
    r
}

pub open spec fn chunk_map_view(m: Map<usize, Vec<u8>>) -> Map<usize, Seq<u8>> {
    m.map_values(|v: Vec<u8>| v@)
}

/// `data` with every known chunk listed in `idxs`, other than `missing`,
/// XORed into it byte by byte (over the bytes both have).
fn recover_chunk(chunks: &HashMap<usize, Vec<u8>>, idxs: &Vec<usize>, data: &Vec<u8>, missing: usize) -> (r: Vec<u8>)
    ensures
        r@.len() == data@.len(),
        forall|j: int| 0 <= j < data@.len() ==> #[trigger] r@[j] == data@[j] ^ xor_at(chunk_map_view(chunks@), without(idxs@, missing), j),
{
    let ghost km = chunk_map_view(chunks@);
    let mut result = data.clone();
    proof {
        assert(result@ =~= data@);
        assert(without(idxs@.take(0), missing) =~= Seq::<usize>::empty());
        assert forall|j: int| 0 <= j < data@.len() implies #[trigger] result@[j] == data@[j] ^ xor_at(km, without(idxs@.take(0), missing), j) by {
            lemma_xor_cancel(data@[j], 0);
        }
    }
    let mut t: usize = 0;
    while t < idxs.len()
        invariant
            t <= idxs.len(),
            km == chunk_map_view(chunks@),
            result@.len() == data@.len(),
            forall|j: int| 0 <= j < data@.len() ==> #[trigger] result@[j] == data@[j] ^ xor_at(km, without(idxs@.take(t as int), missing), j),
        decreases idxs.len() - t,
    {
        let idx = idxs[t];
        let ghost prev = result@;
        let ghost w0 = without(idxs@.take(t as int), missing);
        proof {
            assert(idxs@.take(t + 1).drop_last() =~= idxs@.take(t as int));
            assert(idxs@.take(t + 1).last() == idx);
        }
        if idx != missing {
            match chunks.get(&idx) {
                Some(chunk) => {
                    let n = if result.len() < chunk.len() { result.len() } else { chunk.len() };
                    let mut j: usize = 0;
                    while j < n
                        invariant
                            j <= n,
                            n <= result@.len(),
                            n <= chunk@.len(),
                            result@.len() == prev.len(),
                            forall|q: int| 0 <= q < j ==> #[trigger] result@[q] == prev[q] ^ chunk@[q],
                            forall|q: int| j <= q < prev.len() ==> #[trigger] result@[q] == prev[q],
                        decreases n - j,
                    {
                        let v = result[j] ^ chunk[j];
                        result.set(j, v);
                        j += 1;
                    }
                    proof {
                        assert(chunks@.contains_key(idx) && chunks@[idx] == *chunk);
                        assert(km.contains_key(idx));
                        assert(km[idx] == chunk@);
                        assert forall|q: int| 0 <= q < data@.len() implies #[trigger] result@[q] == data@[q] ^ xor_at(km, without(idxs@.take(t + 1), missing), q) by {
                            let a = data@[q];
                            let b = xor_at(km, w0, q);
                            let c = byte_or_zero(km, idx, q);
                            assert(without(idxs@.take(t + 1), missing).drop_last() =~= w0);
                            assert(xor_at(km, without(idxs@.take(t + 1), missing), q) == b ^ c);
                            assert(((a ^ b) ^ c) == (a ^ (b ^ c))) by (bit_vector);
                            if q < n {
                                assert(c == chunk@[q]);
                            } else {
                                assert(c == 0u8);
                                assert(((a ^ b) ^ 0u8) == (a ^ b)) by (bit_vector);
                            }
                        }
                    }
                },
                None => {
                    proof {
                        assert forall|q: int| 0 <= q < data@.len() implies #[trigger] result@[q] == data@[q] ^ xor_at(km, without(idxs@.take(t + 1), missing), q) by {
                            let a = data@[q];
                            let b = xor_at(km, w0, q);
                            assert(without(idxs@.take(t + 1), missing).drop_last() =~= w0);
                            assert(!chunks@.contains_key(idx));
                            assert(!km.contains_key(idx));
                            assert(byte_or_zero(km, idx, q) == 0u8);
                            assert(xor_at(km, without(idxs@.take(t + 1), missing), q) == b ^ 0u8);
                            assert((a ^ (b ^ 0u8)) == (a ^ b)) by (bit_vector);
                        }
                    }
                },
            }
        } else {
            proof {
                assert(without(idxs@.take(t + 1), missing) == w0);
            }
        }
        t += 1;
    }
    proof {
        assert(idxs@.take(idxs@.len() as int) =~= idxs@);
    }
    result
}

proof fn lemma_prefix_step(c: Seq<u8>, chunk: Seq<u8>, size: nat)
    ensures
        prefix_upto(c + chunk, size) == prefix_upto(c, size) + chunk.take(
            if chunk.len() <= size - prefix_upto(c, size).len() {
                chunk.len() as int
            } else {
                size - prefix_upto(c, size).len()
            },
        ),
        prefix_upto(c, size).len() <= size,
{
    let n = c + chunk;
    if c.len() >= size {
        assert(n.take(size as int) =~= c.take(size as int));
        assert(chunk.take(0) =~= Seq::<u8>::empty());
        assert(prefix_upto(c, size) + chunk.take(0) =~= prefix_upto(c, size));
    } else if n.len() <= size {
        assert(chunk.take(chunk.len() as int) =~= chunk);
    } else {
        assert(n.take(size as int) =~= c + chunk.take(size - c.len()));
    }
}

/// Appends to `dst` as much of the front of `src` as fits below `size` bytes.
fn append_within(dst: &mut Vec<u8>, src: &Vec<u8>, size: usize)
    requires
        old(dst)@.len() <= size,
    ensures
        final(dst)@ == old(dst)@ + src@.take(
            if src@.len() <= size - old(dst)@.len() {
                src@.len() as int
            } else {
                size - old(dst)@.len()
            },
        ),
{
    let room = size - dst.len();
    let copy_length = if src.len() <= room {
        src.len()
    } else {
        room
    };
    let ghost before = dst@;
    let mut j: usize = 0;
    while j < copy_length
        invariant
            j <= copy_length,
            copy_length <= src@.len(),
            dst@ == before + src@.take(j as int),
        decreases copy_length - j,
    {
        dst.push(src[j]);
        proof {
            assert(before + src@.take(j + 1) =~= (before + src@.take(j as int)).push(src@[j as int]));
        }
        j += 1;
    }
}

pub(crate) proof fn lemma_concat_chunks(m: Map<usize, Seq<u8>>, n: nat, len: nat)
    requires
        n <= usize::MAX + 1,
        forall|i: usize| (i as nat) < n ==> #[trigger] m.contains_key(i) && m[i].len() == len,
    ensures
        concat_chunks(m, n).len() == n * len,
        forall|i: usize, q: int| (i as nat) < n && 0 <= q < len ==> #[trigger] concat_chunks(m, n)[i * len + q] == m[i][q],
    decreases n,
{
    if n > 0 {
        let k = (n - 1) as nat;
        lemma_concat_chunks(m, k, len);
        let c = concat_chunks(m, k);
        let last = m[k as usize];
        assert(m.contains_key(k as usize));
        assert(concat_chunks(m, n) == c + last);
        assert(n * len == k * len + len) by (nonlinear_arith)
            requires
                n == k + 1,
        ;
        assert forall|i: usize, q: int| (i as nat) < n && 0 <= q < len implies #[trigger] concat_chunks(m, n)[i * len + q] == m[i][q] by {
            if (i as nat) < k {
                assert(i * len + q < k * len) by (nonlinear_arith)
                    requires
                        (i as nat) < k,
                        0 <= q < len,
                ;
                assert(concat_chunks(m, n)[i * len + q] == c[i * len + q]);
            } else {
                assert(i == k);
                assert(concat_chunks(m, n)[i * len + q] == last[q]);
            }
        }
    }
}

proof fn lemma_usize_range_len(n: nat)
    requires
        n <= usize::MAX + 1,
    ensures
        Set::new(|i: usize| (i as nat) < n).finite(),
        Set::new(|i: usize| (i as nat) < n).len() == n,
    decreases n,
{
    if n == 0 {
        assert(Set::new(|i: usize| (i as nat) < n) =~= Set::<usize>::empty());
    } else {
        let k = (n - 1) as nat;
        lemma_usize_range_len(k);
        assert(Set::new(|i: usize| (i as nat) < n) =~= Set::new(|i: usize| (i as nat) < k).insert(k as usize));
    }
}

// ------------------------------------------------------------------
// The fountain decoder
// ------------------------------------------------------------------

/// Gathers the chunks of one file.
pub struct FountainDecoder {
    initialized: bool,
    meta_data: Option<FileMetadata>,
    total_chunks: usize,
    source_chunks: HashMap<usize, Vec<u8>>,
    recovered_chunk_count: usize,
    coded_packets: Vec<DataPacket>,
}

/// The fountain packets waiting for more chunks, as (chunk indices, data).
pub open spec fn pending_views(ps: Seq<DataPacket>) -> Seq<(Seq<usize>, Seq<u8>)> {
    ps.map_values(|p: DataPacket| (p.source_chunks@, bytes_view(p.xor_data).unwrap_or(Seq::empty())))
}

impl FountainDecoder {
    /// Whether a metadata frame has set the decoder up.
    pub closed spec fn is_initialized(&self) -> bool {
        self.initialized
    }

    /// The metadata that set the decoder up.
    pub closed spec fn metadata(&self) -> Option<MetadataModel> {
        match self.meta_data {
            Some(m) => Some(m@),
            None => None,
        }
    }

    /// How many chunks the file has.
    pub closed spec fn total(&self) -> nat {
        self.total_chunks as nat
    }

    /// The chunks known so far, by index.
    pub closed spec fn known(&self) -> Map<usize, Seq<u8>> {
        self.source_chunks@.map_values(|v: Vec<u8>| v@)
    }

    /// The fountain packets kept for later, in order.
    pub closed spec fn pending(&self) -> Seq<(Seq<usize>, Seq<u8>)> {
        pending_views(self.coded_packets@)
    }

    /// How many chunks are known.
    pub closed spec fn recovered(&self) -> nat {
        self.recovered_chunk_count as nat
    }

    /// The decoder's internal consistency.
    pub closed spec fn wf(&self) -> bool {
        &&& self.recovered_chunk_count == self.source_chunks@.len()
        &&& self.source_chunks@.dom().finite()
        &&& forall|i: int| 0 <= i < self.coded_packets@.len() ==> (#[trigger] self.coded_packets@[i]).xor_data is Some
        &&& self.initialized == self.meta_data is Some
        &&& self.meta_data matches Some(m) ==> self.total_chunks == m.chunks_count
        &&& !self.initialized ==> self.total_chunks == 0
    }

    /// Every known chunk is the true one, and every pending fountain packet
    /// is the XOR of true chunks of `len` bytes.
    pub open spec fn consistent_with(&self, truth: Map<usize, Seq<u8>>, len: nat) -> bool {
        &&& forall|k: usize| #[trigger] self.known().contains_key(k) ==> truth.contains_key(k) && self.known()[k] == truth[k]
        &&& forall|i: int| 0 <= i < self.pending().len() ==> packet_consistent(truth, len, (#[trigger] self.pending()[i]).0, self.pending()[i].1)
    }

    pub proof fn lemma_wf_counts(&self)
        requires
            self.wf(),
        ensures
            self.recovered() == self.known().dom().len(),
            self.known().dom().finite(),
    {
        assert(self.known().dom() =~= self.source_chunks@.dom());
    }

    /// When every known chunk index is below the file's chunk count, the
    /// decoder holds as many chunks as the file has exactly when each of
    /// the chunks `0..total` is known: `is_complete` then means that every
    /// chunk is known, and `finalize` gives the file once they all are.
    pub proof fn lemma_complete_iff_all_known(&self)
        requires
            self.wf(),
            forall|k: usize| #[trigger] self.known().contains_key(k) ==> (k as nat) < self.total(),
        ensures
            (self.recovered() >= self.total()) <==> (forall|i: usize| (i as nat) < self.total() ==> #[trigger] self.known().contains_key(i)),
            (forall|i: usize| (i as nat) < self.total() ==> #[trigger] self.known().contains_key(i)) ==> self.recovered() == self.total(),
    {
        self.lemma_wf_counts();
        let n = self.total();
        let dom = self.known().dom();
        let range = Set::new(|i: usize| (i as nat) < n);
        lemma_usize_range_len(n);
        assert(dom.subset_of(range));
        vstd::set_lib::lemma_len_subset(dom, range);
        if forall|i: usize| (i as nat) < n ==> #[trigger] self.known().contains_key(i) {
            assert(dom =~= range);
        }
        if self.recovered() >= n {
            assert forall|i: usize| (i as nat) < n implies #[trigger] self.known().contains_key(i) by {
                if !dom.contains(i) {
                    assert(dom.subset_of(range.remove(i)));
                    vstd::set_lib::lemma_len_subset(dom, range.remove(i));
                }
            }
        }
    }

    /// A decoder that has not seen a metadata frame.
    pub fn new() -> (r: Self)
        ensures
            r.wf(),
            !r.is_initialized(),
            r.metadata() is None,
            r.total() == 0,
            r.known() == Map::<usize, Seq<u8>>::empty(),
            r.pending().len() == 0,
    {
        let r = FountainDecoder {
            initialized: false,
            meta_data: None,
            total_chunks: 0,
            source_chunks: HashMap::new(),
            recovered_chunk_count: 0,
            coded_packets: Vec::new(),
        };
        proof {
            assert(r.known() =~= Map::<usize, Seq<u8>>::empty());
        }
        r
    }

    /// Sets the decoder up for the file that `metadata` announces, dropping
    /// whatever it held.
    pub fn initialize(&mut self, metadata: FileMetadata)
        ensures
            final(self).wf(),
            final(self).is_initialized(),
            final(self).metadata() == Some(metadata@),
            final(self).total() == metadata.chunks_count,
            final(self).known() == Map::<usize, Seq<u8>>::empty(),
            final(self).pending().len() == 0,
    {
        self.total_chunks = metadata.chunks_count;
        self.meta_data = Some(metadata);
        self.source_chunks.clear();
        self.recovered_chunk_count = 0;
        self.coded_packets.clear();
        self.initialized = true;
        proof {
            assert(self.known() =~= Map::<usize, Seq<u8>>::empty());
        }
    }

    /// Whether as many chunks are known as the file has.
    pub fn is_complete(&self) -> (r: bool)
        ensures
            r == (self.recovered() >= self.total()),
    {
        self.recovered_chunk_count >= self.total_chunks
    }

    /// How many chunks are known.
    pub fn recovered_chunk_count(&self) -> (r: usize)
        ensures
            r == self.recovered(),
    {
        self.recovered_chunk_count
    }

    /// How many chunks the file has.
    pub fn total_chunks(&self) -> (r: usize)
        ensures
            r == self.total(),
    {
        self.total_chunks
    }

    /// How many fountain packets wait for more chunks.
    pub fn pending_packet_count(&self) -> (r: usize)
        ensures
            r == self.pending().len(),
    {
        self.coded_packets.len()
    }

    /// The metadata that set the decoder up.
    pub fn meta_data(&self) -> (r: &Option<FileMetadata>)
        ensures
            match r {
                Some(m) => self.metadata() == Some(m@),
                None => self.metadata() is None,
            },
    {
        &self.meta_data
    }

    /// What `add_packet` does with `p`: nothing before a metadata frame; the
    /// systematic chunks of `p`, when it has some, are taken, each where its
    /// index is not yet known, and peeling runs over the queued fountain
    /// packets; otherwise its fountain packet, when it has one, is queued
    /// and peeling runs. Agreement with any truth that `p` agrees with
    /// is kept.
    pub open spec fn absorbs(old: FountainDecoder, p: PacketModel, new: FountainDecoder) -> bool {
        &&& new.is_initialized() == old.is_initialized()
        &&& new.metadata() == old.metadata()
        &&& new.total() == old.total()
        &&& if !old.is_initialized() {
            new.known() == old.known() && new.pending() == old.pending()
        } else if p.systematic.len() > 0 {
            peel_outcome(absorb_systematic(old.known(), p.systematic), old.pending(), new.known(), new.pending())
        } else if p.xor_data is Some {
            peel_outcome(old.known(), old.pending().push((p.source_chunks, p.xor_data.unwrap())), new.known(), new.pending())
        } else {
            new.known() == old.known() && new.pending() == old.pending()
        }
        &&& forall|truth: Map<usize, Seq<u8>>, len: nat|
            old.consistent_with(truth, len) && data_packet_consistent(truth, len, p) ==> #[trigger] new.consistent_with(truth, len)
    }

    /// Takes in a data packet; `false` when no metadata frame has set the
    /// decoder up.
    #[verifier::spinoff_prover]
    pub fn add_packet(&mut self, packet: DataPacket) -> (r: bool)
        requires
            old(self).wf(),
        ensures
            final(self).wf(),
            r == old(self).is_initialized(),
            Self::absorbs(*old(self), packet@, *final(self)),
    {
        if !self.initialized {
            return false;
        }
        let ghost p = packet@;
        if packet.systematic_data_chunks.len() > 0 {
            let ghost start = *self;
            let mut t: usize = 0;
            let n = packet.systematic_data_chunks.len();
            while t < n
                invariant
                    t <= n,
                    n == packet.systematic_data_chunks@.len(),
                    p == packet@,
                    self.wf(),
                    self.initialized == start.initialized,
                    self.meta_data == start.meta_data,
                    self.total_chunks == start.total_chunks,
                    self.coded_packets == start.coded_packets,
                    self.known() == absorb_systematic(start.known(), p.systematic.take(t as int)),
                    forall|truth: Map<usize, Seq<u8>>, len: nat|
                        start.consistent_with(truth, len) && data_packet_consistent(truth, len, p) ==> #[trigger] self.consistent_with(truth, len),
                decreases n - t,
            {
                let chunk = &packet.systematic_data_chunks[t];
                proof {
                    assert(p.systematic.take(t + 1).drop_last() =~= p.systematic.take(t as int));
                    assert(p.systematic.take(t + 1).last() == p.systematic[t as int]);
                    assert(p.systematic[t as int] == (chunk.chunk_index, chunk.chunk_data@));
                    assert(self.known().dom() =~= self.source_chunks@.dom());
                }
                if !self.source_chunks.contains_key(&chunk.chunk_index) {
                    let ghost before = *self;
                    let data = chunk.chunk_data.clone();
                    proof {
                        assert(data@ =~= chunk.chunk_data@);
                    }
                    self.source_chunks.insert(chunk.chunk_index, data);
                    self.recovered_chunk_count = self.source_chunks.len();
                    proof {
                        assert(self.known() =~= before.known().insert(chunk.chunk_index, chunk.chunk_data@));
                        assert forall|truth: Map<usize, Seq<u8>>, len: nat|
                            start.consistent_with(truth, len) && data_packet_consistent(truth, len, p) implies #[trigger] self.consistent_with(truth, len) by {
                            assert(before.consistent_with(truth, len));
                            assert(data_packet_consistent(truth, len, p));
                            assert(0 <= t < p.systematic.len());
                            assert(truth.contains_key(p.systematic[t as int].0));
                            assert(truth[p.systematic[t as int].0] == p.systematic[t as int].1);
                            assert(self.pending() == before.pending());
                            assert forall|k: usize| #[trigger] self.known().contains_key(k) implies truth.contains_key(k) && self.known()[k] == truth[k] by {
                                if k != chunk.chunk_index {
                                    assert(before.known().contains_key(k));
                                }
                            }
                            assert forall|i: int| 0 <= i < self.pending().len() implies packet_consistent(truth, len, (#[trigger] self.pending()[i]).0, self.pending()[i].1) by {
                                assert(before.pending()[i] == self.pending()[i]);
                            }
                        }
                    }
                }
                t += 1;
            }
            proof {
                assert(p.systematic.take(n as int) =~= p.systematic);
            }
            let ghost mid = *self;
            self.process_coded();
            proof {
                assert forall|truth: Map<usize, Seq<u8>>, len: nat|
                    start.consistent_with(truth, len) && data_packet_consistent(truth, len, p) implies #[trigger] self.consistent_with(truth, len) by {
                    assert(mid.consistent_with(truth, len));
                    assert(state_consistent(mid.known(), mid.pending(), truth, len));
                    assert(state_consistent(self.known(), self.pending(), truth, len));
                }
            }
        } else if packet.xor_data.is_some() {
            let ghost start = *self;
            proof {
                assert(pending_views(self.coded_packets@.push(packet)) =~= start.pending().push((p.source_chunks, p.xor_data.unwrap())));
            }
            self.coded_packets.push(packet);
            proof {
                assert(self.known() == start.known());
                assert(self.pending() == start.pending().push((p.source_chunks, p.xor_data.unwrap())));
                assert forall|truth: Map<usize, Seq<u8>>, len: nat|
                    start.consistent_with(truth, len) && data_packet_consistent(truth, len, p) implies #[trigger] state_consistent(self.known(), self.pending(), truth, len) by {
                    assert forall|k: usize| #[trigger] self.known().contains_key(k) implies truth.contains_key(k) && self.known()[k] == truth[k] by {
                        assert(start.known().contains_key(k));
                    }
                    assert forall|i: int| 0 <= i < self.pending().len() implies packet_consistent(truth, len, (#[trigger] self.pending()[i]).0, self.pending()[i].1) by {
                        if i < start.pending().len() {
                            assert(self.pending()[i] == start.pending()[i]);
                        } else {
                            assert(self.pending()[i] == (p.source_chunks, p.xor_data.unwrap()));
                            assert(p.systematic.len() == 0);
                        }
                    }
                }
            }
            let ghost mid = *self;
            self.process_coded();
            proof {
                assert forall|truth: Map<usize, Seq<u8>>, len: nat|
                    start.consistent_with(truth, len) && data_packet_consistent(truth, len, p) implies #[trigger] self.consistent_with(truth, len) by {
                    assert(state_consistent(mid.known(), mid.pending(), truth, len));
                    assert(state_consistent(self.known(), self.pending(), truth, len));
                }
            }
        }
        true
    }

    /// Recovers chunks from pending fountain packets until none lacks
    /// exactly one chunk; packets that lack none are dropped.
    fn process_coded(&mut self)
        requires
            old(self).wf(),
        ensures
            final(self).wf(),
            final(self).is_initialized() == old(self).is_initialized(),
            final(self).metadata() == old(self).metadata(),
            final(self).total() == old(self).total(),
            peel_outcome(old(self).known(), old(self).pending(), final(self).known(), final(self).pending()),
    {
        let ghost start = *self;
        let mut progress = true;
        while progress
            invariant
                self.wf(),
                self.initialized == start.initialized,
                self.meta_data == start.meta_data,
                self.total_chunks == start.total_chunks,
                forall|k: usize| #[trigger] start.known().contains_key(k) ==> self.known().contains_key(k) && self.known()[k] == start.known()[k],
                !progress ==> fully_peeled(self.known(), self.pending()),
                self.pending().len() <= start.pending().len(),
                forall|i: int| 0 <= i < self.pending().len() ==> start.pending().contains(#[trigger] self.pending()[i]),
                forall|k: usize| #[trigger] self.known().contains_key(k) && !start.known().contains_key(k) ==> exists|i: int| 0 <= i < start.pending().len() && recovered_from(self.known(), #[trigger] start.pending()[i], k),
                forall|d: Set<usize>| self.known().dom().subset_of(d) ==> #[trigger] still_lacking(d, self.pending()) == still_lacking(d, start.pending()),
                forall|d: Set<usize>| start.known().dom().subset_of(d) && #[trigger] peel_closed(d, start.pending()) ==> self.known().dom().subset_of(d),
                forall|truth: Map<usize, Seq<u8>>, len: nat| state_consistent(start.known(), start.pending(), truth, len) ==> #[trigger] state_consistent(self.known(), self.pending(), truth, len),
                forall|q: int| 0 <= q < start.pending().len() && !self.pending().contains(#[trigger] start.pending()[q]) ==> missing_of(self.known().dom(), start.pending()[q].0).len() == 0,
            decreases self.coded_packets@.len() + if progress { 1int } else { 0int },
        {
            progress = false;
            let ghost pass_len = self.coded_packets@.len();
            let ghost pass_dom = self.known().dom();
            let mut i = self.coded_packets.len();
            while i > 0
                invariant
                    self.wf(),
                    self.initialized == start.initialized,
                    self.meta_data == start.meta_data,
                    self.total_chunks == start.total_chunks,
                    i <= self.coded_packets@.len(),
                    self.coded_packets@.len() <= pass_len,
                    progress ==> self.coded_packets@.len() < pass_len,
                    !progress ==> self.known().dom() == pass_dom,
                    !progress ==> forall|j: int| i <= j < self.pending().len() ==> (#[trigger] missing_of(self.known().dom(), self.pending()[j].0)).len() >= 2,
                    forall|k: usize| #[trigger] start.known().contains_key(k) ==> self.known().contains_key(k) && self.known()[k] == start.known()[k],
                    self.pending().len() <= start.pending().len(),
                    forall|q: int| 0 <= q < self.pending().len() ==> start.pending().contains(#[trigger] self.pending()[q]),
                    forall|k: usize| #[trigger] self.known().contains_key(k) && !start.known().contains_key(k) ==> exists|q: int| 0 <= q < start.pending().len() && recovered_from(self.known(), #[trigger] start.pending()[q], k),
                    forall|d: Set<usize>| self.known().dom().subset_of(d) ==> #[trigger] still_lacking(d, self.pending()) == still_lacking(d, start.pending()),
                    forall|d: Set<usize>| start.known().dom().subset_of(d) && #[trigger] peel_closed(d, start.pending()) ==> self.known().dom().subset_of(d),
                    forall|truth: Map<usize, Seq<u8>>, len: nat| state_consistent(start.known(), start.pending(), truth, len) ==> #[trigger] state_consistent(self.known(), self.pending(), truth, len),
                    forall|q: int| 0 <= q < start.pending().len() && !self.pending().contains(#[trigger] start.pending()[q]) ==> missing_of(self.known().dom(), start.pending()[q].0).len() == 0,
                decreases i,
            {
                i -= 1;
                let ghost before = *self;
                proof {
                    assert(self.known().dom() =~= self.source_chunks@.dom());
                    assert(self.pending()[i as int] == (self.coded_packets@[i as int].source_chunks@, bytes_view(self.coded_packets@[i as int].xor_data).unwrap_or(Seq::empty())));
                }
                let missing = missing_indices(&self.source_chunks, &self.coded_packets[i].source_chunks);
                if missing.len() == 1 {
                    let missing_idx = missing[0];
                    let result = match &self.coded_packets[i].xor_data {
                        Some(d) => recover_chunk(&self.source_chunks, &self.coded_packets[i].source_chunks, d, missing_idx),
                        None => {
                            proof {
                                assert(self.coded_packets@[i as int].xor_data is Some);
                            }
                            Vec::new()
                        },
                    };
                    let ghost idxs = before.pending()[i as int].0;
                    let ghost data = before.pending()[i as int].1;
                    proof {
                        lemma_single_missing(before.known().dom(), idxs);
                        lemma_missing_elems(before.known().dom(), idxs);
                        lemma_without_elems(idxs, missing_idx);
                        assert(chunk_map_view(self.source_chunks@) == before.known());
                    }
                    self.source_chunks.insert(missing_idx, result);
                    self.recovered_chunk_count = self.source_chunks.len();
                    self.coded_packets.remove(i);
                    progress = true;
                    proof {
                        assert(self.known() =~= before.known().insert(missing_idx, result@));
                        assert(pending_views(self.coded_packets@) =~= before.pending().remove(i as int));
                        assert(start.pending().contains(before.pending()[i as int]));
                        assert forall|q: int| 0 <= q < self.pending().len() implies start.pending().contains(#[trigger] self.pending()[q]) by {
                            if q < i {
                                assert(self.pending()[q] == before.pending()[q]);
                            } else {
                                assert(self.pending()[q] == before.pending()[q + 1]);
                            }
                        }
                        assert(missing.len() == 1);
                        assert(missing_of(before.known().dom(), idxs) =~= seq![missing_idx]);
                        lemma_missing_insert(before.known().dom(), idxs, missing_idx);
                        assert(seq![missing_idx].drop_last() =~= Seq::<usize>::empty());
                        assert(without(Seq::<usize>::empty(), missing_idx) =~= Seq::<usize>::empty());
                        assert(seq![missing_idx].last() == missing_idx);
                        assert(without(seq![missing_idx], missing_idx) =~= Seq::<usize>::empty());
                        assert(self.known().dom() =~= before.known().dom().insert(missing_idx));
                        assert forall|q: int| 0 <= q < start.pending().len() && !self.pending().contains(#[trigger] start.pending()[q]) implies missing_of(self.known().dom(), start.pending()[q].0).len() == 0 by {
                            let sp = start.pending()[q];
                            if sp == before.pending()[i as int] {
                            } else if before.pending().contains(sp) {
                                let j = choose|j: int| 0 <= j < before.pending().len() && before.pending()[j] == sp;
                                assert(j != i);
                                if j < i {
                                    assert(self.pending()[j] == sp);
                                } else {
                                    assert(self.pending()[j - 1] == sp);
                                }
                            } else {
                                lemma_missing_mono(before.known().dom(), self.known().dom(), sp.0);
                            }
                        }
                        let kk = before.known();
                        let kn = self.known();
                        let w = without(idxs, missing_idx);
                        assert(!kk.contains_key(missing_idx));
                        assert forall|e: int| 0 <= e < w.len() implies kk.contains_key(#[trigger] w[e]) && w[e] != missing_idx by {
                            assert(idxs.contains(w[e]));
                            let k = choose|k: int| 0 <= k < idxs.len() && idxs[k] == w[e];
                            assert(kk.dom().contains(idxs[k]));
                        }
                        assert(result@.len() == data.len());
                        assert forall|j: int| 0 <= j < data.len() implies #[trigger] kn[missing_idx][j] == data[j] ^ xor_at(kn, w, j) by {
                            assert forall|e: int| 0 <= e < w.len() implies byte_or_zero(kn, #[trigger] w[e], j) == byte_or_zero(kk, w[e], j) by {
                                assert(kk.contains_key(w[e]));
                            }
                            lemma_xor_agree(kn, kk, w, j);
                        }
                        assert(idxs.contains(missing_idx)) by {
                            lemma_missing_elems(kk.dom(), idxs);
                            assert(missing_of(kk.dom(), idxs)[0] == missing_idx);
                        }
                        assert(recovered_from(kn, before.pending()[i as int], missing_idx));
                        assert forall|k: usize| #[trigger] kn.contains_key(k) && !start.known().contains_key(k) implies exists|q: int| 0 <= q < start.pending().len() && recovered_from(kn, #[trigger] start.pending()[q], k) by {
                            if k == missing_idx {
                                let q0 = choose|q: int| 0 <= q < start.pending().len() && start.pending()[q] == before.pending()[i as int];
                                assert(recovered_from(kn, start.pending()[q0], k));
                            } else {
                                assert(kk.contains_key(k));
                                let q0 = choose|q: int| 0 <= q < start.pending().len() && recovered_from(kk, #[trigger] start.pending()[q], k);
                                let sp = start.pending()[q0];
                                let w2 = without(sp.0, k);
                                assert forall|j: int| 0 <= j < sp.1.len() implies #[trigger] kn[k][j] == sp.1[j] ^ xor_at(kn, w2, j) by {
                                    assert forall|e: int| 0 <= e < w2.len() implies byte_or_zero(kn, #[trigger] w2[e], j) == byte_or_zero(kk, w2[e], j) by {
                                        assert(kk.contains_key(w2[e]));
                                    }
                                    lemma_xor_agree(kn, kk, w2, j);
                                    assert(kk[k][j] == sp.1[j] ^ xor_at(kk, w2, j));
                                }
                                assert forall|e: int| 0 <= e < w2.len() implies kn.contains_key(#[trigger] w2[e]) by {
                                    assert(kk.contains_key(w2[e]));
                                }
                                assert(recovered_from(kn, sp, k));
                            }
                        }
                        assert(missing_of(kn.dom(), idxs).len() == 0);
                        assert forall|d: Set<usize>| kn.dom().subset_of(d) implies #[trigger] still_lacking(d, self.pending()) == still_lacking(d, start.pending()) by {
                            assert(kk.dom().subset_of(d));
                            assert(still_lacking(d, before.pending()) == still_lacking(d, start.pending()));
                            lemma_missing_mono(kn.dom(), d, idxs);
                            lemma_still_lacking_remove(d, before.pending(), i as int);
                        }
                        assert forall|d: Set<usize>| start.known().dom().subset_of(d) && #[trigger] peel_closed(d, start.pending()) implies kn.dom().subset_of(d) by {
                            assert(kk.dom().subset_of(d));
                            let q0 = choose|q: int| 0 <= q < start.pending().len() && start.pending()[q] == before.pending()[i as int];
                            assert(missing_of(d, start.pending()[q0].0).len() != 1);
                            lemma_missing_mono(kk.dom(), d, idxs);
                            if !d.contains(missing_idx) {
                                lemma_missing_complete(d, idxs, missing_idx);
                            }
                        }
                        assert forall|truth: Map<usize, Seq<u8>>, len: nat| state_consistent(start.known(), start.pending(), truth, len) implies #[trigger] state_consistent(self.known(), self.pending(), truth, len) by {
                            assert(state_consistent(before.known(), before.pending(), truth, len));
                            assert(packet_consistent(truth, len, idxs, data));
                            let w = without(idxs, missing_idx);
                            assert(truth.contains_key(missing_idx) && truth[missing_idx].len() == len) by {
                                let k = choose|k: int| 0 <= k < idxs.len() && idxs[k] == missing_idx;
                                assert(truth.contains_key(idxs[k]));
                            }
                            assert forall|j: int| 0 <= j < len implies #[trigger] result@[j] == truth[missing_idx][j] by {
                                assert forall|e: int| 0 <= e < w.len() implies byte_or_zero(before.known(), #[trigger] w[e], j) == byte_or_zero(truth, w[e], j) by {
                                    assert(idxs.contains(w[e]));
                                    let k = choose|k: int| 0 <= k < idxs.len() && idxs[k] == w[e];
                                    assert(before.known().dom().contains(idxs[k]));
                                }
                                lemma_xor_agree(before.known(), truth, w, j);
                                lemma_xor_without(truth, idxs, missing_idx, j);
                                let x = xor_at(truth, w, j);
                                let y = truth[missing_idx][j];
                                assert(data[j] == x ^ y);
                                assert(result@[j] == data[j] ^ x);
                                assert(((x ^ y) ^ x) == y) by (bit_vector);
                            }
                            assert(result@ =~= truth[missing_idx]);
                            assert forall|q: int| 0 <= q < self.pending().len() implies packet_consistent(truth, len, (#[trigger] self.pending()[q]).0, self.pending()[q].1) by {
                                if q < i {
                                    assert(self.pending()[q] == before.pending()[q]);
                                } else {
                                    assert(self.pending()[q] == before.pending()[q + 1]);
                                }
                            }
                        }
                    }
                } else if missing.len() == 0 {
                    self.coded_packets.remove(i);
                    proof {
                        assert(self.known() == before.known());
                        assert(pending_views(self.coded_packets@) =~= before.pending().remove(i as int));
                        assert forall|d: Set<usize>| self.known().dom().subset_of(d) implies #[trigger] still_lacking(d, self.pending()) == still_lacking(d, start.pending()) by {
                            assert(still_lacking(d, before.pending()) == still_lacking(d, start.pending()));
                            lemma_missing_mono(before.known().dom(), d, before.pending()[i as int].0);
                            lemma_still_lacking_remove(d, before.pending(), i as int);
                        }
                        assert forall|q: int| 0 <= q < start.pending().len() && !self.pending().contains(#[trigger] start.pending()[q]) implies missing_of(self.known().dom(), start.pending()[q].0).len() == 0 by {
                            let sp = start.pending()[q];
                            if sp == before.pending()[i as int] {
                            } else if before.pending().contains(sp) {
                                let j = choose|j: int| 0 <= j < before.pending().len() && before.pending()[j] == sp;
                                if j < i {
                                    assert(self.pending()[j] == sp);
                                } else {
                                    assert(self.pending()[j - 1] == sp);
                                }
                            }
                        }
                        assert forall|q: int| 0 <= q < self.pending().len() implies start.pending().contains(#[trigger] self.pending()[q]) by {
                            if q < i {
                                assert(self.pending()[q] == before.pending()[q]);
                            } else {
                                assert(self.pending()[q] == before.pending()[q + 1]);
                            }
                        }
                        if !progress {
                            assert forall|j: int| i <= j < self.pending().len() implies (#[trigger] missing_of(self.known().dom(), self.pending()[j].0)).len() >= 2 by {
                                assert(self.pending()[j] == before.pending()[j + 1]);
                            }
                        }
                        assert forall|truth: Map<usize, Seq<u8>>, len: nat| state_consistent(start.known(), start.pending(), truth, len) implies #[trigger] state_consistent(self.known(), self.pending(), truth, len) by {
                            assert(state_consistent(before.known(), before.pending(), truth, len));
                            assert forall|q: int| 0 <= q < self.pending().len() implies packet_consistent(truth, len, (#[trigger] self.pending()[q]).0, self.pending()[q].1) by {
                                if q < i {
                                    assert(self.pending()[q] == before.pending()[q]);
                                } else {
                                    assert(self.pending()[q] == before.pending()[q + 1]);
                                }
                            }
                        }
                    }
                }
            }
        }
        proof {
            assert forall|q: int| 0 <= q < self.pending().len() implies #[trigger] missing_of(self.known().dom(), self.pending()[q].0).len() > 0 by {
                assert(missing_of(self.known().dom(), self.pending()[q].0).len() >= 2);
            }
            lemma_still_lacking_all(self.known().dom(), self.pending());
            assert(still_lacking(self.known().dom(), self.pending()) == still_lacking(self.known().dom(), start.pending()));
            assert(start.known().dom().subset_of(self.known().dom()));
            assert forall|q: int| 0 <= q < start.pending().len() && #[trigger] missing_of(start.known().dom(), start.pending()[q].0).len() == 1 implies self.known().contains_key(missing_of(start.known().dom(), start.pending()[q].0)[0]) by {
                let idxs = start.pending()[q].0;
                let m = missing_of(start.known().dom(), idxs)[0];
                lemma_missing_mono(start.known().dom(), self.known().dom(), idxs);
                if self.pending().contains(start.pending()[q]) {
                    let j = choose|j: int| 0 <= j < self.pending().len() && self.pending()[j] == start.pending()[q];
                    assert(missing_of(self.known().dom(), self.pending()[j].0).len() >= 2);
                }
                assert(missing_of(self.known().dom(), idxs).len() == 0);
                lemma_missing_elems(start.known().dom(), idxs);
                if !self.known().contains_key(m) {
                    lemma_missing_complete(self.known().dom(), idxs, m);
                }
            }
        }
    }

    /// The file that `finalize` gives back: nothing before as many chunks
    /// are known as the file has, or while one of chunks `0..total` is
    /// unknown; otherwise those chunks in order, cut to the announced size,
    /// provided the announced checksum, if any, is theirs.
    pub open spec fn finalized_file(&self) -> Option<Seq<u8>> {
        if self.recovered() < self.total() {
            None
        } else if !(forall|i: usize| (i as nat) < self.total() ==> #[trigger] self.known().contains_key(i)) {
            None
        } else {
            let data = prefix_upto(concat_chunks(self.known(), self.total()), self.metadata().unwrap().file_size);
            match self.metadata().unwrap().file_checksum {
                Some(expected) => if fnv_checksum_text(data) == expected {
                    Some(data)
                } else {
                    None
                },
                None => Some(data),
            }
        }
    }

    /// The checksum text of `data`.
    pub fn calculate_checksum(&self, data: &Vec<u8>) -> (r: String)
        ensures
            r@ == fnv_checksum_text(data@),
    {
        let mut hash: u32 = 2166136261;
        let mut i: usize = 0;
        while i < data.len()
            invariant
                i <= data.len(),
                hash == fnv1a32(data@.take(i as int)),
            decreases data.len() - i,
        {
            proof {
                assert(data@.take(i + 1).drop_last() =~= data@.take(i as int));
            }
            hash ^= data[i] as u32;
            hash = hash.wrapping_mul(16777619);
            i += 1;
        }
        proof {
            assert(data@.take(data@.len() as int) =~= data@);
        }
        let digits = hex_chars(hash as u64);
        string_from_chars(&digits)
    }

    /// Whether chunks `0..total` are all known.
    fn chunks_present(&self) -> (r: bool)
        requires
            self.wf(),
        ensures
            r == (forall|i: usize| (i as nat) < self.total() ==> #[trigger] self.known().contains_key(i)),
    {
        let mut i: usize = 0;
        proof {
            assert(self.known().dom() =~= self.source_chunks@.dom());
        }
        while i < self.total_chunks
            invariant
                i <= self.total_chunks,
                self.known().dom() == self.source_chunks@.dom(),
                forall|k: usize| k < i ==> #[trigger] self.known().contains_key(k),
            decreases self.total_chunks - i,
        {
            if !self.source_chunks.contains_key(&i) {
                return false;
            }
            i += 1;
        }
        true
    }

    /// Chunks `0..total` in order, cut to `size` bytes.
    fn assemble(&self, size: usize) -> (r: Vec<u8>)
        requires
            self.wf(),
            forall|i: usize| (i as nat) < self.total() ==> #[trigger] self.known().contains_key(i),
        ensures
            r@ == prefix_upto(concat_chunks(self.known(), self.total()), size as nat),
    {
        let mut file_data: Vec<u8> = Vec::new();
        let ghost km = self.known();
        let mut i: usize = 0;
        while i < self.total_chunks
            invariant
                i <= self.total_chunks,
                km == self.known(),
                km == chunk_map_view(self.source_chunks@),
                forall|k: usize| (k as nat) < self.total() ==> #[trigger] km.contains_key(k),
                file_data@ == prefix_upto(concat_chunks(km, i as nat), size as nat),
            decreases self.total_chunks - i,
        {
            proof {
                assert(km.contains_key(i));
                assert(self.source_chunks@.contains_key(i));
            }
            let chunk = match self.source_chunks.get(&i) {
                Some(c) => c,
                None => {
                    return file_data;
                },
            };
            let ghost c = concat_chunks(km, i as nat);
            proof {
                assert(km[i] == chunk@);
                lemma_prefix_step(c, chunk@, size as nat);
            }
            append_within(&mut file_data, chunk, size);
            i += 1;
        }
        file_data
    }

    /// The file assembled from the chunks, when complete and, where a
    /// checksum was announced, verified.
    #[verifier::rlimit(40)]
    pub fn finalize(&self) -> (r: Option<Vec<u8>>)
        requires
            self.wf(),
            self.is_initialized(),
        ensures
            match r {
                Some(v) => self.finalized_file() == Some(v@),
                None => self.finalized_file() is None,
            },
    {
        if !self.is_complete() {
            return None;
        }
        if !self.chunks_present() {
            return None;
        }
        let metadata = match &self.meta_data {
            Some(m) => m,
            None => {
                return None;
            },
        };
        let mut file_data = self.assemble(metadata.file_size);
        let ghost data = prefix_upto(concat_chunks(self.known(), self.total()), metadata.file_size as nat);
        proof {
            assert(self.metadata() == Some(metadata@));
            assert(file_data@ == data);
            assert(data.len() <= metadata.file_size);
        }
        file_data.truncate(metadata.file_size);
        proof {
            assert(file_data@ == data);
        }
        match &metadata.file_checksum {
            Some(expected) => {
                let calculated = self.calculate_checksum(&file_data);
                if calculated == *expected {
                    Some(file_data)
                } else {
                    None
                }
            },
            None => Some(file_data),
        }
    }

    /// The indices below the chunk count whose chunk is not known, ascending.
    pub fn missing_chunks(&self) -> (r: Vec<usize>)
        ensures
            forall|i: int| 0 <= i < r@.len() ==> (#[trigger] r@[i]) < self.total() && !self.known().contains_key(r@[i]),
            forall|i: int, j: int| 0 <= i < j < r@.len() ==> r@[i] < r@[j],
            forall|k: usize| k < self.total() && !self.known().contains_key(k) ==> r@.contains(k),
    {
        let mut r: Vec<usize> = Vec::new();
        let mut i: usize = 0;
        let ghost dom = self.source_chunks@.dom();
        proof {
            assert(self.known().dom() =~= dom);
        }
        while i < self.total_chunks
            invariant
                i <= self.total_chunks,
                dom == self.source_chunks@.dom(),
                forall|t: int| 0 <= t < r@.len() ==> (#[trigger] r@[t]) < i && !dom.contains(r@[t]),
                forall|a: int, b: int| 0 <= a < b < r@.len() ==> r@[a] < r@[b],
                forall|k: usize| k < i && !dom.contains(k) ==> r@.contains(k),
            decreases self.total_chunks - i,
        {
            let ghost before = r@;
            let present = self.source_chunks.contains_key(&i);
            if !present {
                r.push(i);
            }
            proof {
                assert forall|k: usize| k < i + 1 && !dom.contains(k) implies r@.contains(k) by {
                    if k < i {
                        assert(before.contains(k));
                        let t = choose|t: int| 0 <= t < before.len() && before[t] == k;
                        assert(r@[t] == k);
                    } else {
                        assert(r@[r@.len() - 1] == i);
                    }
                }
            }
            i += 1;
        }
        r
    }
}

/// A decoder that knows every chunk of a file, each chunk being the file's
/// bytes at its place (`chunk_len` bytes per chunk, the last one padded),
/// gives the file back when the announced size is the file's size and the
/// announced checksum, if there is one, is the file's.
pub proof fn lemma_finalize_gives_original(d: FountainDecoder, original: Seq<u8>, chunk_len: nat)
    requires
        d.wf(),
        d.is_initialized(),
        d.total() * chunk_len >= original.len(),
        d.metadata().unwrap().file_size == original.len(),
        forall|i: usize| (i as nat) < d.total() ==> #[trigger] d.known().contains_key(i) && d.known()[i].len() == chunk_len,
        forall|i: usize, q: int| (i as nat) < d.total() && 0 <= q < chunk_len && i * chunk_len + q < original.len() ==> #[trigger] d.known()[i][q] == original[i * chunk_len + q],
        d.metadata().unwrap().file_checksum matches Some(c) ==> c == fnv_checksum_text(original),
    ensures
        d.finalized_file() == Some(original),
{
    let n = d.total();
    let km = d.known();
    d.lemma_wf_counts();
    lemma_usize_range_len(n);
    let range = Set::new(|i: usize| (i as nat) < n);
    assert(range.subset_of(km.dom()));
    vstd::set_lib::lemma_len_subset(range, km.dom());
    lemma_concat_chunks(km, n, chunk_len);
    let c = concat_chunks(km, n);
    let size = d.metadata().unwrap().file_size;
    assert(prefix_upto(c, size) =~= original) by {
        assert forall|p: int| 0 <= p < original.len() implies #[trigger] c[p] == original[p] by {
            let L = chunk_len as int;
            if chunk_len == 0 {
                assert(n * chunk_len == 0) by (nonlinear_arith)
                    requires
                        chunk_len == 0,
                ;
                assert(false);
            }
            let i = p / L;
            let q = p % L;
            assert(p == i * L + q && 0 <= q < L) by (nonlinear_arith)
                requires
                    L > 0,
                    i == p / L,
                    q == p % L,
            ;
            assert(i < n) by (nonlinear_arith)
                requires
                    p == i * L + q,
                    0 <= q,
                    p < n * L,
                    L > 0,
            ;
            assert(0 <= i);
            let iu = i as usize;
            assert(iu * chunk_len + q == p);
            assert(c[iu * chunk_len + q] == km[iu][q]);
        }
    }
}

/// A data packet with systematic chunks, taken in a second time, leaves
/// the decoder as its first arrival left it: the same chunks, the same
/// pending fountain packets in the same order, the same count.
pub proof fn lemma_systematic_packet_repeat(d0: FountainDecoder, p: PacketModel, d1: FountainDecoder, d2: FountainDecoder)
    requires
        d1.wf(),
        d2.wf(),
        p.systematic.len() > 0,
        FountainDecoder::absorbs(d0, p, d1),
        FountainDecoder::absorbs(d1, p, d2),
    ensures
        d2.known() == d1.known(),
        d2.pending() == d1.pending(),
        d2.recovered() == d1.recovered(),
{
    d1.lemma_wf_counts();
    d2.lemma_wf_counts();
    if d0.is_initialized() {
        let k0 = absorb_systematic(d0.known(), p.systematic);
        lemma_systematic_keeps_known(d0.known(), p.systematic);
        assert forall|i: int| 0 <= i < p.systematic.len() implies d1.known().contains_key(#[trigger] p.systematic[i].0) by {
            assert(k0.contains_key(p.systematic[i].0));
        }
        lemma_systematic_known_noop(d1.known(), p.systematic);
        let k1 = d1.known();
        let p1 = d1.pending();
        assert(fully_peeled(k1, p1));
        assert(peel_closed(k1.dom(), p1)) by {
            assert forall|i: int| 0 <= i < p1.len() implies #[trigger] missing_of(k1.dom(), p1[i].0).len() != 1 by {
                assert(missing_of(k1.dom(), p1[i].0).len() >= 2);
            }
        }
        assert(k1.dom().subset_of(k1.dom()));
        assert(d2.known().dom().subset_of(k1.dom()));
        assert(d2.known() =~= k1);
        assert forall|i: int| 0 <= i < p1.len() implies #[trigger] missing_of(k1.dom(), p1[i].0).len() > 0 by {
            assert(missing_of(k1.dom(), p1[i].0).len() >= 2);
        }
        lemma_still_lacking_all(k1.dom(), p1);
    }
}

// ------------------------------------------------------------------
// Reading frames
// ------------------------------------------------------------------

/// What a metadata frame `M:version:name:type:size:count:...` announces,
/// or the text of the error that ends its reading. The name and type are
/// percent-decoded; field 13, when present and not empty, is the file's
/// checksum.
pub open spec fn parse_metadata_frame(s: Seq<char>) -> Result<MetadataModel, Seq<char>> {
    let parts = split_on(s, ':');
    if parts.len() < 10 {
        Err("Invalid metadata format"@)
    } else {
        match url_decoded(parts[2]) {
            Err(e) => Err(e),
            Ok(name) => match url_decoded(parts[3]) {
                Err(e) => Err(e),
                Ok(ty) => match parse_unsigned(parts[4], usize::MAX as nat) {
                    Err(k) => Err(int_error_text(k)),
                    Ok(size) => match parse_unsigned(parts[5], usize::MAX as nat) {
                        Err(k) => Err(int_error_text(k)),
                        Ok(count) => Ok(
                            MetadataModel {
                                version: parts[1],
                                file_name: name,
                                file_type: ty,
                                file_size: size,
                                chunks_count: count,
                                file_checksum: if parts.len() > 13 && parts[13].len() > 0 {
                                    Some(parts[13])
                                } else {
                                    None
                                },
                            },
                        ),
                    },
                },
            },
        }
    }
}

/// One `index:base64` record of a systematic packet taken into `acc`: a
/// record without `:` or with empty data adds nothing, as does data that is
/// not base64; an index that is not a number ends the reading.
pub open spec fn take_record(
    acc: Result<Seq<(usize, Seq<u8>)>, Seq<char>>,
    record: Seq<char>,
) -> Result<Seq<(usize, Seq<u8>)>, Seq<char>> {
    match acc {
        Err(e) => Err(e),
        Ok(cs) => match split_once(record, ':') {
            None => Ok(cs),
            Some((idx_text, data)) => match parse_unsigned(idx_text, usize::MAX as nat) {
                Err(k) => Err(int_error_text(k)),
                Ok(idx) => if data.len() == 0 {
                    Ok(cs)
                } else {
                    match base64_standard_decode(data) {
                        Ok(bytes) => Ok(cs.push((idx as usize, bytes))),
                        Err(_) => Ok(cs),
                    }
                },
            },
        },
    }
}

/// The systematic chunks that the records carry, in order.
pub open spec fn take_records(records: Seq<Seq<char>>) -> Result<Seq<(usize, Seq<u8>)>, Seq<char>>
    decreases records.len(),
{
    if records.len() == 0 {
        Ok(Seq::empty())
    } else {
        take_record(take_records(records.drop_last()), records.last())
    }
}

/// The numbers that the pieces hold, or the error of the first that holds none.
pub open spec fn index_list(pieces: Seq<Seq<char>>) -> Result<Seq<usize>, Seq<char>>
    decreases pieces.len(),
{
    if pieces.len() == 0 {
        Ok(Seq::empty())
    } else {
        match index_list(pieces.drop_last()) {
            Err(e) => Err(e),
            Ok(v) => match parse_unsigned(pieces.last(), usize::MAX as nat) {
                Err(k) => Err(int_error_text(k)),
                Ok(x) => Ok(v.push(x as usize)),
            },
        }
    }
}

pub open spec fn empty_packet(id: nat) -> PacketModel {
    PacketModel { packet_id: id, source_chunks: Seq::empty(), systematic: Seq::empty(), xor_data: None }
}

/// What a data frame `D:id:...:count:payload` carries, or the text of the
/// error that ends its reading. The payload is everything after the sixth
/// colon: records separated by `|`, or a single record, make a systematic
/// packet; indices separated by `,` make a fountain packet whose data, when
/// the frame has an eighth field, is that field decoded from base64.
pub open spec fn parse_data_frame(s: Seq<char>) -> Result<PacketModel, Seq<char>> {
    let parts = split_on(s, ':');
    if parts.len() < 6 {
        Err("Invalid data packet format"@)
    } else {
        match parse_unsigned(parts[1], usize::MAX as nat) {
            Err(k) => Err(int_error_text(k)),
            Ok(id) => if parts.len() < 7 {
                Ok(empty_packet(id))
            } else {
                match parse_unsigned(parts[5], usize::MAX as nat) {
                    Err(k) => Err(int_error_text(k)),
                    Ok(_) => {
                        let all = join_on(parts.skip(6), ':');
                        if all.contains('|') || !all.contains(',') {
                            match take_records(split_on(all, '|')) {
                                Err(e) => Err(e),
                                Ok(cs) => Ok(
                                    PacketModel {
                                        packet_id: id,
                                        source_chunks: cs.map_values(|c: (usize, Seq<u8>)| c.0),
                                        systematic: cs,
                                        xor_data: None,
                                    },
                                ),
                            }
                        } else {
                            match index_list(split_on(all, ',')) {
                                Err(e) => Err(e),
                                Ok(v) => Ok(
                                    PacketModel {
                                        packet_id: id,
                                        source_chunks: v,
                                        systematic: Seq::empty(),
                                        xor_data: if parts.len() >= 8 {
                                            match base64_standard_decode(parts[7]) {
                                                Ok(b) => Some(b),
                                                Err(_) => None,
                                            }
                                        } else {
                                            None
                                        },
                                    },
                                ),
                            }
                        }
                    },
                }
            },
        }
    }
}

fn text_of(cs: &Vec<char>) -> (r: String)
    ensures
        r@ == cs@,
{
    string_from_chars(cs)
}

/// Reads a metadata frame.
pub fn parse_metadata(meta: &Vec<char>) -> (r: Result<FileMetadata, String>)
    ensures
        match r {
            Ok(m) => parse_metadata_frame(meta@) == Ok::<MetadataModel, Seq<char>>(m@),
            Err(e) => parse_metadata_frame(meta@) == Err::<MetadataModel, Seq<char>>(e@),
        },
{
    let parts = split_chars(meta, ':');
    proof {
        assert(views(parts@).len() == parts@.len());
    }
    if parts.len() < 10 {
        return Err(String::from_str("Invalid metadata format"));
    }
    proof {
        assert(views(parts@)[1] == parts@[1]@);
        assert(views(parts@)[2] == parts@[2]@);
        assert(views(parts@)[3] == parts@[3]@);
        assert(views(parts@)[4] == parts@[4]@);
        assert(views(parts@)[5] == parts@[5]@);
    }
    let version = text_of(&parts[1]);
    let name_text = text_of(&parts[2]);
    let file_name = match decode_url(name_text.as_str()) {
        Ok(n) => n,
        Err(e) => {
            return Err(e);
        },
    };
    let type_text = text_of(&parts[3]);
    let file_type = match decode_url(type_text.as_str()) {
        Ok(t) => t,
        Err(e) => {
            return Err(e);
        },
    };
    let file_size = match parse_usize(&parts[4]) {
        Ok(v) => v,
        Err(k) => {
            return Err(int_error_message(k));
        },
    };
    let chunks_count = match parse_usize(&parts[5]) {
        Ok(v) => v,
        Err(k) => {
            return Err(int_error_message(k));
        },
    };
    let file_checksum = if parts.len() > 13 && parts[13].len() > 0 {
        proof {
            assert(views(parts@)[13] == parts@[13]@);
        }
        Some(text_of(&parts[13]))
    } else {
        proof {
            if parts@.len() > 13 {
                assert(views(parts@)[13] == parts@[13]@);
            }
        }
        None
    };
    Ok(FileMetadata { version, file_name, file_type, file_size, chunks_count, file_checksum })
}

proof fn lemma_take_records_err(records: Seq<Seq<char>>, k: int)
    requires
        0 <= k <= records.len(),
        take_records(records.take(k)) is Err,
    ensures
        take_records(records) == take_records(records.take(k)),
    decreases records.len() - k,
{
    if k < records.len() {
        let pre = records.take(k + 1);
        assert(pre.drop_last() =~= records.take(k));
        lemma_take_records_err(records, k + 1);
    } else {
        assert(records.take(k) =~= records);
    }
}

proof fn lemma_index_list_err(pieces: Seq<Seq<char>>, k: int)
    requires
        0 <= k <= pieces.len(),
        index_list(pieces.take(k)) is Err,
    ensures
        index_list(pieces) == index_list(pieces.take(k)),
    decreases pieces.len() - k,
{
    if k < pieces.len() {
        let pre = pieces.take(k + 1);
        assert(pre.drop_last() =~= pieces.take(k));
        lemma_index_list_err(pieces, k + 1);
    } else {
        assert(pieces.take(k) =~= pieces);
    }
}

/// Reads the records of a systematic packet.
fn parse_records(records: &Vec<Vec<char>>) -> (r: Result<Vec<SystematicChunk>, String>)
    ensures
        match r {
            Ok(cs) => take_records(views(records@)) == Ok::<Seq<(usize, Seq<u8>)>, Seq<char>>(chunk_views(cs@)),
            Err(e) => take_records(views(records@)) == Err::<Seq<(usize, Seq<u8>)>, Seq<char>>(e@),
        },
{
    let mut cs: Vec<SystematicChunk> = Vec::new();
    let mut t: usize = 0;
    proof {
        assert(views(records@).take(0) =~= Seq::<Seq<char>>::empty());
        assert(chunk_views(cs@) =~= Seq::<(usize, Seq<u8>)>::empty());
    }
    while t < records.len()
        invariant
            t <= records.len(),
            take_records(views(records@).take(t as int)) == Ok::<Seq<(usize, Seq<u8>)>, Seq<char>>(chunk_views(cs@)),
        decreases records.len() - t,
    {
        let ghost acc = chunk_views(cs@);
        proof {
            let pre = views(records@).take(t + 1);
            assert(pre.drop_last() =~= views(records@).take(t as int));
            assert(pre.last() == records@[t as int]@);
        }
        match split_once_chars(&records[t], ':') {
            None => {},
            Some((idx_text, data)) => {
                let idx = match parse_usize(&idx_text) {
                    Ok(v) => v,
                    Err(k) => {
                        proof {
                            lemma_take_records_err(views(records@), t + 1);
                        }
                        return Err(int_error_message(k));
                    },
                };
                if data.len() > 0 {
                    let data_text = text_of(&data);
                    match decode_base64(data_text.as_str()) {
                        Ok(bytes) => {
                            let ghost b = bytes@;
                            cs.push(SystematicChunk { chunk_index: idx, chunk_data: bytes });
                            proof {
                                assert(chunk_views(cs@) =~= acc.push((idx, b)));
                            }
                        },
                        Err(_) => {},
                    }
                }
            },
        }
        t += 1;
    }
    proof {
        assert(views(records@).take(records@.len() as int) =~= views(records@));
    }
    Ok(cs)
}

/// Reads a comma-separated list of chunk indices.
fn parse_index_list(pieces: &Vec<Vec<char>>) -> (r: Result<Vec<usize>, String>)
    ensures
        match r {
            Ok(v) => index_list(views(pieces@)) == Ok::<Seq<usize>, Seq<char>>(v@),
            Err(e) => index_list(views(pieces@)) == Err::<Seq<usize>, Seq<char>>(e@),
        },
{
    let mut v: Vec<usize> = Vec::new();
    let mut t: usize = 0;
    while t < pieces.len()
        invariant
            t <= pieces.len(),
            index_list(views(pieces@).take(t as int)) == Ok::<Seq<usize>, Seq<char>>(v@),
        decreases pieces.len() - t,
    {
        proof {
            let pre = views(pieces@).take(t + 1);
            assert(pre.drop_last() =~= views(pieces@).take(t as int));
            assert(pre.last() == pieces@[t as int]@);
        }
        match parse_usize(&pieces[t]) {
            Ok(x) => {
                v.push(x);
            },
            Err(k) => {
                proof {
                    lemma_index_list_err(views(pieces@), t + 1);
                }
                return Err(int_error_message(k));
            },
        }
        t += 1;
    }
    proof {
        assert(views(pieces@).take(pieces@.len() as int) =~= views(pieces@));
    }
    Ok(v)
}

/// Reads a data frame.
pub fn parse_data_packet(data: &Vec<char>) -> (r: Result<DataPacket, String>)
    ensures
        match r {
            Ok(p) => parse_data_frame(data@) == Ok::<PacketModel, Seq<char>>(p@),
            Err(e) => parse_data_frame(data@) == Err::<PacketModel, Seq<char>>(e@),
        },
{
    let parts = split_chars(data, ':');
    proof {
        assert(views(parts@).len() == parts@.len());
    }
    if parts.len() < 6 {
        return Err(String::from_str("Invalid data packet format"));
    }
    proof {
        assert(views(parts@)[1] == parts@[1]@);
        assert(views(parts@)[5] == parts@[5]@);
    }
    let packet_id = match parse_usize(&parts[1]) {
        Ok(v) => v,
        Err(k) => {
            return Err(int_error_message(k));
        },
    };
    let mut packet = DataPacket {
        packet_id,
        source_chunks: Vec::new(),
        systematic_data_chunks: Vec::new(),
        xor_data: None,
    };
    if parts.len() >= 7 {
        match parse_usize(&parts[5]) {
            Ok(_) => {},
            Err(k) => {
                return Err(int_error_message(k));
            },
        }
        let all_data_part = join_from(&parts, 6, ':');
        if contains_char(&all_data_part, '|') || !contains_char(&all_data_part, ',') {
            let records = split_chars(&all_data_part, '|');
            let chunks = match parse_records(&records) {
                Ok(cs) => cs,
                Err(e) => {
                    return Err(e);
                },
            };
            let mut idxs: Vec<usize> = Vec::new();
            let mut t: usize = 0;
            while t < chunks.len()
                invariant
                    t <= chunks.len(),
                    idxs@ == chunk_views(chunks@).take(t as int).map_values(|c: (usize, Seq<u8>)| c.0),
                decreases chunks.len() - t,
            {
                idxs.push(chunks[t].chunk_index);
                proof {
                    assert(chunk_views(chunks@).take(t + 1).map_values(|c: (usize, Seq<u8>)| c.0) =~= chunk_views(chunks@).take(t as int).map_values(|c: (usize, Seq<u8>)| c.0).push(chunks@[t as int].chunk_index));
                }
                t += 1;
            }
            proof {
                assert(chunk_views(chunks@).take(chunks@.len() as int) =~= chunk_views(chunks@));
            }
            packet.source_chunks = idxs;
            packet.systematic_data_chunks = chunks;
        } else {
            let pieces = split_chars(&all_data_part, ',');
            packet.source_chunks = match parse_index_list(&pieces) {
                Ok(v) => v,
                Err(e) => {
                    return Err(e);
                },
            };
            if parts.len() >= 8 {
                proof {
                    assert(views(parts@)[7] == parts@[7]@);
                }
                let xor_text = text_of(&parts[7]);
                match decode_base64(xor_text.as_str()) {
                    Ok(xor) => {
                        packet.xor_data = Some(xor);
                    },
                    Err(_) => {},
                }
            }
        }
    }
    proof {
        if packet.systematic_data_chunks@.len() == 0 {
            assert(chunk_views(packet.systematic_data_chunks@) =~= Seq::<(usize, Seq<u8>)>::empty());
        }
    }
    Ok(packet)
}

// ------------------------------------------------------------------
// Routing frames to files
// ------------------------------------------------------------------

/// The outcome of one QR payload.
#[derive(Debug)]
pub struct ProcessResult {
    pub is_valid: bool,
    pub qr_type: String,
    pub reason: Option<String>,
}

impl View for ProcessResult {
    type V = (bool, Seq<char>, Option<Seq<char>>);

    open spec fn view(&self) -> (bool, Seq<char>, Option<Seq<char>>) {
        (self.is_valid, self.qr_type@, opt_view(self.reason))
    }
}

/// A file that became complete and passed its checksum, to be written as
/// `file_name` under `output_dir`.
#[derive(Debug)]
pub struct FinishedFile {
    pub file_name: String,
    pub output_dir: String,
    pub data: Vec<u8>,
}

impl View for FinishedFile {
    type V = (Seq<char>, Seq<char>, Seq<u8>);

    open spec fn view(&self) -> (Seq<char>, Seq<char>, Seq<u8>) {
        (self.file_name@, self.output_dir@, self.data@)
    }
}

/// Routes QR payloads to one fountain decoder per announced file: data
/// frames go to the file of the latest metadata frame.
pub struct QRFileDecoder {
    file_decoders: Vec<(String, FountainDecoder)>,
    current_active_decoder: Option<String>,
    output_dir: String,
    finished_files: Vec<FinishedFile>,
}

pub open spec fn result_view(valid: bool, kind: Seq<char>, reason: Option<Seq<char>>) -> (bool, Seq<char>, Option<Seq<char>>) {
    (valid, kind, reason)
}

impl QRFileDecoder {
    /// The announced file names, in the order they were first announced.
    pub closed spec fn names(&self) -> Seq<Seq<char>> {
        self.file_decoders@.map_values(|e: (String, FountainDecoder)| e.0@)
    }

    /// The decoder of each announced file, in the same order.
    pub closed spec fn decoders(&self) -> Seq<FountainDecoder> {
        self.file_decoders@.map_values(|e: (String, FountainDecoder)| e.1)
    }

    /// The file that data frames go to.
    pub closed spec fn active(&self) -> Option<Seq<char>> {
        opt_view(self.current_active_decoder)
    }

    /// Where finished files are to be written.
    pub closed spec fn out_dir(&self) -> Seq<char> {
        self.output_dir@
    }

    /// The finished files not yet taken, in the order they finished.
    pub closed spec fn finished(&self) -> Seq<(Seq<char>, Seq<char>, Seq<u8>)> {
        self.finished_files@.map_values(|f: FinishedFile| f@)
    }

    /// Names are distinct, every decoder is set up and sound, and the
    /// active file is an announced one.
    pub closed spec fn wf(&self) -> bool {
        &&& self.names().no_duplicates()
        &&& forall|i: int| 0 <= i < self.file_decoders@.len() ==> (#[trigger] self.file_decoders@[i]).1.wf() && self.file_decoders@[i].1.is_initialized()
        &&& self.active() matches Some(n) ==> self.names().contains(n)
    }

    pub proof fn lemma_wf_decoders(&self)
        requires
            self.wf(),
        ensures
            self.names().len() == self.decoders().len(),
            forall|i: int| 0 <= i < self.decoders().len() ==> (#[trigger] self.decoders()[i]).wf() && self.decoders()[i].is_initialized(),
    {
        assert forall|i: int| 0 <= i < self.decoders().len() implies (#[trigger] self.decoders()[i]).wf() && self.decoders()[i].is_initialized() by {
            assert(self.decoders()[i] == self.file_decoders@[i].1);
        }
    }

    /// A decoder with no file announced, writing to `./decoded_files`.
    pub fn new() -> (r: Self)
        ensures
            r.wf(),
            r.names().len() == 0,
            r.active() is None,
            r.out_dir() == "./decoded_files"@,
            r.finished().len() == 0,
    {
        let r = QRFileDecoder {
            file_decoders: Vec::new(),
            current_active_decoder: None,
            output_dir: String::from_str("./decoded_files"),
            finished_files: Vec::new(),
        };
        proof {
            assert(r.names() =~= Seq::<Seq<char>>::empty());
            assert(r.finished() =~= Seq::<(Seq<char>, Seq<char>, Seq<u8>)>::empty());
        }
        r
    }

    /// The position of the decoder of `name`.
    fn find_decoder(&self, name: &String) -> (r: Option<usize>)
        ensures
            match r {
                Some(i) => i < self.names().len() && self.names()[i as int] == name@,
                None => !self.names().contains(name@),
            },
    {
        let mut i: usize = 0;
        while i < self.file_decoders.len()
            invariant
                i <= self.file_decoders.len(),
                self.names().len() == self.file_decoders@.len(),
                forall|k: int| 0 <= k < i ==> self.names()[k] != name@,
            decreases self.file_decoders.len() - i,
        {
            proof {
                assert(self.names()[i as int] == self.file_decoders@[i as int].0@);
            }
            if self.file_decoders[i].0 == *name {
                return Some(i);
            }
            i += 1;
        }
        None
    }

    /// The announced files and their decoders.
    pub fn file_decoders(&self) -> (r: &Vec<(String, FountainDecoder)>)
        ensures
            r@.map_values(|e: (String, FountainDecoder)| e.0@) == self.names(),
            r@.map_values(|e: (String, FountainDecoder)| e.1) == self.decoders(),
    {
        &self.file_decoders
    }

    /// Where finished files are to be written.
    pub fn output_dir(&self) -> (r: &String)
        ensures
            r@ == self.out_dir(),
    {
        &self.output_dir
    }

    /// Hands over the finished files gathered so far.
    pub fn take_finished_files(&mut self) -> (r: Vec<FinishedFile>)
        ensures
            r@.map_values(|f: FinishedFile| f@) == old(self).finished(),
            final(self).finished().len() == 0,
            final(self).names() == old(self).names(),
            final(self).decoders() == old(self).decoders(),
            final(self).active() == old(self).active(),
            final(self).out_dir() == old(self).out_dir(),
            old(self).wf() ==> final(self).wf(),
    {
        let mut taken: Vec<FinishedFile> = Vec::new();
        std::mem::swap(&mut taken, &mut self.finished_files);
        proof {
            assert(self.finished() =~= Seq::<(Seq<char>, Seq<char>, Seq<u8>)>::empty());
        }
        taken
    }

    /// What a metadata frame `m` does: the file is announced, with a fresh
    /// decoder, unless it was announced before, and it becomes the active
    /// file.
    pub open spec fn announces(old: QRFileDecoder, m: MetadataModel, new: QRFileDecoder) -> bool {
        &&& new.active() == Some(m.file_name)
        &&& new.out_dir() == old.out_dir()
        &&& new.finished() == old.finished()
        &&& if old.names().contains(m.file_name) {
            new.names() == old.names() && new.decoders() == old.decoders()
        } else {
            &&& new.names() == old.names().push(m.file_name)
            &&& new.decoders().len() == old.decoders().len() + 1
            &&& new.decoders().take(old.decoders().len() as int) == old.decoders()
            &&& new.decoders().last().is_initialized()
            &&& new.decoders().last().metadata() == Some(m)
            &&& new.decoders().last().total() == m.chunks_count
            &&& new.decoders().last().known() == Map::<usize, Seq<u8>>::empty()
            &&& new.decoders().last().pending().len() == 0
        }
    }

    /// What a data packet `p` does: nothing while no file is active;
    /// otherwise the active file's decoder takes the packet in, and, when
    /// that decoder is then complete and gives a file back, the file is
    /// added to the finished ones.
    pub open spec fn routes(old: QRFileDecoder, p: PacketModel, new: QRFileDecoder) -> bool {
        &&& new.active() == old.active()
        &&& new.out_dir() == old.out_dir()
        &&& new.names() == old.names()
        &&& new.decoders().len() == old.decoders().len()
        &&& match old.active() {
            None => new.decoders() == old.decoders() && new.finished() == old.finished(),
            Some(name) => exists|i: int| 0 <= i < old.names().len() && old.names()[i] == name && {
                &&& forall|j: int| 0 <= j < old.decoders().len() && j != i ==> new.decoders()[j] == old.decoders()[j]
                &&& FountainDecoder::absorbs(old.decoders()[i], p, new.decoders()[i])
                &&& new.finished() == if new.decoders()[i].recovered() >= new.decoders()[i].total() && new.decoders()[i].finalized_file() is Some {
                    old.finished().push((name, old.out_dir(), new.decoders()[i].finalized_file().unwrap()))
                } else {
                    old.finished()
                }
            },
        }
    }

    fn process_metadata_packet(&mut self, meta_string: &Vec<char>, frame_index: usize) -> (r: Result<ProcessResult, String>)
        requires
            old(self).wf(),
        ensures
            final(self).wf(),
            match parse_metadata_frame(meta_string@) {
                Err(e) => r matches Err(m) && m@ == e && *final(self) == *old(self),
                Ok(m) => r matches Ok(res) && res@ == result_view(true, "metadata"@, None) && Self::announces(*old(self), m, *final(self)),
            },
    {
        let metadata = match parse_metadata(meta_string) {
            Ok(m) => m,
            Err(e) => {
                return Err(e);
            },
        };
        let ghost m = metadata@;
        let name = copy_string(&metadata.file_name);
        let ghost old_self = *self;
        match self.find_decoder(&name) {
            Some(_) => {},
            None => {
                let mut decoder = FountainDecoder::new();
                decoder.initialize(metadata);
                let key = copy_string(&name);
                self.file_decoders.push((key, decoder));
                proof {
                    assert(self.names() =~= old_self.names().push(m.file_name));
                    assert(self.decoders().take(old_self.decoders().len() as int) =~= old_self.decoders());
                    assert(self.decoders().last() == decoder);
                    assert forall|i: int| 0 <= i < self.file_decoders@.len() implies (#[trigger] self.file_decoders@[i]).1.wf() && self.file_decoders@[i].1.is_initialized() by {
                        if i < old_self.file_decoders@.len() {
                            assert(self.file_decoders@[i] == old_self.file_decoders@[i]);
                        }
                    }
                    assert(self.names().no_duplicates()) by {
                        assert forall|a: int, b: int| 0 <= a < b < self.names().len() implies self.names()[a] != self.names()[b] by {
                            if b == self.names().len() - 1 {
                                assert(self.names()[b] == m.file_name);
                                assert(old_self.names()[a] == self.names()[a]);
                            } else {
                                assert(old_self.names()[a] == self.names()[a]);
                                assert(old_self.names()[b] == self.names()[b]);
                            }
                        }
                    }
                }
            },
        }
        self.current_active_decoder = Some(name);
        proof {
            assert(self.names().contains(m.file_name)) by {
                if old_self.names().contains(m.file_name) {
                    let k = choose|k: int| 0 <= k < old_self.names().len() && old_self.names()[k] == m.file_name;
                    assert(self.names()[k] == m.file_name);
                } else {
                    assert(self.names()[self.names().len() - 1] == m.file_name);
                }
            }
        }
        Ok(ProcessResult { is_valid: true, qr_type: String::from_str("metadata"), reason: None })
    }

    fn process_data_packet(&mut self, data_string: &Vec<char>, frame_index: usize) -> (r: Result<ProcessResult, String>)
        requires
            old(self).wf(),
        ensures
            final(self).wf(),
            match parse_data_frame(data_string@) {
                Err(e) => r matches Err(m) && m@ == e && *final(self) == *old(self),
                Ok(p) => match old(self).active() {
                    None => r matches Ok(res) && res@ == result_view(false, "data"@, Some("No active decoder"@)) && *final(self) == *old(self),
                    Some(_) => r matches Ok(res) && res@ == result_view(true, "data"@, None) && Self::routes(*old(self), p, *final(self)),
                },
            },
    {
        let packet = match parse_data_packet(data_string) {
            Ok(p) => p,
            Err(e) => {
                return Err(e);
            },
        };
        let ghost p = packet@;
        let current = match &self.current_active_decoder {
            Some(name) => copy_string(name),
            None => {
                return Ok(ProcessResult {
                    is_valid: false,
                    qr_type: String::from_str("data"),
                    reason: Some(String::from_str("No active decoder")),
                });
            },
        };
        let ghost old_self = *self;
        proof {
            self.lemma_wf_decoders();
        }
        let i = match self.find_decoder(&current) {
            Some(i) => i,
            None => {
                proof {
                    assert(false);
                }
                return Ok(ProcessResult { is_valid: false, qr_type: String::from_str("data"), reason: None });
            },
        };
        let mut entry = self.file_decoders.remove(i);
        proof {
            assert(entry == old_self.file_decoders@[i as int]);
            assert(entry.1 == old_self.decoders()[i as int]);
        }
        let success = entry.1.add_packet(packet);
        let is_complete = entry.1.is_complete();
        let ghost d_new = entry.1;
        if is_complete {
            match entry.1.finalize() {
                Some(data) => {
                    let f = FinishedFile { file_name: copy_string(&current), output_dir: copy_string(&self.output_dir), data };
                    self.finished_files.push(f);
                    proof {
                        assert(self.finished() =~= old_self.finished().push((current@, old_self.out_dir(), d_new.finalized_file().unwrap())));
                    }
                },
                None => {},
            }
        }
        self.file_decoders.insert(i, entry);
        proof {
            assert(self.file_decoders@ =~= old_self.file_decoders@.update(i as int, entry));
            assert(self.names() =~= old_self.names());
            assert(self.decoders() =~= old_self.decoders().update(i as int, d_new));
            assert forall|k: int| 0 <= k < self.file_decoders@.len() implies (#[trigger] self.file_decoders@[k]).1.wf() && self.file_decoders@[k].1.is_initialized() by {
                if k != i {
                    assert(self.file_decoders@[k] == old_self.file_decoders@[k]);
                }
            }
            assert(old_self.names()[i as int] == current@);
        }
        Ok(ProcessResult { is_valid: success, qr_type: String::from_str("data"), reason: None })
    }

    /// What one QR payload does: a metadata frame (`M:`) announces a file,
    /// a data frame (`D:`) goes to the active file, anything else is
    /// refused as unknown; `Err` carries the text of the error that ended
    /// the reading of a frame, and the decoder is then unchanged.
    pub open spec fn takes(old: QRFileDecoder, qr: Seq<char>, r: Result<(bool, Seq<char>, Option<Seq<char>>), Seq<char>>, new: QRFileDecoder) -> bool {
        if qr.len() >= 2 && qr.take(2) == "M:"@ {
            match parse_metadata_frame(qr) {
                Err(e) => r == Err::<(bool, Seq<char>, Option<Seq<char>>), Seq<char>>(e) && new == old,
                Ok(m) => r == Ok::<(bool, Seq<char>, Option<Seq<char>>), Seq<char>>(result_view(true, "metadata"@, None)) && Self::announces(old, m, new),
            }
        } else if qr.len() >= 2 && qr.take(2) == "D:"@ {
            match parse_data_frame(qr) {
                Err(e) => r == Err::<(bool, Seq<char>, Option<Seq<char>>), Seq<char>>(e) && new == old,
                Ok(p) => match old.active() {
                    None => r == Ok::<(bool, Seq<char>, Option<Seq<char>>), Seq<char>>(result_view(false, "data"@, Some("No active decoder"@))) && new == old,
                    Some(_) => r == Ok::<(bool, Seq<char>, Option<Seq<char>>), Seq<char>>(result_view(true, "data"@, None)) && Self::routes(old, p, new),
                },
            }
        } else {
            r == Ok::<(bool, Seq<char>, Option<Seq<char>>), Seq<char>>(result_view(false, "unknown"@, Some("Unknown packet type"@))) && new == old
        }
    }

    /// Takes one QR payload; an error that ends the reading of a frame is
    /// returned as `Err` with its text.
    pub fn try_process_qr_code(&mut self, qr_data: &str, frame_index: usize) -> (r: Result<ProcessResult, String>)
        requires
            old(self).wf(),
        ensures
            final(self).wf(),
            Self::takes(*old(self), qr_data@, match r {
                Ok(res) => Ok::<(bool, Seq<char>, Option<Seq<char>>), Seq<char>>(res@),
                Err(e) => Err::<(bool, Seq<char>, Option<Seq<char>>), Seq<char>>(e@),
            }, *final(self)),
    {
        let qr = chars_of(qr_data);
        let meta_prefix = chars_of("M:");
        let data_prefix = chars_of("D:");
        proof {
            reveal_strlit("M:");
            reveal_strlit("D:");
        }
        if starts_with_chars(&qr, &meta_prefix) {
            self.process_metadata_packet(&qr, frame_index)
        } else if starts_with_chars(&qr, &data_prefix) {
            self.process_data_packet(&qr, frame_index)
        } else {
            Ok(ProcessResult {
                is_valid: false,
                qr_type: String::from_str("unknown"),
                reason: Some(String::from_str("Unknown packet type")),
            })
        }
    }

    /// Takes one QR payload; an error that ends the reading of a frame
    /// gives an invalid result of type `error` with the error's text.
    pub fn process_qr_code(&mut self, qr_data: &str, frame_index: usize) -> (r: ProcessResult)
        requires
            old(self).wf(),
        ensures
            final(self).wf(),
            exists|outcome: Result<(bool, Seq<char>, Option<Seq<char>>), Seq<char>>| {
                &&& Self::takes(*old(self), qr_data@, outcome, *final(self))
                &&& r@ == match outcome {
                    Ok(v) => v,
                    Err(e) => result_view(false, "error"@, Some(e)),
                }
            },
    {
        match self.try_process_qr_code(qr_data, frame_index) {
            Ok(result) => result,
            Err(error) => ProcessResult {
                is_valid: false,
                qr_type: String::from_str("error"),
                reason: Some(error),
            },
        }
    }
}

/// A metadata frame with at least ten `:`-separated fields, whose third and
/// fourth fields percent-decode and whose fifth and sixth are numbers, is
/// taken in: the file it announces is named by the percent-decoded third
/// field and becomes the active file, so the data that follows, and the
/// file finished from it, carry that name. A file not announced before gets
/// a fresh decoder for the announced version, type, size and chunk count,
/// whose checksum is the fourteenth field (index 13) when the frame has one
/// and it is not empty, whatever fields follow it; a file announced before
/// keeps its decoder.
pub proof fn lemma_metadata_frame_announces(
    old: QRFileDecoder,
    qr: Seq<char>,
    r: Result<(bool, Seq<char>, Option<Seq<char>>), Seq<char>>,
    new: QRFileDecoder,
    name: Seq<char>,
    file_type: Seq<char>,
    size: nat,
    count: nat,
)
    requires
        QRFileDecoder::takes(old, qr, r, new),
        qr.len() >= 2,
        qr[0] == 'M',
        qr[1] == ':',
        split_on(qr, ':').len() >= 10,
        url_decoded(split_on(qr, ':')[2]) == Ok::<Seq<char>, Seq<char>>(name),
        url_decoded(split_on(qr, ':')[3]) == Ok::<Seq<char>, Seq<char>>(file_type),
        parse_unsigned(split_on(qr, ':')[4], usize::MAX as nat) == Ok::<nat, IntErrorKind>(size),
        parse_unsigned(split_on(qr, ':')[5], usize::MAX as nat) == Ok::<nat, IntErrorKind>(count),
    ensures
        r == Ok::<(bool, Seq<char>, Option<Seq<char>>), Seq<char>>(result_view(true, "metadata"@, None)),
        new.active() == Some(name),
        new.names().contains(name),
        old.names().contains(name) ==> new.names() == old.names() && new.decoders() == old.decoders(),
        !old.names().contains(name) ==> {
            let parts = split_on(qr, ':');
            &&& new.names() == old.names().push(name)
            &&& new.decoders().last().metadata() == Some(
                MetadataModel {
                    version: parts[1],
                    file_name: name,
                    file_type,
                    file_size: size,
                    chunks_count: count,
                    file_checksum: if parts.len() > 13 && parts[13].len() > 0 {
                        Some(parts[13])
                    } else {
                        None
                    },
                },
            )
            &&& new.decoders().last().known() == Map::<usize, Seq<u8>>::empty()
        },
{
    reveal_strlit("M:");
    assert(qr.take(2) =~= "M:"@);
    if !old.names().contains(name) {
        assert(new.names().last() == name);
    } else {
        assert(new.names() == old.names());
    }
}

} // verus!
