//! The decoders and digests that the packet parsers and the integrity
//! report rely on. Most functions here call one outside function and
//! convert its argument and result, and the names below stand for what
//! those functions return; CRC-32 is computed here, against its definition.
use base64::Engine;
use sha1::Digest;
use std::hash::Hash;
use std::hash::Hasher;
use vstd::prelude::*;

verus! {

/// What `base64::engine::general_purpose::STANDARD.decode` gives for a text:
/// the decoded bytes, or the displayed text of its error.
pub uninterp spec fn base64_standard_decode(text: Seq<char>) -> Result<Seq<u8>, Seq<char>>;

/// What `urlencoding::decode` gives for a text: the percent-decoded text,
/// or the displayed text of its error (the decoded bytes are not UTF-8).
pub uninterp spec fn url_decoded(text: Seq<char>) -> Result<Seq<char>, Seq<char>>;

/// The MD5 digest of a byte sequence, as `md5::compute` gives it.
pub uninterp spec fn md5_digest(data: Seq<u8>) -> Seq<u8>;

/// The SHA-1 digest of a byte sequence, as `sha1::Sha1` gives it.
pub uninterp spec fn sha1_digest(data: Seq<u8>) -> Seq<u8>;

/// The SHA-256 digest of a byte sequence, as `sha2::Sha256` gives it.
pub uninterp spec fn sha256_digest(data: Seq<u8>) -> Seq<u8>;

/// One bit step of the reflected CRC-32 register (polynomial 0xEDB88320).
pub open spec fn crc32_bit(c: u32) -> u32 {
    if c & 1 == 1 {
        (c >> 1u32) ^ 0xEDB8_8320u32
    } else {
        c >> 1u32
    }
}

/// `n` bit steps of the CRC-32 register.
pub open spec fn crc32_bits(c: u32, n: nat) -> u32
    decreases n,
{
    if n == 0 {
        c
    } else {
        crc32_bit(crc32_bits(c, (n - 1) as nat))
    }
}

/// The CRC-32 register after the bytes, starting from all ones.
pub open spec fn crc32_register(data: Seq<u8>) -> u32
    decreases data.len(),
{
    if data.len() == 0 {
        0xFFFF_FFFFu32
    } else {
        crc32_bits(crc32_register(data.drop_last()) ^ (data.last() as u32), 8)
    }
}

/// The CRC-32 (IEEE) checksum of a byte sequence: the final register,
/// inverted.
pub open spec fn crc32_checksum(data: Seq<u8>) -> u32 {
    !crc32_register(data)
}

/// Calls `base64::engine::general_purpose::STANDARD.decode` (standard
/// alphabet, padding required). The contract claims only that the result,
/// decoded bytes or error text, is the one named `base64_standard_decode`
/// for this text.
#[verifier::external_body]
pub(crate) fn decode_base64(text: &str) -> (r: Result<Vec<u8>, String>)
    ensures
        match r {
            Ok(bytes) => base64_standard_decode(text@) == Ok::<Seq<u8>, Seq<char>>(bytes@),
            Err(msg) => base64_standard_decode(text@) == Err::<Seq<u8>, Seq<char>>(msg@),
        },
{
    match base64::engine::general_purpose::STANDARD.decode(text) {
        Ok(bytes) => Ok(bytes),
        Err(e) => Err(e.to_string()),
    }
}

/// Calls `urlencoding::decode`. The contract claims only that the result,
/// decoded text or error text, is the one named `url_decoded` for this text.
#[verifier::external_body]
pub(crate) fn decode_url(text: &str) -> (r: Result<String, String>)
    ensures
        match r {
            Ok(s) => url_decoded(text@) == Ok::<Seq<char>, Seq<char>>(s@),
            Err(msg) => url_decoded(text@) == Err::<Seq<char>, Seq<char>>(msg@),
        },
{
    match urlencoding::decode(text) {
        Ok(s) => Ok(s.into_owned()),
        Err(e) => Err(e.to_string()),
    }
}

/// Calls `md5::compute` and returns the digest's sixteen bytes. The contract
/// claims that they are the ones named `md5_digest` for the data, and that
/// there are sixteen.
#[verifier::external_body]
pub(crate) fn md5_of(data: &[u8]) -> (r: Vec<u8>)
    ensures
        r@ == md5_digest(data@),
        r@.len() == 16,
{
    md5::compute(data).0.to_vec()
}

/// Feeds the data to a `sha1::Sha1` and returns the twenty bytes of its
/// digest. The contract claims that they are the ones named `sha1_digest`
/// for the data, and that there are twenty.
#[verifier::external_body]
pub(crate) fn sha1_of(data: &[u8]) -> (r: Vec<u8>)
    ensures
        r@ == sha1_digest(data@),
        r@.len() == 20,
{
    sha1::Sha1::digest(data).to_vec()
}

/// Feeds the data to a `sha2::Sha256` and returns the thirty-two bytes of
/// its digest. The contract claims that they are the ones named
/// `sha256_digest` for the data, and that there are thirty-two.
#[verifier::external_body]
pub(crate) fn sha256_of(data: &[u8]) -> (r: Vec<u8>)
    ensures
        r@ == sha256_digest(data@),
        r@.len() == 32,
{
    sha2::Sha256::digest(data).to_vec()
}

/// The CRC-32 (IEEE) checksum of the data, bit by bit.
pub(crate) fn crc32_of(data: &[u8]) -> (r: u32)
    ensures
        r == crc32_checksum(data@),
{
    let mut c: u32 = 0xFFFF_FFFF;
    let mut i: usize = 0;
    while i < data.len()
        invariant
            i <= data@.len(),
            c == crc32_register(data@.take(i as int)),
        decreases data.len() - i,
    {
        proof {
            assert(data@.take(i + 1).drop_last() =~= data@.take(i as int));
        }
        let start = c ^ (data[i] as u32);
        let mut x = start;
        let mut k: u32 = 0;
        while k < 8
            invariant
                k <= 8,
                x == crc32_bits(start, k as nat),
            decreases 8 - k,
        {
            x = if x & 1 == 1 {
                (x >> 1u32) ^ 0xEDB8_8320u32
            } else {
                x >> 1u32
            };
            k += 1;
        }
        c = x;
        i += 1;
    }
    proof {
        assert(data@.take(data@.len() as int) =~= data@);
    }
    !c
}

/// The 64-bit FNV-1a hash of `data`, starting from the state `h`.
pub open spec fn fnv1a64_from(h: u64, data: Seq<u8>) -> u64
    decreases data.len(),
{
    if data.len() == 0 {
        h
    } else {
        (fnv1a64_from(h, data.drop_last()) ^ (data.last() as u64)).wrapping_mul(0x100000001b3u64)
    }
}

/// The 64-bit FNV-1a hash of `data`.
pub open spec fn fnv1a64(data: Seq<u8>) -> u64 {
    fnv1a64_from(0xcbf29ce484222325u64, data)
}

/// The `width` low bytes of `n`, least significant first.
pub open spec fn le_bytes(n: nat, width: nat) -> Seq<u8>
    decreases width,
{
    if width == 0 {
        Seq::empty()
    } else {
        seq![(n % 256) as u8] + le_bytes(n / 256, (width - 1) as nat)
    }
}

/// A length as the machine holds a `usize`: as many bytes as a `usize`
/// has, least significant first when `little`, most significant first
/// otherwise.
pub open spec fn usize_bytes(n: nat, little: bool) -> Seq<u8> {
    let width = (usize::BITS / 8) as nat;
    if little {
        le_bytes(n, width)
    } else {
        le_bytes(n, width).reverse()
    }
}

/// Hashes the byte slice, through its `Hash` impl, into a
/// `fnv::FnvHasher` and returns the hasher's `finish`. The hasher runs
/// 64-bit FNV-1a over the bytes written to it (its `write`), and the
/// slice's `Hash` impl writes the slice's length as a `usize`, in the
/// machine's byte order, and then the slice's bytes. The contract claims
/// that the result is the FNV-1a hash of those bytes for one of the two
/// byte orders; which one is the machine's, and is left open.
#[verifier::external_body]
pub(crate) fn fnv_slice_hash(data: &[u8]) -> (r: u64)
    ensures
        exists|little: bool| r == fnv1a64(#[trigger] usize_bytes(data@.len() as nat, little) + data@),
{
    let mut hasher = fnv::FnvHasher::default();
    data.hash(&mut hasher);
    hasher.finish()
}

} // verus!
