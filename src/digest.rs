//! Content hashes and the cursor identifiers derived from them.

use vstd::prelude::*;
use vstd::string::StringExecFns;
use vstd::string::StrSliceExecFns;

verus! {

/// The lowercase hexadecimal BLAKE3 digest of `data`.
pub uninterp spec fn blake3_hex_of(data: Seq<u8>) -> Seq<char>;

/// The 32 raw bytes of the BLAKE3 digest of `data`.
pub uninterp spec fn blake3_bytes_of(data: Seq<u8>) -> Seq<u8>;

/// Relies on `blake3::hash` and `Hash::to_hex`, which writes two lowercase
/// hex digits for each of the digest's 32 bytes.
#[verifier::external_body]
fn blake3_hex(data: &[u8]) -> (r: String)
    ensures
        r@ == blake3_hex_of(data@),
        r@.len() == 64,
{
    blake3::hash(data).to_hex().to_string()
}

/// Relies on `blake3::hash` and `Hash::as_bytes`, the 32-byte digest.
#[verifier::external_body]
fn blake3_bytes(data: &[u8]) -> (r: Vec<u8>)
    ensures
        r@ == blake3_bytes_of(data@),
        r@.len() == 32,
{
    blake3::hash(data).as_bytes().to_vec()
}

/// The full hex digest of some bytes, as carried in clipboard events.
pub fn content_hash(data: &[u8]) -> (r: String)
    ensures
        r@ == blake3_hex_of(data@),
{
    blake3_hex(data)
}

/// Identifier of a single-frame cursor: `cur_` and the first twelve hex
/// digits of the digest of its RGBA pixels.
pub open spec fn static_id_of(rgba: Seq<u8>) -> Seq<char> {
    "cur_"@ + blake3_hex_of(rgba).subrange(0, 12)
}

/// The digests of the frames, one after another, in frame order.
pub open spec fn digest_chain(frames: Seq<Seq<u8>>) -> Seq<u8>
    decreases frames.len(),
{
    if frames.len() == 0 {
        Seq::empty()
    } else {
        digest_chain(frames.drop_last()) + blake3_bytes_of(frames.last())
    }
}

/// Identifier of an animated cursor: `ani_` and the first twelve hex digits
/// of the digest of its frames' digests.
pub open spec fn animated_id_of(frames: Seq<Seq<u8>>) -> Seq<char> {
    "ani_"@ + blake3_hex_of(digest_chain(frames)).subrange(0, 12)
}

/// The pixel buffers of a list of frames.
pub open spec fn frames_view(frames: Seq<Vec<u8>>) -> Seq<Seq<u8>> {
    frames.map_values(|f: Vec<u8>| f@)
}

/// Short fingerprint of a rendered frame: the first sixteen hex digits of
/// its digest.
pub open spec fn frame_hash_of(rgba: Seq<u8>) -> Seq<char> {
    blake3_hex_of(rgba).subrange(0, 16)
}

fn hex_prefix(data: &[u8], n: usize) -> (r: String)
    requires
        n <= 64,
    ensures
        r@ == blake3_hex_of(data@).subrange(0, n as int),
        r@.len() == n,
{
    let full = blake3_hex(data);
    let part = full.as_str().substring_char(0, n);
    String::from_str(part)
}

/// Identifier of a single-frame cursor from its pixels.
pub fn static_cursor_id(rgba: &Vec<u8>) -> (r: String)
    ensures
        r@ == static_id_of(rgba@),
        r@.len() == 16,
{
    proof {
        reveal_strlit("cur_");
    }
    let prefix = String::from_str("cur_");
    prefix.concat(hex_prefix(rgba.as_slice(), 12).as_str())
}

/// Identifier of an animated cursor from its frames in capture order.
pub fn animated_cursor_id(frames: &Vec<Vec<u8>>) -> (r: String)
    ensures
        r@ == animated_id_of(frames_view(frames@)),
        r@.len() == 16,
{
    proof {
        reveal_strlit("ani_");
    }
    let mut chain: Vec<u8> = Vec::new();
    let mut i: usize = 0;
    while i < frames.len()
        invariant
            i <= frames@.len(),
            chain@ == digest_chain(frames_view(frames@.subrange(0, i as int))),
        decreases frames@.len() - i,
    {
        let d = blake3_bytes(frames[i].as_slice());
        let mut d2 = d;
        chain.append(&mut d2);
        proof {
            let pre = frames_view(frames@.subrange(0, i as int + 1));
            assert(pre.drop_last() =~= frames_view(frames@.subrange(0, i as int)));
            assert(pre.last() == frames@[i as int]@);
        }
        i = i + 1;
    }
    assert(frames@.subrange(0, frames@.len() as int) =~= frames@);
    let prefix = String::from_str("ani_");
    prefix.concat(hex_prefix(chain.as_slice(), 12).as_str())
}

/// Fingerprint that animation probing compares frames by.
pub fn frame_hash(rgba: &Vec<u8>) -> (r: String)
    ensures
        r@ == frame_hash_of(rgba@),
{
    hex_prefix(rgba.as_slice(), 16)
}

} // verus!
