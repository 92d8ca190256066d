use vstd::prelude::*;
use vstd::string::StrSliceExecFns;
use vstd::string::StringSliceAdditionalSpecFns;

use crate::params::ThumbnailParams;

verus! {

/// The digest blake3 computes over a byte message, rendered as a lowercase
/// hexadecimal string. Named rather than written out: the hash itself is the
/// blake3 crate's business, and it is a pure function of the input bytes.
pub uninterp spec fn blake3_hex(bytes: Seq<u8>) -> Seq<char>;

/// A lowercase hexadecimal digit, the only characters a cache key holds.
pub open spec fn lower_hex_digit(c: char) -> bool {
    ('0' <= c && c <= '9') || ('a' <= c && c <= 'f')
}

/// The four bytes of `x` in little-endian order.
pub open spec fn le4(x: u32) -> Seq<u8> {
    seq![
        (x & 0xff) as u8,
        ((x >> 8) & 0xff) as u8,
        ((x >> 16) & 0xff) as u8,
        ((x >> 24) & 0xff) as u8,
    ]
}

/// The exact byte message fed to the hash: the identifier bytes, the target
/// width and height as fixed-width little-endian integers, then each optional
/// tonal parameter only when it is present, in a fixed order. Gating each
/// optional byte on an explicit presence check keeps "parameter absent" and
/// "parameter present with value zero" from colliding.
pub open spec fn fingerprint_message(path_bytes: Seq<u8>, p: ThumbnailParams) -> Seq<u8> {
    path_bytes + le4(p.width) + le4(p.height) + (match p.min {
        Some(m) => seq![m],
        None => Seq::<u8>::empty(),
    }) + (match p.max {
        Some(m) => seq![m],
        None => Seq::<u8>::empty(),
    }) + (match p.autocontrast {
        Some(b) => seq![if b { 1u8 } else { 0u8 }],
        None => Seq::<u8>::empty(),
    })
}

/// The cache key of a request: the blake3 digest of its fingerprint message.
pub open spec fn key_of(path_bytes: Seq<u8>, p: ThumbnailParams) -> Seq<char> {
    blake3_hex(fingerprint_message(path_bytes, p))
}

/// Relies on blake3::hash and blake3::Hash::to_hex: the digest is a pure
/// function of the input bytes alone, and its rendering is exactly 64
/// lowercase hexadecimal characters (two per byte of the 32-byte hash).
#[verifier::external_body]
fn hash_to_hex(bytes: &Vec<u8>) -> (r: String)
    ensures
        r@ == blake3_hex(bytes@),
        r@.len() == 64,
        forall|i: int| 0 <= i < r@.len() ==> lower_hex_digit(#[trigger] r@[i]),
{
    blake3::hash(bytes.as_slice()).to_hex().as_str().to_string()
}

/// Appends the little-endian bytes of `x`.
fn push_le4(out: &mut Vec<u8>, x: u32)
    ensures
        final(out)@ == old(out)@ + le4(x),
{
    out.push((x & 0xff) as u8);
    out.push(((x >> 8) & 0xff) as u8);
    out.push(((x >> 16) & 0xff) as u8);
    out.push(((x >> 24) & 0xff) as u8);
    assert(out@ =~= old(out)@ + le4(x));
}

/// Derives the cache key of a request: a pure digest of the identifier and
/// every transform parameter, identical for equal requests.
pub fn generate_cache_key(image_path: &str, params: &ThumbnailParams) -> (r: String)
    ensures
        r@ == key_of(image_path.spec_bytes(), *params),
        r@.len() == 64,
        forall|i: int| 0 <= i < r@.len() ==> lower_hex_digit(#[trigger] r@[i]),
{
    let mut msg: Vec<u8> = image_path.as_bytes_vec();
    push_le4(&mut msg, params.width);
    push_le4(&mut msg, params.height);
    if let Some(m) = params.min {
        msg.push(m);
    }
    if let Some(m) = params.max {
        msg.push(m);
    }
    if let Some(b) = params.autocontrast {
        msg.push(if b { 1u8 } else { 0u8 });
    }
    assert(msg@ =~= fingerprint_message(image_path.spec_bytes(), *params));
    hash_to_hex(&msg)
}

/// Determinism: the fingerprint of a request is a function of the request
/// alone, so equal requests always receive equal cache keys.
pub proof fn lemma_fingerprint_deterministic(
    b1: Seq<u8>,
    p1: ThumbnailParams,
    b2: Seq<u8>,
    p2: ThumbnailParams,
)
    requires
        b1 == b2,
        p1 == p2,
    ensures
        key_of(b1, p1) == key_of(b2, p2),
{
}

proof fn lemma_le4_injective(x: u32, y: u32)
    requires
        le4(x) == le4(y),
    ensures
        x == y,
{
    assert(le4(x)[0] == le4(y)[0]);
    assert(le4(x)[1] == le4(y)[1]);
    assert(le4(x)[2] == le4(y)[2]);
    assert(le4(x)[3] == le4(y)[3]);
    assert(((x & 0xff) as u8 == (y & 0xff) as u8 && ((x >> 8) & 0xff) as u8 == ((y >> 8)
        & 0xff) as u8 && ((x >> 16) & 0xff) as u8 == ((y >> 16) & 0xff) as u8 && ((x >> 24)
        & 0xff) as u8 == ((y >> 24) & 0xff) as u8) ==> x == y) by (bit_vector);
}

/// Discrimination, structural part: two requests for the same identifier
/// that present the same set of optional parameters but differ in any field
/// are fed to the hash as different byte messages. (That different messages
/// receive different digests is the collision-resistance assumption on the
/// hash itself, spot-checked by tests rather than proved.)
pub proof fn lemma_message_discriminates(pb: Seq<u8>, p1: ThumbnailParams, p2: ThumbnailParams)
    requires
        p1.min is Some <==> p2.min is Some,
        p1.max is Some <==> p2.max is Some,
        p1.autocontrast is Some <==> p2.autocontrast is Some,
        p1 != p2,
    ensures
        fingerprint_message(pb, p1) != fingerprint_message(pb, p2),
{
    let m1 = fingerprint_message(pb, p1);
    let m2 = fingerprint_message(pb, p2);
    let off = pb.len() as int;
    if m1 == m2 {
        assert forall|j: int| 0 <= j < 4 implies le4(p1.width)[j] == le4(p2.width)[j] by {
            assert(m1[off + j] == le4(p1.width)[j]);
            assert(m2[off + j] == le4(p2.width)[j]);
        }
        assert(le4(p1.width) =~= le4(p2.width));
        lemma_le4_injective(p1.width, p2.width);
        assert forall|j: int| 0 <= j < 4 implies le4(p1.height)[j] == le4(p2.height)[j] by {
            assert(m1[off + 4 + j] == le4(p1.height)[j]);
            assert(m2[off + 4 + j] == le4(p2.height)[j]);
        }
        assert(le4(p1.height) =~= le4(p2.height));
        lemma_le4_injective(p1.height, p2.height);
        if let (Some(a), Some(b)) = (p1.min, p2.min) {
            assert(m1[off + 8] == a);
            assert(m2[off + 8] == b);
        }
        let min_len: int = if p1.min is Some { 1 } else { 0 };
        if let (Some(a), Some(b)) = (p1.max, p2.max) {
            assert(m1[off + 8 + min_len] == a);
            assert(m2[off + 8 + min_len] == b);
        }
        let max_len: int = if p1.max is Some { 1 } else { 0 };
        if let (Some(a), Some(b)) = (p1.autocontrast, p2.autocontrast) {
            assert(m1[off + 8 + min_len + max_len] == (if a { 1u8 } else { 0u8 }));
            assert(m2[off + 8 + min_len + max_len] == (if b { 1u8 } else { 0u8 }));
        }
        assert(p1 == p2);
    }
}

} // verus!
