//! Content addressing: SHA-256 digests, hex rendering, layer digests and
//! chained cache keys.
//!
//! The digest itself is computed by the `sha2` crate and is only named here
//! (`sha256_of`); everything layered on top of it — hex text, the
//! `sha256:<hex>` layer-digest form and the `cache:<hex>` chained key — has
//! an exact specification.

use vstd::prelude::*;
use vstd::string::*;
use vstd::utf8::encode_utf8;

verus! {

/// The SHA-256 digest of a byte sequence, as the `sha2` crate computes it.
pub uninterp spec fn sha256_of(data: Seq<u8>) -> Seq<u8>;

/// The digest with its length pinned to 32 bytes.  The wrapper below shows
/// that the computed digest always has that length; this normalised form
/// lets specifications rely on it without a side condition.
pub open spec fn sha256_digest(data: Seq<u8>) -> Seq<u8> {
    if sha256_of(data).len() == 32 {
        sha256_of(data)
    } else {
        Seq::new(32, |i| 0u8)
    }
}

/// Relies on `sha2::Sha256` (`Digest::digest`): the digest of a byte string,
/// 32 bytes long, a function of the input bytes alone.
#[verifier::external_body]
fn sha256_bytes(data: &[u8]) -> (r: Vec<u8>)
    ensures
        r@ == sha256_of(data@),
        r@.len() == 32,
{
    <sha2::Sha256 as sha2::Digest>::digest(data).to_vec()
}

/// The lowercase hex digit for a value below 16.
pub open spec fn hex_digit(n: int) -> char {
    if n == 0 { '0' } else if n == 1 { '1' } else if n == 2 { '2' } else if n == 3 { '3' }
    else if n == 4 { '4' } else if n == 5 { '5' } else if n == 6 { '6' } else if n == 7 { '7' }
    else if n == 8 { '8' } else if n == 9 { '9' } else if n == 10 { 'a' } else if n == 11 { 'b' }
    else if n == 12 { 'c' } else if n == 13 { 'd' } else if n == 14 { 'e' } else { 'f' }
}

/// Lowercase hex text of a byte sequence: two digits per byte, high nibble first.
pub open spec fn hex_of(data: Seq<u8>) -> Seq<char>
    decreases data.len(),
{
    if data.len() == 0 {
        Seq::empty()
    } else {
        seq![hex_digit(data.first() as int / 16), hex_digit(data.first() as int % 16)]
            + hex_of(data.drop_first())
    }
}

/// Relies on `hex::encode`: lowercase hex, exactly two digits per input byte,
/// high nibble first.
#[verifier::external_body]
fn hex_encode(data: &[u8]) -> (r: String)
    ensures
        r@ == hex_of(data@),
{
    hex::encode(data)
}

/// Concatenation of two byte strings.
pub fn concat_bytes(a: &[u8], b: &[u8]) -> (r: Vec<u8>)
    ensures
        r@ == a@ + b@,
{
    let mut r = vstd::slice::slice_to_vec(a);
    let mut i: usize = 0;
    while i < b.len()
        invariant
            i <= b@.len(),
            r@ == a@ + b@.subrange(0, i as int),
        decreases b@.len() - i,
    {
        r.push(b[i]);
        assert(r@ =~= a@ + b@.subrange(0, i + 1 as int));
        i += 1;
    }
    assert(r@ =~= a@ + b@);
    r
}

/// The layer digest of a tarball's bytes: `sha256:` followed by the hex of
/// the SHA-256 of the bytes.
pub open spec fn layer_digest_of(data: Seq<u8>) -> Seq<char> {
    seq!['s', 'h', 'a', '2', '5', '6', ':'] + hex_of(sha256_digest(data))
}

/// A chained cache key: `cache:` followed by the hex of the SHA-256 of the
/// previous key's bytes followed by the instruction descriptor's bytes.
pub open spec fn cache_key_of(prev: Seq<char>, descriptor: Seq<char>) -> Seq<char> {
    seq!['c', 'a', 'c', 'h', 'e', ':']
        + hex_of(sha256_digest(encode_utf8(prev) + encode_utf8(descriptor)))
}

/// Prefix a hex digest with a label, producing the rendered form.
fn prefix_hex(label: &str, hex: String) -> (r: String)
    ensures
        r@ == label@ + hex@,
{
    let mut r = String::new();
    r.append(label);
    r.append(hex.as_str());
    r
}

/// The plain hex content hash that a `COPY` descriptor carries: the hex of
/// the SHA-256 of the assembled source bytes.
pub fn content_hash(data: &[u8]) -> (r: String)
    ensures
        r@ == hex_of(sha256_digest(data@)),
{
    let h = sha256_bytes(data);
    hex_encode(h.as_slice())
}

/// The layer digest of a tarball's bytes, in its `sha256:<hex>` text form.
pub fn layer_digest(data: &[u8]) -> (r: String)
    ensures
        r@ == layer_digest_of(data@),
{
    let h = sha256_bytes(data);
    let hex = hex_encode(h.as_slice());
    let r = prefix_hex("sha256:", hex);
    proof {
        reveal_strlit("sha256:");
        assert(r@ =~= layer_digest_of(data@));
    }
    r
}

/// The cache key chained from `prev` by `descriptor`:
/// `cache:<hex of SHA-256(prev bytes ++ descriptor bytes)>`.
pub fn compute_cache_key(prev: &str, descriptor: &str) -> (r: String)
    ensures
        r@ == cache_key_of(prev@, descriptor@),
{
    let joined = concat_bytes(prev.as_bytes(), descriptor.as_bytes());
    let h = sha256_bytes(joined.as_slice());
    let hex = hex_encode(h.as_slice());
    let r = prefix_hex("cache:", hex);
    proof {
        reveal_strlit("cache:");
        assert(r@ =~= cache_key_of(prev@, descriptor@));
    }
    r
}

} // verus!
