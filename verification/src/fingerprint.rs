//! The fingerprinter: bytes are streamed in chunks through a SHA-256
//! digest and the result is rendered as lowercase hex. The digest
//! itself comes from an outside implementation; what is verified here
//! is that the absorbed stream is exactly the bytes handed in, in
//! order, and that the rendering is the digest's hex form. Opening and
//! reading the file is left to the surrounding I/O code, which feeds
//! the chunks.

use vstd::prelude::*;

use sha2::Digest;

verus! {

#[verifier::external_type_specification]
#[verifier::external_body]
pub struct ExSha256(sha2::Sha256);

/// The bytes a hasher has absorbed so far.
pub uninterp spec fn sha256_absorbed(h: sha2::Sha256) -> Seq<u8>;

/// The SHA-256 digest of a byte sequence. What it is on given bytes is
/// known only to the outside implementation; it depends on the bytes
/// alone.
pub uninterp spec fn sha256_digest(bytes: Seq<u8>) -> Seq<u8>;

/// Relies on sha2::Sha256::new: a fresh hasher with nothing absorbed.
#[verifier::external_body]
fn sha_new() -> (h: sha2::Sha256)
    ensures
        sha256_absorbed(h) == Seq::<u8>::empty(),
{
    sha2::Sha256::new()
}

/// Relies on sha2::Sha256::update: absorbs the bytes after those
/// already absorbed.
#[verifier::external_body]
fn sha_update(h: &mut sha2::Sha256, data: &[u8])
    ensures
        sha256_absorbed(*final(h)) == sha256_absorbed(*old(h)) + data@,
{
    h.update(data);
}

/// Relies on sha2::Sha256::finalize: the 32-byte SHA-256 digest of the
/// absorbed bytes, a function of them alone.
#[verifier::external_body]
fn sha_finalize(h: sha2::Sha256) -> (r: Vec<u8>)
    ensures
        r@ == sha256_digest(sha256_absorbed(h)),
        r@.len() == 32,
{
    h.finalize().to_vec()
}

/// The character for one hex digit, lowercase.
pub open spec fn nibble_char(n: int) -> char {
    if n == 0 { '0' }
    else if n == 1 { '1' }
    else if n == 2 { '2' }
    else if n == 3 { '3' }
    else if n == 4 { '4' }
    else if n == 5 { '5' }
    else if n == 6 { '6' }
    else if n == 7 { '7' }
    else if n == 8 { '8' }
    else if n == 9 { '9' }
    else if n == 10 { 'a' }
    else if n == 11 { 'b' }
    else if n == 12 { 'c' }
    else if n == 13 { 'd' }
    else if n == 14 { 'e' }
    else { 'f' }
}

/// The lowercase hex rendering of a byte sequence: two digits per byte,
/// high nibble first.
pub open spec fn hex_of(bytes: Seq<u8>) -> Seq<char> {
    Seq::new(
        2 * bytes.len(),
        |i: int|
            if i % 2 == 0 {
                nibble_char(bytes[i / 2] as int / 16)
            } else {
                nibble_char(bytes[i / 2] as int % 16)
            },
    )
}

/// Relies on hex::encode: two lowercase hex digits per byte, high
/// nibble first.
#[verifier::external_body]
fn hex_encode(data: &[u8]) -> (r: String)
    ensures
        r@ == hex_of(data@),
{
    hex::encode(data)
}

/// Streams bytes through a SHA-256 digest and renders the result as
/// lowercase hex.
pub struct Fingerprinter {
    hasher: sha2::Sha256,
}

impl Fingerprinter {
    /// The bytes absorbed so far.
    pub closed spec fn absorbed(&self) -> Seq<u8> {
        sha256_absorbed(self.hasher)
    }

    /// A fresh fingerprinter with nothing absorbed.
    pub fn new() -> (r: Fingerprinter)
        ensures
            r.absorbed() == Seq::<u8>::empty(),
    {
        Fingerprinter { hasher: sha_new() }
    }

    /// Absorbs one chunk after those already absorbed.
    pub fn add_chunk(&mut self, data: &[u8])
        ensures
            final(self).absorbed() == old(self).absorbed() + data@,
    {
        sha_update(&mut self.hasher, data);
    }

    /// The lowercase hex form of the SHA-256 digest of everything
    /// absorbed: sixty-four hex characters.
    pub fn finish(self) -> (r: String)
        ensures
            r@ == hex_of(sha256_digest(self.absorbed())),
            r@.len() == 64,
    {
        let digest = sha_finalize(self.hasher);
        let r = hex_encode(digest.as_slice());
        r
    }
}

} // verus!
