//! Streaming SHA-256 and SHA-512 digests of files read in chunks.

use vstd::prelude::*;
use crate::catalog::HashAlgo;
use sha2::Digest;

verus! {

/// A SHA-256 computation in progress (`sha2::Sha256`); Verus sees only the
/// bytes absorbed so far, named by [`sha256_absorbed`].
#[verifier::external_body]
pub struct Sha256Stream {
    inner: sha2::Sha256,
}

/// A SHA-512 computation in progress (`sha2::Sha512`); Verus sees only the
/// bytes absorbed so far, named by [`sha512_absorbed`].
#[verifier::external_body]
pub struct Sha512Stream {
    inner: sha2::Sha512,
}

/// The bytes a SHA-256 computation has absorbed, in order.
pub uninterp spec fn sha256_absorbed(h: Sha256Stream) -> Seq<u8>;

/// The bytes a SHA-512 computation has absorbed, in order.
pub uninterp spec fn sha512_absorbed(h: Sha512Stream) -> Seq<u8>;

/// The SHA-256 digest of `data`, as `sha2` computes it.
pub uninterp spec fn sha256_digest(data: Seq<u8>) -> Seq<u8>;

/// The SHA-512 digest of `data`, as `sha2` computes it.
pub uninterp spec fn sha512_digest(data: Seq<u8>) -> Seq<u8>;

/// `Sha256::new`: a computation that has absorbed nothing.
#[verifier::external_body]
fn sha256_start() -> (h: Sha256Stream)
    ensures
        sha256_absorbed(h) == Seq::<u8>::empty(),
{
    Sha256Stream { inner: sha2::Sha256::new() }
}

/// `Digest::update` on a `Sha256`: absorbs `chunk` after what came before.
#[verifier::external_body]
fn sha256_absorb(h: &mut Sha256Stream, chunk: &[u8])
    ensures
        sha256_absorbed(*final(h)) == sha256_absorbed(*old(h)) + chunk@,
{
    h.inner.update(chunk);
}

/// `Digest::finalize` on a `Sha256`: the 32-byte digest of all that was absorbed.
#[verifier::external_body]
fn sha256_finish(h: Sha256Stream) -> (r: Vec<u8>)
    ensures
        r@ == sha256_digest(sha256_absorbed(h)),
        r@.len() == 32,
{
    h.inner.finalize().to_vec()
}

/// `Sha512::new`: a computation that has absorbed nothing.
#[verifier::external_body]
fn sha512_start() -> (h: Sha512Stream)
    ensures
        sha512_absorbed(h) == Seq::<u8>::empty(),
{
    Sha512Stream { inner: sha2::Sha512::new() }
}

/// `Digest::update` on a `Sha512`: absorbs `chunk` after what came before.
#[verifier::external_body]
fn sha512_absorb(h: &mut Sha512Stream, chunk: &[u8])
    ensures
        sha512_absorbed(*final(h)) == sha512_absorbed(*old(h)) + chunk@,
{
    h.inner.update(chunk);
}

/// `Digest::finalize` on a `Sha512`: the 64-byte digest of all that was absorbed.
#[verifier::external_body]
fn sha512_finish(h: Sha512Stream) -> (r: Vec<u8>)
    ensures
        r@ == sha512_digest(sha512_absorbed(h)),
        r@.len() == 64,
{
    h.inner.finalize().to_vec()
}

/// The digest of a file being read, by the algorithm its SUMS file uses.
pub enum FileDigest {
    Sha256(Sha256Stream),
    Sha512(Sha512Stream),
}

/// The algorithm of a digest in progress.
pub open spec fn digest_algo(d: FileDigest) -> HashAlgo {
    match d {
        FileDigest::Sha256(_) => HashAlgo::Sha256,
        FileDigest::Sha512(_) => HashAlgo::Sha512,
    }
}

/// The bytes absorbed so far.
pub open spec fn digest_absorbed(d: FileDigest) -> Seq<u8> {
    match d {
        FileDigest::Sha256(h) => sha256_absorbed(h),
        FileDigest::Sha512(h) => sha512_absorbed(h),
    }
}

/// The digest of `data` by `algo`.
pub open spec fn digest_of(algo: HashAlgo, data: Seq<u8>) -> Seq<u8> {
    match algo {
        HashAlgo::Sha256 => sha256_digest(data),
        HashAlgo::Sha512 => sha512_digest(data),
    }
}

/// Begins a digest by `algo`, with nothing absorbed.
pub fn file_digest_start(algo: HashAlgo) -> (r: FileDigest)
    ensures
        digest_algo(r) == algo,
        digest_absorbed(r) == Seq::<u8>::empty(),
{
    match algo {
        HashAlgo::Sha256 => FileDigest::Sha256(sha256_start()),
        HashAlgo::Sha512 => FileDigest::Sha512(sha512_start()),
    }
}

/// Absorbs the next chunk of the file.
pub fn file_digest_absorb(d: &mut FileDigest, chunk: &[u8])
    ensures
        digest_algo(*final(d)) == digest_algo(*old(d)),
        digest_absorbed(*final(d)) == digest_absorbed(*old(d)) + chunk@,
{
    match d {
        FileDigest::Sha256(h) => sha256_absorb(h, chunk),
        FileDigest::Sha512(h) => sha512_absorb(h, chunk),
    }
}

/// The digest of everything absorbed: 32 bytes for SHA-256, 64 for SHA-512.
pub fn file_digest_finish(d: FileDigest) -> (r: Vec<u8>)
    ensures
        r@ == digest_of(digest_algo(d), digest_absorbed(d)),
        r@.len() == if digest_algo(d) == HashAlgo::Sha256 {
            32nat
        } else {
            64nat
        },
{
    match d {
        FileDigest::Sha256(h) => sha256_finish(h),
        FileDigest::Sha512(h) => sha512_finish(h),
    }
}

} // verus!
