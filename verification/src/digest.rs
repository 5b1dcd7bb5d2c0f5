//! SHA-256 digests, in lower-case hexadecimal.

use sha2::Digest;
use vstd::prelude::*;

verus! {

/// A lower-case hexadecimal digit.
pub open spec fn is_hex_digit(c: char) -> bool {
    ('0' <= c && c <= '9') || ('a' <= c && c <= 'f')
}

/// Whether a text is the lower-case hexadecimal form of thirty-two bytes.
pub open spec fn is_digest_text(digest: Seq<char>) -> bool {
    digest.len() == 64 && forall|i: int| 0 <= i < digest.len() ==> is_hex_digit(#[trigger] digest[i])
}

/// The SHA-256 digest of a byte string, in lower-case hexadecimal.
pub uninterp spec fn sha256_text(bytes: Seq<u8>) -> Seq<char>;

/// The bytes that a hasher has taken in so far.
pub uninterp spec fn absorbed(hasher: Hasher) -> Seq<u8>;

/// A SHA-256 computation that takes its input piece by piece (`sha2::Sha256`).
#[verifier::external_body]
pub struct Hasher {
    inner: sha2::Sha256,
}

impl Hasher {
    /// `sha2::Sha256::new`: a hasher that has taken in nothing.
    #[verifier::external_body]
    pub(crate) fn new() -> (hasher: Hasher)
        ensures
            absorbed(hasher) == Seq::<u8>::empty(),
    {
        Hasher { inner: sha2::Sha256::new() }
    }

    /// `Digest::update`: takes in more bytes, after those that came before.
    #[verifier::external_body]
    pub(crate) fn update(&mut self, bytes: &[u8])
        ensures
            absorbed(*final(self)) == absorbed(*old(self)) + bytes@,
    {
        self.inner.update(bytes);
    }

    /// `Digest::finalize`, printed with `{:x}`: the digest of everything taken in, as
    /// sixty-four lower-case hexadecimal digits.
    #[verifier::external_body]
    pub(crate) fn finish(self) -> (digest: String)
        ensures
            digest@ == sha256_text(absorbed(self)),
            is_digest_text(digest@),
    {
        format!("{:x}", self.inner.finalize())
    }
}

/// The SHA-256 digest of a byte string, in lower-case hexadecimal.
pub fn sha256_hex(bytes: &[u8]) -> (digest: String)
    ensures
        digest@ == sha256_text(bytes@),
        is_digest_text(digest@),
{
    let mut hasher = Hasher::new();
    hasher.update(bytes);
    assert(Seq::<u8>::empty() + bytes@ =~= bytes@);
    hasher.finish()
}

} // verus!
