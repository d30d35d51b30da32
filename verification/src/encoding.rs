//! Base64 text and SHA-1 digests, both computed by outside crates.

use vstd::prelude::*;

verus! {

/// The standard-alphabet, padded Base64 text of `data`, as the `base64`
/// crate's `STANDARD` engine produces it.
pub uninterp spec fn base64_standard(data: Seq<u8>) -> Seq<char>;

/// The 20-byte SHA-1 digest of `data`, as the `sha1` crate computes it.
pub uninterp spec fn sha1_digest(data: Seq<u8>) -> Seq<u8>;

/// Whether the Base64 text of `len` input bytes has a length that fits in
/// `usize`: four characters for every three bytes, the last group padded.
pub open spec fn base64_len_fits(len: nat) -> bool {
    len / 3 * 4 + (if len % 3 > 0 { 4int } else { 0int }) <= usize::MAX
}

/// Calls `base64::Engine::encode` on the `STANDARD` engine. The call is a
/// function of the input bytes alone; it panics only when the encoded length
/// overflows `usize`, which the precondition rules out.
#[verifier::external_body]
pub fn base64_encode(s: &[u8]) -> (text: String)
    requires
        base64_len_fits(s@.len()),
    ensures
        text@ == base64_standard(s@),
{
    base64::Engine::encode(&base64::prelude::BASE64_STANDARD, s)
}

/// Calls `sha1::Sha1::digest`, the one-shot form of the hash. The result is
/// a function of the input bytes alone and is always 20 bytes long.
#[verifier::external_body]
pub(crate) fn sha1(data: &[u8]) -> (digest: Vec<u8>)
    ensures
        digest@ == sha1_digest(data@),
        digest@.len() == 20,
{
    <sha1::Sha1 as sha1::Digest>::digest(data).to_vec()
}

} // verus!
