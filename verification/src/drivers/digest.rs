//! Message digests and authentication codes, computed by the RustCrypto
//! crates. Their results are trusted, not proved.

use sha2::Digest;
use vstd::prelude::*;

verus! {

/// The HMAC-SHA256 tag of `message` under `key`.
pub uninterp spec fn hmac_sha256_tag(key: Seq<u8>, message: Seq<u8>) -> Seq<u8>;

/// The SHA-256 digest of `data`.
pub uninterp spec fn sha256_digest(data: Seq<u8>) -> Seq<u8>;

/// The MD5 digest of `data`.
pub uninterp spec fn md5_digest(data: Seq<u8>) -> Seq<u8>;

/// Calls `hmac::Hmac::<sha2::Sha256>`: keys it with `key` (the constructor
/// accepts a key of any length and never fails), feeds it `message` once and
/// takes the tag. Trusted: the tag depends on the two byte strings alone.
#[verifier::external_body]
pub(crate) fn hmac_sha256(key: &[u8], message: &[u8]) -> (tag: Vec<u8>)
    ensures
        tag@ == hmac_sha256_tag(key@, message@),
{
    let mut mac = <hmac::Hmac<sha2::Sha256> as hmac::NewMac>::new_varkey(key).unwrap();
    hmac::Mac::update(&mut mac, message);
    hmac::Mac::finalize(mac).into_bytes().to_vec()
}

/// Calls `sha2::Sha256::digest`. Trusted: the digest depends on the bytes
/// alone.
#[verifier::external_body]
pub(crate) fn sha256(data: &[u8]) -> (digest: Vec<u8>)
    ensures
        digest@ == sha256_digest(data@),
{
    sha2::Sha256::digest(data).to_vec()
}

/// Calls `md5::Md5::digest`. Trusted: the digest depends on the bytes alone.
#[verifier::external_body]
pub(crate) fn md5(data: &[u8]) -> (digest: Vec<u8>)
    ensures
        digest@ == md5_digest(data@),
{
    md5::Md5::digest(data).to_vec()
}

} // verus!
