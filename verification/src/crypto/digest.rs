//! HMAC-MD5 and SHA-1 digests in lower-case hexadecimal, as the portal expects them.
use vstd::prelude::*;
use vstd::string::StringSliceAdditionalSpecFns;
use hmac::{Hmac, Mac};
use md5::Md5;
use ::sha1::{Digest, Sha1};

verus! {

/// The HMAC-MD5 tag (RFC 2104 over MD5) of `message` under `key`.
pub uninterp spec fn hmac_md5_tag(key: Seq<u8>, message: Seq<u8>) -> Seq<u8>;

/// The SHA-1 digest of `data`.
pub uninterp spec fn sha1_digest(data: Seq<u8>) -> Seq<u8>;

/// The lower-case hexadecimal digit of a value below 16.
pub open spec fn hex_digit(x: u8) -> char {
    if x < 10 {
        (48 + x) as char
    } else {
        (87 + x) as char
    }
}

/// `data` written as lower-case hexadecimal, two digits per byte, high half first.
pub open spec fn hex_lower(data: Seq<u8>) -> Seq<char> {
    Seq::new(
        2 * data.len(),
        |k: int|
            if k % 2 == 0 {
                hex_digit(data[k / 2] >> 4u8)
            } else {
                hex_digit(data[k / 2] & 0x0fu8)
            },
    )
}

/// Calls `hex::encode`, which writes each byte as two lower-case hex digits, high half
/// first; the contract claims exactly that.
#[verifier::external_body]
fn hex_encode(data: &[u8]) -> (res: String)
    ensures
        res@ == hex_lower(data@),
{
    hex::encode(data)
}

/// Computes HMAC-MD5 with the `hmac` and `md-5` crates (`Mac::new_from_slice`, which
/// accepts a key of any length, then `update` and `finalize`). The contract names the tag
/// and claims its 16-byte length, MD5's output size; the tag's value is not stated.
#[verifier::external_body]
fn hmac_md5_raw(key: &[u8], message: &[u8]) -> (tag: Vec<u8>)
    ensures
        tag@ == hmac_md5_tag(key@, message@),
        tag@.len() == 16,
{
    let mut mac = <Hmac<Md5> as Mac>::new_from_slice(key).expect("HMAC can take key of any size");
    mac.update(message);
    mac.finalize().into_bytes().to_vec()
}

/// Computes SHA-1 with the `sha1` crate (`Digest::digest`). The contract names the digest
/// and claims its 20-byte length, SHA-1's output size; the digest's value is not stated.
#[verifier::external_body]
fn sha1_raw(data: &[u8]) -> (digest: Vec<u8>)
    ensures
        digest@ == sha1_digest(data@),
        digest@.len() == 20,
{
    Sha1::digest(data).to_vec()
}

/// The HMAC-MD5 tag of the UTF-8 bytes of `message` under those of `key`, as 32
/// lower-case hex digits.
pub fn hmac_md5(key: &str, message: &str) -> (res: String)
    ensures
        res@ == hex_lower(hmac_md5_tag(key.spec_bytes(), message.spec_bytes())),
        res@.len() == 32,
{
    let tag = hmac_md5_raw(key.as_bytes(), message.as_bytes());
    hex_encode(tag.as_slice())
}

/// The SHA-1 digest of the UTF-8 bytes of `data`, as 40 lower-case hex digits.
pub fn sha1(data: &str) -> (res: String)
    ensures
        res@ == hex_lower(sha1_digest(data.spec_bytes())),
        res@.len() == 40,
{
    let digest = sha1_raw(data.as_bytes());
    hex_encode(digest.as_slice())
}

} // verus!
