//! Base64, digests and sizes, as other crates compute them.

use base64::Engine;
use crate::bytes::bytes_of;
use crate::text;
use vstd::prelude::*;
use vstd::string::*;
use vstd::utf8::*;

verus! {

/// The base64 text of bytes, in the standard alphabet with padding.
pub uninterp spec fn base64_text(bytes: Seq<u8>) -> Seq<char>;

/// The bytes that a base64 text stands for, or what is wrong with it.
pub uninterp spec fn base64_bytes(text: Seq<char>) -> Result<Seq<u8>, Seq<char>>;

/// Whether a base64 text stands for `bytes`.
pub open spec fn stands_for(text: Seq<char>, bytes: Seq<u8>) -> bool {
    base64_bytes(text) == Ok::<Seq<u8>, Seq<char>>(bytes)
}

/// Encodes bytes.
///
/// Calls `base64::Engine::encode` of `base64::engine::general_purpose::STANDARD`, which gives up
/// where the length of the text is no `usize`. The text is named; reading it gives the bytes back.
#[verifier::external_body]
pub(crate) fn encode_base64(bytes: &[u8]) -> (r: String)
    requires
        bytes@.len() <= usize::MAX / 2,
    ensures
        r@ == base64_text(bytes@),
        stands_for(r@, bytes@),
{
    base64::engine::general_purpose::STANDARD.encode(bytes)
}

/// Decodes a text.
///
/// Calls `base64::Engine::decode` of `base64::engine::general_purpose::STANDARD`. The bytes, or the
/// message of the error, are named.
#[verifier::external_body]
pub(crate) fn decode_base64(text: &str) -> (r: Result<Vec<u8>, String>)
    ensures
        match r {
            Ok(b) => base64_bytes(text@) == Ok::<Seq<u8>, Seq<char>>(b@),
            Err(e) => base64_bytes(text@) == Err::<Seq<u8>, Seq<char>>(e@),
        },
{
    base64::engine::general_purpose::STANDARD.decode(text).map_err(|e| e.to_string())
}

/// The SHA-256 digest of bytes.
pub uninterp spec fn sha256(bytes: Seq<u8>) -> Seq<u8>;

/// The SHA-256 digest of bytes.
///
/// Calls `sha2::Digest::digest` of `sha2::Sha256`. The digest is named; it has 32 bytes.
#[verifier::external_body]
fn sha256_digest(bytes: &[u8]) -> (r: Vec<u8>)
    ensures
        r@ == sha256(bytes@),
        r@.len() == 32,
{
    <sha2::Sha256 as sha2::Digest>::digest(bytes).to_vec()
}

/// Two hexadecimal digits for each byte.
pub open spec fn hex_digits(bytes: Seq<u8>) -> Seq<char> {
    Seq::new(
        2 * bytes.len(),
        |i: int|
            if i % 2 == 0 {
                text::hex_char(bytes[i / 2] as nat / 16)
            } else {
                text::hex_char(bytes[i / 2] as nat % 16)
            },
    )
}

/// Bytes in hexadecimal.
///
/// Calls `hex::encode`, which writes each byte as two lower-case hexadecimal digits, the high one
/// first.
#[verifier::external_body]
fn hex_text(bytes: &[u8]) -> (r: String)
    requires
        bytes@.len() <= usize::MAX / 2,
    ensures
        r@ == hex_digits(bytes@),
{
    hex::encode(bytes)
}

/// The SHA-256 digest of a text in hexadecimal.
pub fn sha256_hex(content: &str) -> (r: String)
    ensures
        r@ == hex_digits(sha256(encode_utf8(content@))),
        r@.len() == 64,
{
    let bytes = bytes_of(content);
    let digest = sha256_digest(bytes.as_slice());
    hex_text(digest.as_slice())
}

/// A size in decimal units.
pub uninterp spec fn decimal_size(bytes: nat) -> Seq<char>;

/// A size in binary units, with a space before the unit.
pub uninterp spec fn binary_size(bytes: nat) -> Seq<char>;

/// A size in decimal units, such as `1.5KB`.
///
/// Calls `humfmt::bytes` and shows its result, which is named.
#[verifier::external_body]
pub(crate) fn short_size(bytes: u64) -> (r: String)
    ensures
        r@ == decimal_size(bytes as nat),
{
    humfmt::bytes(bytes).to_string()
}

/// A size in binary units, such as `1.5 KiB`.
///
/// Calls `humfmt::bytes_with` with binary units and a space before the unit, and shows its result,
/// which is named.
#[verifier::external_body]
fn spaced_size(bytes: u64) -> (r: String)
    ensures
        r@ == binary_size(bytes as nat),
{
    humfmt::bytes_with(bytes, humfmt::BytesOptions::new().binary().space(true)).to_string()
}

/// A size in binary units, such as `1.5 KiB`.
pub fn human_size(bytes: u64) -> (r: String)
    ensures
        r@ == binary_size(bytes as nat),
{
    spaced_size(bytes)
}

/// The width and height of an image file, where it can be read.
pub uninterp spec fn image_size(bytes: Seq<u8>) -> Option<(u32, u32)>;

/// The width and height of an image file.
///
/// Calls `image::load_from_memory` and gives the width and height of the image, or nothing where
/// it reports an error; both are named.
#[verifier::external_body]
fn probe_image(bytes: &[u8]) -> (r: Option<(u32, u32)>)
    ensures
        r == image_size(bytes@),
{
    match image::load_from_memory(bytes) {
        Ok(img) => Some((img.width(), img.height())),
        Err(_) => None,
    }
}

/// The width and height of an image file; zero where it cannot be read.
pub fn decode_image_dimensions(bytes: &[u8]) -> (r: (u32, u32))
    ensures
        r == (match image_size(bytes@) {
            Some(d) => d,
            None => (0u32, 0u32),
        }),
{
    match probe_image(bytes) {
        Some(d) => d,
        None => (0, 0),
    }
}

} // verus!
