//! Info-hashes: from the bencoded info dictionary, and from the text forms
//! that magnet links carry (40 hex digits or 32 base32 characters). Piece
//! digests are checked against the metadata here as well.

use vstd::prelude::*;
use data_encoding::BASE32;
use sha1::Digest;
use vstd::string::StringSliceAdditionalSpecFns;

verus! {

/// Length of an info-hash and of a piece digest, in bytes.
pub const INFO_HASH_LEN: usize = 20;

/// What SHA-1 gives for the bytes.
pub uninterp spec fn sha1_of(data: Seq<u8>) -> Seq<u8>;

/// What data-encoding's `BASE32` decoding gives for the bytes, `None` for
/// malformed input.
pub uninterp spec fn base32_decoded(data: Seq<u8>) -> Option<Seq<u8>>;

/// The UTF-8 bytes of what `str::to_uppercase` gives for the text.
pub uninterp spec fn upper_bytes_of(s: Seq<char>) -> Seq<u8>;

/// Value of an ASCII hex digit, either case.
pub open spec fn hex_digit(c: u8) -> Option<u8> {
    if 48 <= c <= 57 {
        Some((c - 48) as u8)
    } else if 97 <= c <= 102 {
        Some((c - 87) as u8)
    } else if 65 <= c <= 70 {
        Some((c - 55) as u8)
    } else {
        None
    }
}

/// Every byte is a hex digit and their number is even.
pub open spec fn is_hex(s: Seq<u8>) -> bool {
    s.len() % 2 == 0 && forall|i: int| 0 <= i < s.len() ==> (#[trigger] hex_digit(s[i])) is Some
}

/// The bytes that a string of hex digit pairs spells.
pub open spec fn hex_bytes(s: Seq<u8>) -> Seq<u8> {
    Seq::new(s.len() / 2, |i: int| (hex_digit(s[2 * i])->0 * 16 + hex_digit(s[2 * i + 1])->0) as u8)
}

/// Relies on hex::decode: pairs of hex digits, either case, each give one
/// byte; anything else is an error.
#[verifier::external_body]
fn hex_decode(data: &[u8]) -> (r: Option<Vec<u8>>)
    ensures
        r is Some <==> is_hex(data@),
        r matches Some(v) ==> v@ == hex_bytes(data@),
{
    hex::decode(data).ok()
}

/// Relies on data_encoding::BASE32's decode; the result depends on the
/// input bytes alone.
#[verifier::external_body]
fn base32_decode(data: &[u8]) -> (r: Option<Vec<u8>>)
    ensures
        match r {
            Some(v) => base32_decoded(data@) == Some(v@),
            None => base32_decoded(data@) is None,
        },
{
    BASE32.decode(data).ok()
}

/// Relies on str::to_uppercase, taken as UTF-8 bytes; the result depends
/// on the text alone.
#[verifier::external_body]
fn uppercase_bytes(s: &str) -> (r: Vec<u8>)
    ensures
        r@ == upper_bytes_of(s@),
{
    s.to_uppercase().into_bytes()
}

/// Relies on sha1::Sha1 (`Digest::digest`): a 20-byte digest of the bytes.
#[verifier::external_body]
fn sha1_digest(data: &[u8]) -> (r: Vec<u8>)
    ensures
        r@ == sha1_of(data@),
        r@.len() == INFO_HASH_LEN,
{
    sha1::Sha1::digest(data).to_vec()
}

/// The hash that magnet-url reads out of a magnet link: the value of its
/// `xt=urn:<type>:<hash>` parameter, if it has one.
pub uninterp spec fn magnet_hash_of(link: Seq<char>) -> Option<Seq<char>>;

/// Relies on magnet_url::Magnet::new and Magnet::hash: a link that does not
/// start with `magnet:?` is refused; otherwise the hash is read out of the
/// link's text alone.
#[verifier::external_body]
fn magnet_hash(link: &str) -> (r: Option<String>)
    ensures
        match r {
            Some(h) => magnet_hash_of(link@) == Some(h@),
            None => magnet_hash_of(link@) is None,
        },
        !(link@.len() >= 8 && link@.take(8) == seq!['m', 'a', 'g', 'n', 'e', 't', ':', '?']) ==> r is None,
{
    magnet_url::Magnet::new(link).ok().and_then(|m| m.hash().map(|h| h.to_string()))
}

/// Why a textual info-hash was refused.
#[derive(Clone, Copy, Debug, PartialEq, Eq, Structural)]
pub enum InfoHashError {
    /// 40 characters that are not hex digits.
    InvalidHex,
    /// 32 characters that are not base32.
    InvalidBase32,
    /// Neither 40 nor 32 bytes long.
    InvalidLength(usize),
    /// The magnet link could not be read or carries no hash.
    MissingHash,
}

/// The result of decoding a textual info-hash.
pub open spec fn decoded_info_hash(text: Seq<char>) -> Result<Seq<u8>, InfoHashError> {
    let b = vstd::utf8::encode_utf8(text);
    let n = b.len() as usize;
    if n == 40 {
        if is_hex(b) { Ok(hex_bytes(b)) } else { Err(InfoHashError::InvalidHex) }
    } else if n == 32 {
        match base32_decoded(upper_bytes_of(text)) {
            Some(v) => Ok(v),
            None => Err(InfoHashError::InvalidBase32),
        }
    } else {
        Err(InfoHashError::InvalidLength(n))
    }
}

/// Decodes an info-hash written as 40 hex digits or as 32 base32
/// characters (either case).
pub fn decode_info_hash(hash_string: &str) -> (r: Result<Vec<u8>, InfoHashError>)
    ensures
        match r {
            Ok(v) => decoded_info_hash(hash_string@) == Ok::<Seq<u8>, InfoHashError>(v@),
            Err(e) => decoded_info_hash(hash_string@) == Err::<Seq<u8>, InfoHashError>(e),
        },
{
    let n = hash_string.len();
    if n == 40 {
        match hex_decode(hash_string.as_bytes()) {
            Some(v) => Ok(v),
            None => Err(InfoHashError::InvalidHex),
        }
    } else if n == 32 {
        let upper = uppercase_bytes(hash_string);
        match base32_decode(upper.as_slice()) {
            Some(v) => Ok(v),
            None => Err(InfoHashError::InvalidBase32),
        }
    } else {
        Err(InfoHashError::InvalidLength(n))
    }
}

/// The info-hash of a torrent: the SHA-1 of its bencoded info dictionary.
pub fn info_hash_of(info_dict_bencode: &[u8]) -> (r: Vec<u8>)
    ensures
        r@ == sha1_of(info_dict_bencode@),
        r@.len() == INFO_HASH_LEN,
{
    sha1_digest(info_dict_bencode)
}

/// Whether a computed digest is the expected one, byte for byte.
pub fn digest_matches(digest: &[u8], expected: &[u8]) -> (r: bool)
    ensures
        r == (digest@ == expected@),
{
    if digest.len() != expected.len() {
        return false;
    }
    let mut i: usize = 0;
    while i < digest.len()
        invariant
            i <= digest@.len(),
            digest@.len() == expected@.len(),
            forall|j: int| 0 <= j < i ==> digest@[j] == expected@[j],
        decreases digest@.len() - i,
    {
        if digest[i] != expected[i] {
            return false;
        }
        i = i + 1;
    }
    assert(digest@ =~= expected@);
    true
}

/// Whether the bytes of a piece hash to the digest the metadata gives for it.
pub fn verify_piece(piece: &[u8], expected_digest: &[u8]) -> (r: bool)
    ensures
        r == (sha1_of(piece@) == expected_digest@),
{
    let digest = sha1_digest(piece);
    digest_matches(digest.as_slice(), expected_digest)
}

/// The info-hash a magnet link names: the hash of its `xt` parameter,
/// decoded as `decode_info_hash` does.
pub fn info_hash_from_magnet(magnet_link: &str) -> (r: Result<Vec<u8>, InfoHashError>)
    ensures
        match magnet_hash_of(magnet_link@) {
            None => r == Err::<Vec<u8>, InfoHashError>(InfoHashError::MissingHash),
            Some(h) => match r {
                Ok(v) => decoded_info_hash(h) == Ok::<Seq<u8>, InfoHashError>(v@),
                Err(e) => decoded_info_hash(h) == Err::<Seq<u8>, InfoHashError>(e),
            },
        },
        !(magnet_link@.len() >= 8 && magnet_link@.take(8) == seq!['m', 'a', 'g', 'n', 'e', 't', ':', '?'])
            ==> r == Err::<Vec<u8>, InfoHashError>(InfoHashError::MissingHash),
{
    match magnet_hash(magnet_link) {
        Some(h) => decode_info_hash(h.as_str()),
        None => Err(InfoHashError::MissingHash),
    }
}

} // verus!
