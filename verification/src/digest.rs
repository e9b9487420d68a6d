//! Digests of tool calls, fingerprints of texts and identifiers of turns.

use vstd::prelude::*;
use vstd::string::*;
use vstd::utf8::encode_utf8;

use crate::text::{byte_len, bytes_of};

verus! {

broadcast use vstd::string::group_string_axioms;

/// The SHA-256 hash of some bytes, as `sha2::Sha256` computes it.
pub uninterp spec fn sha256(bytes: Seq<u8>) -> Seq<u8>;

/// Hashes bytes, through `Sha256::digest` of `sha2`.
///
/// The hash is named `sha256`; it has 32 bytes.
#[verifier::external_body]
pub(crate) fn sha256_of(bytes: &Vec<u8>) -> (hash: Vec<u8>)
    ensures
        hash@ == sha256(bytes@),
        hash@.len() == 32,
{
    <sha2::Sha256 as sha2::Digest>::digest(bytes).to_vec()
}

/// The hexadecimal digit of a number below sixteen, in small letters.
pub open spec fn hex_char(n: nat) -> char {
    if n < 10 {
        (48 + n) as char
    } else {
        (87 + n) as char
    }
}

/// Bytes in hexadecimal, two digits each, in small letters.
pub open spec fn hex_text(bytes: Seq<u8>) -> Seq<char> {
    Seq::new(
        2 * bytes.len(),
        |i: int|
            if i % 2 == 0 {
                hex_char((bytes[i / 2] / 16) as nat)
            } else {
                hex_char((bytes[i / 2] % 16) as nat)
            },
    )
}

/// Bytes in hexadecimal, through `hex::encode`.
///
/// Each byte gives two digits, the higher half first, in small letters.
#[verifier::external_body]
pub(crate) fn hex_of(bytes: &Vec<u8>) -> (text: String)
    ensures
        text@ == hex_text(bytes@),
{
    hex::encode(bytes)
}

/// What a text is recognised by: how long it is, and its hash.
#[derive(Debug, Clone, PartialEq, Eq)]
pub struct Fingerprint {
    /// The number of its bytes.
    pub length: usize,
    /// The hash of its bytes, in hexadecimal.
    pub digest: String,
}

/// A fingerprint as a mathematical value.
pub ghost struct FingerprintView {
    pub length: nat,
    pub digest: Seq<char>,
}

impl View for Fingerprint {
    type V = FingerprintView;

    open spec fn view(&self) -> FingerprintView {
        FingerprintView { length: self.length as nat, digest: self.digest@ }
    }
}

/// The fingerprint of a text: the number of its bytes in UTF-8, and their hash.
pub open spec fn fingerprint(text: Seq<char>) -> FingerprintView {
    FingerprintView { length: byte_len(text), digest: hex_text(sha256(encode_utf8(text))) }
}

impl Fingerprint {
    /// The fingerprint of a text.
    ///
    /// That two texts of one length have different fingerprints is as good as
    /// certain, and not stated: it rests on the hash.
    pub fn of(text: &str) -> (print: Fingerprint)
        ensures
            print@ == fingerprint(text@),
    {
        let bytes = bytes_of(text);
        Fingerprint { length: bytes.len(), digest: hex_of(&sha256_of(&bytes)) }
    }

    /// Whether two fingerprints are the same.
    pub fn same(&self, other: &Fingerprint) -> (answer: bool)
        ensures
            answer == (self@ == other@),
    {
        self.length == other.length && self.digest == other.digest
    }
}

/// A hexadecimal digit in small letters.
pub open spec fn is_hex_digit(c: char) -> bool {
    '0' <= c <= '9' || 'a' <= c <= 'f'
}

/// A random UUID as text: 36 characters, four of them hyphens, with the digits
/// that mark the version and the variant.
pub open spec fn is_uuid_v4(text: Seq<char>) -> bool {
    &&& text.len() == 36
    &&& forall|i: int|
        0 <= i < 36 ==> if i == 8 || i == 13 || i == 18 || i == 23 {
            #[trigger] text[i] == '-'
        } else {
            is_hex_digit(text[i])
        }
    &&& text[14] == '4'
    &&& text[19] == '8' || text[19] == '9' || text[19] == 'a' || text[19] == 'b'
}

/// A fresh identifier, through `Uuid::new_v4` of `uuid`.
///
/// Which one it is rests on chance; its shape is that of a random UUID. That
/// two calls give different ones is likely, and not stated.
#[verifier::external_body]
pub(crate) fn fresh_id() -> (id: String)
    ensures
        is_uuid_v4(id@),
{
    uuid::Uuid::new_v4().to_string()
}

} // verus!
