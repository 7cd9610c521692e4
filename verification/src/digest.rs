//! SHA-512 digests and their hexadecimal form.

use sha2::{Digest, Sha512};
use vstd::prelude::*;

verus! {

/// The SHA-512 digest of `data`.
pub uninterp spec fn sha512(data: Seq<u8>) -> Seq<u8>;

/// Calls `sha2::Sha512::digest`. Trusted: the bytes that come back are the
/// SHA-512 digest of `data`, which depends on `data` alone.
#[verifier::external_body]
pub(crate) fn sha512_digest(data: &[u8]) -> (out: Vec<u8>)
    ensures
        out@ == sha512(data@),
{
    Sha512::digest(data).to_vec()
}

/// Why a text is not the hexadecimal form of a byte string.
#[derive(Clone, Copy, Debug, PartialEq, Eq)]
pub enum HexError {
    /// The byte `c`, at position `index`, is no hexadecimal digit.
    InvalidHexCharacter { c: char, index: usize },
    /// The text has an odd number of bytes.
    OddLength,
    /// The text does not fit a container of fixed size. Decoding into a
    /// vector never gives this.
    InvalidStringLength,
}

/// Value of one hexadecimal digit, upper or lower case.
pub open spec fn hex_digit(c: u8) -> Option<u8> {
    if 0x30 <= c <= 0x39 {
        Some((c - 0x30) as u8)
    } else if 0x61 <= c <= 0x66 {
        Some((c - 0x61 + 10) as u8)
    } else if 0x41 <= c <= 0x46 {
        Some((c - 0x41 + 10) as u8)
    } else {
        None
    }
}

/// Where the first byte stands in `text` that is no hexadecimal digit; the
/// length of `text` if all are digits.
pub open spec fn first_bad_digit(text: Seq<u8>) -> int
    decreases text.len(),
{
    if text.len() == 0 || hex_digit(text[0]) is None {
        0
    } else {
        1 + first_bad_digit(text.drop_first())
    }
}

/// The bytes that a text of hexadecimal digits stands for: two digits per
/// byte, the high half first.
pub open spec fn hex_bytes(text: Seq<u8>) -> Seq<u8> {
    Seq::new(
        text.len() / 2,
        |k: int| (hex_digit(text[2 * k]).unwrap() * 16 + hex_digit(text[2 * k + 1]).unwrap()) as u8,
    )
}

/// What decoding `text` gives: the bytes, or the first thing wrong with it.
/// An odd length is reported before any bad digit.
pub open spec fn hex_decoding(text: Seq<u8>) -> Result<Seq<u8>, HexError> {
    let bad = first_bad_digit(text);
    if text.len() % 2 != 0 {
        Err(HexError::OddLength)
    } else if bad < text.len() {
        Err(HexError::InvalidHexCharacter { c: text[bad] as char, index: bad as usize })
    } else {
        Ok(hex_bytes(text))
    }
}

/// A decoder's outcome by its value.
pub open spec fn decoded_view(res: Result<Vec<u8>, HexError>) -> Result<Seq<u8>, HexError> {
    match res {
        Ok(bytes) => Ok(bytes@),
        Err(e) => Err(e),
    }
}

/// Calls `hex::decode`. Trusted: it refuses a text of odd length, then the
/// first byte that is no hexadecimal digit, naming that byte and where it
/// stands; any other text it turns into bytes, two digits each.
#[verifier::external_body]
pub(crate) fn hex_decode(text: &[u8]) -> (res: Result<Vec<u8>, HexError>)
    ensures
        decoded_view(res) == hex_decoding(text@),
{
    match hex::decode(text) {
        Ok(bytes) => Ok(bytes),
        Err(hex::FromHexError::InvalidHexCharacter { c, index }) => Err(
            HexError::InvalidHexCharacter { c, index },
        ),
        Err(hex::FromHexError::OddLength) => Err(HexError::OddLength),
        Err(hex::FromHexError::InvalidStringLength) => Err(HexError::InvalidStringLength),
    }
}

} // verus!
