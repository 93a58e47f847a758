//! Digests of texts, computed by `sha2` and written by `hex`.

use vstd::prelude::*;
use crate::json::hex_digit;
use crate::text::Text;

verus! {

/// The SHA-256 digest of a text's UTF-8 bytes.
pub uninterp spec fn sha256(text: Seq<char>) -> Seq<u8>;

/// `sha2::Sha256::digest` of the text's bytes: the result depends on the text
/// alone, and is 32 bytes.
#[verifier::external_body]
fn sha256_of(text: &str) -> (r: Vec<u8>)
    ensures
        r@ == sha256(text@),
        r@.len() == 32,
{
    <sha2::Sha256 as sha2::Digest>::digest(text.as_bytes()).to_vec()
}

/// Two hexadecimal digits for each byte, lower case.
pub open spec fn hex_text(bytes: Seq<u8>) -> Text
    decreases bytes.len(),
{
    if bytes.len() == 0 {
        seq![]
    } else {
        hex_text(bytes.drop_last()) + seq![
            hex_digit(bytes.last() as int / 16),
            hex_digit(bytes.last() as int % 16),
        ]
    }
}

/// `hex::encode`: two lower-case hexadecimal digits for each byte, in order.
#[verifier::external_body]
pub(crate) fn hex_of(bytes: &Vec<u8>) -> (r: String)
    ensures
        r@ == hex_text(bytes@),
{
    hex::encode(bytes)
}

/// The SHA-256 digest of a text, in hexadecimal.
pub fn sha256_hex(text: &str) -> (r: String)
    ensures
        r@ == hex_text(sha256(text@)),
{
    hex_of(&sha256_of(text))
}

} // verus!
