//! SHA-256, from the `sha2` crate.

use sha2::{Digest, Sha256};
use vstd::prelude::*;

verus! {

/// The SHA-256 digest of the UTF-8 form of a text, in lower-case hexadecimal.
pub uninterp spec fn sha256_text(text: Seq<char>) -> Seq<char>;

/// Whether `c` is a lower-case hexadecimal digit.
pub open spec fn is_lower_hex(c: char) -> bool {
    '0' <= c <= '9' || 'a' <= c <= 'f'
}

/// `sha2::Sha256::digest` of the bytes of `text`, written out with `{:x}`: 64
/// lower-case hexadecimal digits that depend on the text alone.
#[verifier::external_body]
pub(crate) fn sha256_hex(text: &str) -> (hex: String)
    ensures
        hex@ == sha256_text(text@),
        hex@.len() == 64,
        forall|i: int| 0 <= i < 64 ==> is_lower_hex(#[trigger] hex@[i]),
{
    format!("{:x}", Sha256::digest(text.as_bytes()))
}

}
