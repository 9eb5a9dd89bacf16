//! SHA-256 digests in hexadecimal.

use sha2::{Digest, Sha256};
use vstd::prelude::*;
use vstd::string::*;

verus! {

/// A lower-case hexadecimal digit.
pub open spec fn hex_digit(c: char) -> bool {
    '0' <= c <= '9' || 'a' <= c <= 'f'
}

/// The text has the form of a SHA-256 digest: sixty-four lower-case
/// hexadecimal digits.
pub open spec fn lowercase_sha256(s: Seq<char>) -> bool {
    s.len() == 64 && forall|i: int| 0 <= i < s.len() ==> hex_digit(#[trigger] s[i])
}

/// Whether the text has the form of a SHA-256 digest.
pub fn is_lowercase_sha256(value: &str) -> (r: bool)
    ensures
        r == lowercase_sha256(value@),
{
    let n: usize = value.unicode_len();
    if n != 64 {
        return false;
    }
    let mut i: usize = 0;
    while i < n
        invariant
            n == value@.len(),
            i <= n,
            forall|j: int| 0 <= j < i ==> hex_digit(#[trigger] value@[j]),
        decreases n - i,
    {
        let c = value.get_char(i);
        if !(('0' <= c && c <= '9') || ('a' <= c && c <= 'f')) {
            assert(!hex_digit(value@[i as int]));
            return false;
        }
        i += 1;
    }
    true
}

/// The hexadecimal text of the SHA-256 digest of the bytes.
pub uninterp spec fn sha256_text(bytes: Seq<u8>) -> Seq<char>;

/// `sha2::Sha256::digest`, rendered with `{:x}`: the result is the named digest
/// of the bytes, and its text is sixty-four lower-case hexadecimal digits.
#[verifier::external_body]
pub(crate) fn sha256_hex(bytes: &[u8]) -> (r: String)
    ensures
        r@ == sha256_text(bytes@),
        lowercase_sha256(r@),
{
    format!("{:x}", Sha256::digest(bytes))
}

} // verus!
