//! Content digests of image files: SHA-256, written in standard padded Base64.

use vstd::prelude::*;

use base64ct::Encoding;
use sha2::Digest;

verus! {

/// The SHA-256 digest of a byte sequence.
pub uninterp spec fn sha256_digest(data: Seq<u8>) -> Seq<u8>;

/// The standard (RFC 4648, padded) Base64 text of a byte sequence.
pub uninterp spec fn base64_text(data: Seq<u8>) -> Seq<char>;

/// A character of the standard Base64 alphabet: `A`-`Z`, `a`-`z`, `0`-`9`,
/// `+` and `/`.
pub open spec fn is_base64_char(c: char) -> bool {
    ||| ('A' <= c && c <= 'Z')
    ||| ('a' <= c && c <= 'z')
    ||| ('0' <= c && c <= '9')
    ||| c == '+'
    ||| c == '/'
}

/// How many `=` close the padded Base64 text of `n` bytes: none when `n` is
/// a multiple of three, two when one byte is left over, one when two are.
pub open spec fn base64_padding(n: nat) -> nat {
    if n % 3 == 1 {
        2
    } else if n % 3 == 2 {
        1
    } else {
        0
    }
}

/// Calls `sha2::Sha256` (`new`, `update`, `finalize`). Claimed: the result is
/// the SHA-256 digest of `data`, a function of `data` alone, and it is 32
/// bytes long.
#[verifier::external_body]
pub(crate) fn sha256(data: &[u8]) -> (res: Vec<u8>)
    ensures
        res@ == sha256_digest(data@),
        res@.len() == 32,
{
    let mut hasher = sha2::Sha256::new();
    hasher.update(data);
    hasher.finalize().as_slice().to_vec()
}

/// Calls `base64ct::Base64::encode_string`. Claimed: the result is the padded
/// standard Base64 text of `data`, a function of `data` alone, with four
/// characters for each started group of three bytes; it is made of
/// characters of the standard alphabet, followed by as many `=` as
/// `base64_padding` says. Which alphabet characters they are is left to the
/// name `base64_text`. The function panics when `4 * data.len()` overflows,
/// which `requires` leaves out.
#[verifier::external_body]
pub(crate) fn base64_encode(data: &[u8]) -> (res: String)
    requires
        data@.len() * 4 <= usize::MAX,
    ensures
        res@ == base64_text(data@),
        res@.len() == 4 * ((data@.len() + 2) / 3),
        forall|i: int|
            0 <= i < res@.len() - base64_padding(data@.len()) ==> is_base64_char(#[trigger] res@[i]),
        forall|i: int|
            res@.len() - base64_padding(data@.len()) <= i < res@.len() ==> #[trigger] res@[i] == '=',
{
    base64ct::Base64::encode_string(data)
}

} // verus!
