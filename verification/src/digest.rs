//! SHA-256 digests, their hexadecimal text, and comparison in constant time.

use sha2::Digest;
use subtle::ConstantTimeEq;
use vstd::prelude::*;
use vstd::string::*;

verus! {

/// The SHA-256 digest of `data`.
pub uninterp spec fn sha256(data: Seq<u8>) -> Seq<u8>;

/// Calls `sha2::Sha256::digest`. The digest is a function of the data alone and is 32 bytes long;
/// the hash function itself is not spelled out.
#[verifier::external_body]
pub(crate) fn sha256_digest(data: &[u8]) -> (r: Vec<u8>)
    ensures
        r@ == sha256(data@),
        r@.len() == 32,
{
    sha2::Sha256::digest(data).to_vec()
}

/// Calls `subtle::ConstantTimeEq::ct_eq` on two byte slices: true exactly when they have the same
/// length and the same bytes. That the time taken does not depend on the bytes is not stated.
#[verifier::external_body]
pub(crate) fn constant_time_eq(a: &[u8], b: &[u8]) -> (r: bool)
    ensures
        r == (a@ == b@),
{
    a.ct_eq(b).into()
}

/// The lower-case hexadecimal digit of `d`.
pub open spec fn hex_digit(d: int) -> char {
    "0123456789abcdef"@[d]
}

/// Two hexadecimal digits for each byte, the high half first.
pub open spec fn hex(bytes: Seq<u8>) -> Seq<char> {
    Seq::new(
        2 * bytes.len(),
        |i: int|
            if i % 2 == 0 {
                hex_digit(bytes[i / 2] as int / 16)
            } else {
                hex_digit(bytes[i / 2] as int % 16)
            },
    )
}

/// Two lower-case hexadecimal digits for each byte, the high half first.
pub fn hex_text(bytes: &[u8]) -> (r: String)
    ensures
        r@ == hex(bytes@),
{
    proof {
        reveal_strlit("0123456789abcdef");
    }
    let digits = "0123456789abcdef";
    let mut r = String::new();
    let mut i: usize = 0;
    assert(r@ =~= hex(bytes@.take(0)));
    while i < bytes.len()
        invariant
            i <= bytes@.len(),
            r@ == hex(bytes@.take(i as int)),
            digits@ == "0123456789abcdef"@,
            digits@.len() == 16,
        decreases bytes@.len() - i,
    {
        let b: usize = bytes[i] as usize;
        r.append(digits.substring_char(b / 16, b / 16 + 1));
        r.append(digits.substring_char(b % 16, b % 16 + 1));
        assert(r@ =~= hex(bytes@.take(i + 1))) by {
            let short = bytes@.take(i as int);
            let long = bytes@.take(i + 1);
            assert forall|j: int| 0 <= j < 2 * i implies hex(long)[j] == hex(short)[j] by {
                assert(long[j / 2] == short[j / 2]);
            }
            assert((2 * i) / 2 == i && (2 * i + 1) / 2 == i);
        }
        i += 1;
    }
    assert(bytes@.take(bytes@.len() as int) =~= bytes@);
    r
}

/// The hexadecimal SHA-256 digest of a text's UTF-8 bytes.
pub open spec fn token_digest(token: Seq<char>) -> Seq<char> {
    hex(sha256(vstd::utf8::encode_utf8(token)))
}

/// The hexadecimal SHA-256 digest of a text's UTF-8 bytes.
pub fn digest_of(token: &str) -> (r: String)
    ensures
        r@ == token_digest(token@),
        r@.len() == 64,
{
    let d = sha256_digest(token.as_bytes());
    hex_text(d.as_slice())
}

} // verus!
