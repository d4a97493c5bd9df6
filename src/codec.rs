//! Short codes: a sequence number written in base 62, digits first, then
//! upper-case letters, then lower-case letters, with no padding.
use vstd::prelude::*;

use crate::SeqId;

verus! {

/// The value of one base-62 digit, or -1 for a character outside the alphabet.
pub open spec fn digit_value(c: char) -> int {
    if '0' <= c && c <= '9' {
        c as int - 48
    } else if 'A' <= c && c <= 'Z' {
        c as int - 55
    } else if 'a' <= c && c <= 'z' {
        c as int - 61
    } else {
        -1
    }
}

/// The character that writes digit `d` (for `0 <= d < 62`).
pub open spec fn digit_char(d: int) -> char {
    if d < 10 {
        (d + 48) as char
    } else if d < 36 {
        (d + 55) as char
    } else {
        (d + 61) as char
    }
}

pub open spec fn is_base62_char(c: char) -> bool {
    digit_value(c) >= 0
}

pub open spec fn all_base62(s: Seq<char>) -> bool {
    forall|i: int| 0 <= i < s.len() ==> is_base62_char(#[trigger] s[i])
}

/// The number that a string of base-62 digits denotes, most significant first.
pub open spec fn base62_value(s: Seq<char>) -> nat
    decreases s.len(),
{
    if s.len() == 0 {
        0
    } else {
        base62_value(s.drop_last()) * 62 + digit_value(s.last()) as nat
    }
}

/// The base-62 rendering of `n`: its digits without leading zeros ("0" for zero).
pub open spec fn base62_of(n: nat) -> Seq<char>
    decreases n,
{
    if n < 62 {
        seq![digit_char(n as int)]
    } else {
        base62_of(n / 62).push(digit_char((n % 62) as int))
    }
}

/// What decoding a short code gives: the number it denotes, when the code is
/// non-empty, uses the alphabet only, and denotes a value that fits an `i64`.
pub open spec fn decode_spec(s: Seq<char>) -> Option<int> {
    if s.len() > 0 && all_base62(s) && base62_value(s) <= i64::MAX {
        Some(base62_value(s) as int)
    } else {
        None
    }
}

/// Why a short code was refused.
#[derive(Clone, Copy, PartialEq, Eq, Debug, Structural)]
pub enum CodeError {
    /// The code is empty, holds a character outside the alphabet, or denotes
    /// a number past the range of sequence numbers.
    Invalid,
}

#[verifier::external_type_specification]
#[verifier::external_body]
pub struct ExDecodeError(base62::DecodeError);

/// Relies on `base62::encode`: the standard-alphabet digits of `n`, most
/// significant first, without leading zeros.
#[verifier::external_body]
fn base62_encode(n: u128) -> (r: String)
    ensures
        r@ == base62_of(n as nat),
{
    base62::encode(n)
}

/// Relies on `base62::decode`: it succeeds exactly on non-empty strings of
/// standard-alphabet characters whose value fits a `u128`, and then returns
/// that value. (A non-ASCII character's bytes are all outside the alphabet.)
#[verifier::external_body]
fn base62_decode(s: &str) -> (r: Result<u128, base62::DecodeError>)
    ensures
        r is Ok <==> (s@.len() > 0 && all_base62(s@) && base62_value(s@) <= u128::MAX),
        r is Ok ==> r->Ok_0 == base62_value(s@),
{
    base62::decode(s)
}

/// The digits of `base62_of(n)` are in the alphabet and denote `n`.
pub proof fn lemma_base62_of(n: nat)
    ensures
        base62_of(n).len() > 0,
        all_base62(base62_of(n)),
        base62_value(base62_of(n)) == n,
    decreases n,
{
    if n < 62 {
        let s = base62_of(n);
        assert(s.drop_last() =~= Seq::<char>::empty());
        assert(base62_value(s.drop_last()) == 0);
    } else {
        lemma_base62_of(n / 62);
        let s = base62_of(n);
        assert(s.drop_last() =~= base62_of(n / 62));
        assert(n == (n / 62) * 62 + n % 62);
    }
}

/// Renders a sequence number as a short code.
pub fn encode(id: SeqId) -> (r: String)
    requires
        id.0 >= 0,
    ensures
        r@ == base62_of(id.0 as nat),
        all_base62(r@),
        r@.len() > 0,
{
    proof {
        lemma_base62_of(id.0 as nat);
    }
    base62_encode(id.0 as u128)
}

/// Reads a short code back into a sequence number.
pub fn decode(code: &str) -> (r: Result<SeqId, CodeError>)
    ensures
        r is Ok <==> decode_spec(code@) is Some,
        r is Ok ==> (r->Ok_0).0 == decode_spec(code@)->0,
        (exists|i: int| 0 <= i < code@.len() && !is_base62_char(#[trigger] code@[i])) ==> r
            is Err,
{
    match base62_decode(code) {
        Ok(n) => {
            if n <= i64::MAX as u128 {
                Ok(SeqId(n as i64))
            } else {
                Err(CodeError::Invalid)
            }
        },
        Err(_) => Err(CodeError::Invalid),
    }
}

/// Decoding the code of a sequence number gives that number back.
pub proof fn law_decode_encode(id: SeqId)
    requires
        id.0 >= 0,
    ensures
        decode_spec(base62_of(id.0 as nat)) == Some(id.0 as int),
{
    lemma_base62_of(id.0 as nat);
}

} // verus!
