//! Random secrets handed to an application once it is authenticated.
use crate::keyspace::utf8_text;
use rand::Rng;
use vstd::prelude::*;
use vstd::utf8::*;

verus! {

/// Relies on rand::thread_rng and Rng::gen_range: a number below `bound`
/// (the range is not empty, so it does not panic).
#[verifier::external_body]
fn random_below(bound: usize) -> (r: usize)
    requires
        bound > 0,
    ensures
        r < bound,
{
    rand::thread_rng().gen_range(0..bound)
}

/// A letter or a decimal digit, as the secrets are made of.
pub open spec fn is_password_char(c: char) -> bool {
    ('a' <= c <= 'z') || ('A' <= c <= 'Z') || ('0' <= c <= '9')
}

pub open spec fn is_password_byte(b: u8) -> bool {
    (97 <= b <= 122) || (65 <= b <= 90) || (48 <= b <= 57)
}

/// The `i`-th of `a..z`, `A..Z`, `0..9`, as an ASCII byte.
pub open spec fn alphabet_byte(i: int) -> int {
    if i < 26 {
        97 + i
    } else if i < 52 {
        65 + (i - 26)
    } else {
        48 + (i - 52)
    }
}

/// The `i`-th of `a..z`, `A..Z`, `0..9`.
fn password_byte(i: usize) -> (r: u8)
    requires
        i < 62,
    ensures
        r as int == alphabet_byte(i as int),
        is_password_byte(r),
{
    if i < 26 {
        97u8 + i as u8
    } else if i < 52 {
        65u8 + (i - 26) as u8
    } else {
        48u8 + (i - 52) as u8
    }
}

/// A random secret of `length` letters and digits, each drawn uniformly
/// from the 62 of them.
pub fn generate_strong_password(length: usize) -> (r: String)
    ensures
        r@.len() == length,
        forall|i: int| 0 <= i < r@.len() ==> is_password_char(#[trigger] r@[i]),
{
    let mut bytes: Vec<u8> = Vec::new();
    let mut n: usize = 0;
    while n < length
        invariant
            n <= length,
            bytes@.len() == n,
            forall|i: int| 0 <= i < n ==> is_password_byte(#[trigger] bytes@[i]),
        decreases length - n,
    {
        bytes.push(password_byte(random_below(62)));
        n += 1;
    }
    let ghost chars = Seq::new(bytes@.len(), |i: int| bytes@[i] as char);
    proof {
        assert(is_ascii_chars(chars)) by {
            assert forall|i: int| 0 <= i < chars.len() implies '\0' <= #[trigger] chars[i]
                <= '\u{7f}' by {
                assert(is_password_byte(bytes@[i]));
            }
        }
        is_ascii_chars_encode_utf8(chars);
        assert(encode_utf8(chars) =~= bytes@);
        encode_utf8_valid_utf8(chars);
        encode_utf8_decode_utf8(chars);
    }
    match utf8_text(bytes.as_slice()) {
        Some(t) => t,
        None => String::new(),
    }
}

} // verus!
