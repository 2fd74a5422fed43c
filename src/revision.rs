//! Revision identifiers: `"<generation>-<content hash>"`.
use crate::keyspace::utf8_text;
use vstd::prelude::*;
use vstd::string::*;
use vstd::utf8::*;

verus! {

pub open spec fn digit_char(d: nat) -> char {
    seq!['0', '1', '2', '3', '4', '5', '6', '7', '8', '9'][d as int % 10]
}

/// Decimal digits of `n`, without sign or leading zeros.
pub open spec fn decimal(n: nat) -> Seq<char>
    decreases n,
{
    if n < 10 {
        seq![digit_char(n)]
    } else {
        decimal(n / 10) + seq![digit_char(n % 10)]
    }
}

/// UTF-8 bytes of the decimal digits of `n`.
fn decimal_bytes(n: u64) -> (r: Vec<u8>)
    ensures
        r@ == encode_utf8(decimal(n as nat)),
    decreases n,
{
    if n < 10 {
        proof {
            lemma_digit_byte(n as nat);
        }
        let mut r: Vec<u8> = Vec::new();
        r.push(48u8 + n as u8);
        assert(r@ =~= encode_utf8(decimal(n as nat)));
        r
    } else {
        let mut r = decimal_bytes(n / 10);
        proof {
            lemma_digit_byte((n % 10) as nat);
            lemma_encode_concat(decimal((n / 10) as nat), seq![digit_char((n % 10) as nat)]);
        }
        r.push(48u8 + (n % 10) as u8);
        assert(r@ =~= encode_utf8(decimal(n as nat)));
        r
    }
}

/// The decimal digits of `n`.
pub(crate) fn decimal_text(n: u64) -> (r: String)
    ensures
        r@ == decimal(n as nat),
{
    let bytes = decimal_bytes(n);
    proof {
        encode_utf8_valid_utf8(decimal(n as nat));
        encode_utf8_decode_utf8(decimal(n as nat));
    }
    match utf8_text(bytes.as_slice()) {
        Some(t) => t,
        None => String::new(),
    }
}

/// Lower-case hexadecimal MD5 digest of a text's UTF-8 bytes.
pub uninterp spec fn md5_hex(data: Seq<char>) -> Seq<char>;

pub open spec fn is_lower_hex(c: char) -> bool {
    ('0' <= c <= '9') || ('a' <= c <= 'f')
}

/// 32 lower-case hex digits, as an MD5 digest is written.
pub open spec fn is_digest_text(h: Seq<char>) -> bool {
    h.len() == 32 && forall|i: int| 0 <= i < h.len() ==> is_lower_hex(#[trigger] h[i])
}

/// Relies on md5::compute and the digest's `LowerHex`: the MD5 digest of the
/// UTF-8 bytes of `data`, written `{:02x}` for each of its 16 bytes.
#[verifier::external_body]
pub fn hash_string(data: &str) -> (r: String)
    ensures
        r@ == md5_hex(data@),
        is_digest_text(r@),
{
    format!("{:x}", md5::compute(data))
}

/// The revision identifier of generation `n` for a body whose text is `data`.
pub open spec fn rev_text(n: nat, data: Seq<char>) -> Seq<char> {
    decimal(n) + seq!['-'] + md5_hex(data)
}

/// Builds the revision identifier `"<n>-<md5 of data>"`.
pub fn generate_rev(n: u64, data: &str) -> (r: String)
    ensures
        r@ == rev_text(n as nat, data@),
        r@ == decimal(n as nat) + seq!['-'] + r@.subrange(r@.len() - 32, r@.len() as int),
        is_digest_text(r@.subrange(r@.len() - 32, r@.len() as int)),
{
    let hash = hash_string(data);
    let mut rev = decimal_text(n);
    proof {
        reveal_strlit("-");
    }
    rev.append("-");
    rev.append(hash.as_str());
    assert(rev@ =~= rev_text(n as nat, data@));
    assert(rev@.subrange(rev@.len() - 32, rev@.len() as int) =~= hash@);
    rev
}

pub open spec fn is_digit_byte(b: u8) -> bool {
    48 <= b <= 57
}

/// Value of a run of decimal digit bytes.
pub open spec fn digits_value(s: Seq<u8>) -> nat
    decreases s.len(),
{
    if s.len() == 0 {
        0
    } else {
        digits_value(s.drop_last()) * 10 + (s.last() - 48) as nat
    }
}

/// In the text of a JSON string value `raw`, `i` is where the generation's
/// digits end: a quote, one or more digits, then `-` at `i`.
pub open spec fn generation_end(raw: Seq<u8>, i: int) -> bool {
    &&& 2 <= i < raw.len()
    &&& raw[0] == 34u8
    &&& raw[i] == 45u8
    &&& forall|j: int| 1 <= j < i ==> is_digit_byte(#[trigger] raw[j])
}

/// The generation named by the JSON text `raw` of a revision value.
pub open spec fn rev_generation(raw: Seq<u8>) -> Option<nat> {
    if exists|i: int| generation_end(raw, i) {
        Some(digits_value(raw.subrange(1, choose|i: int| generation_end(raw, i))))
    } else {
        None
    }
}

/// The generation of `raw`, where one more still fits in a `u64`.
pub open spec fn current_generation(raw: Seq<u8>) -> Option<u64> {
    match rev_generation(raw) {
        Some(g) => if g < u64::MAX {
            Some(g as u64)
        } else {
            None
        },
        None => None,
    }
}

pub proof fn lemma_digits_prefix(s: Seq<u8>, k: int)
    requires
        0 <= k <= s.len(),
        forall|j: int| 0 <= j < s.len() ==> is_digit_byte(#[trigger] s[j]),
    ensures
        digits_value(s.subrange(0, k)) <= digits_value(s),
    decreases s.len(),
{
    if k < s.len() {
        let t = s.drop_last();
        assert(t.subrange(0, k) =~= s.subrange(0, k));
        lemma_digits_prefix(t, k);
    } else {
        assert(s.subrange(0, k) =~= s);
    }
}

pub proof fn lemma_generation_end_unique(raw: Seq<u8>, i: int, e: int)
    requires
        generation_end(raw, i),
        generation_end(raw, e),
    ensures
        i == e,
{
    if i < e {
        assert(is_digit_byte(raw[i]));
    }
    if e < i {
        assert(is_digit_byte(raw[e]));
    }
}

/// Reads the generation from the JSON text of a revision value
/// (`"<digits>-..."`); `None` when it is malformed or cannot be incremented.
pub fn parse_generation(raw: &str) -> (r: Option<u64>)
    ensures
        r == current_generation(raw.spec_bytes()),
{
    let b = raw.as_bytes();
    let ghost s = b@;
    if b.len() < 3 || b[0] != 34u8 {
        return None;
    }
    let mut v: u64 = 0;
    let mut i: usize = 1;
    while i < b.len() && 48u8 <= b[i] && b[i] <= 57u8
        invariant
            s == b@,
            s == raw.spec_bytes(),
            s[0] == 34u8,
            1 <= i <= b.len(),
            forall|j: int| 1 <= j < i ==> is_digit_byte(#[trigger] s[j]),
            v as nat == digits_value(s.subrange(1, i as int)),
            v < u64::MAX,
        decreases b.len() - i,
    {
        let d: u64 = (b[i] - 48u8) as u64;
        assert(s.subrange(1, i + 1).drop_last() =~= s.subrange(1, i as int));
        if v > (u64::MAX - 1 - d) / 10 {
            proof {
                assert(v * 10 + d >= u64::MAX) by (nonlinear_arith)
                    requires
                        v > (u64::MAX - 1 - d) / 10,
                        d <= 9,
                ;
                if exists|e: int| generation_end(s, e) {
                    let e = choose|e: int| generation_end(s, e);
                    if e <= i {
                        assert(is_digit_byte(s[e]));
                    }
                    let t = s.subrange(1, e);
                    assert forall|j: int| 0 <= j < t.len() implies is_digit_byte(#[trigger] t[j]) by {
                        assert(t[j] == s[j + 1]);
                    }
                    assert(t.subrange(0, i as int) =~= s.subrange(1, i + 1));
                    lemma_digits_prefix(t, i as int);
                    assert(digits_value(s.subrange(1, i + 1)) == v * 10 + d);
                    assert(digits_value(t) >= u64::MAX);
                }
            }
            return None;
        }
        v = v * 10 + d;
        i += 1;
    }
    if i < b.len() && b[i] == 45u8 && i >= 2 {
        proof {
            assert(generation_end(s, i as int));
            let e = choose|e: int| generation_end(s, e);
            lemma_generation_end_unique(s, i as int, e);
        }
        Some(v)
    } else {
        proof {
            if exists|e: int| generation_end(s, e) {
                let e = choose|e: int| generation_end(s, e);
                if e < i {
                    assert(is_digit_byte(s[e]));
                }
                if e > i {
                    assert(is_digit_byte(s[i as int]));
                }
            }
        }
        None
    }
}


pub proof fn lemma_encode_concat(a: Seq<char>, b: Seq<char>)
    ensures
        encode_utf8(a + b) == encode_utf8(a) + encode_utf8(b),
    decreases a.len(),
{
    if a.len() == 0 {
        assert(a + b =~= b);
        assert(encode_utf8(a) + encode_utf8(b) =~= encode_utf8(b));
    } else {
        lemma_encode_concat(a.drop_first(), b);
        assert((a + b).drop_first() =~= a.drop_first() + b);
        assert((a + b)[0] == a[0]);
        assert(encode_utf8(a + b) =~= encode_utf8(a) + encode_utf8(b));
    }
}

pub proof fn lemma_decimal_digits(n: nat)
    ensures
        decimal(n).len() >= 1,
        forall|i: int| 0 <= i < decimal(n).len() ==> '0' <= #[trigger] decimal(n)[i] <= '9',
    decreases n,
{
    if n >= 10 {
        lemma_decimal_digits(n / 10);
        assert forall|i: int| 0 <= i < decimal(n).len() implies '0' <= #[trigger] decimal(n)[i]
            <= '9' by {
            if i < decimal(n / 10).len() {
                assert(decimal(n)[i] == decimal(n / 10)[i]);
            }
        }
    }
}

pub proof fn lemma_digit_byte(d: nat)
    requires
        d < 10,
    ensures
        encode_utf8(seq![digit_char(d)]) == seq![(d + 48) as u8],
{
    let c = seq![digit_char(d)];
    assert(is_ascii_chars(c));
    is_ascii_chars_encode_utf8(c);
    assert(encode_utf8(c) =~= seq![(d + 48) as u8]);
}

/// The decimal text of `n`, read back as digits, is `n`.
pub proof fn lemma_decimal_value(n: nat)
    ensures
        digits_value(encode_utf8(decimal(n))) == n,
        forall|i: int|
            0 <= i < encode_utf8(decimal(n)).len() ==> is_digit_byte(
                #[trigger] encode_utf8(decimal(n))[i],
            ),
        encode_utf8(decimal(n)).len() >= 1,
    decreases n,
{
    if n < 10 {
        lemma_digit_byte(n);
        let b = encode_utf8(decimal(n));
        assert(b.drop_last() =~= Seq::<u8>::empty());
        assert(b.last() == (n + 48) as u8);
        assert(digits_value(b) == digits_value(b.drop_last()) * 10 + (b.last() - 48) as nat);
    } else {
        lemma_decimal_value(n / 10);
        lemma_digit_byte(n % 10);
        lemma_encode_concat(decimal(n / 10), seq![digit_char(n % 10)]);
        let front = encode_utf8(decimal(n / 10));
        let b = encode_utf8(decimal(n));
        assert(b == front + seq![((n % 10) + 48) as u8]);
        assert(b.drop_last() =~= front);
        assert(b.last() == ((n % 10) + 48) as u8);
        assert(digits_value(b) == digits_value(front) * 10 + (n % 10));
        assert((n / 10) * 10 + n % 10 == n) by (nonlinear_arith);
        assert forall|i: int| 0 <= i < b.len() implies is_digit_byte(#[trigger] b[i]) by {
            if i < front.len() {
                assert(b[i] == front[i]);
            }
        }
    }
}

/// A revision written as a JSON string reads back as its generation.
pub proof fn lemma_rev_generation_round_trip(n: nat, data: Seq<char>)
    ensures
        rev_generation(encode_utf8(seq!['"'] + rev_text(n, data) + seq!['"'])) == Some(n),
{
    let q = seq!['"'];
    let dash = seq!['-'];
    let h = md5_hex(data);
    let dec = decimal(n);
    lemma_decimal_value(n);
    lemma_encode_concat(q, rev_text(n, data) + q);
    lemma_encode_concat(rev_text(n, data), q);
    lemma_encode_concat(dec + dash, h);
    lemma_encode_concat(dec, dash);
    assert(seq!['"'] + rev_text(n, data) + seq!['"'] =~= q + (rev_text(n, data) + q));
    assert(is_ascii_chars(q));
    is_ascii_chars_encode_utf8(q);
    assert(is_ascii_chars(dash));
    is_ascii_chars_encode_utf8(dash);
    let eq = encode_utf8(q);
    let ed = encode_utf8(dec);
    let edash = encode_utf8(dash);
    let raw = encode_utf8(seq!['"'] + rev_text(n, data) + seq!['"']);
    assert(raw == eq + (((ed + edash) + encode_utf8(h)) + eq));
    let end: int = ed.len() as int + 1;
    assert(raw[0] == 34u8);
    assert(raw[end] == 45u8);
    assert forall|j: int| 1 <= j < end implies is_digit_byte(#[trigger] raw[j]) by {
        assert(raw[j] == ed[j - 1]);
    }
    assert(generation_end(raw, end));
    let e = choose|e: int| generation_end(raw, e);
    lemma_generation_end_unique(raw, end, e);
    assert(raw.subrange(1, end) =~= ed);
}

} // verus!
