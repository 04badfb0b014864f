//! The decimal notation of one numeric field.
//!
//! A field of a point, size or rectangle is written as a number in the
//! notation that the host's conversion between single-precision numbers and
//! text accepts and produces:
//!
//! ```text
//! Float  ::= Sign? ( 'inf' | 'infinity' | 'nan' | Number )
//! Number ::= ( Digit+ | Digit+ '.' Digit* | Digit* '.' Digit+ ) Exp?
//! Exp    ::= 'e' Sign? Digit+
//! Sign   ::= [+-]
//! Digit  ::= [0-9]
//! ```
//!
//! Letters match in either case. This module decides whether bytes are such a
//! number; which value they denote is the host conversion's business.

use vstd::prelude::*;

verus! {

pub const PLUS: u8 = 0x2b;

pub const MINUS: u8 = 0x2d;

pub const POINT: u8 = 0x2e;

pub const DIGIT_ZERO: u8 = 0x30;

pub const DIGIT_NINE: u8 = 0x39;

pub const UPPER_A: u8 = 0x41;

pub const UPPER_Z: u8 = 0x5a;

pub const LOWER_A: u8 = 0x61;

pub const LOWER_E: u8 = 0x65;

pub const LOWER_F: u8 = 0x66;

pub const LOWER_I: u8 = 0x69;

pub const LOWER_N: u8 = 0x6e;

pub const LOWER_T: u8 = 0x74;

pub const LOWER_Y: u8 = 0x79;

pub const LOWER_Z: u8 = 0x7a;

pub open spec fn is_digit(b: u8) -> bool {
    DIGIT_ZERO <= b <= DIGIT_NINE
}

pub open spec fn is_sign(b: u8) -> bool {
    b == PLUS || b == MINUS
}

/// `Digit*`
pub open spec fn is_digits(s: Seq<u8>) -> bool {
    forall|i: int| 0 <= i < s.len() ==> is_digit(#[trigger] s[i])
}

/// An upper-case ASCII letter as its lower-case one; any other byte unchanged.
pub open spec fn to_lower(b: u8) -> u8 {
    if UPPER_A <= b <= UPPER_Z {
        (b + 0x20) as u8
    } else {
        b
    }
}

/// `s` spells the lower-case `word`, in either case.
pub open spec fn is_word(s: Seq<u8>, word: Seq<u8>) -> bool {
    &&& s.len() == word.len()
    &&& forall|i: int| 0 <= i < s.len() ==> to_lower(#[trigger] s[i]) == word[i]
}

pub open spec fn word_inf() -> Seq<u8> {
    seq![LOWER_I, LOWER_N, LOWER_F]
}

pub open spec fn word_infinity() -> Seq<u8> {
    seq![LOWER_I, LOWER_N, LOWER_F, LOWER_I, LOWER_N, LOWER_I, LOWER_T, LOWER_Y]
}

pub open spec fn word_nan() -> Seq<u8> {
    seq![LOWER_N, LOWER_A, LOWER_N]
}

/// `s` without its leading sign, if it has one.
pub open spec fn unsigned_part(s: Seq<u8>) -> Seq<u8> {
    if s.len() > 0 && is_sign(s[0]) {
        s.skip(1)
    } else {
        s
    }
}

/// `s` is digits, a point at index `k`, and digits, with a digit somewhere.
pub open spec fn has_point_at(s: Seq<u8>, k: int) -> bool {
    &&& 0 <= k < s.len()
    &&& s[k] == POINT
    &&& is_digits(s.take(k))
    &&& is_digits(s.skip(k + 1))
    &&& s.len() >= 2
}

/// `Digit+ | Digit+ '.' Digit* | Digit* '.' Digit+`
pub open spec fn is_decimal(s: Seq<u8>) -> bool {
    ||| s.len() >= 1 && is_digits(s)
    ||| exists|k: int| has_point_at(s, k)
}

/// `'e' Sign? Digit+`
pub open spec fn is_exponent(s: Seq<u8>) -> bool {
    &&& s.len() >= 1
    &&& to_lower(s[0]) == LOWER_E
    &&& unsigned_part(s.skip(1)).len() >= 1
    &&& is_digits(unsigned_part(s.skip(1)))
}

/// The first `k` bytes of `s` are its decimal part and the rest, if any, its
/// exponent.
pub open spec fn is_number_split(s: Seq<u8>, k: int) -> bool {
    &&& 0 <= k <= s.len()
    &&& is_decimal(s.take(k))
    &&& (k == s.len() || is_exponent(s.skip(k)))
}

/// `Number`
pub open spec fn is_number(s: Seq<u8>) -> bool {
    exists|k: int| is_number_split(s, k)
}

/// `Float`: the texts that stand for a numeric field.
pub open spec fn is_float_text(s: Seq<u8>) -> bool {
    let body = unsigned_part(s);
    ||| is_word(body, word_inf())
    ||| is_word(body, word_infinity())
    ||| is_word(body, word_nan())
    ||| is_number(body)
}

/// The bytes a numeric field is made of: digits, signs, the point and
/// letters.
pub open spec fn is_float_byte(b: u8) -> bool {
    ||| is_digit(b)
    ||| is_sign(b)
    ||| b == POINT
    ||| LOWER_A <= to_lower(b) <= LOWER_Z
}

/// A numeric field holds nothing but digits, signs, the point and letters.
pub proof fn lemma_float_text_bytes(s: Seq<u8>)
    requires
        is_float_text(s),
    ensures
        forall|i: int| 0 <= i < s.len() ==> is_float_byte(#[trigger] s[i]),
{
    let body = unsigned_part(s);
    assert forall|i: int| 0 <= i < s.len() implies is_float_byte(#[trigger] s[i]) by {
        if body.len() < s.len() && i == 0 {
        } else {
            let j = i - (s.len() - body.len());
            assert(body[j] == s[i]);
            if is_word(body, word_inf()) {
                assert(to_lower(body[j]) == word_inf()[j]);
            } else if is_word(body, word_infinity()) {
                assert(to_lower(body[j]) == word_infinity()[j]);
            } else if is_word(body, word_nan()) {
                assert(to_lower(body[j]) == word_nan()[j]);
            } else {
                let k = choose|k: int| is_number_split(body, k);
                if j < k {
                    let dec = body.take(k);
                    assert(dec[j] == body[j]);
                    if dec.len() >= 1 && is_digits(dec) {
                    } else {
                        let p = choose|p: int| has_point_at(dec, p);
                        if j < p {
                            assert(dec.take(p)[j] == dec[j]);
                        } else if j > p {
                            assert(dec.skip(p + 1)[j - p - 1] == dec[j]);
                        }
                    }
                } else {
                    let exp = body.skip(k);
                    assert(exp[j - k] == body[j]);
                    if j > k {
                        let tail = exp.skip(1);
                        assert(tail[j - k - 1] == body[j]);
                        let digits = unsigned_part(tail);
                        if digits.len() < tail.len() && j == k + 1 {
                        } else {
                            assert(digits[j - k - 1 - (tail.len() - digits.len())] == body[j]);
                        }
                    }
                }
            }
        }
    }
}

fn digit(b: u8) -> (r: bool)
    ensures
        r == is_digit(b),
{
    DIGIT_ZERO <= b && b <= DIGIT_NINE
}

fn sign(b: u8) -> (r: bool)
    ensures
        r == is_sign(b),
{
    b == PLUS || b == MINUS
}

fn lower(b: u8) -> (r: u8)
    ensures
        r == to_lower(b),
{
    if UPPER_A <= b && b <= UPPER_Z {
        b + 0x20
    } else {
        b
    }
}

/// The index of the first byte at or after `from` that is no digit.
fn skip_digits(s: &[u8], from: usize) -> (end: usize)
    requires
        from <= s@.len(),
    ensures
        from <= end <= s@.len(),
        forall|i: int| from <= i < end ==> is_digit(#[trigger] s@[i]),
        end < s@.len() ==> !is_digit(s@[end as int]),
{
    let mut end: usize = from;
    while end < s.len() && digit(s[end])
        invariant
            from <= end <= s@.len(),
            forall|i: int| from <= i < end ==> is_digit(#[trigger] s@[i]),
        decreases s@.len() - end,
    {
        end += 1;
    }
    end
}

/// Whether `s` spells `word`, in either case.
fn spells(s: &[u8], word: &[u8]) -> (r: bool)
    ensures
        r == is_word(s@, word@),
{
    if s.len() != word.len() {
        return false;
    }
    let mut i: usize = 0;
    while i < s.len()
        invariant
            i <= s@.len(),
            s@.len() == word@.len(),
            forall|j: int| 0 <= j < i ==> to_lower(#[trigger] s@[j]) == word@[j],
        decreases s@.len() - i,
    {
        if lower(s[i]) != word[i] {
            return false;
        }
        i += 1;
    }
    true
}

/// Whether `s` is a `Number` of the notation.
fn is_number_literal(s: &[u8]) -> (ok: bool)
    ensures
        ok == is_number(s@),
{
    let n = s.len();
    let whole_end = skip_digits(s, 0);
    let has_point = whole_end < n && s[whole_end] == POINT;
    let decimal_end = if has_point {
        skip_digits(s, whole_end + 1)
    } else {
        whole_end
    };
    let has_digit = whole_end > 0 || (has_point && decimal_end > whole_end + 1);
    proof {
        lemma_decimal_scan(s@, whole_end as int, decimal_end as int);
    }
    if !has_digit {
        return false;
    }
    if decimal_end == n {
        assert(s@.take(n as int) =~= s@);
        assert(is_number_split(s@, n as int));
        return true;
    }
    if lower(s[decimal_end]) != LOWER_E {
        return false;
    }
    let mut digits_start = decimal_end + 1;
    if digits_start < n && sign(s[digits_start]) {
        digits_start += 1;
    }
    let digits_end = skip_digits(s, digits_start);
    let ok = digits_start < n && digits_end == n;
    proof {
        let exp = s@.skip(decimal_end as int);
        let tail = exp.skip(1);
        let digits = unsigned_part(tail);
        assert(tail =~= s@.skip(decimal_end + 1));
        if tail.len() > 0 {
            assert(tail[0] == s@[decimal_end + 1]);
        }
        assert(digits =~= s@.skip(digits_start as int));
        if ok {
            assert forall|i: int| 0 <= i < digits.len() implies is_digit(#[trigger] digits[i]) by {
                assert(digits[i] == s@[digits_start + i]);
            }
            assert(is_exponent(exp));
            assert(is_number_split(s@, decimal_end as int));
        } else {
            if digits_start < n {
                assert(digits[digits_end - digits_start] == s@[digits_end as int]);
            }
            assert(!is_exponent(exp));
        }
    }
    ok
}

/// What a scan of `s` for its decimal part finds: `whole_end` is where the
/// leading digits end and `decimal_end` where the digits after a point there
/// end. Any split of `s` into a decimal part and an exponent is at
/// `decimal_end`, and there is one only if the scan met a digit.
proof fn lemma_decimal_scan(s: Seq<u8>, whole_end: int, decimal_end: int)
    requires
        0 <= whole_end <= s.len(),
        forall|i: int| 0 <= i < whole_end ==> is_digit(#[trigger] s[i]),
        whole_end < s.len() ==> !is_digit(s[whole_end]),
        whole_end < s.len() && s[whole_end] == POINT ==> {
            &&& whole_end + 1 <= decimal_end <= s.len()
            &&& forall|i: int| whole_end + 1 <= i < decimal_end ==> is_digit(#[trigger] s[i])
            &&& decimal_end < s.len() ==> !is_digit(s[decimal_end])
        },
        !(whole_end < s.len() && s[whole_end] == POINT) ==> decimal_end == whole_end,
    ensures
        forall|k: int| is_number_split(s, k) ==> k == decimal_end,
        is_decimal(s.take(decimal_end)) <==> (whole_end > 0 || decimal_end > whole_end + 1),
        is_number(s) ==> is_decimal(s.take(decimal_end)),
{
    let has_point = whole_end < s.len() && s[whole_end] == POINT;
    assert forall|k: int| is_number_split(s, k) implies k == decimal_end by {
        let dec = s.take(k);
        if k < s.len() {
            assert(s.skip(k)[0] == s[k]);
            assert(!is_digit(s[k]) && s[k] != POINT);
        }
        if dec.len() >= 1 && is_digits(dec) {
            if whole_end < k {
                assert(dec[whole_end] == s[whole_end]);
            }
        } else {
            let p = choose|p: int| has_point_at(dec, p);
            assert(dec[p] == s[p]);
            if whole_end < p {
                assert(dec.take(p)[whole_end] == s[whole_end]);
            }
            assert(p == whole_end);
            if decimal_end < k {
                assert(dec.skip(p + 1)[decimal_end - p - 1] == s[decimal_end]);
            }
        }
    }
    let dec = s.take(decimal_end);
    if whole_end > 0 || decimal_end > whole_end + 1 {
        if has_point {
            assert(is_digits(dec.take(whole_end)));
            assert(is_digits(dec.skip(whole_end + 1)));
            assert(has_point_at(dec, whole_end));
        } else {
            assert(is_digits(dec));
        }
    } else {
        if dec.len() >= 1 && is_digits(dec) {
            assert(dec[0] == s[0]);
        }
        if exists|p: int| has_point_at(dec, p) {
            let p = choose|p: int| has_point_at(dec, p);
            assert(dec[p] == s[p]);
            if p > 0 {
                assert(dec.take(p)[0] == s[0]);
            } else {
                assert(dec.skip(1)[0] == s[1]);
            }
        }
    }
    if is_number(s) {
        let k = choose|k: int| is_number_split(s, k);
        assert(k == decimal_end);
    }
}

/// Whether `s` is a numeric field: a number in the notation above.
pub fn is_float_literal(s: &[u8]) -> (ok: bool)
    ensures
        ok == is_float_text(s@),
{
    let n = s.len();
    let start: usize = if n > 0 && sign(s[0]) {
        1
    } else {
        0
    };
    let body = vstd::slice::slice_subrange(s, start, n);
    assert(body@ =~= unsigned_part(s@));
    let inf: [u8; 3] = [LOWER_I, LOWER_N, LOWER_F];
    let infinity: [u8; 8] = [
        LOWER_I,
        LOWER_N,
        LOWER_F,
        LOWER_I,
        LOWER_N,
        LOWER_I,
        LOWER_T,
        LOWER_Y,
    ];
    let nan: [u8; 3] = [LOWER_N, LOWER_A, LOWER_N];
    assert(inf@ =~= word_inf());
    assert(infinity@ =~= word_infinity());
    assert(nan@ =~= word_nan());
    spells(body, vstd::array::array_as_slice(&inf)) || spells(
        body,
        vstd::array::array_as_slice(&infinity),
    ) || spells(body, vstd::array::array_as_slice(&nan)) || is_number_literal(body)
}

} // verus!
