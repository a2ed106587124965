//! Parsing the correction endpoint's numeric parameter.
//!
//! The accepted texts are plain decimal numbers: an optional `+` or
//! `-` sign, then digits with at most one dot, with at least one
//! digit in all (`2`, `1.5`, `.5`, `5.`, `-0.25`). The value is read
//! in millionths; fractional digits past the sixth are truncated,
//! and an integer part of `10^13` or more does not fit the store
//! and is rejected as malformed. The grammar is stated over the
//! text's UTF-8 bytes, where every accepted character is a single
//! byte.

use crate::text::pow10;
use vstd::prelude::*;
use vstd::string::StringSliceAdditionalSpecFns;

verus! {

/// An integer part must stay under `10^13` for the value in
/// millionths to fit the store.
pub const INT_PART_LIMIT: u64 = 10_000_000_000_000;

/// What the correction parameter's text turned out to hold.
#[derive(Clone, Copy, PartialEq, Eq, Structural, Debug)]
pub enum ParsedCorrection {
    /// Not a decimal number of the accepted shape or size.
    Malformed,
    /// A number, but not strictly positive once read in millionths
    /// (negative, zero, or under one millionth).
    NonPositive,
    /// A positive factor, in millionths.
    Value(u64),
}

/// Whether `b` is the byte of a decimal digit.
pub open spec fn is_digit_byte(b: u8) -> bool {
    48 <= b <= 57
}

/// The value of one digit byte.
pub open spec fn digit_value(b: u8) -> nat {
    (b - 48) as nat
}

/// Whether every byte of `s` is a digit.
pub open spec fn all_digit_bytes(s: Seq<u8>) -> bool {
    forall|i: int| 0 <= i < s.len() ==> is_digit_byte(#[trigger] s[i])
}

/// The number the digit bytes of `s` spell, most significant first.
pub open spec fn digits_value(s: Seq<u8>) -> nat
    decreases s.len(),
{
    if s.len() == 0 {
        0
    } else {
        digits_value(s.drop_last()) * 10 + digit_value(s.last())
    }
}

/// How many leading bytes of `b` are a sign.
pub open spec fn sign_length(b: Seq<u8>) -> int {
    if b.len() > 0 && (b[0] == 45 || b[0] == 43) {
        1
    } else {
        0
    }
}

/// Whether `b` starts with a minus sign.
pub open spec fn negative_sign(b: Seq<u8>) -> bool {
    b.len() > 0 && b[0] == 45
}

/// Whether `i` splits `body` as the (single) dot of a well-formed
/// decimal body: digits before, digits after, and more than the dot
/// alone.
pub open spec fn dot_splits(body: Seq<u8>, i: int) -> bool {
    &&& 0 <= i < body.len()
    &&& body[i] == 46
    &&& all_digit_bytes(body.subrange(0, i))
    &&& all_digit_bytes(body.subrange(i + 1, body.len() as int))
    &&& body.len() > 1
}

/// A well-formed body after the sign: digits with at most one dot
/// and at least one digit.
pub open spec fn valid_number_body(body: Seq<u8>) -> bool {
    if exists|i: int| dot_splits(body, i) {
        true
    } else {
        body.len() > 0 && all_digit_bytes(body)
    }
}

/// The dot position of a well-formed body that has one.
pub open spec fn body_dot(body: Seq<u8>) -> int {
    choose|i: int| dot_splits(body, i)
}

/// The digits before the dot, or all of them when there is none.
pub open spec fn int_part(body: Seq<u8>) -> Seq<u8> {
    if exists|i: int| dot_splits(body, i) {
        body.subrange(0, body_dot(body))
    } else {
        body
    }
}

/// The digits after the dot; empty when there is none.
pub open spec fn frac_part(body: Seq<u8>) -> Seq<u8> {
    if exists|i: int| dot_splits(body, i) {
        body.subrange(body_dot(body) + 1, body.len() as int)
    } else {
        Seq::empty()
    }
}

/// The millionths a fraction's digit bytes spell: the first six
/// digits, scaled up when fewer were given; digits past the sixth
/// are truncated.
pub open spec fn frac_millionths_of(f: Seq<u8>) -> nat {
    if f.len() >= 6 {
        digits_value(f.subrange(0, 6))
    } else {
        digits_value(f) * pow10((6 - f.len()) as nat)
    }
}

/// The millionths a well-formed body spells.
pub open spec fn body_millionths(body: Seq<u8>) -> nat {
    digits_value(int_part(body)) * 1_000_000 + frac_millionths_of(frac_part(body))
}

/// What parsing the bytes `b` yields; see the module description
/// for the accepted shape.
pub open spec fn spec_parse_correction(b: Seq<u8>) -> ParsedCorrection {
    let body = b.subrange(sign_length(b), b.len() as int);
    if !valid_number_body(body) {
        ParsedCorrection::Malformed
    } else if digits_value(int_part(body)) >= INT_PART_LIMIT {
        ParsedCorrection::Malformed
    } else if negative_sign(b) || body_millionths(body) == 0 {
        ParsedCorrection::NonPositive
    } else {
        ParsedCorrection::Value(body_millionths(body) as u64)
    }
}

/// A digit run's value only grows as more digits are read.
proof fn lemma_digits_value_prefix(s: Seq<u8>, k: int)
    requires
        0 <= k <= s.len(),
    ensures
        digits_value(s.subrange(0, k)) <= digits_value(s),
    decreases s.len(),
{
    if k < s.len() {
        lemma_digits_value_prefix(s.drop_last(), k);
        assert(s.drop_last().subrange(0, k) =~= s.subrange(0, k));
        assert(digits_value(s) == digits_value(s.drop_last()) * 10 + digit_value(s.last()));
        assert(digits_value(s.drop_last()) * 10 >= digits_value(s.drop_last()))
            by (nonlinear_arith);
    } else {
        assert(s.subrange(0, k) =~= s);
    }
}

/// `k` digit bytes spell a number under `10^k`.
proof fn lemma_digits_value_bound(s: Seq<u8>)
    requires
        all_digit_bytes(s),
    ensures
        digits_value(s) < pow10(s.len() as nat),
    decreases s.len(),
{
    if s.len() == 0 {
    } else {
        assert forall|i: int| 0 <= i < s.drop_last().len() implies is_digit_byte(
            #[trigger] s.drop_last()[i],
        ) by {
            assert(s.drop_last()[i] == s[i]);
        }
        lemma_digits_value_bound(s.drop_last());
        assert(pow10(s.len() as nat) == 10 * pow10((s.len() - 1) as nat));
        assert(digit_value(s.last()) <= 9);
        assert(digits_value(s.drop_last()) * 10 <= (pow10((s.len() - 1) as nat) - 1) * 10)
            by (nonlinear_arith)
            requires
                digits_value(s.drop_last()) <= pow10((s.len() - 1) as nat) - 1,
        ;
    }
}

/// A well-formed body has only one dot position.
proof fn lemma_dot_unique(body: Seq<u8>, p: int)
    requires
        dot_splits(body, p),
    ensures
        body_dot(body) == p,
{
    let q = body_dot(body);
    assert(dot_splits(body, q));
    if q < p {
        assert(body.subrange(0, p)[q] == body[q]);
        assert(is_digit_byte(body[q]));
        assert(body[q] == 46);
    } else if q > p {
        assert(body.subrange(p + 1, body.len() as int)[q - p - 1] == body[q]);
        assert(is_digit_byte(body[q]));
        assert(body[q] == 46);
    }
}

/// With text left over after the scanned number, the text is not a
/// well-formed number: the leftover byte is neither a digit nor an
/// admissible dot.
proof fn lemma_no_valid_body_with_leftover(
    whole: Seq<u8>,
    sign: int,
    int_end: int,
    saw_dot: bool,
    frac_end: int,
)
    requires
        0 <= sign <= int_end <= frac_end < whole.len(),
        forall|j: int| sign <= j < int_end ==> is_digit_byte(#[trigger] whole[j]),
        saw_dot ==> whole[int_end] == 46 && int_end + 1 <= frac_end && forall|j: int|
            int_end + 1 <= j < frac_end ==> is_digit_byte(#[trigger] whole[j]),
        !saw_dot ==> frac_end == int_end && whole[frac_end] != 46,
        !is_digit_byte(whole[frac_end]),
    ensures
        !valid_number_body(whole.subrange(sign, whole.len() as int)),
{
    let body = whole.subrange(sign, whole.len() as int);
    let stop = frac_end - sign;
    assert(body[stop] == whole[frac_end]);
    if saw_dot {
        assert forall|q: int| !dot_splits(body, q) by {
            if dot_splits(body, q) {
                if q < stop {
                    assert(body.subrange(q + 1, body.len() as int)[stop - q - 1] == body[stop]);
                    assert(is_digit_byte(body[stop]));
                } else if q > stop {
                    assert(body.subrange(0, q)[stop] == body[stop]);
                    assert(is_digit_byte(body[stop]));
                } else {
                    // The leftover byte is a second dot; the first
                    // dot then sits among the digits before it.
                    assert(body.subrange(0, q)[int_end - sign] == body[int_end - sign]);
                    assert(body[int_end - sign] == whole[int_end]);
                    assert(is_digit_byte(whole[int_end]));
                    assert(whole[int_end] == 46);
                }
            }
        }
        assert(!is_digit_byte(body[stop]));
    } else {
        assert forall|q: int| !dot_splits(body, q) by {
            if dot_splits(body, q) {
                if q < stop {
                    assert(body[q] == whole[q + sign]);
                    assert(is_digit_byte(whole[q + sign]));
                    assert(body[q] == 46);
                } else if q == stop {
                    assert(body[q] == 46);
                } else {
                    assert(body.subrange(0, q)[stop] == body[stop]);
                    assert(is_digit_byte(body[stop]));
                }
            }
        }
        assert(!is_digit_byte(body[stop]));
    }
}

/// A body with no digit at all — empty or a bare dot — is not a
/// well-formed number.
proof fn lemma_no_valid_body_without_digits(whole: Seq<u8>, sign: int, saw_dot: bool)
    requires
        0 <= sign <= whole.len(),
        saw_dot ==> sign < whole.len() && whole[sign] == 46 && sign + 1 == whole.len(),
        !saw_dot ==> sign == whole.len(),
    ensures
        !valid_number_body(whole.subrange(sign, whole.len() as int)),
{
    let body = whole.subrange(sign, whole.len() as int);
    if saw_dot {
        assert(body.len() == 1);
        assert forall|q: int| !dot_splits(body, q) by {
            if dot_splits(body, q) {
                assert(body.len() > 1);
            }
        }
        assert(!is_digit_byte(body[0]));
    } else {
        assert(body.len() == 0);
        assert forall|q: int| !dot_splits(body, q) by {}
    }
}

/// Reads the correction parameter's text (see
/// [`spec_parse_correction`]; the module description gives the
/// accepted shape in words).
#[verifier::rlimit(60)]
pub fn parse_correction_value(s: &str) -> (r: ParsedCorrection)
    ensures
        r == spec_parse_correction(s.spec_bytes()),
        r matches ParsedCorrection::Value(m) ==> m > 0,
{
    let b: Vec<u8> = s.as_bytes_vec();
    let n: usize = b.len();
    let ghost whole = b@;
    let mut i: usize = 0;
    let mut neg: bool = false;
    if n > 0 && (b[0] == 45 || b[0] == 43) {
        neg = b[0] == 45;
        i = 1;
    }
    let ghost sign = i as int;
    let ghost body = whole.subrange(sign, n as int);
    proof {
        assert(whole == s.spec_bytes());
        assert(sign == sign_length(whole));
        assert(neg == negative_sign(whole));
    }
    // Integer part.
    let int_start: usize = i;
    let mut acc: u64 = 0;
    while i < n && 48 <= b[i] && b[i] <= 57
        invariant
            whole == s.spec_bytes(),
            sign == sign_length(whole),
            int_start as int == sign,
            sign <= i as int <= n as int,
            n == whole.len(),
            b@ == whole,
            acc == digits_value(whole.subrange(int_start as int, i as int)),
            acc < 10 * INT_PART_LIMIT,
            forall|j: int| int_start <= j < i ==> is_digit_byte(#[trigger] whole[j]),
        decreases n - i,
    {
        if acc >= INT_PART_LIMIT {
            // The integer part already spells at least 10^13:
            // whatever follows, the value cannot fit the store, so
            // the text is rejected whether or not the rest of it is
            // well-formed.
            proof {
                let body_local = whole.subrange(sign, n as int);
                let scanned = whole.subrange(int_start as int, i as int);
                if valid_number_body(body_local) {
                    let ip = int_part(body_local);
                    if exists|q: int| dot_splits(body_local, q) {
                        let p = body_dot(body_local);
                        assert(dot_splits(body_local, p));
                        if p < i as int - sign {
                            assert(body_local[p] == whole[p + sign]);
                            assert(whole[p + sign] == 46);
                            assert(is_digit_byte(whole[p + sign]));
                        }
                        assert(p >= i as int - sign);
                        assert(ip == body_local.subrange(0, p));
                        assert(ip.subrange(0, i as int - sign) =~= scanned);
                        lemma_digits_value_prefix(ip, i as int - sign);
                    } else {
                        assert(ip == body_local);
                        assert(ip.subrange(0, i as int - sign) =~= scanned);
                        lemma_digits_value_prefix(ip, i as int - sign);
                    }
                    assert(digits_value(ip) >= INT_PART_LIMIT);
                }
            }
            return ParsedCorrection::Malformed;
        }
        let d: u64 = (b[i] - 48) as u64;
        proof {
            assert(whole.subrange(int_start as int, i as int + 1).drop_last() =~= whole.subrange(
                int_start as int,
                i as int,
            ));
            assert(whole.subrange(int_start as int, i as int + 1).last() == whole[i as int]);
        }
        acc = acc * 10 + d;
        i = i + 1;
    }
    let int_end: usize = i;
    let int_digits: usize = int_end - int_start;
    // Fractional part.
    let mut saw_dot: bool = false;
    let mut facc: u64 = 0;
    let mut fcount: usize = 0;
    let frac_start: usize;
    if i < n && b[i] == 46 {
        saw_dot = true;
        i = i + 1;
        frac_start = i;
        while i < n && 48 <= b[i] && b[i] <= 57
            invariant
                frac_start <= i <= n,
                n == whole.len(),
                b@ == whole,
                fcount == (if i - frac_start <= 6 {
                    i - frac_start
                } else {
                    6
                }),
                facc == digits_value(
                    whole.subrange(frac_start as int, frac_start as int + fcount as int),
                ),
                facc < 1_000_000,
                forall|j: int| frac_start <= j < i ==> is_digit_byte(#[trigger] whole[j]),
            decreases n - i,
        {
            if fcount < 6 {
                let d: u64 = (b[i] - 48) as u64;
                proof {
                    assert(whole.subrange(
                        frac_start as int,
                        frac_start as int + fcount as int + 1,
                    ).drop_last() =~= whole.subrange(
                        frac_start as int,
                        frac_start as int + fcount as int,
                    ));
                    assert(whole.subrange(
                        frac_start as int,
                        frac_start as int + fcount as int + 1,
                    ).last() == whole[frac_start as int + fcount as int]);
                    assert(frac_start as int + fcount as int == i as int);
                    lemma_digits_value_bound(
                        whole.subrange(frac_start as int, frac_start as int + fcount as int + 1),
                    );
                    reveal_with_fuel(pow10, 8);
                }
                facc = facc * 10 + d;
                fcount = fcount + 1;
            }
            i = i + 1;
        }
    } else {
        frac_start = i;
    }
    let frac_end: usize = i;
    let frac_digits: usize = frac_end - frac_start;
    // The text must end at the number, and must have held a digit.
    if i < n {
        proof {
            lemma_no_valid_body_with_leftover(
                whole,
                sign,
                int_end as int,
                saw_dot,
                frac_end as int,
            );
        }
        return ParsedCorrection::Malformed;
    }
    if int_digits == 0 && frac_digits == 0 {
        proof {
            lemma_no_valid_body_without_digits(whole, sign, saw_dot);
        }
        return ParsedCorrection::Malformed;
    }
    proof {
        if saw_dot {
            let p = (int_end - int_start) as int;
            assert(body[p] == whole[int_end as int]);
            assert(body.subrange(0, p) =~= whole.subrange(sign, int_end as int));
            assert(body.subrange(p + 1, body.len() as int) =~= whole.subrange(
                frac_start as int,
                n as int,
            ));
            assert(dot_splits(body, p));
            lemma_dot_unique(body, p);
            assert(int_part(body) =~= whole.subrange(int_start as int, int_end as int));
            assert(frac_part(body) =~= whole.subrange(frac_start as int, frac_end as int));
        } else {
            assert forall|q: int| !dot_splits(body, q) by {
                if 0 <= q < body.len() {
                    assert(body[q] == whole[q + sign]);
                    assert(is_digit_byte(whole[q + sign]));
                }
            }
            assert(body =~= whole.subrange(int_start as int, int_end as int));
            assert(int_part(body) == body);
            assert(frac_part(body) =~= Seq::<u8>::empty());
        }
        assert(valid_number_body(body));
        assert(acc == digits_value(int_part(body)));
    }
    if acc >= INT_PART_LIMIT {
        return ParsedCorrection::Malformed;
    }
    // Scale the fraction's digits to millionths.
    let ghost f = frac_part(body);
    let scaled: u64;
    if fcount == 0 {
        scaled = 0;
        proof {
            reveal_with_fuel(pow10, 8);
            assert(f =~= whole.subrange(frac_start as int, frac_start as int));
        }
    } else if fcount == 1 {
        proof {
            lemma_scaled_case(whole, frac_start as int, frac_end as int, f, 1);
        }
        scaled = facc * 100_000;
    } else if fcount == 2 {
        proof {
            lemma_scaled_case(whole, frac_start as int, frac_end as int, f, 2);
        }
        scaled = facc * 10_000;
    } else if fcount == 3 {
        proof {
            lemma_scaled_case(whole, frac_start as int, frac_end as int, f, 3);
        }
        scaled = facc * 1_000;
    } else if fcount == 4 {
        proof {
            lemma_scaled_case(whole, frac_start as int, frac_end as int, f, 4);
        }
        scaled = facc * 100;
    } else if fcount == 5 {
        proof {
            lemma_scaled_case(whole, frac_start as int, frac_end as int, f, 5);
        }
        scaled = facc * 10;
    } else {
        scaled = facc;
        proof {
            assert(fcount == 6);
            assert(frac_digits >= 6);
            assert(f.subrange(0, 6) =~= whole.subrange(frac_start as int, frac_start as int + 6));
        }
    }
    proof {
        assert(scaled == frac_millionths_of(f));
        assert(scaled < 1_000_000) by {
            if fcount >= 1 && fcount <= 5 {
                reveal_with_fuel(pow10, 8);
                lemma_digits_value_bound(
                    whole.subrange(frac_start as int, frac_start as int + fcount as int),
                );
            }
        }
    }
    let m: u64 = acc * 1_000_000 + scaled;
    if neg || m == 0 {
        ParsedCorrection::NonPositive
    } else {
        ParsedCorrection::Value(m)
    }
}

/// For a fraction of `k < 6` digits, the scanned digits are the
/// whole fraction and the scale factor is `10^(6-k)`.
proof fn lemma_scaled_case(whole: Seq<u8>, frac_start: int, frac_end: int, f: Seq<u8>, k: int)
    requires
        1 <= k <= 5,
        0 <= frac_start <= frac_end <= whole.len(),
        frac_end - frac_start == k,
        f =~= whole.subrange(frac_start, frac_end),
        forall|j: int| frac_start <= j < frac_end ==> is_digit_byte(#[trigger] whole[j]),
    ensures
        f.len() == k,
        digits_value(f) < pow10(k as nat),
        frac_millionths_of(f) == digits_value(f) * pow10((6 - k) as nat),
        pow10(1) == 10 && pow10(2) == 100 && pow10(3) == 1_000 && pow10(4) == 10_000 && pow10(5)
            == 100_000,
{
    assert forall|i: int| 0 <= i < f.len() implies is_digit_byte(#[trigger] f[i]) by {
        assert(f[i] == whole[frac_start + i]);
    }
    lemma_digits_value_bound(f);
    reveal_with_fuel(pow10, 8);
}

} // verus!
