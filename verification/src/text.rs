//! Exact decimal text for the integer and fixed-point quantities the
//! crate exposes.
//!
//! Rates are plain integers; correction factors and corrected samples
//! are carried in millionths. Their text forms are specified here
//! character by character, so the exposition and control-plane
//! modules can state their whole output exactly.

use vstd::prelude::*;

verus! {

/// Ten to the `k`th power.
pub open spec fn pow10(k: nat) -> nat
    decreases k,
{
    if k == 0 {
        1
    } else {
        10 * pow10((k - 1) as nat)
    }
}

/// The character for one decimal digit.
pub open spec fn spec_digit_char(d: nat) -> char {
    if d == 0 {
        '0'
    } else if d == 1 {
        '1'
    } else if d == 2 {
        '2'
    } else if d == 3 {
        '3'
    } else if d == 4 {
        '4'
    } else if d == 5 {
        '5'
    } else if d == 6 {
        '6'
    } else if d == 7 {
        '7'
    } else if d == 8 {
        '8'
    } else {
        '9'
    }
}

/// Decimal text of `n`: most significant digit first, no leading
/// zeros (zero itself is the single character `0`).
pub open spec fn spec_decimal(n: nat) -> Seq<char>
    decreases n,
{
    if n < 10 {
        seq![spec_digit_char(n)]
    } else {
        spec_decimal(n / 10).push(spec_digit_char(n % 10))
    }
}

/// `n` has exactly `k` decimal digits when it lies in
/// `[10^(k-1), 10^k)`.
pub proof fn lemma_decimal_len(n: nat, k: nat)
    requires
        k >= 1,
        pow10((k - 1) as nat) <= n < pow10(k),
    ensures
        spec_decimal(n).len() == k,
    decreases k,
{
    if k == 1 {
        assert(spec_decimal(n).len() == 1);
    } else {
        assert(pow10(k) == 10 * pow10((k - 1) as nat));
        assert(pow10((k - 1) as nat) == 10 * pow10((k - 2) as nat));
        assert(n >= 10);
        lemma_decimal_len(n / 10, (k - 1) as nat);
    }
}

/// The one-character text of a decimal digit.
fn digit_str(d: u128) -> (s: &'static str)
    requires
        d < 10,
    ensures
        s@ =~= seq![spec_digit_char(d as nat)],
{
    proof {
        reveal_strlit("0");
        reveal_strlit("1");
        reveal_strlit("2");
        reveal_strlit("3");
        reveal_strlit("4");
        reveal_strlit("5");
        reveal_strlit("6");
        reveal_strlit("7");
        reveal_strlit("8");
        reveal_strlit("9");
    }
    match d {
        0 => "0",
        1 => "1",
        2 => "2",
        3 => "3",
        4 => "4",
        5 => "5",
        6 => "6",
        7 => "7",
        8 => "8",
        _ => "9",
    }
}

/// Renders `n` as decimal text (see [`spec_decimal`]).
pub fn u128_to_decimal(n: u128) -> (s: String)
    ensures
        s@ == spec_decimal(n as nat),
    decreases n,
{
    if n < 10 {
        String::from_str(digit_str(n))
    } else {
        let mut s = u128_to_decimal(n / 10);
        s.append(digit_str(n % 10));
        proof {
            assert(s@ =~= spec_decimal(n as nat));
        }
        s
    }
}

/// Renders `n` as decimal text (see [`spec_decimal`]).
pub fn u64_to_decimal(n: u64) -> (s: String)
    ensures
        s@ == spec_decimal(n as nat),
{
    u128_to_decimal(n as u128)
}

/// `s` with its trailing zero characters removed.
pub open spec fn spec_trim_trailing_zeros(s: Seq<char>) -> Seq<char>
    decreases s.len(),
{
    if s.len() > 0 && s.last() == '0' {
        spec_trim_trailing_zeros(s.drop_last())
    } else {
        s
    }
}

/// The six-digit, zero-padded text of a fraction of `f` millionths:
/// the decimal text of `f + 10^6` with its leading `1` dropped.
pub open spec fn spec_frac6(f: nat) -> Seq<char> {
    spec_decimal((f + 1_000_000) as nat).subrange(1, 7)
}

/// Exact decimal text of a value of `v` millionths: the integer
/// part, then — only when the fractional part is non-zero — a dot
/// and the fractional digits with trailing zeros removed.
pub open spec fn spec_millionths_decimal(v: nat) -> Seq<char> {
    let ip = v / 1_000_000;
    let fp = v % 1_000_000;
    if fp == 0 {
        spec_decimal(ip)
    } else {
        spec_decimal(ip) + seq!['.'] + spec_trim_trailing_zeros(spec_frac6(fp))
    }
}

/// Renders a value of `v` millionths as exact decimal text (see
/// [`spec_millionths_decimal`]).
pub fn millionths_to_decimal(v: u128) -> (s: String)
    ensures
        s@ == spec_millionths_decimal(v as nat),
{
    let ip: u128 = v / 1_000_000;
    let fp: u128 = v % 1_000_000;
    let mut s = u128_to_decimal(ip);
    if fp == 0 {
        return s;
    }
    let padded = u128_to_decimal(fp + 1_000_000);
    proof {
        reveal_with_fuel(pow10, 8);
        assert(pow10(6) == 1_000_000);
        assert(pow10(7) == 10_000_000);
        lemma_decimal_len((fp + 1_000_000) as nat, 7);
    }
    let frac = padded.as_str().substring_char(1, 7);
    assert(frac@ == spec_frac6(fp as nat));
    // Scan back over the padded fraction to find where the trailing
    // zeros begin.
    let mut j: usize = 6;
    proof {
        assert(frac@.subrange(0, 6) =~= frac@);
    }
    while j > 0 && frac.get_char(j - 1) == '0'
        invariant
            j <= 6,
            frac@.len() == 6,
            spec_trim_trailing_zeros(frac@) == spec_trim_trailing_zeros(frac@.subrange(0, j as int)),
        decreases j,
    {
        proof {
            assert(frac@.subrange(0, j as int).drop_last() =~= frac@.subrange(0, j as int - 1));
        }
        j = j - 1;
    }
    proof {
        assert(spec_trim_trailing_zeros(frac@.subrange(0, j as int)) == frac@.subrange(0, j as int));
    }
    let trimmed = frac.substring_char(0, j);
    s.append(".");
    s.append(trimmed);
    proof {
        reveal_strlit(".");
        assert(s@ =~= spec_millionths_decimal(v as nat));
    }
    s
}

} // verus!
