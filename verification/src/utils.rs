//! Human-readable formatting of byte counts.
//!
//! A count is scaled by factors of 1024 until it drops below 1024 (or the
//! largest unit is reached) and rendered with exactly two decimal digits,
//! rounding to nearest with ties to even.

use vstd::prelude::*;

verus! {

use vstd::arithmetic::div_mod::lemma_fundamental_div_mod;
use vstd::arithmetic::div_mod::lemma_div_multiples_vanish_fancy;
use vstd::arithmetic::div_mod::lemma_div_by_multiple;
use vstd::arithmetic::div_mod::lemma_div_by_multiple_is_strongly_ordered;
use vstd::arithmetic::div_mod::lemma_mod_multiples_vanish;
use vstd::arithmetic::div_mod::lemma_mod_mod;
use vstd::arithmetic::div_mod::lemma_small_mod;
use vstd::string::StringExecFns;

/// Index into the unit ladder `bytes, KB, MB, GB, TB, PB` at which a count
/// is presented: the first unit under which the scaled value is below 1024,
/// except that scaling stops at PB.
pub open spec fn spec_unit_index(bytes: u64) -> int {
    if bytes < 1024 {
        0
    } else if bytes < 1048576 {
        1
    } else if bytes < 1073741824 {
        2
    } else if bytes < 1099511627776 {
        3
    } else if bytes < 1125899906842624 {
        4
    } else {
        5
    }
}

/// The divisor (1024 to the power of the unit index) that scales a count
/// into its display unit.
pub open spec fn spec_unit_divisor(bytes: u64) -> int {
    if bytes < 1024 {
        1
    } else if bytes < 1048576 {
        1024
    } else if bytes < 1073741824 {
        1048576
    } else if bytes < 1099511627776 {
        1073741824
    } else if bytes < 1125899906842624 {
        1099511627776
    } else {
        1125899906842624
    }
}

/// Name of the unit at position `k` of the ladder.
pub open spec fn spec_unit_name(k: int) -> Seq<char> {
    if k == 0 {
        "bytes"@
    } else if k == 1 {
        "KB"@
    } else if k == 2 {
        "MB"@
    } else if k == 3 {
        "GB"@
    } else if k == 4 {
        "TB"@
    } else {
        "PB"@
    }
}

/// The integer nearest to `num / den`, with ties going to the even
/// neighbour.
pub open spec fn div_round_half_even(num: int, den: int) -> int
    recommends
        den > 0,
{
    let q = num / den;
    let r = num % den;
    if 2 * r > den {
        q + 1
    } else if 2 * r < den {
        q
    } else if q % 2 == 0 {
        q
    } else {
        q + 1
    }
}

/// The displayed magnitude in hundredths: the count scaled into its unit and
/// rounded to two decimal places.
pub open spec fn spec_scaled_hundredths(bytes: u64) -> int {
    div_round_half_even(100 * bytes, spec_unit_divisor(bytes))
}

/// The character for a single decimal digit.
pub open spec fn spec_digit(d: int) -> char
    recommends
        0 <= d < 10,
{
    if d == 0 {
        '0'
    } else if d == 1 {
        '1'
    } else if d == 2 {
        '2'
    } else if d == 3 {
        '3'
    } else if d == 4 {
        '4'
    } else if d == 5 {
        '5'
    } else if d == 6 {
        '6'
    } else if d == 7 {
        '7'
    } else if d == 8 {
        '8'
    } else {
        '9'
    }
}

/// Decimal rendering of a non-negative integer, without leading zeros
/// (a single `'0'` for zero).
pub open spec fn spec_decimal(n: int) -> Seq<char>
    recommends
        n >= 0,
    decreases n,
{
    if n < 10 {
        seq![spec_digit(n)]
    } else {
        spec_decimal(n / 10).push(spec_digit(n % 10))
    }
}

/// The full rendering of a byte count: the scaled magnitude with exactly two
/// decimal digits, a space, and the unit name.
pub open spec fn spec_format_bytes(bytes: u64) -> Seq<char> {
    let q = spec_scaled_hundredths(bytes);
    spec_decimal(q / 100) + seq!['.', spec_digit((q % 100) / 10), spec_digit(q % 10), ' ']
        + spec_unit_name(spec_unit_index(bytes))
}

fn digit_str(d: u64) -> (r: &'static str)
    requires
        d < 10,
    ensures
        r@ == seq![spec_digit(d as int)],
{
    let r = match d {
        0 => "0",
        1 => "1",
        2 => "2",
        3 => "3",
        4 => "4",
        5 => "5",
        6 => "6",
        7 => "7",
        8 => "8",
        _ => "9",
    };
    proof {
        reveal_strlit("0");
        reveal_strlit("1");
        reveal_strlit("2");
        reveal_strlit("3");
        reveal_strlit("4");
        reveal_strlit("5");
        reveal_strlit("6");
        reveal_strlit("7");
        reveal_strlit("8");
        reveal_strlit("9");
        assert(r@ =~= seq![spec_digit(d as int)]);
    }
    r
}

fn unit_str(k: u64) -> (r: &'static str)
    requires
        k <= 5,
    ensures
        r@ == spec_unit_name(k as int),
{
    match k {
        0 => "bytes",
        1 => "KB",
        2 => "MB",
        3 => "GB",
        4 => "TB",
        _ => "PB",
    }
}

fn push_decimal(s: &mut String, n: u64)
    ensures
        final(s)@ == old(s)@ + spec_decimal(n as int),
    decreases n,
{
    if n < 10 {
        s.append(digit_str(n));
        proof {
            assert(s@ =~= old(s)@ + spec_decimal(n as int));
        }
    } else {
        push_decimal(s, n / 10);
        s.append(digit_str(n % 10));
        proof {
            assert(s@ =~= old(s)@ + spec_decimal(n as int));
        }
    }
}

/// Renders a byte count as a magnitude with two decimal digits and an
/// auto-scaled unit, e.g. `9.77 KB`.
pub fn format_bytes(bytes: u64) -> (r: String)
    ensures
        r@ == spec_format_bytes(bytes),
{
    let (k, den): (u64, u64) = if bytes < 1024 {
        (0, 1)
    } else if bytes < 1048576 {
        (1, 1024)
    } else if bytes < 1073741824 {
        (2, 1048576)
    } else if bytes < 1099511627776 {
        (3, 1073741824)
    } else if bytes < 1125899906842624 {
        (4, 1099511627776)
    } else {
        (5, 1125899906842624)
    };
    let wu: u64 = bytes / den;
    let sub: u64 = bytes % den;
    proof {
        lemma_fundamental_div_mod(bytes as int, den as int);
        lemma_div_by_multiple_is_strongly_ordered(
            bytes as int,
            16384 * (den as int),
            16384,
            den as int,
        );
        lemma_div_by_multiple(16384, den as int);
        assert(wu < 16384);
    }
    let num2: u64 = sub * 100;
    let qq: u64 = num2 / den;
    let rr: u64 = num2 % den;
    proof {
        lemma_fundamental_div_mod(num2 as int, den as int);
        lemma_div_by_multiple_is_strongly_ordered(
            num2 as int,
            100 * (den as int),
            100,
            den as int,
        );
        lemma_div_by_multiple(100, den as int);
        assert(qq < 100);
    }
    let q_frac: u64 = if 2 * rr > den {
        qq + 1
    } else if 2 * rr < den {
        qq
    } else if qq % 2 == 0 {
        qq
    } else {
        qq + 1
    };
    let q: u64 = wu * 100 + q_frac;
    proof {
        let b = bytes as int;
        let d = den as int;
        assert(100 * b == d * (100 * wu + qq) + rr) by (nonlinear_arith)
            requires
                b == d * wu + sub,
                100 * (sub as int) == d * qq + rr,
        ;
        lemma_div_multiples_vanish_fancy(100 * wu + qq, rr as int, d);
        lemma_mod_multiples_vanish(100 * wu + qq, rr as int, d);
        lemma_small_mod(rr as nat, den as nat);
        assert((100 * b) / d == 100 * wu + qq);
        assert((100 * b) % d == rr);
        lemma_mod_multiples_vanish(50 * wu, qq as int, 2);
        assert((100 * wu + qq) % 2 == qq % 2);
        assert(q == spec_scaled_hundredths(bytes));
    }
    let whole: u64 = q / 100;
    let frac: u64 = q % 100;
    let mut r = String::new();
    push_decimal(&mut r, whole);
    r.append(".");
    r.append(digit_str(frac / 10));
    r.append(digit_str(frac % 10));
    r.append(" ");
    r.append(unit_str(k));
    proof {
        reveal_strlit(".");
        reveal_strlit(" ");
        lemma_mod_mod(q as int, 10, 10);
        assert((q % 100) % 10 == q % 10);
        assert(r@ =~= spec_format_bytes(bytes));
    }
    r
}

} // verus!
