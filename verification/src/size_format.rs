//! Rendering of byte counts as short human-readable strings with binary
//! unit prefixes (`B`, `KiB`, `MiB`, `GiB`, `TiB`).

use vstd::prelude::*;

verus! {

use crate::ascii::{ASCII_MINUS, ASCII_DOT, ASCII_ZERO, ASCII_UPPER_B, ASCII_UPPER_G, ASCII_UPPER_K,
    ASCII_UPPER_M, ASCII_UPPER_T, ASCII_LOWER_I};

/// Decimal digits of a non-negative integer, most significant digit first,
/// as ASCII bytes.
pub open spec fn spec_decimal(n: nat) -> Seq<u8>
    decreases n,
{
    if n < 10 {
        seq![(ASCII_ZERO + n) as u8]
    } else {
        spec_decimal(n / 10).push((ASCII_ZERO + n % 10) as u8)
    }
}

/// Append the decimal rendering of `n` to `out`.
fn push_decimal(out: &mut Vec<u8>, n: u128)
    ensures
        final(out)@ == old(out)@ + spec_decimal(n as nat),
{
    let mut rev: Vec<u8> = Vec::new();
    let mut m: u128 = n;
    proof {
        assert(spec_decimal(n as nat) + rev@.reverse() =~= spec_decimal(n as nat));
    }
    while m >= 10
        invariant
            spec_decimal(n as nat) == spec_decimal(m as nat) + rev@.reverse(),
        decreases m,
    {
        let ghost rev0 = rev@;
        let d: u8 = (m % 10) as u8 + ASCII_ZERO;
        rev.push(d);
        proof {
            assert(rev@.reverse() =~= seq![d] + rev0.reverse());
            assert(spec_decimal((m / 10) as nat) + (seq![d] + rev0.reverse())
                =~= (spec_decimal((m / 10) as nat) + seq![d]) + rev0.reverse());
            assert(spec_decimal((m / 10) as nat) + seq![d]
                =~= spec_decimal((m / 10) as nat).push(d));
        }
        m = m / 10;
    }
    let ghost rev1 = rev@;
    let d: u8 = m as u8 + ASCII_ZERO;
    rev.push(d);
    proof {
        assert(rev@.reverse() =~= seq![d] + rev1.reverse());
        assert(spec_decimal(m as nat) =~= seq![d]);
        assert(spec_decimal(n as nat) =~= rev@.reverse());
    }
    let len = rev.len();
    let mut i: usize = 0;
    while i < len
        invariant
            len == rev@.len(),
            i <= len,
            spec_decimal(n as nat) == rev@.reverse(),
            out@ == old(out)@ + rev@.reverse().take(i as int),
        decreases len - i,
    {
        let b = rev[len - 1 - i];
        proof {
            assert(rev@.reverse()[i as int] == rev@[len - 1 - i as int]);
            assert(old(out)@ + rev@.reverse().take(i + 1)
                =~= (old(out)@ + rev@.reverse().take(i as int)).push(b));
        }
        out.push(b);
        i += 1;
    }
    proof {
        assert(rev@.reverse().take(len as int) =~= rev@.reverse());
    }
}

/// How many times a magnitude is stepped up to the next binary unit: a value
/// steps up only while it would otherwise display as more than 1100 of the
/// current unit, and never beyond the largest unit in the table.
pub open spec fn spec_unit_steps(m: int) -> int {
    if m <= 1100 {
        0
    } else if m <= 1126400 {  // 1100 * 1024
        1
    } else if m <= 1153433600 {  // 1100 * 1024^2
        2
    } else if m <= 1181116006400 {  // 1100 * 1024^3
        3
    } else {
        4
    }
}

/// The divisor that `k` unit steps apply to a raw byte count.
pub open spec fn spec_unit_divisor(k: int) -> int {
    if k <= 1 {
        1024
    } else if k == 2 {
        1048576  // 1024^2
    } else if k == 3 {
        1073741824  // 1024^3
    } else {
        1099511627776  // 1024^4
    }
}

/// The unit letter chosen after `k` unit steps.
pub open spec fn spec_unit_letter(k: int) -> u8 {
    if k <= 1 {
        ASCII_UPPER_K
    } else if k == 2 {
        ASCII_UPPER_M
    } else if k == 3 {
        ASCII_UPPER_G
    } else {
        ASCII_UPPER_T
    }
}

/// The scaled magnitude in tenths of a unit, rounded half away from zero.
pub open spec fn spec_tenths(m: int, d: int) -> int {
    (10 * m + d / 2) / d
}

/// The human-readable rendering of a signed byte count: raw bytes up to a
/// magnitude of 1100, otherwise one digit after the decimal point in the
/// chosen binary unit, rounded half away from zero at the tenths digit.
pub open spec fn spec_filesize(size: int) -> Seq<u8> {
    let m = if size >= 0 { size } else { -size };
    let k = spec_unit_steps(m);
    if k == 0 {
        let digits = spec_decimal(m as nat) + seq![ASCII_UPPER_B];
        if size < 0 { seq![ASCII_MINUS] + digits } else { digits }
    } else {
        let t = spec_tenths(m, spec_unit_divisor(k));
        let digits = spec_decimal((t / 10) as nat) + seq![ASCII_DOT]
            + spec_decimal((t % 10) as nat)
            + seq![spec_unit_letter(k), ASCII_LOWER_I, ASCII_UPPER_B];
        if size < 0 { seq![ASCII_MINUS] + digits } else { digits }
    }
}

/// Format a signed byte count with binary unit prefixes.
///
/// Magnitudes up to 1100 are rendered as an exact integer followed by `B`;
/// larger magnitudes are scaled by a power of 1024, rounded half away from
/// zero to one decimal place, and suffixed with `KiB`, `MiB`, `GiB` or `TiB`.
/// Magnitudes beyond the `TiB` range still use `TiB` with a large prefix.
pub fn filesize(size: i128) -> (r: Vec<u8>)
    requires
        size != i128::MIN,
    ensures
        r@ == spec_filesize(size as int),
{
    let m: u128 = if size < 0 { (-size) as u128 } else { size as u128 };
    let mut out: Vec<u8> = Vec::new();
    if size < 0 {
        out.push(ASCII_MINUS);
    }
    if m <= 1100 {
        push_decimal(&mut out, m);
        out.push(ASCII_UPPER_B);
    } else {
        let d: u128 = if m <= 1126400 {
            1024
        } else if m <= 1153433600 {
            1048576
        } else if m <= 1181116006400 {
            1073741824
        } else {
            1099511627776
        };
        let a = m / d;
        let r10 = m % d;
        proof {
            vstd::arithmetic::div_mod::lemma_fundamental_div_mod(m as int, d as int);
            vstd::arithmetic::div_mod::lemma_multiply_divide_lt(
                m as int, 1024, 332306998946228968225951765070086144);
            vstd::arithmetic::div_mod::lemma_div_is_ordered_by_denominator(
                m as int, 1024, d as int);
            vstd::arithmetic::div_mod::lemma_div_is_strictly_smaller(d as int, 2);
            assert(10 * (r10 as int) + (d as int) / 2 < 11 * (d as int));
            vstd::arithmetic::div_mod::lemma_multiply_divide_lt(
                10 * (r10 as int) + (d as int) / 2, d as int, 11);
        }
        let t = 10 * a + (10 * r10 + d / 2) / d;
        proof {
            vstd::arithmetic::div_mod::lemma_hoist_over_denominator(
                10 * (r10 as int) + (d as int) / 2, 10 * (a as int), d as nat);
            assert(10 * (r10 as int) + (d as int) / 2 + 10 * (a as int) * (d as int)
                == 10 * (m as int) + (d as int) / 2) by (nonlinear_arith)
                requires m as int == (d as int) * (a as int) + (r10 as int);
            assert(t as int == spec_tenths(m as int, d as int));
        }
        push_decimal(&mut out, t / 10);
        out.push(ASCII_DOT);
        push_decimal(&mut out, t % 10);
        let letter: u8 = if m <= 1126400 {
            ASCII_UPPER_K
        } else if m <= 1153433600 {
            ASCII_UPPER_M
        } else if m <= 1181116006400 {
            ASCII_UPPER_G
        } else {
            ASCII_UPPER_T
        };
        out.push(letter);
        out.push(ASCII_LOWER_I);
        out.push(ASCII_UPPER_B);
    }
    proof {
        assert(out@ =~= spec_filesize(size as int));
    }
    out
}

/// In the raw-byte range the formatter is exact: every non-negative count
/// up to 1100 is rendered as its own decimal digits followed by `B`.
pub proof fn lemma_filesize_raw_bytes(n: int)
    requires
        0 <= n <= 1100,
    ensures
        spec_filesize(n) == spec_decimal(n as nat) + seq![ASCII_UPPER_B],
{
}

/// Negation only prepends a minus sign: for every positive count the
/// rendering of the negated count is `-` followed by the rendering of the
/// positive count, in the raw-byte range and beyond it alike.
pub proof fn lemma_filesize_negation(x: int)
    requires
        x > 0,
    ensures
        spec_filesize(-x) == seq![ASCII_MINUS] + spec_filesize(x),
{
}

} // verus!
