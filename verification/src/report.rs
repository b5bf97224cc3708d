//! Incremental extraction of a labeled numeric field from a line-oriented
//! memory-map report.
//!
//! A report is a byte stream of newline-separated lines.  Every line that
//! begins with a fixed label followed by a colon, at least one whitespace
//! byte, and a run of decimal digits terminated by a space contributes its
//! value (in kibibytes) to a running total; every other line contributes
//! nothing.  The grammar for the numeric token is an optional minus sign
//! followed by one or more digits; a token that is malformed or does not fit
//! a 64-bit signed value contributes nothing rather than failing the whole
//! extraction.

use vstd::prelude::*;

verus! {

use crate::ascii::{ASCII_TAB, ASCII_LF, ASCII_CR, ASCII_SPACE, ASCII_MINUS, ASCII_ZERO,
    ASCII_NINE, ASCII_COLON, ASCII_UPPER_S, ASCII_LOWER_A, ASCII_LOWER_P, ASCII_LOWER_W};

/// Whitespace bytes accepted between the label's colon and the numeric token.
pub open spec fn is_space_byte(b: u8) -> bool {
    b == ASCII_SPACE || b == ASCII_TAB || b == ASCII_CR || b == ASCII_LF
}

/// Index of the first newline byte of `s`, or `s.len()` if there is none.
pub open spec fn spec_find_newline(s: Seq<u8>) -> nat
    decreases s.len(),
{
    if s.len() == 0 {
        0
    } else if s[0] == ASCII_LF {
        0
    } else {
        1 + spec_find_newline(s.skip(1))
    }
}

pub proof fn lemma_find_newline(s: Seq<u8>, i: int)
    requires
        0 <= i <= s.len(),
        forall|j: int| 0 <= j < i ==> s[j] != ASCII_LF,
        i < s.len() ==> s[i] == ASCII_LF,
    ensures
        spec_find_newline(s) == i,
    decreases s.len(),
{
    if s.len() != 0 && s[0] != ASCII_LF {
        assert(forall|j: int| 0 <= j < i - 1 ==> s.skip(1)[j] == s[j + 1]);
        lemma_find_newline(s.skip(1), i - 1);
    }
}

/// The lines of a report: maximal newline-free runs, with the separating
/// newline bytes dropped.  A final fragment without a terminating newline is
/// itself a line; an empty report has no lines.
pub open spec fn spec_lines(s: Seq<u8>) -> Seq<Seq<u8>>
    decreases s.len(),
{
    if s.len() == 0 {
        Seq::empty()
    } else {
        let i = spec_find_newline(s);
        if i < s.len() {
            seq![s.take(i as int)] + spec_lines(s.skip(i as int + 1))
        } else {
            seq![s]
        }
    }
}

/// Number of leading whitespace bytes of `s`.
pub open spec fn spec_leading_ws(s: Seq<u8>) -> nat
    decreases s.len(),
{
    if s.len() == 0 || !is_space_byte(s[0]) {
        0
    } else {
        1 + spec_leading_ws(s.skip(1))
    }
}

pub proof fn lemma_leading_ws(s: Seq<u8>, i: int)
    requires
        0 <= i <= s.len(),
        forall|j: int| 0 <= j < i ==> is_space_byte(s[j]),
        i < s.len() ==> !is_space_byte(s[i]),
    ensures
        spec_leading_ws(s) == i,
    decreases s.len(),
{
    if s.len() != 0 && is_space_byte(s[0]) {
        assert(forall|j: int| 0 <= j < i - 1 ==> s.skip(1)[j] == s[j + 1]);
        lemma_leading_ws(s.skip(1), i - 1);
    }
}

/// Index of the first space byte of `s`, or `s.len()` if there is none.
pub open spec fn spec_find_space(s: Seq<u8>) -> nat
    decreases s.len(),
{
    if s.len() == 0 {
        0
    } else if s[0] == ASCII_SPACE {
        0
    } else {
        1 + spec_find_space(s.skip(1))
    }
}

pub proof fn lemma_find_space(s: Seq<u8>, i: int)
    requires
        0 <= i <= s.len(),
        forall|j: int| 0 <= j < i ==> s[j] != ASCII_SPACE,
        i < s.len() ==> s[i] == ASCII_SPACE,
    ensures
        spec_find_space(s) == i,
    decreases s.len(),
{
    if s.len() != 0 && s[0] != ASCII_SPACE {
        assert(forall|j: int| 0 <= j < i - 1 ==> s.skip(1)[j] == s[j + 1]);
        lemma_find_space(s.skip(1), i - 1);
    }
}

/// Whether `s` is one or more decimal digit bytes.
pub open spec fn spec_is_digits(s: Seq<u8>) -> bool {
    s.len() >= 1 && forall|j: int| 0 <= j < s.len() ==> ASCII_ZERO <= #[trigger] s[j] && s[j] <= ASCII_NINE
}

/// The value of a run of decimal digit bytes, most significant first.
pub open spec fn spec_digits_value(s: Seq<u8>) -> int
    decreases s.len(),
{
    if s.len() == 0 {
        0
    } else {
        spec_digits_value(s.drop_last()) * 10 + (s[s.len() - 1] - ASCII_ZERO)
    }
}

pub proof fn lemma_digits_value_monotone(s: Seq<u8>, i: int)
    requires
        0 <= i <= s.len(),
        forall|j: int| 0 <= j < s.len() ==> ASCII_ZERO <= #[trigger] s[j] && s[j] <= ASCII_NINE,
    ensures
        0 <= spec_digits_value(s.take(i)),
        spec_digits_value(s.take(i)) <= spec_digits_value(s),
    decreases s.len() - i,
{
    if i == s.len() {
        assert(s.take(i) =~= s);
        lemma_digits_value_nonneg(s);
    } else {
        assert(s.take(i + 1).drop_last() =~= s.take(i));
        lemma_digits_value_nonneg(s.take(i));
        lemma_digits_value_monotone(s, i + 1);
    }
}

pub proof fn lemma_digits_value_nonneg(s: Seq<u8>)
    requires
        forall|j: int| 0 <= j < s.len() ==> ASCII_ZERO <= #[trigger] s[j] && s[j] <= ASCII_NINE,
    ensures
        0 <= spec_digits_value(s),
    decreases s.len(),
{
    if s.len() > 0 {
        assert(forall|j: int| 0 <= j < s.len() - 1 ==> s.drop_last()[j] == s[j]);
        lemma_digits_value_nonneg(s.drop_last());
    }
}

/// The value of a numeric token: an optional minus sign followed by one or
/// more decimal digits, and nothing else.
pub open spec fn spec_token_value(t: Seq<u8>) -> Option<int> {
    if t.len() >= 1 && t[0] == ASCII_MINUS && spec_is_digits(t.skip(1)) {
        Some(-spec_digits_value(t.skip(1)))
    } else if spec_is_digits(t) {
        Some(spec_digits_value(t))
    } else {
        None
    }
}

/// What one line contributes to the report total: the value of its numeric
/// token if the line starts with the label and a colon, then one or more
/// whitespace bytes, then a well-formed token terminated by a space, and the
/// value fits a 64-bit signed integer; otherwise nothing.
pub open spec fn spec_line_value(line: Seq<u8>, label: Seq<u8>) -> int {
    if line.len() >= label.len() + 1 && line.take(label.len() as int) == label
        && line[label.len() as int] == ASCII_COLON {
        let rest = line.skip(label.len() as int + 1);
        let w = spec_leading_ws(rest);
        if w == 0 {
            0
        } else {
            let rest2 = rest.skip(w as int);
            let p = spec_find_space(rest2);
            if p < rest2.len() {
                match spec_token_value(rest2.take(p as int)) {
                    Some(v) => if i64::MIN <= v <= i64::MAX {
                        v
                    } else {
                        0
                    },
                    None => 0,
                }
            } else {
                0
            }
        }
    } else {
        0
    }
}

/// The sum of the contributions of a sequence of lines.
pub open spec fn spec_lines_total(lines: Seq<Seq<u8>>, label: Seq<u8>) -> int
    decreases lines.len(),
{
    if lines.len() == 0 {
        0
    } else {
        spec_line_value(lines[0], label) + spec_lines_total(lines.skip(1), label)
    }
}

/// The total of every labeled line of a report, in kibibytes.
pub open spec fn spec_report_total(s: Seq<u8>, label: Seq<u8>) -> int {
    spec_lines_total(spec_lines(s), label)
}

/// The swap total of a report in bytes, when it fits a 64-bit signed
/// integer: 1024 times the sum of the labeled kibibyte values.
pub open spec fn spec_swap_result(report: Seq<u8>) -> Option<int> {
    let t = 1024 * spec_report_total(report, spec_swap_label());
    if i64::MIN <= t <= i64::MAX {
        Some(t)
    } else {
        None
    }
}

/// The label of the memory-accounting field this tool reports: `Swap`.
pub open spec fn spec_swap_label() -> Seq<u8> {
    seq![ASCII_UPPER_S, ASCII_LOWER_W, ASCII_LOWER_A, ASCII_LOWER_P]
}

/// Parse the digit run `s[start..end]`, provided it is all digits and its
/// value is at most `cap`; report `None` otherwise.
pub(crate) fn parse_digits(s: &[u8], start: usize, end: usize, cap: u128) -> (r: Option<u128>)
    requires
        start <= end <= s@.len(),
        cap <= u64::MAX as u128,
    ensures
        ({
            let t = s@.subrange(start as int, end as int);
            match r {
                Some(v) => spec_is_digits(t) && spec_digits_value(t) == v && v <= cap,
                None => !spec_is_digits(t) || spec_digits_value(t) > cap,
            }
        }),
{
    let ghost t = s@.subrange(start as int, end as int);
    if start == end {
        return None;
    }
    let mut val: u128 = 0;
    let mut i: usize = start;
    while i < end
        invariant
            start <= i <= end <= s@.len(),
            t == s@.subrange(start as int, end as int),
            cap <= u64::MAX as u128,
            val <= cap,
            val == spec_digits_value(t.take(i - start)),
            forall|j: int| 0 <= j < i - start ==> ASCII_ZERO <= #[trigger] t[j] && t[j] <= ASCII_NINE,
        decreases end - i,
    {
        let b = s[i];
        proof {
            assert(t[i - start] == s@[i as int]);
        }
        if b < ASCII_ZERO || b > ASCII_NINE {
            return None;
        }
        proof {
            assert(t.take(i - start + 1).drop_last() =~= t.take(i - start));
        }
        val = val * 10 + (b - ASCII_ZERO) as u128;
        i += 1;
        if val > cap {
            proof {
                if spec_is_digits(t) {
                    lemma_digits_value_monotone(t, i - start);
                }
            }
            return None;
        }
    }
    proof {
        assert(t.take(end - start) =~= t);
    }
    Some(val)
}

/// The contribution of the line `report[start..end]` to the labeled total.
fn line_value(report: &[u8], start: usize, end: usize, label: &[u8]) -> (n: i64)
    requires
        start <= end <= report@.len(),
    ensures
        n as int == spec_line_value(report@.subrange(start as int, end as int), label@),
{
    let ghost line = report@.subrange(start as int, end as int);
    let llen = label.len();
    if end - start <= llen {
        return 0;
    }
    let mut j: usize = 0;
    while j < llen
        invariant
            j <= llen,
            llen == label@.len(),
            start <= end <= report@.len(),
            end - start >= llen + 1,
            line == report@.subrange(start as int, end as int),
            forall|k: int| 0 <= k < j ==> line[k] == label@[k],
        decreases llen - j,
    {
        if report[start + j] != label[j] {
            proof {
                assert(line[j as int] != label@[j as int]);
                assert(line.take(llen as int) != label@);
            }
            return 0;
        }
        j += 1;
    }
    proof {
        assert(line.take(llen as int) =~= label@);
    }
    if report[start + llen] != ASCII_COLON {
        proof {
            assert(line[llen as int] != ASCII_COLON);
        }
        return 0;
    }
    // The label matched; skip the run of whitespace after the colon.
    let ghost rest = line.skip(llen + 1);
    let base = start + llen + 1;
    proof {
        assert(rest =~= report@.subrange(base as int, end as int));
    }
    let mut p: usize = base;
    while p < end && (report[p] == ASCII_SPACE || report[p] == ASCII_TAB
        || report[p] == ASCII_CR || report[p] == ASCII_LF)
        invariant
            base <= p <= end <= report@.len(),
            rest == report@.subrange(base as int, end as int),
            forall|k: int| 0 <= k < p - base ==> is_space_byte(rest[k]),
        decreases end - p,
    {
        p += 1;
    }
    proof {
        if p < end {
            assert(rest[p - base] == report@[p as int]);
        }
        lemma_leading_ws(rest, p - base);
    }
    if p == base {
        // No whitespace after the colon: the line contributes nothing.
        return 0;
    }
    // Find the space that terminates the numeric token.
    let ghost rest2 = rest.skip(p - base);
    proof {
        assert(rest2 =~= report@.subrange(p as int, end as int));
    }
    let mut q: usize = p;
    while q < end && report[q] != ASCII_SPACE
        invariant
            p <= q <= end <= report@.len(),
            rest2 == report@.subrange(p as int, end as int),
            forall|k: int| 0 <= k < q - p ==> rest2[k] != ASCII_SPACE,
        decreases end - q,
    {
        q += 1;
    }
    proof {
        if q < end {
            assert(rest2[q - p] == report@[q as int]);
        }
        lemma_find_space(rest2, q - p);
    }
    if q == end {
        // No terminating space: the token is malformed.
        return 0;
    }
    let ghost token = rest2.take(q - p);
    proof {
        assert(token =~= report@.subrange(p as int, q as int));
    }
    // Parse the token: an optional minus sign, then digits.
    let neg = report[p] == ASCII_MINUS;
    let dstart = if neg { p + 1 } else { p };
    let ghost digits = if neg { token.skip(1) } else { token };
    proof {
        assert(digits =~= report@.subrange(dstart as int, q as int));
    }
    let cap: u128 = if neg {
        9223372036854775808
    } else {
        9223372036854775807
    };
    match parse_digits(report, dstart, q, cap) {
        Some(v) => {
            if neg {
                let n = (-(v as i128)) as i64;
                proof {
                    assert(spec_token_value(token) == Some(-spec_digits_value(digits)));
                }
                n
            } else {
                let n = v as i64;
                proof {
                    assert(token[0] != ASCII_MINUS);
                    assert(spec_token_value(token) == Some(spec_digits_value(digits)));
                }
                n
            }
        },
        None => {
            proof {
                if neg {
                    assert(spec_token_value(token) is Some ==> spec_is_digits(digits));
                    if spec_is_digits(digits) {
                        lemma_digits_value_nonneg(digits);
                        assert(spec_digits_value(digits) > cap ==> {
                            let v = spec_token_value(token)->Some_0;
                            v < i64::MIN
                        });
                    }
                } else {
                    assert(token[0] != ASCII_MINUS);
                    if spec_is_digits(token) {
                        lemma_digits_value_nonneg(token);
                    }
                }
            }
            0
        },
    }
}

/// Sum every line of `report` that carries the labeled field, and convert
/// the total from kibibytes to bytes.  Returns `None` exactly when the
/// converted total does not fit a 64-bit signed integer.
pub fn sum_labeled_field(report: &[u8], label: &[u8]) -> (r: Option<i64>)
    ensures
        ({
            let t = 1024 * spec_report_total(report@, label@);
            if i64::MIN <= t <= i64::MAX {
                r == Some(t as i64)
            } else {
                r is None
            }
        }),
{
    let len = report.len();
    let mut sum: i128 = 0;
    let mut pos: usize = 0;
    proof {
        assert(report@.skip(0) =~= report@);
    }
    while pos < len
        invariant
            pos <= len,
            len == report@.len(),
            spec_report_total(report@, label@)
                == sum + spec_lines_total(spec_lines(report@.skip(pos as int)), label@),
            -(pos as int) * 0x8000_0000_0000_0000 <= sum as int
                <= (pos as int) * 0x8000_0000_0000_0000,
        decreases len - pos,
    {
        let ghost suffix = report@.skip(pos as int);
        let mut endl: usize = pos;
        while endl < len && report[endl] != ASCII_LF
            invariant
                pos <= endl <= len <= report@.len(),
                suffix == report@.skip(pos as int),
                forall|k: int| 0 <= k < endl - pos ==> suffix[k] != ASCII_LF,
            decreases len - endl,
        {
            proof {
                assert(suffix[endl - pos] == report@[endl as int]);
            }
            endl += 1;
        }
        proof {
            if endl < len {
                assert(suffix[endl - pos] == report@[endl as int]);
            }
            lemma_find_newline(suffix, endl - pos);
            assert(suffix.take(endl - pos) =~= report@.subrange(pos as int, endl as int));
        }
        let v = line_value(report, pos, endl, label);
        proof {
            let lines = spec_lines(suffix);
            if endl < len {
                assert(lines == seq![suffix.take(endl - pos)]
                    + spec_lines(suffix.skip(endl - pos + 1)));
                assert(lines.skip(1) =~= spec_lines(suffix.skip(endl - pos + 1)));
                assert(suffix.skip(endl - pos + 1) =~= report@.skip(endl + 1));
            } else {
                assert(lines == seq![suffix]);
                assert(lines.skip(1) =~= Seq::<Seq<u8>>::empty());
                assert(suffix =~= report@.subrange(pos as int, endl as int));
            }
            assert(lines[0] == report@.subrange(pos as int, endl as int));
            assert(spec_lines_total(lines, label@)
                == v + spec_lines_total(lines.skip(1), label@));
            assert(usize::MAX as int <= 0xffff_ffff_ffff_ffff);
        }
        sum = sum + v as i128;
        if endl < len {
            pos = endl + 1;
        } else {
            pos = endl;
            proof {
                assert(spec_lines(report@.skip(pos as int)) =~= Seq::<Seq<u8>>::empty());
            }
        }
    }
    proof {
        assert(report@.skip(len as int) =~= Seq::<u8>::empty());
    }
    if sum >= -9007199254740992i128 && sum <= 9007199254740991i128 {
        let total = 1024 * sum;
        Some(total as i64)
    } else {
        None
    }
}

/// The swap total of one memory-map report, in bytes: the sum of every
/// `Swap:` line, in kibibytes, times 1024.  Returns `None` exactly when that
/// total does not fit a 64-bit signed integer.
pub fn get_swap_for(report: &[u8]) -> (r: Option<i64>)
    ensures
        ({
            let t = 1024 * spec_report_total(report@, spec_swap_label());
            if i64::MIN <= t <= i64::MAX {
                r == Some(t as i64)
            } else {
                r is None
            }
        }),
{
    let mut label: Vec<u8> = Vec::new();
    label.push(ASCII_UPPER_S);
    label.push(ASCII_LOWER_W);
    label.push(ASCII_LOWER_A);
    label.push(ASCII_LOWER_P);
    proof {
        assert(label@ =~= spec_swap_label());
    }
    sum_labeled_field(report, label.as_slice())
}

} // verus!
