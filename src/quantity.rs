use crate::errors::{MetricsError, MetricsResult};
use vstd::prelude::*;

verus! {

/// CPU amounts are counted in units of 10^-18 cores.
pub const CPU_UNITS_PER_CORE: u128 = 1_000_000_000_000_000_000;

/// 10^-18 cores per millicore.
pub const CPU_UNITS_PER_MILLICORE: u128 = 1_000_000_000_000_000;

/// Memory amounts are counted in units of 10^-9 bytes.
pub const MEMORY_UNITS_PER_BYTE: u128 = 1_000_000_000;

/// 10^-9 bytes per mebibyte.
pub const MEMORY_UNITS_PER_MEBIBYTE: u128 = 1_048_576_000_000_000;

/// A quantity's digits, read as one integer, stay below this bound.
pub const MANTISSA_LIMIT: u128 = 10_000_000_000_000_000_000_000_000_000;

/// Exponents from this size on are told apart only by their sign: any value that they
/// give is zero, past every counter, or finer than every unit.
pub const EXPONENT_CAP: u128 = 100_000_000_000_000_000_000;

pub open spec fn pow10(n: nat) -> nat
    decreases n,
{
    if n == 0 {
        1
    } else {
        10 * pow10((n - 1) as nat)
    }
}

pub open spec fn is_digit(c: char) -> bool {
    48 <= (c as u32) && (c as u32) <= 57
}

pub open spec fn digit_value(c: char) -> nat {
    ((c as u32) - 48) as nat
}

/// Every character is a digit or a decimal point.
pub open spec fn digits_and_points(s: Seq<char>) -> bool {
    forall|i: int| 0 <= i < s.len() ==> is_digit(#[trigger] s[i]) || s[i] == '.'
}

pub open spec fn point_count(s: Seq<char>) -> nat
    decreases s.len(),
{
    if s.len() == 0 {
        0
    } else if s.last() == '.' {
        point_count(s.drop_last()) + 1
    } else {
        point_count(s.drop_last())
    }
}

pub open spec fn digit_count(s: Seq<char>) -> nat
    decreases s.len(),
{
    if s.len() == 0 {
        0
    } else if is_digit(s.last()) {
        digit_count(s.drop_last()) + 1
    } else {
        digit_count(s.drop_last())
    }
}

/// The digits of `s`, decimal point left out, read as one integer.
pub open spec fn mantissa(s: Seq<char>) -> nat
    decreases s.len(),
{
    if s.len() == 0 {
        0
    } else if is_digit(s.last()) {
        mantissa(s.drop_last()) * 10 + digit_value(s.last())
    } else {
        mantissa(s.drop_last())
    }
}

/// The number of digits after the decimal point.
pub open spec fn fraction_digits(s: Seq<char>) -> nat
    decreases s.len(),
{
    if s.len() == 0 {
        0
    } else if is_digit(s.last()) && point_count(s.drop_last()) > 0 {
        fraction_digits(s.drop_last()) + 1
    } else {
        fraction_digits(s.drop_last())
    }
}

/// A plain decimal number: digits with at most one decimal point, at least one digit,
/// and digits that read below `MANTISSA_LIMIT`.
pub open spec fn decimal_reads(s: Seq<char>) -> bool {
    &&& digits_and_points(s)
    &&& point_count(s) <= 1
    &&& digit_count(s) > 0
    &&& mantissa(s) < MANTISSA_LIMIT
}

/// `s` without a leading plus sign.
pub open spec fn unsigned(s: Seq<char>) -> Seq<char> {
    if s.len() > 0 && s[0] == '+' {
        s.skip(1)
    } else {
        s
    }
}

pub open spec fn is_exponent_mark(c: char) -> bool {
    c == 'e' || c == 'E'
}

/// The position of the last exponent mark.
pub open spec fn exponent_mark(s: Seq<char>) -> Option<int>
    decreases s.len(),
{
    if s.len() == 0 {
        None
    } else if is_exponent_mark(s.last()) {
        Some(s.len() - 1)
    } else {
        exponent_mark(s.drop_last())
    }
}

/// What stands before the exponent mark.
pub open spec fn significand(s: Seq<char>) -> Seq<char> {
    match exponent_mark(s) {
        Some(p) => s.take(p),
        None => s,
    }
}

pub open spec fn only_digits(s: Seq<char>) -> bool {
    s.len() > 0 && forall|i: int| 0 <= i < s.len() ==> is_digit(#[trigger] s[i])
}

/// The power of ten that follows the exponent mark: an optional sign and at least one
/// digit. Zero where there is no mark; `None` where what follows is malformed.
pub open spec fn exponent(s: Seq<char>) -> Option<int> {
    match exponent_mark(s) {
        None => Some(0),
        Some(p) => {
            let t = s.skip(p + 1);
            if t.len() > 0 && t[0] == '-' && only_digits(t.skip(1)) {
                Some(-(mantissa(t.skip(1)) as int))
            } else if t.len() > 0 && t[0] == '+' && only_digits(t.skip(1)) {
                Some(mantissa(t.skip(1)) as int)
            } else if only_digits(t) {
                Some(mantissa(t) as int)
            } else {
                None
            }
        },
    }
}

/// `n * 10^shift`, where that is a whole number.
pub open spec fn shifted(n: nat, shift: int) -> Option<nat> {
    if shift >= 0 {
        Some(n * pow10(shift as nat))
    } else if n % pow10((-shift) as nat) == 0 {
        Some(n / pow10((-shift) as nat))
    } else {
        None
    }
}

/// The value of the number `s`, times `factor`, in units of 10^-`exp`. A number is an
/// optional `+`, digits with at most one decimal point, then an optional exponent
/// (`e` or `E`, an optional sign, digits). `None` where `s` is no such number, or where
/// its value cannot be held: a negative value (a leading `-`), a value that is not a
/// whole number of units, a value past `u128::MAX` units, or digits that read
/// `MANTISSA_LIMIT` or more.
pub open spec fn decimal_amount(s: Seq<char>, exp: nat, factor: nat) -> Option<nat> {
    let d = unsigned(significand(s));
    if decimal_reads(d) && exponent(s) is Some {
        match shifted(mantissa(d) * factor, exp - fraction_digits(d) + exponent(s)->0) {
            Some(v) => if v <= u128::MAX {
                Some(v)
            } else {
                None
            },
            None => None,
        }
    } else {
        None
    }
}

pub open spec fn ends_with_two(s: Seq<char>, a: char, b: char) -> bool {
    s.len() >= 2 && s[s.len() - 2] == a && s[s.len() - 1] == b
}

/// A CPU quantity in units of 10^-18 cores: `n` marks nanocores, `m` millicores,
/// no suffix whole cores.
pub open spec fn cpu_amount(s: Seq<char>) -> Option<nat> {
    if s.len() > 0 && s.last() == 'n' {
        decimal_amount(s.drop_last(), 9, 1)
    } else if s.len() > 0 && s.last() == 'm' {
        decimal_amount(s.drop_last(), 15, 1)
    } else {
        decimal_amount(s, 18, 1)
    }
}

/// A memory quantity in units of 10^-9 bytes, suffixes tried in the order
/// `Mi`, `Ki`, `Gi`; no suffix means bytes.
pub open spec fn memory_amount(s: Seq<char>) -> Option<nat> {
    if ends_with_two(s, 'M', 'i') {
        decimal_amount(s.take(s.len() - 2), 9, 1_048_576)
    } else if ends_with_two(s, 'K', 'i') {
        decimal_amount(s.take(s.len() - 2), 9, 1024)
    } else if ends_with_two(s, 'G', 'i') {
        decimal_amount(s.take(s.len() - 2), 9, 1_073_741_824)
    } else {
        decimal_amount(s, 9, 1)
    }
}

pub open spec fn cpu_error_text(s: Seq<char>) -> Seq<char> {
    if s.len() > 0 && s.last() == 'n' {
        "Invalid nanocores CPU value: "@ + s
    } else if s.len() > 0 && s.last() == 'm' {
        "Invalid millicores CPU value: "@ + s
    } else {
        "Invalid CPU value: "@ + s
    }
}

pub open spec fn memory_error_text(s: Seq<char>) -> Seq<char> {
    if ends_with_two(s, 'M', 'i') {
        "Invalid megabytes value: "@ + s
    } else if ends_with_two(s, 'K', 'i') {
        "Invalid kilobytes value: "@ + s
    } else if ends_with_two(s, 'G', 'i') {
        "Invalid gigabytes value: "@ + s
    } else {
        "Invalid memory value: "@ + s
    }
}

proof fn lemma_pow10_grows(a: nat, b: nat)
    requires
        a <= b,
    ensures
        pow10(a) <= pow10(b),
    decreases b,
{
    if a < b {
        lemma_pow10_grows(a, (b - 1) as nat);
    }
}

proof fn lemma_pow10_values()
    ensures
        pow10(9) == 1_000_000_000,
        pow10(15) == 1_000_000_000_000_000,
        pow10(18) == 1_000_000_000_000_000_000,
        pow10(38) == 100_000_000_000_000_000_000_000_000_000_000_000_000,
        pow10(39) > u128::MAX,
{
    reveal_with_fuel(pow10, 40);
}

/// Reads `s[begin..end]` as a decimal number: its mantissa and its count of fraction digits.
fn read_decimal(s: &str, begin: usize, end: usize) -> (r: Option<(u128, usize)>)
    requires
        begin <= end <= s@.len(),
    ensures
        r is Some <==> decimal_reads(s@.subrange(begin as int, end as int)),
        r matches Some((m, k)) ==> m == mantissa(s@.subrange(begin as int, end as int)) && k
            == fraction_digits(s@.subrange(begin as int, end as int)),
{
    let mut i: usize = begin;
    let mut m: u128 = 0;
    let mut points: usize = 0;
    let mut digits: usize = 0;
    let mut frac: usize = 0;
    let mut stray = false;
    let mut too_large = false;
    while i < end
        invariant
            begin <= i <= end <= s@.len(),
            points == point_count(s@.subrange(begin as int, i as int)),
            digits == digit_count(s@.subrange(begin as int, i as int)),
            frac == fraction_digits(s@.subrange(begin as int, i as int)),
            points <= i - begin && digits <= i - begin && frac <= i - begin,
            stray <==> !digits_and_points(s@.subrange(begin as int, i as int)),
            too_large ==> mantissa(s@.subrange(begin as int, i as int)) >= MANTISSA_LIMIT,
            !too_large ==> m == mantissa(s@.subrange(begin as int, i as int)) && m < MANTISSA_LIMIT,
        decreases end - i,
    {
        let c = s.get_char(i);
        let ghost prev = s@.subrange(begin as int, i as int);
        let ghost next = s@.subrange(begin as int, i + 1);
        assert(next.drop_last() =~= prev);
        assert(next.last() == c);
        assert(forall|j: int| 0 <= j < prev.len() ==> next[j] == prev[j]);
        let code = c as u32;
        if 48 <= code && code <= 57 {
            let d = (code - 48) as u128;
            if !too_large {
                if m >= 1_000_000_000_000_000_000_000_000_000 {
                    too_large = true;
                    assert(mantissa(next) >= MANTISSA_LIMIT) by (nonlinear_arith)
                        requires
                            mantissa(next) == m * 10 + d,
                            m >= 1_000_000_000_000_000_000_000_000_000,
                    ;
                } else {
                    m = m * 10 + d;
                    if m >= MANTISSA_LIMIT {
                        too_large = true;
                    }
                }
            } else {
                assert(mantissa(next) >= mantissa(prev));
            }
            digits = digits + 1;
            if points > 0 {
                frac = frac + 1;
            }
        } else if c == '.' {
            points = points + 1;
        } else {
            stray = true;
        }
        proof {
            if !digits_and_points(prev) {
                let j = choose|j: int| 0 <= j < prev.len() && !(is_digit(#[trigger] prev[j]) || prev[j] == '.');
                assert(next[j] == prev[j]);
            }
            if stray && digits_and_points(prev) {
                assert(!(is_digit(next[i - begin]) || next[i - begin] == '.'));
            }
            if !stray {
                assert forall|j: int| 0 <= j < next.len() implies is_digit(#[trigger] next[j]) || next[j] == '.' by {
                    if j < i - begin {
                        assert(next[j] == prev[j]);
                    }
                }
            }
        }
        i = i + 1;
    }
    if stray || points > 1 || digits == 0 || too_large {
        None
    } else {
        Some((m, frac))
    }
}

/// The position of the last exponent mark in `s[..end]`.
fn find_exponent_mark(s: &str, end: usize) -> (r: Option<usize>)
    requires
        end <= s@.len(),
    ensures
        r matches Some(p) ==> exponent_mark(s@.take(end as int)) == Some(p as int) && p < end,
        r is None ==> exponent_mark(s@.take(end as int)) is None,
{
    let mut found: Option<usize> = None;
    let mut i: usize = 0;
    while i < end
        invariant
            i <= end <= s@.len(),
            found matches Some(p) ==> exponent_mark(s@.take(i as int)) == Some(p as int) && p < i,
            found is None ==> exponent_mark(s@.take(i as int)) is None,
        decreases end - i,
    {
        let ghost next = s@.take(i + 1);
        assert(next.drop_last() =~= s@.take(i as int));
        let c = s.get_char(i);
        if c == 'e' || c == 'E' {
            found = Some(i);
        }
        i = i + 1;
    }
    found
}

/// Reads `s[begin..end]` as digits: whether it is digits, and their value where it is
/// below `EXPONENT_CAP`.
fn read_exponent_digits(s: &str, begin: usize, end: usize) -> (r: (bool, u128, bool))
    requires
        begin <= end <= s@.len(),
    ensures
        r.0 <==> only_digits(s@.subrange(begin as int, end as int)),
        !r.2 ==> r.1 == mantissa(s@.subrange(begin as int, end as int)) && r.1 < EXPONENT_CAP,
        r.2 ==> mantissa(s@.subrange(begin as int, end as int)) >= EXPONENT_CAP,
{
    let mut i: usize = begin;
    let mut v: u128 = 0;
    let mut ok = true;
    let mut big = false;
    while i < end
        invariant
            begin <= i <= end <= s@.len(),
            ok <==> forall|j: int| 0 <= j < i - begin ==> is_digit(#[trigger] s@.subrange(begin as int, i as int)[j]),
            !big ==> v == mantissa(s@.subrange(begin as int, i as int)) && v < EXPONENT_CAP,
            big ==> mantissa(s@.subrange(begin as int, i as int)) >= EXPONENT_CAP,
        decreases end - i,
    {
        let ghost prev = s@.subrange(begin as int, i as int);
        let ghost next = s@.subrange(begin as int, i + 1);
        assert(next.drop_last() =~= prev);
        assert(forall|j: int| 0 <= j < prev.len() ==> next[j] == prev[j]);
        let c = s.get_char(i);
        assert(next.last() == c);
        let code = c as u32;
        if 48 <= code && code <= 57 {
            let d = (code - 48) as u128;
            if !big {
                if v >= 10_000_000_000_000_000_000 {
                    big = true;
                    assert(mantissa(next) >= EXPONENT_CAP) by (nonlinear_arith)
                        requires
                            mantissa(next) == v * 10 + d,
                            v >= 10_000_000_000_000_000_000,
                    ;
                } else {
                    v = v * 10 + d;
                    if v >= EXPONENT_CAP {
                        big = true;
                    }
                }
            }
        } else {
            ok = false;
            assert(!is_digit(next[i - begin]));
        }
        i = i + 1;
    }
    (ok && end > begin, v, big)
}

fn pow10_u128(n: u32) -> (r: u128)
    requires
        n <= 38,
    ensures
        r == pow10(n as nat),
{
    let mut p: u128 = 1;
    let mut j: u32 = 0;
    while j < n
        invariant
            j <= n <= 38,
            p == pow10(j as nat),
        decreases n - j,
    {
        proof {
            lemma_pow10_values();
            lemma_pow10_grows((j + 1) as nat, 38);
        }
        assert(pow10((j + 1) as nat) == 10 * pow10(j as nat));
        p = p * 10;
        j = j + 1;
    }
    p
}

proof fn lemma_pow10_positive(n: nat)
    ensures
        pow10(n) > 0,
    decreases n,
{
    if n > 0 {
        lemma_pow10_positive((n - 1) as nat);
    }
}

/// A nonzero amount below 10^38 shifted by more than 38 places either way cannot be held.
proof fn lemma_far_shift(n: nat, shift: int)
    requires
        0 < n < pow10(38),
        shift > 38 || shift < -38,
    ensures
        shift > 38 ==> (shifted(n, shift) matches Some(v) && v > u128::MAX),
        shift < -38 ==> shifted(n, shift) is None,
{
    lemma_pow10_values();
    if shift > 38 {
        lemma_pow10_grows(39, shift as nat);
        let p = pow10(shift as nat);
        assert(n * p >= p) by (nonlinear_arith)
            requires
                n >= 1,
                p > 0,
        ;
    } else {
        lemma_pow10_grows(38, (-shift) as nat);
        vstd::arithmetic::div_mod::lemma_small_mod(n, pow10((-shift) as nat));
    }
}

/// `mf * 10^shift` where it is a whole number that fits a `u128`.
fn shift_amount(mf: u128, shift: i128) -> (r: Option<u128>)
    requires
        mf < 100_000_000_000_000_000_000_000_000_000_000_000_000,
    ensures
        r matches Some(v) ==> shifted(mf as nat, shift as int) == Some(v as nat),
        r is None ==> (shifted(mf as nat, shift as int) matches Some(v) ==> v > u128::MAX),
{
    proof {
        lemma_pow10_values();
        lemma_pow10_positive(if shift >= 0 { shift as nat } else { (-shift) as nat });
    }
    if mf == 0 {
        proof {
            let p = if shift >= 0 { pow10(shift as nat) } else { pow10((-shift) as nat) };
            assert(0 * p == 0 && 0nat % p == 0 && 0nat / p == 0) by (nonlinear_arith)
                requires
                    p > 0,
            ;
        }
        return Some(0);
    }
    if shift > 38 || shift < -38 {
        proof {
            lemma_far_shift(mf as nat, shift as int);
        }
        return None;
    }
    if shift >= 0 {
        let p = pow10_u128(shift as u32);
        mf.checked_mul(p)
    } else {
        let p = pow10_u128((-shift) as u32);
        if mf % p == 0 {
            Some(mf / p)
        } else {
            None
        }
    }
}

fn read_amount(s: &str, end: usize, exp: usize, factor: u128) -> (r: Option<u128>)
    requires
        end <= s@.len(),
        9 <= exp <= 18,
        1 <= factor <= 1_073_741_824,
    ensures
        r matches Some(v) ==> decimal_amount(s@.take(end as int), exp as nat, factor as nat) == Some(v as nat),
        r is None ==> decimal_amount(s@.take(end as int), exp as nat, factor as nat) is None,
{
    let ghost t = s@.take(end as int);
    let mark = find_exponent_mark(s, end);
    let sig_end: usize = match mark {
        Some(p) => p,
        None => end,
    };
    let begin: usize = if sig_end > 0 && s.get_char(0) == '+' {
        1
    } else {
        0
    };
    assert(unsigned(significand(t)) =~= s@.subrange(begin as int, sig_end as int));
    let (m, k) = match read_decimal(s, begin, sig_end) {
        Some(x) => x,
        None => return None,
    };
    let ghost d = unsigned(significand(t));
    let (negative, e, big) = match mark {
        None => (false, 0u128, false),
        Some(p) => {
            let start = p + 1;
            let ghost tail = t.skip(start as int);
            assert(tail =~= s@.subrange(start as int, end as int));
            let (negative, from): (bool, usize) = if start < end && s.get_char(start) == '-' {
                (true, start + 1)
            } else if start < end && s.get_char(start) == '+' {
                (false, start + 1)
            } else {
                (false, start)
            };
            assert(from > start ==> tail.skip(1) =~= s@.subrange(from as int, end as int));
            let (ok, v, big) = read_exponent_digits(s, from, end);
            if !ok {
                assert(from > start ==> !only_digits(tail)) by {
                    if from > start {
                        assert(!is_digit(tail[0]));
                    }
                }
                return None;
            }
            (negative, v, big)
        },
    };
    assert(m * factor < 100_000_000_000_000_000_000_000_000_000_000_000_000u128) by (nonlinear_arith)
        requires
            m < 10_000_000_000_000_000_000_000_000_000u128,
            factor <= 1_073_741_824,
    ;
    let mf: u128 = m * factor;
    let ghost shift: int = exp - fraction_digits(d) + exponent(t)->0;
    if big {
        if mf == 0 {
            proof {
                lemma_pow10_positive(if shift >= 0 { shift as nat } else { (-shift) as nat });
                let p = if shift >= 0 { pow10(shift as nat) } else { pow10((-shift) as nat) };
                assert(0 * p == 0 && 0nat % p == 0 && 0nat / p == 0) by (nonlinear_arith)
                    requires
                        p > 0,
                ;
            }
            return Some(0);
        }
        proof {
            lemma_pow10_values();
            lemma_far_shift(mf as nat, shift);
        }
        return None;
    }
    let shift_exec: i128 = if negative {
        exp as i128 - k as i128 - e as i128
    } else {
        exp as i128 - k as i128 + e as i128
    };
    assert(shift_exec == shift);
    match shift_amount(mf, shift_exec) {
        Some(v) => Some(v),
        None => None,
    }
}

fn error_with(prefix: &str, s: &str) -> (r: MetricsError)
    ensures
        r matches MetricsError::ParseError(msg) && msg@ == prefix@ + s@,
{
    let mut msg = String::from_str(prefix);
    msg.append(s);
    MetricsError::ParseError(msg)
}

/// Reads a CPU quantity, in units of 10^-18 cores. Numbers may carry a fraction and an
/// exponent (`1.5e-3`). Refused, as amounts that the unsigned fixed-point counter
/// cannot hold: negative values, values finer than 10^-18 cores, values past
/// `u128::MAX` units, and digits that read `MANTISSA_LIMIT` or more.
pub fn parse_cpu(cpu_str: &str) -> (r: MetricsResult<u128>)
    ensures
        r matches Ok(v) ==> cpu_amount(cpu_str@) == Some(v as nat),
        r is Err <==> cpu_amount(cpu_str@) is None,
        r matches Err(e) ==> e matches MetricsError::ParseError(msg) && msg@ == cpu_error_text(cpu_str@),
{
    let len = cpu_str.unicode_len();
    let s = cpu_str;
    if len > 0 && s.get_char(len - 1) == 'n' {
        assert(s@.take(len - 1) =~= s@.drop_last());
        match read_amount(s, len - 1, 9, 1) {
            Some(v) => Ok(v),
            None => Err(error_with("Invalid nanocores CPU value: ", s)),
        }
    } else if len > 0 && s.get_char(len - 1) == 'm' {
        assert(s@.take(len - 1) =~= s@.drop_last());
        match read_amount(s, len - 1, 15, 1) {
            Some(v) => Ok(v),
            None => Err(error_with("Invalid millicores CPU value: ", s)),
        }
    } else {
        assert(s@.take(len as int) =~= s@);
        match read_amount(s, len, 18, 1) {
            Some(v) => Ok(v),
            None => Err(error_with("Invalid CPU value: ", s)),
        }
    }
}

fn ends_with_pair(s: &str, len: usize, a: char, b: char) -> (r: bool)
    requires
        len == s@.len(),
    ensures
        r == ends_with_two(s@, a, b),
{
    len >= 2 && s.get_char(len - 2) == a && s.get_char(len - 1) == b
}

/// Reads a memory quantity, in units of 10^-9 bytes. Numbers may carry a fraction and an
/// exponent (`1e3Ki`). Refused, as amounts that the unsigned fixed-point counter
/// cannot hold: negative values, values finer than 10^-9 bytes, values past
/// `u128::MAX` units, and digits that read `MANTISSA_LIMIT` or more.
pub fn parse_memory(memory_str: &str) -> (r: MetricsResult<u128>)
    ensures
        r matches Ok(v) ==> memory_amount(memory_str@) == Some(v as nat),
        r is Err <==> memory_amount(memory_str@) is None,
        r matches Err(e) ==> e matches MetricsError::ParseError(msg) && msg@ == memory_error_text(
            memory_str@,
        ),
{
    let s = memory_str;
    let len = s.unicode_len();
    if ends_with_pair(s, len, 'M', 'i') {
        match read_amount(s, len - 2, 9, 1_048_576) {
            Some(v) => Ok(v),
            None => Err(error_with("Invalid megabytes value: ", s)),
        }
    } else if ends_with_pair(s, len, 'K', 'i') {
        match read_amount(s, len - 2, 9, 1024) {
            Some(v) => Ok(v),
            None => Err(error_with("Invalid kilobytes value: ", s)),
        }
    } else if ends_with_pair(s, len, 'G', 'i') {
        match read_amount(s, len - 2, 9, 1_073_741_824) {
            Some(v) => Ok(v),
            None => Err(error_with("Invalid gigabytes value: ", s)),
        }
    } else {
        assert(s@.take(len as int) =~= s@);
        match read_amount(s, len, 9, 1) {
            Some(v) => Ok(v),
            None => Err(error_with("Invalid memory value: ", s)),
        }
    }
}

pub open spec fn digit_char(d: nat) -> char {
    if d == 0 {
        '0'
    } else if d == 1 {
        '1'
    } else if d == 2 {
        '2'
    } else if d == 3 {
        '3'
    } else if d == 4 {
        '4'
    } else if d == 5 {
        '5'
    } else if d == 6 {
        '6'
    } else if d == 7 {
        '7'
    } else if d == 8 {
        '8'
    } else {
        '9'
    }
}

/// The decimal digits of `n`, without leading zeros.
pub open spec fn decimal_text(n: nat) -> Seq<char>
    decreases n,
{
    if n < 10 {
        seq![digit_char(n)]
    } else {
        decimal_text(n / 10).push(digit_char(n % 10))
    }
}

/// Whole millicores, rounded down, followed by `m`.
pub open spec fn millicores_text(cpu: nat) -> Seq<char> {
    decimal_text(cpu / (CPU_UNITS_PER_MILLICORE as nat)) + "m"@
}

/// Whole mebibytes, rounded down, followed by `Mi`.
pub open spec fn mebibytes_text(memory: nat) -> Seq<char> {
    decimal_text(memory / (MEMORY_UNITS_PER_MEBIBYTE as nat)) + "Mi"@
}

fn digit_str(d: u128) -> (r: &'static str)
    requires
        d < 10,
    ensures
        r@ == seq![digit_char(d as nat)],
{
    proof {
        reveal_strlit("0");
        reveal_strlit("1");
        reveal_strlit("2");
        reveal_strlit("3");
        reveal_strlit("4");
        reveal_strlit("5");
        reveal_strlit("6");
        reveal_strlit("7");
        reveal_strlit("8");
        reveal_strlit("9");
    }
    let r = if d == 0 {
        "0"
    } else if d == 1 {
        "1"
    } else if d == 2 {
        "2"
    } else if d == 3 {
        "3"
    } else if d == 4 {
        "4"
    } else if d == 5 {
        "5"
    } else if d == 6 {
        "6"
    } else if d == 7 {
        "7"
    } else if d == 8 {
        "8"
    } else {
        "9"
    };
    assert(r@ =~= seq![digit_char(d as nat)]);
    r
}

fn decimal_string(n: u128) -> (r: String)
    ensures
        r@ == decimal_text(n as nat),
    decreases n,
{
    if n < 10 {
        String::from_str(digit_str(n))
    } else {
        let mut s = decimal_string(n / 10);
        s.append(digit_str(n % 10));
        assert(s@ =~= decimal_text(n as nat));
        s
    }
}

/// Presents a CPU amount as whole millicores.
pub fn format_millicores(cpu: u128) -> (r: String)
    ensures
        r@ == millicores_text(cpu as nat),
{
    let mut s = decimal_string(cpu / CPU_UNITS_PER_MILLICORE);
    s.append("m");
    s
}

/// Presents a memory amount as whole mebibytes.
pub fn format_mebibytes(memory: u128) -> (r: String)
    ensures
        r@ == mebibytes_text(memory as nat),
{
    let mut s = decimal_string(memory / MEMORY_UNITS_PER_MEBIBYTE);
    s.append("Mi");
    s
}

proof fn lemma_decimal_text_reads_back(n: nat)
    ensures
        only_digits(decimal_text(n)),
        digits_and_points(decimal_text(n)),
        point_count(decimal_text(n)) == 0,
        digit_count(decimal_text(n)) > 0,
        fraction_digits(decimal_text(n)) == 0,
        mantissa(decimal_text(n)) == n,
        exponent_mark(decimal_text(n)) is None,
        decimal_text(n).len() > 0,
        is_digit(decimal_text(n).last()),
    decreases n,
{
    let t = decimal_text(n);
    let c = digit_char(n % 10);
    assert(is_digit(c) && digit_value(c) == n % 10);
    if n < 10 {
        assert(t.drop_last() =~= Seq::<char>::empty());
        assert(point_count(t.drop_last()) == 0);
        assert(exponent_mark(t.drop_last()) is None);
        assert(mantissa(t.drop_last()) == 0);
        assert(digit_count(t.drop_last()) == 0);
        assert(fraction_digits(t.drop_last()) == 0);
        assert(t[0] == c);
    } else {
        lemma_decimal_text_reads_back(n / 10);
        let prev = decimal_text(n / 10);
        assert(t.drop_last() =~= prev);
        assert forall|j: int| 0 <= j < t.len() implies is_digit(#[trigger] t[j]) by {
            if j < prev.len() {
                assert(t[j] == prev[j]);
            }
        }
    }
}

/// Reading a CPU amount's millicore presentation gives exactly the whole millicores
/// shown, which lie within one millicore below the amount.
pub proof fn lemma_cpu_presentation_round_trip(s: Seq<char>)
    requires
        cpu_amount(s) is Some,
    ensures
        cpu_amount(millicores_text(cpu_amount(s)->0)) == Some(
            (cpu_amount(s)->0 / (CPU_UNITS_PER_MILLICORE as nat)) * (CPU_UNITS_PER_MILLICORE as nat),
        ),
        cpu_amount(millicores_text(cpu_amount(s)->0)) matches Some(back) && back <= cpu_amount(s)->0
            < back + CPU_UNITS_PER_MILLICORE,
{
    let v = cpu_amount(s)->0;
    let k = v / (CPU_UNITS_PER_MILLICORE as nat);
    let t = millicores_text(v);
    let d = decimal_text(k);
    reveal_strlit("m");
    lemma_decimal_text_reads_back(k);
    lemma_pow10_values();
    assert(t.drop_last() =~= d);
    assert(t.last() == 'm');
    assert(v <= u128::MAX);
    assert(k < MANTISSA_LIMIT) by (nonlinear_arith)
        requires
            k == v / 1_000_000_000_000_000,
            v <= u128::MAX,
    ;
    assert(d[0] != '+');
    assert(significand(d) == d);
    assert(unsigned(d) == d);
    assert(exponent(d) == Some(0int));
    assert(shifted(k, 15) == Some(k * 1_000_000_000_000_000));
    assert(k * 1_000_000_000_000_000 <= v) by (nonlinear_arith)
        requires
            k == v / 1_000_000_000_000_000,
    ;
    assert(cpu_amount(t) == Some(k * 1_000_000_000_000_000));
    assert(k * 1_000_000_000_000_000 <= v < k * 1_000_000_000_000_000 + 1_000_000_000_000_000)
        by (nonlinear_arith)
        requires
            k == v / 1_000_000_000_000_000,
    ;
}

/// Reading a memory amount's mebibyte presentation gives exactly the whole mebibytes
/// shown, which lie within one mebibyte below the amount.
pub proof fn lemma_memory_presentation_round_trip(s: Seq<char>)
    requires
        memory_amount(s) is Some,
    ensures
        memory_amount(mebibytes_text(memory_amount(s)->0)) == Some(
            (memory_amount(s)->0 / (MEMORY_UNITS_PER_MEBIBYTE as nat)) * (MEMORY_UNITS_PER_MEBIBYTE as nat),
        ),
        memory_amount(mebibytes_text(memory_amount(s)->0)) matches Some(back) && back
            <= memory_amount(s)->0 < back + MEMORY_UNITS_PER_MEBIBYTE,
{
    let v = memory_amount(s)->0;
    let k = v / (MEMORY_UNITS_PER_MEBIBYTE as nat);
    let t = mebibytes_text(v);
    let d = decimal_text(k);
    reveal_strlit("Mi");
    lemma_decimal_text_reads_back(k);
    lemma_pow10_values();
    assert(t.take(t.len() - 2) =~= d);
    assert(ends_with_two(t, 'M', 'i'));
    assert(v <= u128::MAX);
    assert(k < MANTISSA_LIMIT) by (nonlinear_arith)
        requires
            k == v / 1_048_576_000_000_000,
            v <= u128::MAX,
    ;
    assert(d[0] != '+');
    assert(significand(d) == d);
    assert(unsigned(d) == d);
    assert(exponent(d) == Some(0int));
    assert(shifted(k * 1_048_576, 9) == Some(k * 1_048_576 * 1_000_000_000));
    assert(k * 1_048_576 * 1_000_000_000 <= v) by (nonlinear_arith)
        requires
            k == v / 1_048_576_000_000_000,
    ;
    assert(memory_amount(t) == Some(k * 1_048_576 * 1_000_000_000));
    assert(k * 1_048_576_000_000_000 <= v < k * 1_048_576_000_000_000 + 1_048_576_000_000_000)
        by (nonlinear_arith)
        requires
            k == v / 1_048_576_000_000_000,
    ;
}

} // verus!
