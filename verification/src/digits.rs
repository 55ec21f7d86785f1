//! Numbers as digit sequences: positional digits in bases up to 16, powers
//! of ten, and decimal digits in a fixed number of places.

use vstd::prelude::*;
use crate::text::{push_all, push_repeat, repeat};

verus! {

/// The character for the digit `d` (below 16), letters in the given case.
pub open spec fn digit_char(d: nat, upper: bool) -> char {
    if d < 10 {
        (d + 48) as char
    } else if upper {
        (d + 55) as char
    } else {
        (d + 87) as char
    }
}

/// The digits of `n` in `base`, most significant first, without leading
/// zeros; zero is the single digit `0`.
pub open spec fn digits(n: nat, base: nat, upper: bool) -> Seq<char>
    decreases n,
    via digits_terminates
{
    if base < 2 || n < base {
        seq![digit_char(n, upper)]
    } else {
        digits(n / base, base, upper).push(digit_char(n % base, upper))
    }
}

#[via_fn]
proof fn digits_terminates(n: nat, base: nat, upper: bool) {
    if !(base < 2 || n < base) {
        vstd::arithmetic::div_mod::lemma_div_decreases(n as int, base as int);
    }
}

/// The decimal digits of `n`.
pub open spec fn decimal(n: nat) -> Seq<char> {
    digits(n, 10, false)
}

/// Ten to the power `k`.
pub open spec fn pow10(k: nat) -> nat
    decreases k,
{
    if k == 0 {
        1
    } else {
        10 * pow10((k - 1) as nat)
    }
}

/// The lowest `places` decimal digits of `n`, most significant first, with
/// zeros where `n` has none.
pub open spec fn padded(n: nat, places: nat) -> Seq<char>
    decreases places,
{
    if places == 0 {
        Seq::<char>::empty()
    } else {
        padded(n / 10, (places - 1) as nat).push(digit_char(n % 10, false))
    }
}

/// How many decimal digits `n` has; zero has one.
pub open spec fn digit_count(n: nat) -> nat
    decreases n,
{
    if n < 10 {
        1
    } else {
        1 + digit_count(n / 10)
    }
}

/// `n` divided by `d`, rounded to the nearest integer, a half away from
/// zero.
pub open spec fn round_div(n: nat, d: nat) -> nat {
    if 2 * (n % d) >= d {
        n / d + 1
    } else {
        n / d
    }
}

/// A power of ten is at least one.
pub proof fn lemma_pow10_positive(k: nat)
    ensures
        pow10(k) >= 1,
    decreases k,
{
    if k > 0 {
        lemma_pow10_positive((k - 1) as nat);
    }
}

/// Exponents add where powers of ten are multiplied.
pub proof fn lemma_pow10_add(a: nat, b: nat)
    ensures
        pow10(a + b) == pow10(a) * pow10(b),
    decreases a,
{
    if a == 0 {
        assert(pow10(0) == 1);
        assert(pow10(a + b) == 1 * pow10(b));
    } else {
        lemma_pow10_add((a - 1) as nat, b);
        assert(pow10(a + b) == 10 * pow10((a - 1 + b) as nat));
        assert(pow10(a) == 10 * pow10((a - 1) as nat));
        assert(10 * (pow10((a - 1) as nat) * pow10(b)) == (10 * pow10((a - 1) as nat)) * pow10(b))
            by (nonlinear_arith);
    }
}

/// A higher power of ten is no smaller.
pub proof fn lemma_pow10_monotonic(a: nat, b: nat)
    requires
        a <= b,
    ensures
        pow10(a) <= pow10(b),
    decreases b,
{
    if a < b {
        lemma_pow10_monotonic(a, (b - 1) as nat);
        lemma_pow10_positive((b - 1) as nat);
    }
}

/// The first powers of ten, up to the first that no longer fits 64 bits.
pub proof fn lemma_pow10_values()
    ensures
        pow10(0) == 1,
        pow10(1) == 10,
        pow10(2) == 100,
        pow10(3) == 1_000,
        pow10(4) == 10_000,
        pow10(5) == 100_000,
        pow10(6) == 1_000_000,
        pow10(7) == 10_000_000,
        pow10(8) == 100_000_000,
        pow10(9) == 1_000_000_000,
        pow10(10) == 10_000_000_000,
        pow10(11) == 100_000_000_000,
        pow10(12) == 1_000_000_000_000,
        pow10(13) == 10_000_000_000_000,
        pow10(14) == 100_000_000_000_000,
        pow10(15) == 1_000_000_000_000_000,
        pow10(16) == 10_000_000_000_000_000,
        pow10(17) == 100_000_000_000_000_000,
        pow10(18) == 1_000_000_000_000_000_000,
        pow10(19) == 10_000_000_000_000_000_000,
        pow10(20) == 100_000_000_000_000_000_000,
{
    reveal_with_fuel(pow10, 21);
}

/// The digit character for `d`.
pub(crate) fn digit(d: u8, upper: bool) -> (c: char)
    requires
        d < 16,
    ensures
        c == digit_char(d as nat, upper),
{
    if d < 10 {
        (d + 48) as char
    } else if upper {
        (d + 55) as char
    } else {
        (d + 87) as char
    }
}

/// Appends the digits of `n` in `base` to `out`.
pub(crate) fn push_digits(out: &mut Vec<char>, n: u64, base: u64, upper: bool)
    requires
        2 <= base <= 16,
    ensures
        final(out)@ == old(out)@ + digits(n as nat, base as nat, upper),
{
    let mut tail: Vec<char> = Vec::new();
    let mut m: u64 = n;
    while m >= base
        invariant
            2 <= base <= 16,
            digits(n as nat, base as nat, upper) == digits(m as nat, base as nat, upper) + tail@,
        decreases m,
    {
        let d: u8 = (m % base) as u8;
        let ghost before = tail@;
        tail.insert(0, digit(d, upper));
        proof {
            let rest = digits((m / base) as nat, base as nat, upper);
            assert(tail@ == seq![digit_char(d as nat, upper)] + before);
            assert(rest.push(digit_char(d as nat, upper)) + before == rest + tail@);
        }
        m = m / base;
    }
    tail.insert(0, digit(m as u8, upper));
    push_all(out, &tail);
}

/// Ten to the power `k`, for the powers that fit 64 bits.
pub(crate) fn pow10_u64(k: usize) -> (r: u64)
    requires
        k <= 19,
    ensures
        r as nat == pow10(k as nat),
{
    let mut r: u64 = 1;
    let mut i: usize = 0;
    proof {
        lemma_pow10_values();
    }
    while i < k
        invariant
            i <= k <= 19,
            r as nat == pow10(i as nat),
        decreases k - i,
    {
        proof {
            lemma_pow10_monotonic((i + 1) as nat, 19);
            lemma_pow10_values();
        }
        r = r * 10;
        i += 1;
    }
    r
}

/// The number of decimal digits of `n`.
pub(crate) fn count_digits(n: u64) -> (r: usize)
    ensures
        r as nat == digit_count(n as nat),
        1 <= r <= 20,
{
    let mut r: usize = 1;
    let mut m: u64 = n;
    proof {
        lemma_pow10_values();
        assert((m as nat) * pow10(0) == m as nat);
    }
    while m >= 10
        invariant
            1 <= r <= 20,
            digit_count(n as nat) == digit_count(m as nat) + r - 1,
            (m as nat) * pow10((r - 1) as nat) <= n,
        decreases m,
    {
        proof {
            assert(pow10(r as nat) == 10 * pow10((r - 1) as nat));
            assert((m / 10) as nat * (10 * pow10((r - 1) as nat)) <= (m as nat) * pow10(
                (r - 1) as nat,
            )) by (nonlinear_arith)
                requires
                    (m / 10) as nat * 10 <= m as nat,
            ;
            if r == 20 {
                lemma_pow10_values();
                assert((m / 10) as nat * pow10(20) >= pow10(20)) by (nonlinear_arith)
                    requires
                        (m / 10) as nat >= 1,
                ;
            }
        }
        m = m / 10;
        r += 1;
    }
    r
}

/// A number with `d` digits lies below the `d`-th power of ten, and a
/// positive one not below the power before it.
pub proof fn lemma_digit_count_bounds(n: nat)
    ensures
        digit_count(n) >= 1,
        n < pow10(digit_count(n)),
        n > 0 ==> pow10((digit_count(n) - 1) as nat) <= n,
    decreases n,
{
    reveal_with_fuel(pow10, 2);
    if n >= 10 {
        lemma_digit_count_bounds(n / 10);
        let d = digit_count(n / 10);
        assert(pow10(d + 1) == 10 * pow10(d));
        assert(pow10(d) == 10 * pow10((d - 1) as nat));
    }
}

/// Multiplying by ten appends a zero to the decimal digits.
pub proof fn lemma_decimal_shift(m: nat, j: nat)
    requires
        m > 0,
    ensures
        decimal(m * pow10(j)) == decimal(m) + repeat('0', j),
    decreases j,
{
    if j == 0 {
        assert(m * pow10(0) == m) by (nonlinear_arith)
            requires
                pow10(0) == 1,
        ;
        assert(decimal(m) + repeat('0', 0) =~= decimal(m));
    } else {
        let less = m * pow10((j - 1) as nat);
        lemma_decimal_shift(m, (j - 1) as nat);
        lemma_pow10_positive((j - 1) as nat);
        assert(less >= 1) by (nonlinear_arith)
            requires
                less == m * pow10((j - 1) as nat),
                m >= 1,
                pow10((j - 1) as nat) >= 1,
        ;
        assert(m * pow10(j) == less * 10) by (nonlinear_arith)
            requires
                less == m * pow10((j - 1) as nat),
                pow10(j) == 10 * pow10((j - 1) as nat),
        ;
        assert(decimal(less * 10) == decimal(less).push('0'));
        assert(decimal(less).push('0') =~= decimal(m) + repeat('0', j));
    }
}

/// Multiplying by ten appends a zero to the digits in a fixed number of
/// places.
pub proof fn lemma_padded_shift(r: nat, k: nat, z: nat)
    ensures
        padded(r * pow10(z), k + z) == padded(r, k) + repeat('0', z),
    decreases z,
{
    if z == 0 {
        assert(r * pow10(0) == r) by (nonlinear_arith)
            requires
                pow10(0) == 1,
        ;
        assert(padded(r, k) + repeat('0', 0) =~= padded(r, k));
    } else {
        let less = r * pow10((z - 1) as nat);
        lemma_padded_shift(r, k, (z - 1) as nat);
        assert(r * pow10(z) == less * 10) by (nonlinear_arith)
            requires
                less == r * pow10((z - 1) as nat),
                pow10(z) == 10 * pow10((z - 1) as nat),
        ;
        assert(padded(less * 10, k + z) == padded(less, (k + z - 1) as nat).push('0'));
        assert(padded(less, (k + z - 1) as nat).push('0') =~= padded(r, k) + repeat('0', z));
    }
}

/// A number below the `i`-th power of ten has zeros in all places above the
/// `i`-th.
pub proof fn lemma_padded_small(n: nat, i: nat, places: nat)
    requires
        n < pow10(i),
        i <= places,
    ensures
        padded(n, places) == repeat('0', (places - i) as nat) + padded(n, i),
    decreases i,
{
    if i == 0 {
        lemma_padded_zero(places);
        assert(repeat('0', places) + padded(n, 0) =~= repeat('0', places));
    } else {
        lemma_padded_small(n / 10, (i - 1) as nat, (places - 1) as nat);
        assert(padded(n, places) =~= repeat('0', (places - i) as nat) + padded(n, i));
    }
}

/// Zero in any number of places is all zeros.
pub proof fn lemma_padded_zero(places: nat)
    ensures
        padded(0, places) == repeat('0', places),
    decreases places,
{
    if places > 0 {
        lemma_padded_zero((places - 1) as nat);
    }
    assert(padded(0, places) =~= repeat('0', places));
}

/// Appends the lowest `places` decimal digits of `n`, for at most 20 places.
fn push_low_digits(out: &mut Vec<char>, n: u64, places: usize)
    requires
        places <= 20,
    ensures
        final(out)@ == old(out)@ + padded(n as nat, places as nat),
    decreases places,
{
    if places > 0 {
        push_low_digits(out, n / 10, places - 1);
        out.push(digit((n % 10) as u8, false));
        assert(out@ =~= old(out)@ + padded(n as nat, places as nat));
    } else {
        assert(out@ =~= old(out)@ + padded(n as nat, places as nat));
    }
}

/// Appends the lowest `places` decimal digits of `n` to `out`, with leading
/// zeros where `n` has fewer digits.
pub(crate) fn push_padded(out: &mut Vec<char>, n: u64, places: usize)
    ensures
        final(out)@ == old(out)@ + padded(n as nat, places as nat),
{
    if places > 20 {
        proof {
            lemma_pow10_values();
            lemma_padded_small(n as nat, 20, places as nat);
        }
        push_repeat(out, '0', places - 20);
        push_low_digits(out, n, 20);
        assert(out@ =~= old(out)@ + padded(n as nat, places as nat));
    } else {
        push_low_digits(out, n, places);
    }
}

/// Appends the decimal digits of `m` times ten to the power `zeros`.
pub(crate) fn push_shifted(out: &mut Vec<char>, m: u64, zeros: usize)
    ensures
        final(out)@ == old(out)@ + decimal(m as nat * pow10(zeros as nat)),
{
    if m == 0 {
        assert(0 * pow10(zeros as nat) == 0);
        push_digits(out, 0, 10, false);
    } else {
        proof {
            lemma_decimal_shift(m as nat, zeros as nat);
        }
        push_digits(out, m, 10, false);
        push_repeat(out, '0', zeros);
        assert(out@ =~= old(out)@ + decimal(m as nat * pow10(zeros as nat)));
    }
}

/// `c` is a decimal digit.
pub open spec fn is_digit(c: char) -> bool {
    '0' <= c && c <= '9'
}

/// Where the run of digits that starts at `i` ends.
pub open spec fn digits_end(s: Seq<char>, i: int) -> int
    decreases s.len() - i,
{
    if 0 <= i < s.len() && is_digit(s[i]) {
        digits_end(s, i + 1)
    } else {
        i
    }
}

/// The number that the digits of `s` from `from` up to `to` write; 0 for
/// no digits.
pub open spec fn number(s: Seq<char>, from: int, to: int) -> nat
    decreases to - from,
{
    if to <= from {
        0
    } else {
        number(s, from, to - 1) * 10 + ((s[to - 1] as int) - 48) as nat
    }
}

/// A run of digits ends at or after its start, within the text.
pub proof fn lemma_digits_end(s: Seq<char>, i: int)
    requires
        0 <= i <= s.len(),
    ensures
        i <= digits_end(s, i) <= s.len(),
    decreases s.len() - i,
{
    if i < s.len() && is_digit(s[i]) {
        lemma_digits_end(s, i + 1);
    }
}

/// A longer run of digits writes a number that is no smaller.
pub proof fn lemma_number_grows(s: Seq<char>, from: int, mid: int, to: int)
    requires
        from <= mid <= to,
    ensures
        number(s, from, mid) <= number(s, from, to),
    decreases to - mid,
{
    if mid < to {
        lemma_number_grows(s, from, mid, to - 1);
    }
}

/// The decimal digits of a number are digits, at least one, and the first
/// is no zero unless the number is zero.
pub proof fn lemma_decimal_chars(n: nat)
    ensures
        decimal(n).len() >= 1,
        forall|i: int| 0 <= i < decimal(n).len() ==> is_digit(#[trigger] decimal(n)[i]),
        n > 0 ==> decimal(n)[0] != '0',
    decreases n,
{
    if n >= 10 {
        lemma_decimal_chars(n / 10);
    }
}

/// A run of digits ends where the first character that is no digit stands.
pub proof fn lemma_run_end(s: Seq<char>, from: int, to: int)
    requires
        0 <= from <= to <= s.len(),
        forall|k: int| from <= k < to ==> is_digit(#[trigger] s[k]),
        to < s.len() ==> !is_digit(s[to]),
    ensures
        digits_end(s, from) == to,
    decreases to - from,
{
    if from < to {
        lemma_run_end(s, from + 1, to);
    }
}

/// The decimal digits of `n`, read as a number, are `n`.
pub proof fn lemma_number_of_decimal(s: Seq<char>, from: int, n: nat)
    requires
        0 <= from,
        from + decimal(n).len() <= s.len(),
        s.subrange(from, from + decimal(n).len()) == decimal(n),
    ensures
        number(s, from, from + decimal(n).len()) == n,
    decreases n,
{
    let to = from + decimal(n).len();
    assert(s[to - 1] == decimal(n)[decimal(n).len() - 1]) by {
        assert(s.subrange(from, to)[to - 1 - from] == s[to - 1]);
    }
    reveal_with_fuel(number, 2);
    if n >= 10 {
        lemma_decimal_chars(n / 10);
        assert(s.subrange(from, to - 1) =~= decimal(n / 10)) by {
            assert(s.subrange(from, to - 1) =~= s.subrange(from, to).drop_last());
        }
        lemma_number_of_decimal(s, from, n / 10);
    } else {
        assert(number(s, from, from) == 0);
    }
}

/// Digits are read alike in a text and in what is left of it after its
/// first `i` characters.
pub proof fn lemma_digits_after_skip(s: Seq<char>, i: int, from: int, to: int)
    requires
        0 <= i <= s.len(),
        0 <= from <= to,
        i + to <= s.len(),
    ensures
        digits_end(s.skip(i), from) == digits_end(s, i + from) - i,
        number(s.skip(i), from, to) == number(s, i + from, i + to),
    decreases s.len() - from, to - from,
{
    if from < s.skip(i).len() && is_digit(s.skip(i)[from]) {
        lemma_digits_after_skip(s, i, from + 1, if to < from + 1 {
            from + 1
        } else {
            to
        });
    }
    if from < to {
        lemma_number_after_skip(s, i, from, to);
    }
}

/// A number is read alike in a text and in what is left of it after its
/// first `i` characters.
proof fn lemma_number_after_skip(s: Seq<char>, i: int, from: int, to: int)
    requires
        0 <= i <= s.len(),
        0 <= from <= to,
        i + to <= s.len(),
    ensures
        number(s.skip(i), from, to) == number(s, i + from, i + to),
    decreases to - from,
{
    if from < to {
        lemma_number_after_skip(s, i, from, to - 1);
    }
}

/// The index where the run of digits that starts at `i` ends, see
/// `digits_end`.
pub(crate) fn scan_digits(s: &Vec<char>, i: usize) -> (end: usize)
    ensures
        end == digits_end(s@, i as int),
        i <= end,
        end <= s.len() || end == i,
        forall|k: int| i <= k < end ==> is_digit(#[trigger] s@[k]),
{
    let mut j: usize = i;
    while j < s.len() && '0' <= s[j] && s[j] <= '9'
        invariant
            i <= j,
            j <= s.len() || j == i,
            digits_end(s@, i as int) == digits_end(s@, j as int),
            forall|k: int| i <= k < j ==> is_digit(#[trigger] s@[k]),
        decreases s.len() - j,
    {
        j += 1;
    }
    j
}

/// The number that the digits of `s` from `from` up to `to` write, where it
/// is at most `max`.
pub(crate) fn read_number(s: &Vec<char>, from: usize, to: usize, max: u64) -> (r: Option<u64>)
    requires
        from <= to,
        to <= s.len() || to == from,
        forall|k: int| from <= k < to ==> is_digit(#[trigger] s@[k]),
    ensures
        match r {
            Some(v) => v == number(s@, from as int, to as int) && v <= max,
            None => number(s@, from as int, to as int) > max,
        },
{
    let mut j: usize = from;
    let mut value: u64 = 0;
    while j < to
        invariant
            from <= j <= to,
            to <= s.len() || to == from,
            forall|k: int| from <= k < to ==> is_digit(#[trigger] s@[k]),
            value == number(s@, from as int, j as int),
            value <= max,
        decreases to - j,
    {
        let d: u64 = ((s[j] as u32) - 48) as u64;
        assert(is_digit(s@[j as int]));
        proof {
            lemma_number_grows(s@, from as int, j + 1, to as int);
        }
        if d > max || value > (max - d) / 10 {
            return None;
        }
        value = 10 * value + d;
        j += 1;
    }
    Some(value)
}

} // verus!
