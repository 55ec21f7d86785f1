//! Floating-point values as text.
//!
//! A value is held as what its text is made from: the sign, the class, the
//! decimal digits with their exponent, and the hexadecimal form of the
//! magnitude. The fixed, scientific and compact forms are computed here from
//! the decimal digits, exactly: a finite value stands for the number
//! `coefficient * 10^exponent`, and rounding sends a half away from zero.

use vstd::prelude::*;
use vstd::arithmetic::div_mod::{
    lemma_basic_div,
    lemma_div_by_multiple,
    lemma_div_is_ordered,
    lemma_div_is_ordered_by_denominator,
    lemma_fundamental_div_mod,
    lemma_fundamental_div_mod_converse,
    lemma_small_mod,
};
use crate::digits::{
    count_digits,
    decimal,
    digit_count,
    digits_end,
    is_digit,
    lemma_digit_count_bounds,
    lemma_padded_shift,
    lemma_padded_zero,
    lemma_pow10_add,
    lemma_pow10_monotonic,
    lemma_pow10_positive,
    lemma_pow10_values,
    number,
    padded,
    pow10,
    pow10_u64,
    push_digits,
    push_padded,
    push_shifted,
    read_number,
    round_div,
    scan_digits,
};
use crate::integer::magnitude;
use crate::layout::{laid_out, lay_out, sign_for, sign_text};
use crate::parser::{ConversionSpecifier, ConversionType};
use crate::text::{chars_of, chars_result, push_all, push_repeat};
use crate::FormatError;

verus! {

/// What kind of value a floating-point number is.
#[derive(Debug, Clone, Copy, PartialEq, Eq, Structural)]
pub enum FloatClass {
    /// An ordinary number, zero included.
    Finite,
    /// An infinity.
    Infinite,
    /// Not a number.
    Nan,
}

/// A floating-point argument.
#[derive(Debug, Clone, PartialEq, Eq)]
pub struct Float {
    /// The sign bit is set.
    pub negative: bool,
    /// Finite, infinite or not a number.
    pub class: FloatClass,
    /// The decimal digits of a finite magnitude, as a number.
    pub coefficient: u64,
    /// The power of ten that `coefficient` is multiplied by.
    pub exponent: i32,
    /// A finite magnitude in hexadecimal, as `0x1.8p+1`.
    pub hex: String,
}

/// What a floating-point argument holds.
pub struct FloatView {
    /// The sign bit is set.
    pub negative: bool,
    /// Finite, infinite or not a number.
    pub class: FloatClass,
    /// The decimal digits of a finite magnitude, as a number.
    pub coefficient: nat,
    /// The power of ten that `coefficient` is multiplied by.
    pub exponent: int,
    /// A finite magnitude in hexadecimal.
    pub hex: Seq<char>,
}

impl View for Float {
    type V = FloatView;

    open spec fn view(&self) -> FloatView {
        FloatView {
            negative: self.negative,
            class: self.class,
            coefficient: self.coefficient as nat,
            exponent: self.exponent as int,
            hex: self.hex@,
        }
    }
}

/// The conversion renders a floating-point value.
pub open spec fn is_float_conversion(t: ConversionType) -> bool {
    t is SciFloatLower || t is SciFloatUpper || t is DecFloatLower || t is DecFloatUpper
        || t is CompactFloatLower || t is CompactFloatUpper || t is HexFloatLower
        || t is HexFloatUpper
}

/// The conversion writes its letters in upper case.
pub open spec fn is_upper(t: ConversionType) -> bool {
    t is SciFloatUpper || t is DecFloatUpper || t is CompactFloatUpper || t is HexFloatUpper
}

/// `c * 10^(e + p)`, rounded to an integer: the value `c * 10^e` with `p`
/// digits after the point, the point left out.
pub open spec fn scaled(c: nat, e: int, p: nat) -> nat {
    if e + p >= 0 {
        c * pow10((e + p) as nat)
    } else {
        round_div(c, pow10((-(e + p)) as nat))
    }
}

/// The digits of `n` with a point before the last `p` of them.
pub open spec fn point_text(n: nat, p: nat) -> Seq<char> {
    if p == 0 {
        decimal(n / pow10(p))
    } else {
        decimal(n / pow10(p)) + seq!['.'] + padded(n % pow10(p), p)
    }
}

/// `t` without the zeros at its end.
pub open spec fn trimmed(t: Seq<char>) -> Seq<char>
    decreases t.len(),
{
    if t.len() > 0 && t.last() == '0' {
        trimmed(t.drop_last())
    } else {
        t
    }
}

/// As `point_text`, without the zeros that end the fraction, and without the
/// point where no digit is left after it.
pub open spec fn short_point_text(n: nat, p: nat) -> Seq<char> {
    let fraction = trimmed(padded(n % pow10(p), p));
    if fraction.len() == 0 {
        decimal(n / pow10(p))
    } else {
        decimal(n / pow10(p)) + seq!['.'] + fraction
    }
}

/// The fixed form: `c * 10^e` with `p` digits after the point.
pub open spec fn fixed_text(c: nat, e: int, p: nat) -> Seq<char> {
    point_text(scaled(c, e, p), p)
}

/// Rounded to `p` digits after the first, the digits of `c` reach the next
/// power of ten (as 9.995 does at two digits).
pub open spec fn sci_carries(c: nat, p: nat) -> bool {
    c > 0 && scaled(c, 1 - digit_count(c), p) >= pow10(p + 1)
}

/// The decimal exponent of `c * 10^e` once rounded to `p` digits after the
/// first; 0 for zero.
pub open spec fn sci_exponent(c: nat, e: int, p: nat) -> int {
    if c == 0 {
        0
    } else if sci_carries(c, p) {
        e + digit_count(c)
    } else {
        e + digit_count(c) - 1
    }
}

/// The first digit of `c` and the `p` after it, rounded, as a number; where
/// rounding reaches the next power of ten, a one and `p` zeros.
pub open spec fn sci_digits(c: nat, p: nat) -> nat {
    if c == 0 {
        0
    } else if sci_carries(c, p) {
        pow10(p)
    } else {
        scaled(c, 1 - digit_count(c), p)
    }
}

/// The exponent part: the letter, the sign, and at least two digits.
pub open spec fn exponent_text(x: int, upper: bool) -> Seq<char> {
    seq![if upper { 'E' } else { 'e' }, if x < 0 { '-' } else { '+' }] + (if magnitude(x) < 10 {
        seq!['0']
    } else {
        Seq::<char>::empty()
    }) + decimal(magnitude(x))
}

/// The scientific form: one digit, `p` digits after the point, the exponent.
pub open spec fn sci_text(c: nat, e: int, p: nat, upper: bool) -> Seq<char> {
    point_text(sci_digits(c, p), p) + exponent_text(sci_exponent(c, e, p), upper)
}

/// The number of significant digits of the compact form: the precision, and
/// one where the precision is zero.
pub open spec fn significant(p: nat) -> nat {
    if p == 0 {
        1
    } else {
        p
    }
}

/// The compact form with `p` significant digits: scientific where the
/// exponent of the rounded value is below -4 or not below `p`, else fixed;
/// either way without the zeros that end the fraction.
pub open spec fn compact_text(c: nat, e: int, p: nat, upper: bool) -> Seq<char> {
    let digits = significant(p);
    let x = sci_exponent(c, e, (digits - 1) as nat);
    if x < -4 || x >= digits {
        short_point_text(sci_digits(c, (digits - 1) as nat), (digits - 1) as nat) + exponent_text(
            x,
            upper,
        )
    } else {
        short_point_text(scaled(c, e, (digits - 1 - x) as nat), (digits - 1 - x) as nat)
    }
}

/// `c` in upper case where it is a lower-case ASCII letter.
pub open spec fn upper_char(c: char) -> char {
    if 'a' <= c && c <= 'z' {
        ((c as int) - 32) as char
    } else {
        c
    }
}

/// The hexadecimal form: `t` without a leading `-`, its ASCII letters in
/// upper case where that is asked for.
pub open spec fn hex_text(t: Seq<char>, upper: bool) -> Seq<char> {
    let body = if t.len() > 0 && t[0] == '-' {
        t.subrange(1, t.len() as int)
    } else {
        t
    };
    if upper {
        Seq::new(body.len(), |i: int| upper_char(body[i]))
    } else {
        body
    }
}

/// The name of a value that is not finite.
pub open spec fn name_text(class: FloatClass, upper: bool) -> Seq<char> {
    if class is Infinite {
        if upper {
            seq!['I', 'N', 'F']
        } else {
            seq!['i', 'n', 'f']
        }
    } else {
        if upper {
            seq!['N', 'A', 'N']
        } else {
            seq!['n', 'a', 'n']
        }
    }
}

/// A finite value under a float conversion, without sign and padding. The
/// hexadecimal form is the text that the value holds, whatever the
/// precision.
pub open spec fn finite_text(x: FloatView, spec: ConversionSpecifier) -> Seq<char> {
    let c = x.coefficient;
    let e = x.exponent;
    let p = spec.digits_wanted();
    match spec.conversion_type {
        ConversionType::DecFloatLower | ConversionType::DecFloatUpper => fixed_text(c, e, p),
        ConversionType::SciFloatLower | ConversionType::SciFloatUpper => sci_text(
            c,
            e,
            p,
            is_upper(spec.conversion_type),
        ),
        ConversionType::CompactFloatLower | ConversionType::CompactFloatUpper => compact_text(
            c,
            e,
            p,
            is_upper(spec.conversion_type),
        ),
        _ => hex_text(x.hex, is_upper(spec.conversion_type)),
    }
}

/// A floating-point value under a specifier: the sign, then the number in
/// the form that the conversion asks for, placed in the field. A value that
/// is not finite is never padded with zeros.
pub open spec fn float_text(x: FloatView, spec: ConversionSpecifier) -> Result<
    Seq<char>,
    FormatError,
> {
    if !spec.resolved() {
        Err(FormatError::Unknown)
    } else if !is_float_conversion(spec.conversion_type) {
        Err(FormatError::WrongType)
    } else if x.class is Finite {
        Ok(
            laid_out(
                sign_text(x.negative, spec),
                finite_text(x, spec),
                spec.field_width(),
                spec.left_adj,
                spec.zero_pad,
            ),
        )
    } else {
        Ok(
            laid_out(
                sign_text(x.negative, spec),
                name_text(x.class, is_upper(spec.conversion_type)),
                spec.field_width(),
                spec.left_adj,
                false,
            ),
        )
    }
}

/// Where the digits and the point of the number written at the start of
/// `s` end: after the digits, or after a point and the digits behind it.
pub open spec fn mantissa_end(s: Seq<char>) -> int {
    if digits_end(s, 0) < s.len() && s[digits_end(s, 0)] == '.' {
        digits_end(s, digits_end(s, 0) + 1)
    } else {
        digits_end(s, 0)
    }
}

/// The digits of the number written at the start of `s`, the point left
/// out.
pub open spec fn mantissa_digits(s: Seq<char>) -> Seq<char> {
    if mantissa_end(s) > digits_end(s, 0) {
        s.subrange(0, digits_end(s, 0)) + s.subrange(digits_end(s, 0) + 1, mantissa_end(s))
    } else {
        s.subrange(0, digits_end(s, 0))
    }
}

/// How many digits stand behind the point.
pub open spec fn fraction_len(s: Seq<char>) -> int {
    if mantissa_end(s) > digits_end(s, 0) {
        mantissa_end(s) - digits_end(s, 0) - 1
    } else {
        0
    }
}

/// Where the digits of the written exponent start: after the `e` and a
/// sign, if one is written.
pub open spec fn exponent_start(s: Seq<char>) -> int {
    if mantissa_end(s) + 1 < s.len() && (s[mantissa_end(s) + 1] == '-' || s[mantissa_end(s) + 1]
        == '+') {
        mantissa_end(s) + 2
    } else {
        mantissa_end(s) + 1
    }
}

/// The exponent that `s` writes after its digits: 0 where `s` ends with
/// the digits, else the number after `e` or `E`, with its sign. `None`
/// where something else follows the digits, where the exponent has no
/// digits or is followed by anything, or where it is above the largest
/// `i32`.
pub open spec fn written_exponent(s: Seq<char>) -> Option<int> {
    if mantissa_end(s) >= s.len() {
        Some(0)
    } else if s[mantissa_end(s)] != 'e' && s[mantissa_end(s)] != 'E' {
        None
    } else if exponent_start(s) >= s.len() || digits_end(s, exponent_start(s)) != s.len() {
        None
    } else if number(s, exponent_start(s), s.len() as int) > 0x7fff_ffff {
        None
    } else if s[mantissa_end(s) + 1] == '-' {
        Some(-(number(s, exponent_start(s), s.len() as int) as int))
    } else {
        Some(number(s, exponent_start(s), s.len() as int) as int)
    }
}

/// The value that a magnitude written in decimal stands for, with the sign
/// `negative` and the hexadecimal form `hex`.
///
/// `inf` is an infinity and `NaN` is not a number. A finite magnitude is
/// written as digits, then optionally a point and more digits, then
/// optionally `e` or `E`, an optional sign and the digits of an exponent:
/// `15`, `1.5`, `1.5e0`, `15e-1` all stand for the same value. `None` where
/// `s` is written otherwise, where its digits without the point are a
/// number above the largest `u64`, where more digits stand behind the point
/// than the largest `i32` counts, or where the exponent, lowered by the
/// number of digits behind the point, is below the smallest `i32`.
pub open spec fn float_of_text(negative: bool, s: Seq<char>, hex: Seq<char>) -> Option<FloatView> {
    if s == seq!['i', 'n', 'f'] {
        Some(
            FloatView {
                negative,
                class: FloatClass::Infinite,
                coefficient: 0,
                exponent: 0,
                hex,
            },
        )
    } else if s == seq!['N', 'a', 'N'] {
        Some(FloatView { negative, class: FloatClass::Nan, coefficient: 0, exponent: 0, hex })
    } else if digits_end(s, 0) <= 0 {
        None
    } else {
        match written_exponent(s) {
            None => None,
            Some(written) => if number(mantissa_digits(s), 0, mantissa_digits(s).len() as int)
                > 0xffff_ffff_ffff_ffff || fraction_len(s) > 0x7fff_ffff || written - fraction_len(
                s,
            ) < -0x8000_0000 {
                None
            } else {
                Some(
                    FloatView {
                        negative,
                        class: FloatClass::Finite,
                        coefficient: number(
                            mantissa_digits(s),
                            0,
                            mantissa_digits(s).len() as int,
                        ),
                        exponent: written - fraction_len(s),
                        hex,
                    },
                )
            },
        }
    }
}

impl Float {
    /// A finite value: `coefficient * 10^exponent`, negated where
    /// `negative` is set, with `hex` as the hexadecimal form of its
    /// magnitude.
    pub fn finite(negative: bool, coefficient: u64, exponent: i32, hex: &str) -> (x: Float)
        ensures
            x@ == (FloatView {
                negative,
                class: FloatClass::Finite,
                coefficient: coefficient as nat,
                exponent: exponent as int,
                hex: hex@,
            }),
    {
        Float { negative, class: FloatClass::Finite, coefficient, exponent, hex: hex.to_owned() }
    }

    /// An infinity.
    pub fn infinite(negative: bool) -> (x: Float)
        ensures
            x@ == (FloatView {
                negative,
                class: FloatClass::Infinite,
                coefficient: 0,
                exponent: 0,
                hex: Seq::<char>::empty(),
            }),
    {
        Float {
            negative,
            class: FloatClass::Infinite,
            coefficient: 0,
            exponent: 0,
            hex: String::new(),
        }
    }

    /// A value that is not a number.
    pub fn nan(negative: bool) -> (x: Float)
        ensures
            x@ == (FloatView {
                negative,
                class: FloatClass::Nan,
                coefficient: 0,
                exponent: 0,
                hex: Seq::<char>::empty(),
            }),
    {
        Float { negative, class: FloatClass::Nan, coefficient: 0, exponent: 0, hex: String::new() }
    }

    /// The value whose magnitude is written in decimal in `decimal` and in
    /// hexadecimal in `hex`, see `float_of_text`.
    pub fn from_text(negative: bool, decimal: &str, hex: &str) -> (r: Option<Float>)
        ensures
            match r {
                Some(x) => float_of_text(negative, decimal@, hex@) == Some(x@),
                None => float_of_text(negative, decimal@, hex@) is None,
            },
    {
        let t = chars_of(decimal);
        let n = t.len();
        if n == 3 && t[0] == 'i' && t[1] == 'n' && t[2] == 'f' {
            assert(t@ =~= seq!['i', 'n', 'f']);
            return Some(
                Float {
                    negative,
                    class: FloatClass::Infinite,
                    coefficient: 0,
                    exponent: 0,
                    hex: hex.to_owned(),
                },
            );
        }
        if n == 3 && t[0] == 'N' && t[1] == 'a' && t[2] == 'N' {
            assert(t@ =~= seq!['N', 'a', 'N']);
            return Some(
                Float {
                    negative,
                    class: FloatClass::Nan,
                    coefficient: 0,
                    exponent: 0,
                    hex: hex.to_owned(),
                },
            );
        }
        assert(t@ != seq!['i', 'n', 'f']) by {
            if t@ == seq!['i', 'n', 'f'] {
                assert(t@.len() == 3 && t@[0] == 'i' && t@[1] == 'n' && t@[2] == 'f');
            }
        }
        assert(t@ != seq!['N', 'a', 'N']) by {
            if t@ == seq!['N', 'a', 'N'] {
                assert(t@.len() == 3 && t@[0] == 'N' && t@[1] == 'a' && t@[2] == 'N');
            }
        }
        let a = scan_digits(&t, 0);
        if a == 0 {
            return None;
        }
        let b = if a < n && t[a] == '.' {
            scan_digits(&t, a + 1)
        } else {
            a
        };
        let mut m: Vec<char> = Vec::new();
        let mut i: usize = 0;
        while i < b
            invariant
                a <= b <= n,
                n == t.len(),
                i <= b,
                b > a ==> t@[a as int] == '.',
                forall|k: int| 0 <= k < a ==> is_digit(#[trigger] t@[k]),
                forall|k: int| a + 1 <= k < b ==> is_digit(#[trigger] t@[k]),
                i <= a ==> m@ == t@.subrange(0, i as int),
                i > a ==> m@ == t@.subrange(0, a as int) + t@.subrange(a + 1, i as int),
                forall|k: int| 0 <= k < m@.len() ==> is_digit(#[trigger] m@[k]),
            decreases b - i,
        {
            if i != a {
                m.push(t[i]);
            }
            i += 1;
            proof {
                if i <= a {
                    assert(m@ =~= t@.subrange(0, i as int));
                } else {
                    assert(m@ =~= t@.subrange(0, a as int) + t@.subrange(a + 1, i as int));
                }
            }
        }
        assert(m@ =~= mantissa_digits(t@));
        let places: usize = if b > a {
            b - a - 1
        } else {
            0
        };
        let mut written: i64 = 0;
        if b < n {
            if t[b] != 'e' && t[b] != 'E' {
                return None;
            }
            let start: usize = if n - b > 1 && (t[b + 1] == '-' || t[b + 1] == '+') {
                b + 2
            } else {
                b + 1
            };
            let end = scan_digits(&t, start);
            if start >= n || end != n {
                return None;
            }
            match read_number(&t, start, end, 0x7fff_ffff) {
                None => {
                    return None;
                },
                Some(w) => {
                    written = if t[b + 1] == '-' {
                        -(w as i64)
                    } else {
                        w as i64
                    };
                },
            }
        }
        let coefficient = match read_number(&m, 0, m.len(), u64::MAX) {
            Some(c) => c,
            None => {
                return None;
            },
        };
        if places > 0x7fff_ffff || written - (places as i64) < -0x8000_0000 {
            return None;
        }
        Some(
            Float {
                negative,
                class: FloatClass::Finite,
                coefficient,
                exponent: (written - places as i64) as i32,
                hex: hex.to_owned(),
            },
        )
    }
}

/// The digits of the scientific form are normalized: however the rounding
/// falls, a value that is not zero has exactly one digit before the point,
/// and that digit is no zero.
pub proof fn lemma_sci_digits_normalized(c: nat, p: nat)
    requires
        c > 0,
    ensures
        pow10(p) <= sci_digits(c, p) < pow10(p + 1),
{
    let d = digit_count(c);
    lemma_digit_count_bounds(c);
    lemma_pow10_positive(p);
    assert(pow10(p + 1) == 10 * pow10(p));
    if !sci_carries(c, p) {
        if 1 - d + p >= 0 {
            let j = (p + 1 - d) as nat;
            lemma_pow10_add((d - 1) as nat, j);
            lemma_pow10_positive(j);
            assert(pow10((d - 1) as nat) * pow10(j) <= c * pow10(j)) by (nonlinear_arith)
                requires
                    pow10((d - 1) as nat) <= c,
                    pow10(j) >= 1,
            ;
        } else {
            let k = (d - 1 - p) as nat;
            lemma_pow10_add(p, k);
            lemma_pow10_positive(k);
            lemma_div_by_multiple(pow10(p) as int, pow10(k) as int);
            lemma_div_is_ordered((pow10(p) * pow10(k)) as int, c as int, pow10(k) as int);
        }
    }
}

/// Where the point falls in `m * 10^z`, `p` digits from the end.
proof fn lemma_split(m: nat, z: nat, p: nat)
    ensures
        z >= p ==> (m * pow10(z)) / pow10(p) == m * pow10((z - p) as nat) && (m * pow10(z)) % pow10(
            p,
        ) == 0,
        z < p ==> (m * pow10(z)) / pow10(p) == m / pow10((p - z) as nat) && (m * pow10(z)) % pow10(
            p,
        ) == (m % pow10((p - z) as nat)) * pow10(z),
{
    let n = m * pow10(z);
    lemma_pow10_positive(p);
    lemma_pow10_positive(z);
    if z >= p {
        let j = (z - p) as nat;
        lemma_pow10_add(j, p);
        let q = m * pow10(j);
        assert(n == q * pow10(p) + 0) by (nonlinear_arith)
            requires
                n == m * pow10(z),
                q == m * pow10(j),
                pow10(z) == pow10(j) * pow10(p),
        ;
        lemma_fundamental_div_mod_converse(n as int, pow10(p) as int, q as int, 0);
    } else {
        let k = (p - z) as nat;
        lemma_pow10_add(k, z);
        lemma_pow10_positive(k);
        let q = m / pow10(k);
        let r = m % pow10(k);
        lemma_fundamental_div_mod(m as int, pow10(k) as int);
        assert(n == q * pow10(p) + r * pow10(z)) by (nonlinear_arith)
            requires
                n == m * pow10(z),
                m == pow10(k) * q + r,
                pow10(p) == pow10(k) * pow10(z),
        ;
        assert(r * pow10(z) < pow10(p)) by (nonlinear_arith)
            requires
                r < pow10(k),
                pow10(z) >= 1,
                pow10(p) == pow10(k) * pow10(z),
        ;
        lemma_fundamental_div_mod_converse(
            n as int,
            pow10(p) as int,
            q as int,
            (r * pow10(z)) as int,
        );
    }
}

/// `scaled`, as a number and a count of zeros to follow it: the result is
/// `r.0 * 10^r.1`.
fn scale(c: u64, e: i64, p: usize) -> (r: (u64, usize))
    requires
        -0x8000_0000 <= e <= 0x7fff_ffff,
        p <= 0x8000_0003,
        e + p <= 0xffff_ffff,
    ensures
        r.0 as nat * pow10(r.1 as nat) == scaled(c as nat, e as int, p as nat),
        e + p >= 0 ==> r.0 == c && r.1 == e + p,
        e + p < 0 ==> r.1 == 0 && r.0 as nat == scaled(c as nat, e as int, p as nat),
{
    let t: i64 = e + p as i64;
    if t >= 0 {
        assert(c as nat * pow10(t as nat) == scaled(c as nat, e as int, p as nat));
        (c, t as usize)
    } else {
        let k: i64 = -t;
        proof {
            lemma_pow10_values();
        }
        if k >= 20 {
            proof {
                lemma_pow10_monotonic(20, k as nat);
                lemma_basic_div(c as int, pow10(k as nat) as int);
                lemma_small_mod(c as nat, pow10(k as nat));
                assert(pow10(0) == 1);
                assert(round_div(c as nat, pow10(k as nat)) == 0);
            }
            (0, 0)
        } else {
            let d = pow10_u64(k as usize);
            proof {
                lemma_pow10_monotonic(1, k as nat);
                lemma_pow10_monotonic(k as nat, 19);
                lemma_div_is_ordered_by_denominator(c as int, 10, d as int);
                assert(pow10(0) == 1);
            }
            let q = c / d;
            let r = c % d;
            let m = if r >= d - r {
                q + 1
            } else {
                q
            };
            assert(m as nat == round_div(c as nat, pow10(k as nat)));
            assert(m as nat * pow10(0) == m as nat);
            (m, 0)
        }
    }
}

/// The digits of `m * 10^z` before and after a point that stands `p` digits
/// from the end.
fn split_point(m: u64, z: usize, p: usize) -> (r: (Vec<char>, Vec<char>))
    ensures
        r.0@ == decimal((m as nat * pow10(z as nat)) / pow10(p as nat)),
        r.1@ == padded((m as nat * pow10(z as nat)) % pow10(p as nat), p as nat),
{
    let mut whole: Vec<char> = Vec::new();
    let mut fraction: Vec<char> = Vec::new();
    proof {
        lemma_split(m as nat, z as nat, p as nat);
        lemma_pow10_values();
    }
    if z >= p {
        push_shifted(&mut whole, m, z - p);
        proof {
            lemma_padded_zero(p as nat);
        }
        push_repeat(&mut fraction, '0', p);
    } else {
        let k = p - z;
        let mut q: u64 = 0;
        let mut r: u64 = m;
        if k < 20 {
            let d = pow10_u64(k);
            proof {
                lemma_pow10_monotonic(1, k as nat);
            }
            q = m / d;
            r = m % d;
        } else {
            proof {
                lemma_pow10_monotonic(20, k as nat);
                lemma_basic_div(m as int, pow10(k as nat) as int);
                lemma_small_mod(m as nat, pow10(k as nat));
            }
        }
        push_digits(&mut whole, q, 10, false);
        proof {
            lemma_padded_shift(r as nat, k as nat, z as nat);
        }
        push_padded(&mut fraction, r, k);
        push_repeat(&mut fraction, '0', z);
    }
    (whole, fraction)
}

/// Appends `m * 10^z` with a point before the last `p` digits.
fn push_point_text(out: &mut Vec<char>, m: u64, z: usize, p: usize)
    ensures
        final(out)@ == old(out)@ + point_text(m as nat * pow10(z as nat), p as nat),
{
    let (whole, fraction) = split_point(m, z, p);
    push_all(out, &whole);
    if p > 0 {
        out.push('.');
        push_all(out, &fraction);
    }
    assert(out@ =~= old(out)@ + point_text(m as nat * pow10(z as nat), p as nat));
}

/// Removes the zeros at the end of `v`.
fn trim_zeros(v: &mut Vec<char>)
    ensures
        final(v)@ == trimmed(old(v)@),
{
    while v.len() > 0 && v[v.len() - 1] == '0'
        invariant
            trimmed(v@) == trimmed(old(v)@),
        decreases v.len(),
    {
        let ghost before = v@;
        v.pop();
        assert(v@ == before.drop_last());
    }
}

/// Appends `m * 10^z` with a point before the last `p` digits, the zeros at
/// the end of the fraction left out.
fn push_short_point_text(out: &mut Vec<char>, m: u64, z: usize, p: usize)
    ensures
        final(out)@ == old(out)@ + short_point_text(m as nat * pow10(z as nat), p as nat),
{
    let (whole, mut fraction) = split_point(m, z, p);
    trim_zeros(&mut fraction);
    push_all(out, &whole);
    if fraction.len() > 0 {
        out.push('.');
        push_all(out, &fraction);
    }
    assert(out@ =~= old(out)@ + short_point_text(m as nat * pow10(z as nat), p as nat));
}

/// The digits and the exponent of the scientific form: the digits are
/// `r.0 * 10^r.1`, the exponent is `r.2`.
fn sci_parts(c: u64, e: i32, p: usize) -> (r: (u64, usize, i64))
    requires
        p <= 0x7fff_ffff,
    ensures
        r.0 as nat * pow10(r.1 as nat) == sci_digits(c as nat, p as nat),
        r.2 == sci_exponent(c as nat, e as int, p as nat),
        c > 0 ==> r.2 >= e,
        c == 0 ==> r.2 == 0,
        -0x8000_0000 <= r.2 <= 0x8000_0014,
{
    if c == 0 {
        assert(0 * pow10(0) == 0);
        return (0, 0, 0);
    }
    let d = count_digits(c);
    proof {
        lemma_digit_count_bounds(c as nat);
        lemma_pow10_values();
    }
    let (m, z) = scale(c, 1 - d as i64, p);
    let x: i64 = e as i64 + d as i64 - 1;
    if p + 1 < d {
        let top = pow10_u64(p + 1);
        if m >= top {
            let one = pow10_u64(p);
            assert(one as nat * pow10(0) == pow10(p as nat));
            return (one, 0, x + 1);
        }
        assert(m as nat * pow10(0) == m as nat);
        (m, z, x)
    } else {
        proof {
            let j = (p + 1 - d) as nat;
            lemma_pow10_add(d as nat, j);
            lemma_pow10_positive(j);
            assert((c as nat) * pow10(j) < pow10(d as nat) * pow10(j)) by (nonlinear_arith)
                requires
                    (c as nat) < pow10(d as nat),
                    pow10(j) >= 1,
            ;
        }
        (m, z, x)
    }
}

/// Appends the exponent part, see `exponent_text`.
fn push_exponent(out: &mut Vec<char>, x: i64, upper: bool)
    requires
        -0x1_0000_0000 <= x <= 0x1_0000_0000,
    ensures
        final(out)@ == old(out)@ + exponent_text(x as int, upper),
{
    out.push(if upper {
        'E'
    } else {
        'e'
    });
    let size: u64 = if x < 0 {
        out.push('-');
        (-x) as u64
    } else {
        out.push('+');
        x as u64
    };
    if size < 10 {
        out.push('0');
    }
    push_digits(out, size, 10, false);
    assert(out@ =~= old(out)@ + exponent_text(x as int, upper));
}

/// Appends the compact form, see `compact_text`.
fn push_compact(out: &mut Vec<char>, c: u64, e: i32, p: usize, upper: bool)
    requires
        p <= 0x7fff_ffff,
    ensures
        final(out)@ == old(out)@ + compact_text(c as nat, e as int, p as nat, upper),
{
    let digits: usize = if p == 0 {
        1
    } else {
        p
    };
    let (m, z, x) = sci_parts(c, e, digits - 1);
    if x < -4 || x >= digits as i64 {
        proof {
            lemma_digit_count_bounds(c as nat);
        }
        push_short_point_text(out, m, z, digits - 1);
        push_exponent(out, x, upper);
        assert(out@ =~= old(out)@ + compact_text(c as nat, e as int, p as nat, upper));
    } else {
        let after: usize = (digits as i64 - 1 - x) as usize;
        let (m, z) = scale(c, e as i64, after);
        push_short_point_text(out, m, z, after);
    }
}

/// `c` in upper case, see `upper_char`.
fn to_upper(c: char) -> (r: char)
    ensures
        r == upper_char(c),
{
    if 'a' <= c && c <= 'z' {
        ((c as u8) - 32) as char
    } else {
        c
    }
}

/// Appends the hexadecimal form, see `hex_text`.
fn push_hex(out: &mut Vec<char>, hex: &str, upper: bool)
    ensures
        final(out)@ == old(out)@ + hex_text(hex@, upper),
{
    let t = chars_of(hex);
    let start: usize = if t.len() > 0 && t[0] == '-' {
        1
    } else {
        0
    };
    let mut i: usize = start;
    let ghost body = t@.subrange(start as int, t.len() as int);
    while i < t.len()
        invariant
            start <= i <= t.len(),
            body == t@.subrange(start as int, t.len() as int),
            out@ == old(out)@ + hex_text(hex@, upper).take(i - start),
            hex_text(hex@, upper).len() == t.len() - start,
            hex_text(hex@, upper) == if upper {
                Seq::new(body.len(), |i: int| upper_char(body[i]))
            } else {
                body
            },
        decreases t.len() - i,
    {
        let c = if upper {
            to_upper(t[i])
        } else {
            t[i]
        };
        out.push(c);
        assert(out@ =~= old(out)@ + hex_text(hex@, upper).take(i + 1 - start));
        i += 1;
    }
    assert(out@ =~= old(out)@ + hex_text(hex@, upper));
}

/// Renders a floating-point value, see `float_text`.
pub(crate) fn format_float(x: &Float, spec: &ConversionSpecifier) -> (r: Result<Vec<char>, FormatError>)
    ensures
        chars_result(r) == float_text(x@, *spec),
{
    if !spec.is_resolved() {
        return Err(FormatError::Unknown);
    }
    let upper = match spec.conversion_type {
        ConversionType::SciFloatLower
        | ConversionType::DecFloatLower
        | ConversionType::CompactFloatLower
        | ConversionType::HexFloatLower => false,
        ConversionType::SciFloatUpper
        | ConversionType::DecFloatUpper
        | ConversionType::CompactFloatUpper
        | ConversionType::HexFloatUpper => true,
        _ => {
            return Err(FormatError::WrongType);
        },
    };
    let sign = sign_for(x.negative, spec);
    let width = spec.width_or_zero();
    let mut body: Vec<char> = Vec::new();
    match x.class {
        FloatClass::Finite => {
            let p = spec.precision_or_zero();
            match spec.conversion_type {
                ConversionType::DecFloatLower | ConversionType::DecFloatUpper => {
                    let (m, z) = scale(x.coefficient, x.exponent as i64, p);
                    push_point_text(&mut body, m, z, p);
                },
                ConversionType::SciFloatLower | ConversionType::SciFloatUpper => {
                    let (m, z, e) = sci_parts(x.coefficient, x.exponent, p);
                    proof {
                        lemma_digit_count_bounds(x.coefficient as nat);
                    }
                    push_point_text(&mut body, m, z, p);
                    push_exponent(&mut body, e, upper);
                },
                ConversionType::CompactFloatLower | ConversionType::CompactFloatUpper => {
                    push_compact(&mut body, x.coefficient, x.exponent, p, upper);
                },
                _ => {
                    push_hex(&mut body, x.hex.as_str(), upper);
                },
            }
            assert(body@ =~= finite_text(x@, *spec));
            Ok(lay_out(&sign, &body, width, spec.left_adj, spec.zero_pad))
        },
        FloatClass::Infinite => {
            if upper {
                body.push('I');
                body.push('N');
                body.push('F');
            } else {
                body.push('i');
                body.push('n');
                body.push('f');
            }
            assert(body@ =~= name_text(x.class, upper));
            Ok(lay_out(&sign, &body, width, spec.left_adj, false))
        },
        FloatClass::Nan => {
            if upper {
                body.push('N');
                body.push('A');
                body.push('N');
            } else {
                body.push('n');
                body.push('a');
                body.push('n');
            }
            assert(body@ =~= name_text(x.class, upper));
            Ok(lay_out(&sign, &body, width, spec.left_adj, false))
        },
    }
}

} // verus!
