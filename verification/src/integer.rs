//! Integers as text: decimal, octal and hexadecimal.

use vstd::prelude::*;
use crate::digits::{decimal, digits, is_digit, lemma_decimal_chars, push_digits};
use crate::layout::{fill, laid_out, lay_out, sign_for, sign_text};
use crate::parser::{ConversionSpecifier, ConversionType};
use crate::text::{chars_result, repeat};
use crate::FormatError;

verus! {

/// The conversion renders an integer.
pub open spec fn is_integer_conversion(t: ConversionType) -> bool {
    t is DecInt || t is OctInt || t is HexIntLower || t is HexIntUpper
}

/// The base that an integer conversion counts in.
pub open spec fn base_of(t: ConversionType) -> nat {
    match t {
        ConversionType::OctInt => 8,
        ConversionType::HexIntLower | ConversionType::HexIntUpper => 16,
        _ => 10,
    }
}

/// The prefix that the alternate form puts before the digits.
pub open spec fn base_prefix(t: ConversionType) -> Seq<char> {
    match t {
        ConversionType::OctInt => seq!['0'],
        ConversionType::HexIntLower => seq!['0', 'x'],
        ConversionType::HexIntUpper => seq!['0', 'X'],
        _ => Seq::<char>::empty(),
    }
}

/// An unsigned integer under a specifier: the digits in the conversion's
/// base, after the base prefix in the alternate form, placed in the field.
pub open spec fn unsigned_text(v: nat, spec: ConversionSpecifier) -> Result<Seq<char>, FormatError> {
    if !spec.resolved() {
        Err(FormatError::Unknown)
    } else if !is_integer_conversion(spec.conversion_type) {
        Err(FormatError::WrongType)
    } else {
        Ok(
            laid_out(
                if spec.alt_form {
                    base_prefix(spec.conversion_type)
                } else {
                    Seq::<char>::empty()
                },
                digits(v, base_of(spec.conversion_type), spec.conversion_type is HexIntUpper),
                spec.field_width(),
                spec.left_adj,
                spec.zero_pad,
            ),
        )
    }
}

/// The absolute value of `v`.
pub open spec fn magnitude(v: int) -> nat {
    if v < 0 {
        (-v) as nat
    } else {
        v as nat
    }
}

/// The bit pattern of `v` in two's complement, read as an unsigned number;
/// `modulus` is two to the power of the type's width.
pub open spec fn bit_pattern(v: int, modulus: nat) -> nat {
    if v < 0 {
        (modulus + v) as nat
    } else {
        v as nat
    }
}

/// A signed integer under a specifier. In decimal it is the sign and the
/// digits of the magnitude, placed in the field; in octal and hexadecimal it
/// is `pattern`, its bit pattern, as an unsigned number.
pub open spec fn signed_text(v: int, pattern: nat, spec: ConversionSpecifier) -> Result<
    Seq<char>,
    FormatError,
> {
    if !spec.resolved() {
        Err(FormatError::Unknown)
    } else if spec.conversion_type is DecInt {
        Ok(
            laid_out(
                sign_text(v < 0, spec),
                decimal(magnitude(v)),
                spec.field_width(),
                spec.left_adj,
                spec.zero_pad,
            ),
        )
    } else {
        unsigned_text(pattern, spec)
    }
}

/// The decimal number `v` as it is canonically written: a `-` where it is
/// negative, and the digits of its magnitude.
pub open spec fn canonical(v: int) -> Seq<char> {
    if v < 0 {
        seq!['-'] + decimal(magnitude(v))
    } else {
        decimal(magnitude(v))
    }
}

/// `t` without the spaces at its start.
pub open spec fn trim_start(t: Seq<char>) -> Seq<char>
    decreases t.len(),
{
    if t.len() > 0 && t[0] == ' ' {
        trim_start(t.drop_first())
    } else {
        t
    }
}

/// `t` without the spaces at its end.
pub open spec fn trim_end(t: Seq<char>) -> Seq<char>
    decreases t.len(),
{
    if t.len() > 0 && t.last() == ' ' {
        trim_end(t.drop_last())
    } else {
        t
    }
}

/// `%d` with a width and no flags.
pub open spec fn plain_decimal(spec: ConversionSpecifier) -> bool {
    spec.conversion_type is DecInt && spec.resolved() && !spec.left_adj && !spec.force_sign
        && !spec.space_sign && (spec.zero_pad ==> spec.field_width() == 0)
}

/// Spaces before a text that starts with none are what `trim_start` takes
/// away.
proof fn lemma_trim_start(n: nat, t: Seq<char>)
    requires
        t.len() > 0,
        t[0] != ' ',
    ensures
        trim_start(repeat(' ', n) + t) == t,
    decreases n,
{
    if n == 0 {
        assert(repeat(' ', 0) + t =~= t);
    } else {
        assert((repeat(' ', n) + t).drop_first() =~= repeat(' ', (n - 1) as nat) + t);
        lemma_trim_start((n - 1) as nat, t);
    }
}

/// A signed integer under `%d` with a width `w` and no flags fills the
/// field: the text has at least `w` characters, and without the spaces
/// around it, it is the number as canonically written, with a `-` exactly
/// where the number is negative.
pub proof fn lemma_decimal_fills_field(v: int, pattern: nat, spec: ConversionSpecifier)
    requires
        plain_decimal(spec),
    ensures
        signed_text(v, pattern, spec) is Ok,
        signed_text(v, pattern, spec)->Ok_0.len() >= spec.field_width(),
        trim_end(trim_start(signed_text(v, pattern, spec)->Ok_0)) == canonical(v),
        canonical(v)[0] == '-' <==> v < 0,
{
    let text = signed_text(v, pattern, spec)->Ok_0;
    let number = canonical(v);
    lemma_decimal_chars(magnitude(v));
    let sign = sign_text(v < 0, spec);
    let n = fill(spec.field_width(), sign.len() + decimal(magnitude(v)).len());
    assert(sign + decimal(magnitude(v)) =~= number);
    assert(text =~= repeat(' ', n) + number) by {
        if spec.zero_pad {
            assert(repeat('0', 0) =~= Seq::<char>::empty());
            assert(repeat(' ', 0) =~= Seq::<char>::empty());
        }
    }
    assert(is_digit(number.last())) by {
        let d = decimal(magnitude(v));
        assert(is_digit(d[d.len() - 1]));
    }
    assert(number[0] != ' ' && (number[0] == '-' <==> v < 0)) by {
        assert(is_digit(decimal(magnitude(v))[0]));
    }
    lemma_trim_start(n, number);
}

/// Renders an unsigned integer, see `unsigned_text`.
pub(crate) fn format_unsigned(v: u64, spec: &ConversionSpecifier) -> (r: Result<Vec<char>, FormatError>)
    ensures
        chars_result(r) == unsigned_text(v as nat, *spec),
{
    if !spec.is_resolved() {
        return Err(FormatError::Unknown);
    }
    let mut prefix: Vec<char> = Vec::new();
    let mut body: Vec<char> = Vec::new();
    match spec.conversion_type {
        ConversionType::DecInt => {
            push_digits(&mut body, v, 10, false);
        },
        ConversionType::OctInt => {
            if spec.alt_form {
                prefix.push('0');
            }
            push_digits(&mut body, v, 8, false);
        },
        ConversionType::HexIntLower => {
            if spec.alt_form {
                prefix.push('0');
                prefix.push('x');
            }
            push_digits(&mut body, v, 16, false);
        },
        ConversionType::HexIntUpper => {
            if spec.alt_form {
                prefix.push('0');
                prefix.push('X');
            }
            push_digits(&mut body, v, 16, true);
        },
        _ => {
            return Err(FormatError::WrongType);
        },
    }
    proof {
        assert(prefix@ == if spec.alt_form {
            base_prefix(spec.conversion_type)
        } else {
            Seq::<char>::empty()
        });
        assert(body@ == digits(
            v as nat,
            base_of(spec.conversion_type),
            spec.conversion_type is HexIntUpper,
        ));
    }
    Ok(lay_out(&prefix, &body, spec.width_or_zero(), spec.left_adj, spec.zero_pad))
}

/// The magnitude of `v`.
pub(crate) fn magnitude_of(v: i64) -> (r: u64)
    ensures
        r as nat == magnitude(v as int),
{
    if v < 0 {
        ((-(v + 1)) as u64) + 1
    } else {
        v as u64
    }
}

/// The bit pattern of `v` in a type whose largest unsigned value is `max`.
pub(crate) fn pattern_of(v: i64, max: u64) -> (r: u64)
    requires
        -max - 1 <= v <= max,
    ensures
        r as nat == bit_pattern(v as int, (max + 1) as nat),
{
    if v < 0 {
        max - ((-(v + 1)) as u64)
    } else {
        v as u64
    }
}

/// Renders a signed integer whose bit pattern is `pattern`, see
/// `signed_text`.
pub(crate) fn format_signed(v: i64, pattern: u64, spec: &ConversionSpecifier) -> (r: Result<
    Vec<char>,
    FormatError,
>)
    ensures
        chars_result(r) == signed_text(v as int, pattern as nat, *spec),
{
    if !spec.is_resolved() {
        return Err(FormatError::Unknown);
    }
    match spec.conversion_type {
        ConversionType::DecInt => {
            let sign = sign_for(v < 0, spec);
            let mut body: Vec<char> = Vec::new();
            push_digits(&mut body, magnitude_of(v), 10, false);
            Ok(lay_out(&sign, &body, spec.width_or_zero(), spec.left_adj, spec.zero_pad))
        },
        _ => format_unsigned(pattern, spec),
    }
}

} // verus!
