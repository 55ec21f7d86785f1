//! The values that can stand as arguments, and how each renders itself.

use vstd::prelude::*;
use crate::float::{float_text, format_float, Float};
use crate::integer::{
    bit_pattern,
    format_signed,
    format_unsigned,
    pattern_of,
    signed_text,
    unsigned_text,
};
use crate::parser::{ConversionSpecifier, ConversionType};
use crate::string::{char_text, format_char, format_str, string_text};
use crate::text::{chars_result, scalar_value, string_of, text_result};
use crate::FormatError;

verus! {

/// A value that can be an argument of a format call.
pub trait Format {
    /// What `format` returns: the text of this value under `spec`, or why
    /// it has none.
    spec fn rendering(&self, spec: ConversionSpecifier) -> Result<Seq<char>, FormatError>;

    /// What `as_int` returns: this value as a width or a precision.
    spec fn plain_integer(&self) -> Option<i32>;

    /// Renders this value under `spec`.
    fn format(&self, spec: &ConversionSpecifier) -> (r: Result<String, FormatError>)
        ensures
            text_result(r) == self.rendering(*spec),
    ;

    /// This value as a width or a precision, if it can be one.
    fn as_int(&self) -> (r: Option<i32>)
        ensures
            r == self.plain_integer(),
    ;
}

/// The integer `code` under a specifier that asks for a character: the
/// character with that code, where the code is below `limit` and a Unicode
/// scalar value.
pub open spec fn code_text(code: nat, limit: nat, spec: ConversionSpecifier) -> Result<
    Seq<char>,
    FormatError,
> {
    if !spec.resolved() {
        Err(FormatError::Unknown)
    } else if code < limit && scalar_value(code) is Some {
        char_text(scalar_value(code)->0, spec)
    } else {
        Err(FormatError::WrongType)
    }
}

/// `v` as a width or a precision: itself where it fits.
pub open spec fn small_integer(v: int) -> Option<i32> {
    if -0x8000_0000 <= v <= 0x7fff_ffff {
        Some(v as i32)
    } else {
        None
    }
}

/// The string of a rendering.
pub(crate) fn finish(r: Result<Vec<char>, FormatError>) -> (s: Result<String, FormatError>)
    ensures
        text_result(s) == chars_result(r),
{
    match r {
        Ok(v) => Ok(string_of(&v)),
        Err(e) => Err(e),
    }
}

/// Renders the character with the code `code`, see `code_text`.
pub(crate) fn format_code(code: u32, limit: u32, spec: &ConversionSpecifier) -> (r: Result<
    Vec<char>,
    FormatError,
>)
    ensures
        chars_result(r) == code_text(code as nat, limit as nat, *spec),
{
    if !spec.is_resolved() {
        return Err(FormatError::Unknown);
    }
    if code < limit {
        match char::from_u32(code) {
            Some(c) => format_char(c, spec),
            None => Err(FormatError::WrongType),
        }
    } else {
        Err(FormatError::WrongType)
    }
}

/// `spec` asks for a character.
pub(crate) fn wants_char(spec: &ConversionSpecifier) -> (r: bool)
    ensures
        r == (spec.conversion_type is Char),
{
    match spec.conversion_type {
        ConversionType::Char => true,
        _ => false,
    }
}

/// `v` as a width or a precision, see `small_integer`.
pub(crate) fn small(v: i64) -> (r: Option<i32>)
    ensures
        r == small_integer(v as int),
{
    if -0x8000_0000 <= v && v <= 0x7fff_ffff {
        Some(v as i32)
    } else {
        None
    }
}

impl Format for u64 {
    open spec fn rendering(&self, spec: ConversionSpecifier) -> Result<Seq<char>, FormatError> {
        unsigned_text(*self as nat, spec)
    }

    open spec fn plain_integer(&self) -> Option<i32> {
        small_integer(*self as int)
    }

    fn format(&self, spec: &ConversionSpecifier) -> (r: Result<String, FormatError>) {
        finish(format_unsigned(*self, spec))
    }

    fn as_int(&self) -> (r: Option<i32>) {
        if *self <= 0x7fff_ffff {
            Some(*self as i32)
        } else {
            None
        }
    }
}

impl Format for i64 {
    open spec fn rendering(&self, spec: ConversionSpecifier) -> Result<Seq<char>, FormatError> {
        signed_text(*self as int, bit_pattern(*self as int, 0x1_0000_0000_0000_0000), spec)
    }

    open spec fn plain_integer(&self) -> Option<i32> {
        small_integer(*self as int)
    }

    fn format(&self, spec: &ConversionSpecifier) -> (r: Result<String, FormatError>) {
        finish(format_signed(*self, pattern_of(*self, u64::MAX), spec))
    }

    fn as_int(&self) -> (r: Option<i32>) {
        small(*self)
    }
}

impl Format for i32 {
    open spec fn rendering(&self, spec: ConversionSpecifier) -> Result<Seq<char>, FormatError> {
        signed_text(*self as int, bit_pattern(*self as int, 0x1_0000_0000), spec)
    }

    open spec fn plain_integer(&self) -> Option<i32> {
        Some(*self)
    }

    fn format(&self, spec: &ConversionSpecifier) -> (r: Result<String, FormatError>) {
        finish(format_signed(*self as i64, pattern_of(*self as i64, 0xffff_ffff), spec))
    }

    fn as_int(&self) -> (r: Option<i32>) {
        Some(*self)
    }
}

impl Format for u32 {
    open spec fn rendering(&self, spec: ConversionSpecifier) -> Result<Seq<char>, FormatError> {
        if spec.conversion_type is Char {
            code_text(*self as nat, 0x11_0000, spec)
        } else {
            unsigned_text(*self as nat, spec)
        }
    }

    open spec fn plain_integer(&self) -> Option<i32> {
        small_integer(*self as int)
    }

    fn format(&self, spec: &ConversionSpecifier) -> (r: Result<String, FormatError>) {
        if wants_char(spec) {
            finish(format_code(*self, 0x11_0000, spec))
        } else {
            finish(format_unsigned(*self as u64, spec))
        }
    }

    fn as_int(&self) -> (r: Option<i32>) {
        small(*self as i64)
    }
}

impl Format for i16 {
    open spec fn rendering(&self, spec: ConversionSpecifier) -> Result<Seq<char>, FormatError> {
        signed_text(*self as int, bit_pattern(*self as int, 0x1_0000), spec)
    }

    open spec fn plain_integer(&self) -> Option<i32> {
        Some(*self as i32)
    }

    fn format(&self, spec: &ConversionSpecifier) -> (r: Result<String, FormatError>) {
        finish(format_signed(*self as i64, pattern_of(*self as i64, 0xffff), spec))
    }

    fn as_int(&self) -> (r: Option<i32>) {
        Some(*self as i32)
    }
}

impl Format for u16 {
    open spec fn rendering(&self, spec: ConversionSpecifier) -> Result<Seq<char>, FormatError> {
        if spec.conversion_type is Char {
            code_text(*self as nat, 0x11_0000, spec)
        } else {
            unsigned_text(*self as nat, spec)
        }
    }

    open spec fn plain_integer(&self) -> Option<i32> {
        Some(*self as i32)
    }

    fn format(&self, spec: &ConversionSpecifier) -> (r: Result<String, FormatError>) {
        if wants_char(spec) {
            finish(format_code(*self as u32, 0x11_0000, spec))
        } else {
            finish(format_unsigned(*self as u64, spec))
        }
    }

    fn as_int(&self) -> (r: Option<i32>) {
        Some(*self as i32)
    }
}

impl Format for i8 {
    open spec fn rendering(&self, spec: ConversionSpecifier) -> Result<Seq<char>, FormatError> {
        if spec.conversion_type is Char {
            code_text(bit_pattern(*self as int, 0x100), 0x80, spec)
        } else {
            signed_text(*self as int, bit_pattern(*self as int, 0x100), spec)
        }
    }

    open spec fn plain_integer(&self) -> Option<i32> {
        Some(*self as i32)
    }

    fn format(&self, spec: &ConversionSpecifier) -> (r: Result<String, FormatError>) {
        let pattern = pattern_of(*self as i64, 0xff);
        if wants_char(spec) {
            finish(format_code(pattern as u32, 0x80, spec))
        } else {
            finish(format_signed(*self as i64, pattern, spec))
        }
    }

    fn as_int(&self) -> (r: Option<i32>) {
        Some(*self as i32)
    }
}

impl Format for u8 {
    open spec fn rendering(&self, spec: ConversionSpecifier) -> Result<Seq<char>, FormatError> {
        if spec.conversion_type is Char {
            code_text(*self as nat, 0x80, spec)
        } else {
            unsigned_text(*self as nat, spec)
        }
    }

    open spec fn plain_integer(&self) -> Option<i32> {
        Some(*self as i32)
    }

    fn format(&self, spec: &ConversionSpecifier) -> (r: Result<String, FormatError>) {
        if wants_char(spec) {
            finish(format_code(*self as u32, 0x80, spec))
        } else {
            finish(format_unsigned(*self as u64, spec))
        }
    }

    fn as_int(&self) -> (r: Option<i32>) {
        Some(*self as i32)
    }
}

impl Format for usize {
    open spec fn rendering(&self, spec: ConversionSpecifier) -> Result<Seq<char>, FormatError> {
        unsigned_text(*self as nat, spec)
    }

    open spec fn plain_integer(&self) -> Option<i32> {
        small_integer(*self as int)
    }

    fn format(&self, spec: &ConversionSpecifier) -> (r: Result<String, FormatError>) {
        finish(format_unsigned(*self as u64, spec))
    }

    fn as_int(&self) -> (r: Option<i32>) {
        if *self <= 0x7fff_ffff {
            Some(*self as i32)
        } else {
            None
        }
    }
}

impl Format for isize {
    open spec fn rendering(&self, spec: ConversionSpecifier) -> Result<Seq<char>, FormatError> {
        signed_text(*self as int, bit_pattern(*self as int, (usize::MAX + 1) as nat), spec)
    }

    open spec fn plain_integer(&self) -> Option<i32> {
        small_integer(*self as int)
    }

    fn format(&self, spec: &ConversionSpecifier) -> (r: Result<String, FormatError>) {
        finish(format_signed(*self as i64, pattern_of(*self as i64, usize::MAX as u64), spec))
    }

    fn as_int(&self) -> (r: Option<i32>) {
        small(*self as i64)
    }
}

impl Format for char {
    open spec fn rendering(&self, spec: ConversionSpecifier) -> Result<Seq<char>, FormatError> {
        char_text(*self, spec)
    }

    open spec fn plain_integer(&self) -> Option<i32> {
        None
    }

    fn format(&self, spec: &ConversionSpecifier) -> (r: Result<String, FormatError>) {
        finish(format_char(*self, spec))
    }

    fn as_int(&self) -> (r: Option<i32>) {
        None
    }
}

impl Format for &str {
    open spec fn rendering(&self, spec: ConversionSpecifier) -> Result<Seq<char>, FormatError> {
        string_text(self@, spec)
    }

    open spec fn plain_integer(&self) -> Option<i32> {
        None
    }

    fn format(&self, spec: &ConversionSpecifier) -> (r: Result<String, FormatError>) {
        finish(format_str(*self, spec))
    }

    fn as_int(&self) -> (r: Option<i32>) {
        None
    }
}

impl Format for String {
    open spec fn rendering(&self, spec: ConversionSpecifier) -> Result<Seq<char>, FormatError> {
        string_text(self@, spec)
    }

    open spec fn plain_integer(&self) -> Option<i32> {
        None
    }

    fn format(&self, spec: &ConversionSpecifier) -> (r: Result<String, FormatError>) {
        finish(format_str(self.as_str(), spec))
    }

    fn as_int(&self) -> (r: Option<i32>) {
        None
    }
}

impl Format for Float {
    open spec fn rendering(&self, spec: ConversionSpecifier) -> Result<Seq<char>, FormatError> {
        float_text(self@, spec)
    }

    open spec fn plain_integer(&self) -> Option<i32> {
        None
    }

    fn format(&self, spec: &ConversionSpecifier) -> (r: Result<String, FormatError>) {
        finish(format_float(self, spec))
    }

    fn as_int(&self) -> (r: Option<i32>) {
        None
    }
}

} // verus!
