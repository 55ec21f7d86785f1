//! The grammar of format templates and the parser for it.

use vstd::prelude::*;
use crate::digits::{digits_end, lemma_digits_end, number, read_number, scan_digits};
use crate::text::chars_of;
use crate::FormatError;

verus! {

/// A width or a precision.
#[derive(Debug, Clone, Copy, PartialEq, Eq, Structural)]
pub enum NumericParam {
    /// The value written in the template, or already taken from an argument.
    Literal(i32),
    /// `*`: the value is the next argument. It is replaced by a `Literal`
    /// before a value is rendered.
    FromArgument,
}

/// The conversion that a specifier asks for.
#[derive(Debug, Clone, Copy, PartialEq, Eq, Structural)]
pub enum ConversionType {
    /// `d`, `i` or `u`
    DecInt,
    /// `o`
    OctInt,
    /// `x` or `p`
    HexIntLower,
    /// `X`
    HexIntUpper,
    /// `e`
    SciFloatLower,
    /// `E`
    SciFloatUpper,
    /// `f`
    DecFloatLower,
    /// `F`
    DecFloatUpper,
    /// `g`
    CompactFloatLower,
    /// `G`
    CompactFloatUpper,
    /// `a`
    HexFloatLower,
    /// `A`
    HexFloatUpper,
    /// `c` or `C`
    Char,
    /// `s` or `S`
    String,
    /// `q`
    QuotedString,
    /// `%`
    PercentSign,
}

/// One parsed `%...` conversion specifier.
#[derive(Debug, Clone, Copy, PartialEq, Eq, Structural)]
pub struct ConversionSpecifier {
    /// flag `#`: show the base prefix
    pub alt_form: bool,
    /// flag `0`: pad with zeros between sign and digits
    pub zero_pad: bool,
    /// flag `-`: pad on the right
    pub left_adj: bool,
    /// flag ` `: a space where a `+` would stand
    pub space_sign: bool,
    /// flag `+`: always show the sign
    pub force_sign: bool,
    /// minimum field width
    pub width: NumericParam,
    /// precision
    pub precision: NumericParam,
    /// the conversion
    pub conversion_type: ConversionType,
}

impl NumericParam {
    /// The number held, with 0 standing for a value not yet resolved.
    pub open spec fn value(self) -> int {
        match self {
            NumericParam::Literal(n) => n as int,
            NumericParam::FromArgument => 0,
        }
    }
}

impl ConversionSpecifier {
    /// Both width and precision are literal.
    pub open spec fn resolved(self) -> bool {
        self.width is Literal && self.precision is Literal
    }

    /// The field width in effect: a negative width asks for no padding.
    pub open spec fn field_width(self) -> nat {
        if self.width.value() > 0 {
            self.width.value() as nat
        } else {
            0
        }
    }

    /// The precision in effect: a negative precision counts as 0.
    pub open spec fn digits_wanted(self) -> nat {
        if self.precision.value() > 0 {
            self.precision.value() as nat
        } else {
            0
        }
    }

    /// `resolved`, computed.
    pub fn is_resolved(&self) -> (r: bool)
        ensures
            r == self.resolved(),
    {
        let w = match self.width {
            NumericParam::Literal(_) => true,
            NumericParam::FromArgument => false,
        };
        let p = match self.precision {
            NumericParam::Literal(_) => true,
            NumericParam::FromArgument => false,
        };
        w && p
    }

    /// `field_width`, computed.
    pub fn width_or_zero(&self) -> (r: usize)
        ensures
            r as nat == self.field_width(),
    {
        match self.width {
            NumericParam::Literal(n) => if n > 0 {
                n as usize
            } else {
                0
            },
            NumericParam::FromArgument => 0,
        }
    }

    /// `digits_wanted`, computed.
    pub fn precision_or_zero(&self) -> (r: usize)
        ensures
            r as nat == self.digits_wanted(),
    {
        match self.precision {
            NumericParam::Literal(n) => if n > 0 {
                n as usize
            } else {
                0
            },
            NumericParam::FromArgument => 0,
        }
    }
}

/// A piece of a parsed template.
#[derive(Debug, Clone, Copy, PartialEq, Eq)]
pub enum FormatElement<'a> {
    /// Text that is copied to the output as it stands.
    Verbatim(&'a str),
    /// A conversion specifier.
    Format(ConversionSpecifier),
}

/// What a piece of a parsed template holds.
pub enum ElementView {
    /// Text that is copied to the output.
    Verbatim(Seq<char>),
    /// A conversion specifier.
    Format(ConversionSpecifier),
}

impl<'a> View for FormatElement<'a> {
    type V = ElementView;

    open spec fn view(&self) -> ElementView {
        match self {
            FormatElement::Verbatim(text) => ElementView::Verbatim(text@),
            FormatElement::Format(spec) => ElementView::Format(*spec),
        }
    }
}

/// The views of the elements of `v`.
pub open spec fn elements_view(v: Seq<FormatElement>) -> Seq<ElementView> {
    Seq::new(v.len(), |i: int| v[i]@)
}

/// `c` is one of the flag characters.
pub open spec fn is_flag(c: char) -> bool {
    c == '#' || c == '0' || c == '-' || c == ' ' || c == '+'
}

/// Where the run of flag characters that starts at `i` ends.
pub open spec fn flags_end(s: Seq<char>, i: int) -> int
    decreases s.len() - i,
{
    if 0 <= i < s.len() && is_flag(s[i]) {
        flags_end(s, i + 1)
    } else {
        i
    }
}

/// `c` stands in `s` at some index from `from` up to, not including, `to`.
pub open spec fn occurs(s: Seq<char>, from: int, to: int, c: char) -> bool
    decreases to - from,
{
    if to <= from {
        false
    } else {
        s[to - 1] == c || occurs(s, from, to - 1, c)
    }
}

/// The width or precision written at `i`: `*`, or a run of digits, which
/// may be empty and then stands for 0; with it the index after it. `None`
/// where the digits write a number above the largest `i32`.
pub open spec fn param_at(s: Seq<char>, i: int) -> Option<(NumericParam, int)> {
    if 0 <= i < s.len() && s[i] == '*' {
        Some((NumericParam::FromArgument, i + 1))
    } else if number(s, i, digits_end(s, i)) > 0x7fff_ffff {
        None
    } else {
        Some((NumericParam::Literal(number(s, i, digits_end(s, i)) as i32), digits_end(s, i)))
    }
}

/// The precision written at `i`, if one is: a `.` and a width-like value.
/// The inner `None` says that the template gives no precision.
pub open spec fn precision_at(s: Seq<char>, i: int) -> Option<(Option<NumericParam>, int)> {
    if 0 <= i < s.len() && s[i] == '.' {
        match param_at(s, i + 1) {
            Some((p, end)) => Some((Some(p), end)),
            None => None,
        }
    } else {
        Some((None, i))
    }
}

/// `c` is a length modifier of one character.
pub open spec fn is_modifier(c: char) -> bool {
    c == 'h' || c == 'l' || c == 'q' || c == 'L' || c == 'j' || c == 'z' || c == 'Z' || c == 't'
}

/// How long the length modifier at `i` is: 2 for `hh` and `ll`, 1 for the
/// others, 0 where none stands.
pub open spec fn modifier_len(s: Seq<char>, i: int) -> int {
    if 0 <= i && i + 1 < s.len() && ((s[i] == 'h' && s[i + 1] == 'h') || (s[i] == 'l' && s[i + 1]
        == 'l')) {
        2
    } else if 0 <= i < s.len() && is_modifier(s[i]) {
        1
    } else {
        0
    }
}

/// The conversion that the character `c` selects.
pub open spec fn conversion_of(c: char) -> Option<ConversionType> {
    if c == 'd' || c == 'i' || c == 'u' {
        Some(ConversionType::DecInt)
    } else if c == 'o' {
        Some(ConversionType::OctInt)
    } else if c == 'x' || c == 'p' {
        Some(ConversionType::HexIntLower)
    } else if c == 'X' {
        Some(ConversionType::HexIntUpper)
    } else if c == 'e' {
        Some(ConversionType::SciFloatLower)
    } else if c == 'E' {
        Some(ConversionType::SciFloatUpper)
    } else if c == 'f' {
        Some(ConversionType::DecFloatLower)
    } else if c == 'F' {
        Some(ConversionType::DecFloatUpper)
    } else if c == 'g' {
        Some(ConversionType::CompactFloatLower)
    } else if c == 'G' {
        Some(ConversionType::CompactFloatUpper)
    } else if c == 'a' {
        Some(ConversionType::HexFloatLower)
    } else if c == 'A' {
        Some(ConversionType::HexFloatUpper)
    } else if c == 'c' || c == 'C' {
        Some(ConversionType::Char)
    } else if c == 's' || c == 'S' {
        Some(ConversionType::String)
    } else if c == 'q' {
        Some(ConversionType::QuotedString)
    } else if c == '%' {
        Some(ConversionType::PercentSign)
    } else {
        None
    }
}

/// A conversion character stands at `i`.
pub open spec fn converts(s: Seq<char>, i: int) -> bool {
    0 <= i < s.len() && conversion_of(s[i]) is Some
}

/// Where the conversion character stands, given that the length modifier,
/// if any, starts at `i`. A length modifier is skipped only where a
/// conversion character follows it: `q` alone is the quoted string, `qd` a
/// decimal integer.
pub open spec fn conversion_at(s: Seq<char>, i: int) -> Option<int> {
    if modifier_len(s, i) > 0 && converts(s, i + modifier_len(s, i)) {
        Some(i + modifier_len(s, i))
    } else if converts(s, i) {
        Some(i)
    } else {
        None
    }
}

/// The precision of a specifier that writes none: unbounded for a string,
/// 6 for the others.
pub open spec fn default_precision(t: ConversionType) -> NumericParam {
    if t is String {
        NumericParam::Literal(0x7fff_ffff)
    } else {
        NumericParam::Literal(6)
    }
}

/// The specifier whose text starts at `i`, just after the `%`, and the
/// index after its conversion character. `None` where the text is no
/// specifier.
pub open spec fn specifier_at(s: Seq<char>, i: int) -> Option<(ConversionSpecifier, int)> {
    let f = flags_end(s, i);
    match param_at(s, f) {
        None => None,
        Some((width, w)) => match precision_at(s, w) {
            None => None,
            Some((precision, p)) => match conversion_at(s, p) {
                None => None,
                Some(k) => Some(
                    (
                        ConversionSpecifier {
                            alt_form: occurs(s, i, f, '#') || s[k] == 'p',
                            zero_pad: occurs(s, i, f, '0'),
                            left_adj: occurs(s, i, f, '-'),
                            space_sign: occurs(s, i, f, ' '),
                            force_sign: occurs(s, i, f, '+'),
                            width: width,
                            precision: match precision {
                                Some(given) => given,
                                None => default_precision(conversion_of(s[k])->0),
                            },
                            conversion_type: conversion_of(s[k])->0,
                        },
                        k + 1,
                    ),
                ),
            },
        },
    }
}

/// The index of the first `%` at or after `i`; the length of `s` where
/// there is none.
pub open spec fn percent_at(s: Seq<char>, i: int) -> int
    decreases s.len() - i,
{
    if 0 <= i < s.len() && s[i] != '%' {
        percent_at(s, i + 1)
    } else {
        i
    }
}

/// The text from `i` up to `j` as an element, or nothing where it is empty.
pub open spec fn verbatim(s: Seq<char>, i: int, j: int) -> Seq<ElementView> {
    if j > i {
        seq![ElementView::Verbatim(s.subrange(i, j))]
    } else {
        Seq::<ElementView>::empty()
    }
}

/// The elements of the template `s` from index `i` on: the text up to the
/// next `%`, the specifier that follows it, and so on to the end.
pub open spec fn parsed_from(s: Seq<char>, i: int) -> Result<Seq<ElementView>, FormatError>
    decreases s.len() - i,
    via parsed_from_terminates
{
    if i < 0 || i >= s.len() {
        Ok(Seq::<ElementView>::empty())
    } else if percent_at(s, i) >= s.len() {
        Ok(verbatim(s, i, s.len() as int))
    } else {
        match specifier_at(s, percent_at(s, i) + 1) {
            None => Err(FormatError::ParseError),
            Some((spec, next)) => match parsed_from(s, next) {
                Err(e) => Err(e),
                Ok(rest) => Ok(
                    verbatim(s, i, percent_at(s, i)) + seq![ElementView::Format(spec)] + rest,
                ),
            },
        }
    }
}

#[via_fn]
proof fn parsed_from_terminates(s: Seq<char>, i: int) {
    if !(i < 0 || i >= s.len()) && percent_at(s, i) < s.len() {
        lemma_percent_at(s, i);
        lemma_specifier_at(s, percent_at(s, i) + 1);
    }
}

/// The elements of the template `s`.
pub open spec fn parsed(s: Seq<char>) -> Result<Seq<ElementView>, FormatError> {
    parsed_from(s, 0)
}

/// A run of flags ends at or after its start, within the template.
pub proof fn lemma_flags_end(s: Seq<char>, i: int)
    requires
        0 <= i <= s.len(),
    ensures
        i <= flags_end(s, i) <= s.len(),
    decreases s.len() - i,
{
    if i < s.len() && is_flag(s[i]) {
        lemma_flags_end(s, i + 1);
    }
}

/// The next `%` is found at or after the start, or the template ends.
pub proof fn lemma_percent_at(s: Seq<char>, i: int)
    requires
        0 <= i <= s.len(),
    ensures
        i <= percent_at(s, i) <= s.len(),
        percent_at(s, i) < s.len() ==> s[percent_at(s, i)] == '%',
    decreases s.len() - i,
{
    if i < s.len() && s[i] != '%' {
        lemma_percent_at(s, i + 1);
    }
}

/// A specifier ends after where it starts, and within the template.
pub proof fn lemma_specifier_at(s: Seq<char>, i: int)
    requires
        0 <= i <= s.len(),
    ensures
        specifier_at(s, i) matches Some((_, next)) ==> i < next <= s.len(),
{
    lemma_flags_end(s, i);
    let f = flags_end(s, i);
    lemma_digits_end(s, f);
    if let Some((_, w)) = param_at(s, f) {
        if w < s.len() {
            lemma_digits_end(s, w + 1);
        }
    }
}

/// What is parsed so far, followed by what the rest of the template gives.
spec fn joined(head: Seq<ElementView>, rest: Result<Seq<ElementView>, FormatError>) -> Result<
    Seq<ElementView>,
    FormatError,
> {
    match rest {
        Ok(tail) => Ok(head + tail),
        Err(e) => Err(e),
    }
}

/// Reads the width or precision that stands at index `i` of `s`, see
/// `param_at`.
pub fn take_numeric_param(s: &Vec<char>, i: usize) -> (r: Option<(NumericParam, usize)>)
    ensures
        match r {
            Some((param, end)) => param_at(s@, i as int) == Some((param, end as int)),
            None => param_at(s@, i as int) is None,
        },
{
    if i < s.len() && s[i] == '*' {
        return Some((NumericParam::FromArgument, i + 1));
    }
    let end = scan_digits(s, i);
    match read_number(s, i, end, 0x7fff_ffff) {
        Some(value) => Some((NumericParam::Literal(value as i32), end)),
        None => None,
    }
}

/// The conversion that `c` selects, see `conversion_of`.
pub(crate) fn conversion_for(c: char) -> (r: Option<ConversionType>)
    ensures
        r == conversion_of(c),
{
    if c == 'd' || c == 'i' || c == 'u' {
        Some(ConversionType::DecInt)
    } else if c == 'o' {
        Some(ConversionType::OctInt)
    } else if c == 'x' || c == 'p' {
        Some(ConversionType::HexIntLower)
    } else if c == 'X' {
        Some(ConversionType::HexIntUpper)
    } else if c == 'e' {
        Some(ConversionType::SciFloatLower)
    } else if c == 'E' {
        Some(ConversionType::SciFloatUpper)
    } else if c == 'f' {
        Some(ConversionType::DecFloatLower)
    } else if c == 'F' {
        Some(ConversionType::DecFloatUpper)
    } else if c == 'g' {
        Some(ConversionType::CompactFloatLower)
    } else if c == 'G' {
        Some(ConversionType::CompactFloatUpper)
    } else if c == 'a' {
        Some(ConversionType::HexFloatLower)
    } else if c == 'A' {
        Some(ConversionType::HexFloatUpper)
    } else if c == 'c' || c == 'C' {
        Some(ConversionType::Char)
    } else if c == 's' || c == 'S' {
        Some(ConversionType::String)
    } else if c == 'q' {
        Some(ConversionType::QuotedString)
    } else if c == '%' {
        Some(ConversionType::PercentSign)
    } else {
        None
    }
}

/// The length of the length modifier at index `i` of `s`, see
/// `modifier_len`.
fn modifier_at(s: &Vec<char>, i: usize) -> (m: usize)
    ensures
        m == modifier_len(s@, i as int),
        m <= 2,
        m > 0 ==> i + m <= s.len(),
{
    if i >= s.len() {
        return 0;
    }
    let c = s[i];
    if s.len() - i > 1 && ((c == 'h' && s[i + 1] == 'h') || (c == 'l' && s[i + 1] == 'l')) {
        2
    } else if c == 'h' || c == 'l' || c == 'q' || c == 'L' || c == 'j' || c == 'z' || c == 'Z' || c
        == 't' {
        1
    } else {
        0
    }
}

/// The index of the conversion character and its conversion, see
/// `conversion_at`.
fn find_conversion(s: &Vec<char>, i: usize) -> (r: Option<(usize, ConversionType)>)
    ensures
        match r {
            Some((k, t)) => conversion_at(s@, i as int) == Some(k as int) && k < s.len()
                && conversion_of(s@[k as int]) == Some(t),
            None => conversion_at(s@, i as int) is None,
        },
{
    let m = modifier_at(s, i);
    if m > 0 && i + m < s.len() {
        if let Some(t) = conversion_for(s[i + m]) {
            return Some((i + m, t));
        }
    }
    if i < s.len() {
        if let Some(t) = conversion_for(s[i]) {
            return Some((i, t));
        }
    }
    None
}

/// Reads the conversion specifier that starts at index `i` of `s`, just
/// after the `%`, and gives it with the index after its conversion
/// character; see `specifier_at`.
pub fn take_conversion_specifier(s: &Vec<char>, i: usize) -> (r: Result<
    (ConversionSpecifier, usize),
    FormatError,
>)
    ensures
        match r {
            Ok((spec, next)) => specifier_at(s@, i as int) == Some((spec, next as int)),
            Err(e) => e == FormatError::ParseError && specifier_at(s@, i as int) is None,
        },
{
    let mut alt_form = false;
    let mut zero_pad = false;
    let mut left_adj = false;
    let mut space_sign = false;
    let mut force_sign = false;
    let mut j: usize = i;
    while j < s.len() && (s[j] == '#' || s[j] == '0' || s[j] == '-' || s[j] == ' ' || s[j] == '+')
        invariant
            i <= j,
            j <= s.len() || j == i,
            flags_end(s@, i as int) == flags_end(s@, j as int),
            alt_form == occurs(s@, i as int, j as int, '#'),
            zero_pad == occurs(s@, i as int, j as int, '0'),
            left_adj == occurs(s@, i as int, j as int, '-'),
            space_sign == occurs(s@, i as int, j as int, ' '),
            force_sign == occurs(s@, i as int, j as int, '+'),
        decreases s.len() - j,
    {
        let c = s[j];
        if c == '#' {
            alt_form = true;
        } else if c == '0' {
            zero_pad = true;
        } else if c == '-' {
            left_adj = true;
        } else if c == ' ' {
            space_sign = true;
        } else {
            force_sign = true;
        }
        j += 1;
    }
    let (width, w) = match take_numeric_param(s, j) {
        Some(found) => found,
        None => {
            return Err(FormatError::ParseError);
        },
    };
    let mut precision: Option<NumericParam> = None;
    let mut p: usize = w;
    if w < s.len() && s[w] == '.' {
        match take_numeric_param(s, w + 1) {
            Some((given, end)) => {
                precision = Some(given);
                p = end;
            },
            None => {
                return Err(FormatError::ParseError);
            },
        }
    }
    let (k, conversion_type) = match find_conversion(s, p) {
        Some(found) => found,
        None => {
            return Err(FormatError::ParseError);
        },
    };
    let precision = match precision {
        Some(given) => given,
        None => match conversion_type {
            ConversionType::String => NumericParam::Literal(0x7fff_ffff),
            _ => NumericParam::Literal(6),
        },
    };
    Ok(
        (
            ConversionSpecifier {
                alt_form: alt_form || s[k] == 'p',
                zero_pad,
                left_adj,
                space_sign,
                force_sign,
                width,
                precision,
                conversion_type,
            },
            k + 1,
        ),
    )
}

/// Parses the template `fmt` into its elements: runs of text, which borrow
/// from `fmt`, and conversion specifiers, in the order of the template.
/// Fails with `ParseError` where a `%` is not followed by a specifier.
pub fn parse_format_string<'a>(fmt: &'a str) -> (r: Result<Vec<FormatElement<'a>>, FormatError>)
    ensures
        match r {
            Ok(v) => parsed(fmt@) == Ok::<Seq<ElementView>, FormatError>(elements_view(v@)),
            Err(e) => parsed(fmt@) == Err::<Seq<ElementView>, FormatError>(e),
        },
{
    let s = chars_of(fmt);
    let n = s.len();
    let mut out: Vec<FormatElement<'a>> = Vec::new();
    let mut pos: usize = 0;
    assert(elements_view(out@) =~= Seq::<ElementView>::empty());
    assert(Seq::<ElementView>::empty() + parsed_from(s@, 0)->Ok_0 =~= parsed_from(s@, 0)->Ok_0);
    while pos < n
        invariant
            pos <= n,
            n == s.len(),
            s@ == fmt@,
            parsed_from(s@, 0) == joined(elements_view(out@), parsed_from(s@, pos as int)),
        decreases n - pos,
    {
        let mut j: usize = pos;
        while j < n && s[j] != '%'
            invariant
                pos <= j <= n,
                n == s.len(),
                percent_at(s@, pos as int) == percent_at(s@, j as int),
            decreases n - j,
        {
            j += 1;
        }
        let ghost before = elements_view(out@);
        if j > pos {
            out.push(FormatElement::Verbatim(fmt.substring_char(pos, j)));
        }
        assert(elements_view(out@) =~= before + verbatim(s@, pos as int, j as int));
        if j >= n {
            proof {
                assert(parsed_from(s@, n as int) == Ok::<Seq<ElementView>, FormatError>(
                    Seq::<ElementView>::empty(),
                ));
                assert(elements_view(out@) + Seq::<ElementView>::empty() =~= elements_view(out@));
            }
            pos = n;
        } else {
            proof {
                lemma_specifier_at(s@, j + 1);
            }
            match take_conversion_specifier(&s, j + 1) {
                Err(_) => {
                    return Err(FormatError::ParseError);
                },
                Ok((spec, next)) => {
                    let ghost middle = elements_view(out@);
                    out.push(FormatElement::Format(spec));
                    proof {
                        assert(elements_view(out@) =~= middle.push(ElementView::Format(spec)));
                        if let Ok(rest) = parsed_from(s@, next as int) {
                            assert(elements_view(out@) + rest =~= before + (verbatim(
                                s@,
                                pos as int,
                                j as int,
                            ) + seq![ElementView::Format(spec)] + rest));
                        }
                    }
                    pos = next;
                },
            }
        }
    }
    proof {
        assert(elements_view(out@) + Seq::<ElementView>::empty() =~= elements_view(out@));
    }
    Ok(out)
}

} // verus!
