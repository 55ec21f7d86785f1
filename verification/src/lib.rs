//! C-style `printf` formatting: a template with `%` conversions and a list of
//! typed arguments are rendered into a string.
//!
//! The template is parsed by [`parser::parse_format_string`]; the resulting
//! elements are rendered against the arguments by [`lformat`]; [`format`]
//! does both. An argument is any value with [`Format`]: the integers, `char`,
//! `&str`, `String`, and [`Float`] for a floating-point number.
//!
//! What each function returns is stated over sequences of characters:
//! [`parser::parsed`] for a template, [`Format::rendering`] for a value under
//! a specifier, [`formatted`] for a whole call.

use vstd::prelude::*;

pub mod digits;
pub mod float;
pub mod format;
pub mod integer;
pub mod laws;
pub mod layout;
pub mod parser;
pub mod string;
pub mod text;

pub use float::{Float, FloatClass};
pub use format::Format;
pub use parser::{ConversionSpecifier, ConversionType, FormatElement, NumericParam};

use parser::{elements_view, parse_format_string, parsed, ElementView};
use text::text_result;

verus! {

/// What can go wrong while parsing a template or rendering its arguments.
#[derive(Debug, Clone, Copy, PartialEq, Eq, Structural)]
pub enum FormatError {
    /// The template holds a malformed conversion specifier.
    ParseError,
    /// An argument does not support the conversion asked of it.
    WrongType,
    /// Arguments were left over once the template was rendered.
    TooManyArgs,
    /// The template asks for more arguments than were given.
    NotEnoughArgs,
    /// A specifier reached a value with its width or precision unresolved.
    Unknown,
}

/// A width or precision ready for rendering, and the cursor after it: a
/// literal stays and takes no argument; `*` takes the argument at the
/// cursor `k`, which must be there and must be a plain integer.
pub open spec fn resolved_param(param: NumericParam, args: Seq<&dyn Format>, k: nat) -> Result<
    (NumericParam, nat),
    FormatError,
> {
    match param {
        NumericParam::Literal(_) => Ok((param, k)),
        NumericParam::FromArgument => if k >= args.len() {
            Err(FormatError::NotEnoughArgs)
        } else {
            match args[k as int].plain_integer() {
                None => Err(FormatError::WrongType),
                Some(n) => Ok((NumericParam::Literal(n), k + 1)),
            }
        },
    }
}

/// The text of one element and the cursor after it, the cursor before it
/// being `k`. Text stands for itself and `%%` for a percent sign, and
/// neither takes an argument. Any other specifier takes its width, then
/// its precision, where they are `*`, and then its value.
pub open spec fn rendered_element(element: ElementView, args: Seq<&dyn Format>, k: nat) -> Result<
    (Seq<char>, nat),
    FormatError,
> {
    match element {
        ElementView::Verbatim(text) => Ok((text, k)),
        ElementView::Format(spec) => if spec.conversion_type is PercentSign {
            Ok((seq!['%'], k))
        } else {
            match resolved_param(spec.width, args, k) {
                Err(e) => Err(e),
                Ok((width, k1)) => match resolved_param(spec.precision, args, k1) {
                    Err(e) => Err(e),
                    Ok((precision, k2)) => if k2 >= args.len() {
                        Err(FormatError::NotEnoughArgs)
                    } else {
                        match args[k2 as int].rendering(
                            ConversionSpecifier { width: width, precision: precision, ..spec },
                        ) {
                            Err(e) => Err(e),
                            Ok(text) => Ok((text, k2 + 1)),
                        }
                    },
                },
            }
        },
    }
}

/// The text of the first `n` elements and the number of arguments that
/// they take; the first element that fails gives the error.
pub open spec fn rendered_prefix(elements: Seq<ElementView>, args: Seq<&dyn Format>, n: nat) -> Result<
    (Seq<char>, nat),
    FormatError,
>
    decreases n,
{
    if n == 0 {
        Ok((Seq::<char>::empty(), 0))
    } else {
        match rendered_prefix(elements, args, (n - 1) as nat) {
            Err(e) => Err(e),
            Ok((text, k)) => match rendered_element(elements[n - 1], args, k) {
                Err(e) => Err(e),
                Ok((piece, next)) => Ok((text + piece, next)),
            },
        }
    }
}

/// The text of all the elements, which together take all the arguments.
pub open spec fn rendered(elements: Seq<ElementView>, args: Seq<&dyn Format>) -> Result<
    Seq<char>,
    FormatError,
> {
    match rendered_prefix(elements, args, elements.len()) {
        Err(e) => Err(e),
        Ok((text, k)) => if k == args.len() {
            Ok(text)
        } else {
            Err(FormatError::TooManyArgs)
        },
    }
}

/// What the template `template` renders to with the arguments `args`.
pub open spec fn formatted(template: Seq<char>, args: Seq<&dyn Format>) -> Result<
    Seq<char>,
    FormatError,
> {
    match parsed(template) {
        Err(e) => Err(e),
        Ok(elements) => rendered(elements, args),
    }
}

/// Once an element has failed, its error is the result, whatever follows.
proof fn lemma_error_stays(elements: Seq<ElementView>, args: Seq<&dyn Format>, n: nat, m: nat)
    requires
        n <= m,
        rendered_prefix(elements, args, n) is Err,
    ensures
        rendered_prefix(elements, args, m) == rendered_prefix(elements, args, n),
    decreases m,
{
    if n < m {
        lemma_error_stays(elements, args, n, (m - 1) as nat);
    }
}

/// Takes the value of a width or precision from the arguments where it is
/// `*`, see `resolved_param`.
fn resolve(param: NumericParam, args: &[&dyn Format], k: usize) -> (r: Result<
    (NumericParam, usize),
    FormatError,
>)
    requires
        k <= args@.len(),
    ensures
        match r {
            Ok((p, next)) => resolved_param(param, args@, k as nat) == Ok::<
                (NumericParam, nat),
                FormatError,
            >((p, next as nat)) && next <= args@.len(),
            Err(e) => resolved_param(param, args@, k as nat) == Err::<
                (NumericParam, nat),
                FormatError,
            >(e),
        },
{
    match param {
        NumericParam::Literal(_) => Ok((param, k)),
        NumericParam::FromArgument => {
            if k >= args.len() {
                return Err(FormatError::NotEnoughArgs);
            }
            match args[k].as_int() {
                None => Err(FormatError::WrongType),
                Some(n) => Ok((NumericParam::Literal(n), k + 1)),
            }
        },
    }
}

/// Renders the elements of a parsed template with the arguments `args`.
///
/// The elements are rendered in order and each takes its arguments from
/// the front of those that are left. Fails with `NotEnoughArgs` where an
/// element finds none left, with `WrongType` where an argument cannot be
/// the width or precision asked of it, with whatever error the argument's
/// own rendering gives, and with `TooManyArgs` where arguments are left at
/// the end.
pub fn lformat(parts: &[FormatElement], args: &[&dyn Format]) -> (r: Result<String, FormatError>)
    ensures
        text_result(r) == rendered(elements_view(parts@), args@),
{
    let mut res = String::new();
    let mut k: usize = 0;
    let mut i: usize = 0;
    let ghost elements = elements_view(parts@);
    while i < parts.len()
        invariant
            i <= parts@.len(),
            k <= args@.len(),
            elements == elements_view(parts@),
            rendered_prefix(elements, args@, i as nat) == Ok::<(Seq<char>, nat), FormatError>(
                (res@, k as nat),
            ),
        decreases parts.len() - i,
    {
        assert(elements[i as int] == parts@[i as int]@);
        proof {
            if rendered_prefix(elements, args@, (i + 1) as nat) is Err {
                lemma_error_stays(elements, args@, (i + 1) as nat, elements.len());
            }
        }
        match parts[i] {
            FormatElement::Verbatim(text) => {
                res.append(text);
            },
            FormatElement::Format(spec) => {
                if let ConversionType::PercentSign = spec.conversion_type {
                    let ghost before = res@;
                    res.push('%');
                    assert(res@ =~= before + seq!['%']);
                } else {
                    let (width, k1) = match resolve(spec.width, args, k) {
                        Ok(found) => found,
                        Err(e) => {
                            return Err(e);
                        },
                    };
                    let (precision, k2) = match resolve(spec.precision, args, k1) {
                        Ok(found) => found,
                        Err(e) => {
                            return Err(e);
                        },
                    };
                    if k2 >= args.len() {
                        return Err(FormatError::NotEnoughArgs);
                    }
                    let completed = ConversionSpecifier { width, precision, ..spec };
                    match args[k2].format(&completed) {
                        Ok(piece) => {
                            res.append(piece.as_str());
                        },
                        Err(e) => {
                            return Err(e);
                        },
                    }
                    k = k2 + 1;
                }
            },
        }
        i += 1;
    }
    if k == args.len() {
        Ok(res)
    } else {
        Err(FormatError::TooManyArgs)
    }
}

/// Renders the template `template` with the arguments `args`.
///
/// Fails with `ParseError` where the template is malformed, before any
/// argument is looked at; else as `lformat` does.
pub fn format(template: &str, args: &[&dyn Format]) -> (r: Result<String, FormatError>)
    ensures
        text_result(r) == formatted(template@, args@),
{
    match parse_format_string(template) {
        Ok(elements) => lformat(elements.as_slice(), args),
        Err(e) => Err(e),
    }
}

} // verus!
