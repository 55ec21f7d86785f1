//! What holds of whole format calls: laws that relate a template, its
//! parse and the text it renders to.

use vstd::prelude::*;
use crate::digits::{
    decimal,
    digits_end,
    is_digit,
    lemma_decimal_chars,
    lemma_number_of_decimal,
    lemma_run_end,
    number,
};
use crate::format::Format;
use crate::integer::{
    canonical,
    lemma_decimal_fills_field,
    plain_decimal,
    signed_text,
    trim_end,
    trim_start,
};
use crate::parser::{
    conversion_at,
    conversion_of,
    flags_end,
    is_flag,
    modifier_len,
    occurs,
    param_at,
    parsed,
    parsed_from,
    percent_at,
    precision_at,
    specifier_at,
    verbatim,
    ConversionSpecifier,
    ConversionType,
    ElementView,
    NumericParam,
};
use crate::{formatted, rendered, rendered_element, rendered_prefix, resolved_param, FormatError};

verus! {

/// The template `%<w>d`: a decimal conversion with the width `w`.
pub open spec fn width_template(w: nat) -> Seq<char> {
    seq!['%'] + decimal(w) + seq!['d']
}

/// The specifier that `width_template(w)` writes: a decimal conversion with
/// the width `w` and no flag, but for the width 0, whose digit is the flag
/// `0`.
pub open spec fn width_specifier(w: nat) -> ConversionSpecifier {
    ConversionSpecifier {
        alt_form: false,
        zero_pad: w == 0,
        left_adj: false,
        space_sign: false,
        force_sign: false,
        width: NumericParam::Literal(w as i32),
        precision: NumericParam::Literal(6),
        conversion_type: ConversionType::DecInt,
    }
}

/// The template `%<w>d` parses to one element, the specifier
/// `width_specifier(w)`.
pub proof fn lemma_width_template_parses(w: nat)
    requires
        w <= 0x7fff_ffff,
    ensures
        parsed(width_template(w)) == Ok::<Seq<ElementView>, FormatError>(
            seq![ElementView::Format(width_specifier(w))],
        ),
        plain_decimal(width_specifier(w)),
        width_specifier(w).field_width() == w,
{
    let s = width_template(w);
    let d = decimal(w);
    let k = 1 + d.len() as int;
    lemma_decimal_chars(w);
    assert(s.len() == k + 1);
    assert(s[0] == '%');
    assert(s[k] == 'd');
    assert forall|i: int| 1 <= i < k implies is_digit(#[trigger] s[i]) by {
        assert(s[i] == d[i - 1]);
    }
    assert(s[1] == d[0]);
    assert(percent_at(s, 0) == 0);
    assert(verbatim(s, 0, 0) =~= Seq::<ElementView>::empty());
    reveal_with_fuel(flags_end, 3);
    reveal_with_fuel(occurs, 3);
    let f = flags_end(s, 1);
    if w == 0 {
        assert(d =~= seq!['0']);
        assert(f == 2);
        assert(digits_end(s, 2) == 2);
        assert(number(s, 2, 2) == 0);
    } else {
        assert(!is_flag(s[1]));
        assert(f == 1);
        lemma_run_end(s, 1, k);
        assert(s.subrange(1, k) =~= d);
        lemma_number_of_decimal(s, 1, w);
    }
    assert(param_at(s, f) == Some((NumericParam::Literal(w as i32), k)));
    assert(precision_at(s, k) == Some((None::<NumericParam>, k)));
    assert(modifier_len(s, k) == 0);
    assert(conversion_of('d') == Some(ConversionType::DecInt));
    assert(conversion_at(s, k) == Some(k));
    assert(specifier_at(s, 1) == Some((width_specifier(w), k + 1)));
    assert(parsed_from(s, k + 1) == Ok::<Seq<ElementView>, FormatError>(
        Seq::<ElementView>::empty(),
    ));
    assert(verbatim(s, 0, 0) + seq![ElementView::Format(width_specifier(w))] + Seq::<
        ElementView,
    >::empty() =~= seq![ElementView::Format(width_specifier(w))]);
}

/// A template that is one specifier without `*`, with one argument,
/// renders to what the argument renders to under that specifier.
pub proof fn lemma_single_specifier(spec: ConversionSpecifier, args: Seq<&dyn Format>)
    requires
        spec.resolved(),
        !(spec.conversion_type is PercentSign),
        args.len() == 1,
    ensures
        rendered(seq![ElementView::Format(spec)], args) == args[0].rendering(spec),
{
    let elements = seq![ElementView::Format(spec)];
    let a = args[0];
    reveal_with_fuel(rendered_prefix, 2);
    assert(elements.len() == 1 && elements[0] == ElementView::Format(spec));
    assert(rendered_prefix(elements, args, 0) == Ok::<(Seq<char>, nat), FormatError>(
        (Seq::<char>::empty(), 0),
    ));
    assert(resolved_param(spec.width, args, 0) == Ok::<(NumericParam, nat), FormatError>(
        (spec.width, 0),
    ));
    assert(resolved_param(spec.precision, args, 0) == Ok::<(NumericParam, nat), FormatError>(
        (spec.precision, 0),
    ));
    assert((ConversionSpecifier { width: spec.width, precision: spec.precision, ..spec }) == spec);
    if a.rendering(spec) is Ok {
        let text = a.rendering(spec)->Ok_0;
        assert(rendered_element(elements[0], args, 0) == Ok::<(Seq<char>, nat), FormatError>(
            (text, 1),
        ));
        assert(Seq::<char>::empty() + text =~= text);
        assert(rendered_prefix(elements, args, 1) == Ok::<(Seq<char>, nat), FormatError>(
            (text, 1),
        ));
    } else {
        let e = a.rendering(spec)->Err_0;
        assert(rendered_element(elements[0], args, 0) == Err::<(Seq<char>, nat), FormatError>(e));
        assert(rendered_prefix(elements, args, 1) == Err::<(Seq<char>, nat), FormatError>(e));
    }
}

/// A signed integer under `%<w>d` fills its field: with one argument,
/// which renders as the signed integer `v` does, the text has at least `w`
/// characters, and without the spaces around it, it is `v` as canonically
/// written, with a `-` exactly where `v` is negative.
pub proof fn lemma_decimal_in_field(args: Seq<&dyn Format>, v: int, pattern: nat, w: nat)
    requires
        w <= 0x7fff_ffff,
        args.len() == 1,
        args[0].rendering(width_specifier(w)) == signed_text(v, pattern, width_specifier(w)),
    ensures
        formatted(width_template(w), args) is Ok,
        formatted(width_template(w), args)->Ok_0.len() >= w,
        trim_end(trim_start(formatted(width_template(w), args)->Ok_0)) == canonical(v),
        canonical(v)[0] == '-' <==> v < 0,
{
    lemma_width_template_parses(w);
    lemma_single_specifier(width_specifier(w), args);
    lemma_decimal_fills_field(v, pattern, width_specifier(w));
}

} // verus!
