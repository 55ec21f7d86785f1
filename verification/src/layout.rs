//! Sign and padding: how a rendered number is placed in its field.

use vstd::prelude::*;
use crate::parser::ConversionSpecifier;
use crate::text::{push_all, push_repeat, repeat};

verus! {

/// The sign that stands before a number: `-` for a negative one, else `+`
/// where the sign is forced, else a space where one is asked for.
pub open spec fn sign_text(negative: bool, spec: ConversionSpecifier) -> Seq<char> {
    if negative {
        seq!['-']
    } else if spec.force_sign {
        seq!['+']
    } else if spec.space_sign {
        seq![' ']
    } else {
        Seq::<char>::empty()
    }
}

/// The number of pad characters that bring `used` up to `width`.
pub open spec fn fill(width: nat, used: nat) -> nat {
    if width > used {
        (width - used) as nat
    } else {
        0
    }
}

/// `lead` (sign and base prefix) and `body` (the digits) in a field of
/// `width` characters: padded with spaces on the right when `left` is set,
/// else with zeros between `lead` and `body` when `zero` is set, else with
/// spaces on the left. A field that is too narrow is outgrown.
pub open spec fn laid_out(
    lead: Seq<char>,
    body: Seq<char>,
    width: nat,
    left: bool,
    zero: bool,
) -> Seq<char> {
    let n = fill(width, lead.len() + body.len());
    if left {
        lead + body + repeat(' ', n)
    } else if zero {
        lead + repeat('0', n) + body
    } else {
        repeat(' ', n) + lead + body
    }
}

/// The sign for a number, see `sign_text`.
pub(crate) fn sign_for(negative: bool, spec: &ConversionSpecifier) -> (v: Vec<char>)
    ensures
        v@ == sign_text(negative, *spec),
{
    let mut v: Vec<char> = Vec::new();
    if negative {
        v.push('-');
    } else if spec.force_sign {
        v.push('+');
    } else if spec.space_sign {
        v.push(' ');
    }
    v
}

/// Places `lead` and `body` in a field, see `laid_out`.
pub(crate) fn lay_out(lead: &Vec<char>, body: &Vec<char>, width: usize, left: bool, zero: bool) -> (out:
    Vec<char>)
    ensures
        out@ == laid_out(lead@, body@, width as nat, left, zero),
{
    let short: usize = if width > lead.len() {
        width - lead.len()
    } else {
        0
    };
    let n: usize = if short > body.len() {
        short - body.len()
    } else {
        0
    };
    let mut out: Vec<char> = Vec::new();
    if left {
        push_all(&mut out, lead);
        push_all(&mut out, body);
        push_repeat(&mut out, ' ', n);
    } else if zero {
        push_all(&mut out, lead);
        push_repeat(&mut out, '0', n);
        push_all(&mut out, body);
    } else {
        push_repeat(&mut out, ' ', n);
        push_all(&mut out, lead);
        push_all(&mut out, body);
    }
    out
}

} // verus!
