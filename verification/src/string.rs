//! Characters and strings as text: plain, cut to a precision, and quoted.

use vstd::prelude::*;
use crate::digits::{
    decimal,
    digits_end,
    is_digit,
    lemma_decimal_chars,
    lemma_digits_after_skip,
    lemma_digits_end,
    lemma_number_of_decimal,
    lemma_run_end,
    number,
    push_digits,
    read_number,
    scan_digits,
};
use crate::layout::fill;
use crate::parser::{ConversionSpecifier, ConversionType};
use crate::text::{chars_of, chars_result, push_repeat, repeat, string_of};
use crate::FormatError;

verus! {

/// The number of bytes that `c` takes in UTF-8.
pub open spec fn char_width(c: char) -> nat {
    if (c as nat) < 0x80 {
        1
    } else if (c as nat) < 0x800 {
        2
    } else if (c as nat) < 0x1_0000 {
        3
    } else {
        4
    }
}

/// The number of bytes that `t` takes in UTF-8.
pub open spec fn byte_width(t: Seq<char>) -> nat
    decreases t.len(),
{
    if t.len() == 0 {
        0
    } else {
        char_width(t[0]) + byte_width(t.drop_first())
    }
}

/// How many characters from the start of `t` fit in `limit` bytes.
pub open spec fn clip_len(t: Seq<char>, limit: nat) -> nat
    decreases t.len(),
{
    if t.len() == 0 || char_width(t[0]) > limit {
        0
    } else {
        1 + clip_len(t.drop_first(), (limit - char_width(t[0])) as nat)
    }
}

/// `t` cut to at most `limit` bytes, at a character boundary.
pub open spec fn clipped(t: Seq<char>, limit: nat) -> Seq<char> {
    t.take(clip_len(t, limit) as int)
}

/// `body` in a field of `width` bytes, padded with spaces: on the right
/// when `left` is set, else on the left.
pub open spec fn in_field(body: Seq<char>, width: nat, left: bool) -> Seq<char> {
    let n = fill(width, byte_width(body));
    if left {
        body + repeat(' ', n)
    } else {
        repeat(' ', n) + body
    }
}

/// What stands for `c` between the quotes of a quoted string.
pub open spec fn escape(c: char) -> Seq<char> {
    if c == '"' {
        seq!['\\', '"']
    } else if c == '\\' {
        seq!['\\', '\\']
    } else if c == '\n' {
        seq!['\\', 'n']
    } else if c == '\r' {
        seq!['\\', 'r']
    } else if c == '\0' {
        seq!['\\', '0']
    } else if is_control(c) {
        seq!['\\'] + decimal(c as nat)
    } else {
        seq![c]
    }
}

/// `c` is a control character: below 32, or 127.
pub open spec fn is_control(c: char) -> bool {
    (c as nat) < 32 || (c as nat) == 127
}

/// `t` with each character escaped.
pub open spec fn escaped(t: Seq<char>) -> Seq<char>
    decreases t.len(),
{
    if t.len() == 0 {
        Seq::<char>::empty()
    } else {
        escape(t[0]) + escaped(t.drop_first())
    }
}

/// `t` escaped, between double quotes.
pub open spec fn quoted(t: Seq<char>) -> Seq<char> {
    seq!['"'] + escaped(t) + seq!['"']
}

/// A character under a specifier: the character in its field.
pub open spec fn char_text(c: char, spec: ConversionSpecifier) -> Result<Seq<char>, FormatError> {
    if !spec.resolved() {
        Err(FormatError::Unknown)
    } else if spec.conversion_type is Char {
        Ok(in_field(seq![c], spec.field_width(), spec.left_adj))
    } else {
        Err(FormatError::WrongType)
    }
}

/// A string under a specifier. As a string it is cut to the precision,
/// counted in bytes and never inside a character, and placed in its field.
/// Quoted, it is escaped between double quotes; width and precision are not
/// looked at.
pub open spec fn string_text(t: Seq<char>, spec: ConversionSpecifier) -> Result<
    Seq<char>,
    FormatError,
> {
    if !spec.resolved() {
        Err(FormatError::Unknown)
    } else if spec.conversion_type is String {
        Ok(in_field(clipped(t, spec.digits_wanted()), spec.field_width(), spec.left_adj))
    } else if spec.conversion_type is QuotedString {
        Ok(quoted(t))
    } else {
        Err(FormatError::WrongType)
    }
}

/// `c` is written in a quoted string as a backslash and its code in
/// decimal.
pub open spec fn is_numbered(c: char) -> bool {
    is_control(c) && c != '\n' && c != '\r' && c != '\0'
}

/// `text` after `c`, where the rest of the text can be read.
pub open spec fn after(c: char, rest: Option<Seq<char>>) -> Option<Seq<char>> {
    match rest {
        Some(text) => Some(seq![c] + text),
        None => None,
    }
}

/// The text that `s` is the escaped form of: a backslash is read with what
/// follows it, a `"`, a backslash, `n`, `r`, `0`, or the whole run of
/// digits after it as the code of a control character; any other character
/// stands for itself. `None` where a backslash is followed by anything
/// else.
pub open spec fn unescaped(s: Seq<char>) -> Option<Seq<char>>
    decreases s.len(),
    via unescaped_terminates
{
    if s.len() == 0 {
        Some(Seq::<char>::empty())
    } else if s[0] != '\\' {
        after(s[0], unescaped(s.drop_first()))
    } else if s.len() < 2 {
        None
    } else if s[1] == '"' || s[1] == '\\' {
        after(s[1], unescaped(s.skip(2)))
    } else if s[1] == 'n' {
        after('\n', unescaped(s.skip(2)))
    } else if s[1] == 'r' {
        after('\r', unescaped(s.skip(2)))
    } else if s[1] == '0' {
        after('\0', unescaped(s.skip(2)))
    } else if is_digit(s[1]) && number(s, 1, digits_end(s, 1)) < 128 && is_numbered(
        number(s, 1, digits_end(s, 1)) as char,
    ) {
        after(number(s, 1, digits_end(s, 1)) as char, unescaped(s.skip(digits_end(s, 1))))
    } else {
        None
    }
}

#[via_fn]
proof fn unescaped_terminates(s: Seq<char>) {
    if s.len() >= 2 {
        lemma_digits_end(s, 1);
        if is_digit(s[1]) {
            lemma_digits_end(s, 2);
        }
    }
}

/// The text that the quoted string `s` stands for: what is between its
/// quotes, unescaped.
pub open spec fn unquoted(s: Seq<char>) -> Option<Seq<char>> {
    if s.len() >= 2 && s[0] == '"' && s.last() == '"' {
        unescaped(s.subrange(1, s.len() - 1))
    } else {
        None
    }
}

/// No character that is written as a backslash and a number is followed
/// by a digit, which would read as part of the number.
pub open spec fn reads_back(t: Seq<char>) -> bool {
    forall|i: int| 0 <= i && i + 1 < t.len() && is_numbered(#[trigger] t[i]) ==> !is_digit(t[i + 1])
}

/// A character is the character of its code, and only the character NUL
/// has the code 0.
proof fn lemma_char_code(c: char)
    ensures
        (c as nat) as char == c,
        c != '\0' ==> c as nat != 0,
{
}

/// What a character is escaped to starts with the character itself or with
/// a backslash.
proof fn lemma_escaped_start(t: Seq<char>)
    requires
        t.len() > 0,
    ensures
        escaped(t).len() > 0,
        escaped(t)[0] == '\\' || escaped(t)[0] == t[0],
{
    lemma_decimal_chars(t[0] as nat);
}

/// Escaping can be undone where `reads_back` holds.
proof fn lemma_escape_round_trip(t: Seq<char>)
    requires
        reads_back(t),
    ensures
        unescaped(escaped(t)) == Some(t),
    decreases t.len(),
{
    if t.len() > 0 {
        let c = t[0];
        let rest = t.drop_first();
        let s = escaped(t);
        assert(reads_back(rest)) by {
            assert forall|i: int| 0 <= i && i + 1 < rest.len() && is_numbered(
                #[trigger] rest[i],
            ) implies !is_digit(rest[i + 1]) by {
                assert(rest[i] == t[i + 1]);
                assert(is_numbered(t[i + 1]));
            }
        }
        lemma_escape_round_trip(rest);
        assert(seq![c] + rest =~= t);
        if is_numbered(c) && c != '"' && c != '\\' {
            let code = decimal(c as nat);
            lemma_char_code(c);
            lemma_decimal_chars(c as nat);
            let end = 1 + code.len();
            assert(s =~= seq!['\\'] + code + escaped(rest));
            assert(s.subrange(1, end as int) =~= code);
            assert forall|k: int| 1 <= k < end implies is_digit(#[trigger] s[k]) by {
                assert(s[k] == code[k - 1]);
            }
            if rest.len() > 0 {
                lemma_escaped_start(rest);
                assert(s[end as int] == escaped(rest)[0]);
                assert(is_numbered(t[0]));
                assert(!is_digit(t[1]));
                assert(rest[0] == t[1]);
            } else {
                assert(escaped(rest).len() == 0);
            }
            lemma_run_end(s, 1, end as int);
            lemma_number_of_decimal(s, 1, c as nat);
            assert(s.skip(end as int) =~= escaped(rest));
            assert(s[1] == code[0]);
        } else if c == '"' || c == '\\' || c == '\n' || c == '\r' || c == '\0' {
            assert(s.skip(2) =~= escaped(rest));
        } else {
            assert(s.drop_first() =~= escaped(rest));
        }
    }
}

/// Quoting can be undone: unquoting a quoted text gives the text back,
/// provided that in it no control character that is written as a number is
/// followed by a digit.
pub proof fn lemma_quote_round_trip(t: Seq<char>)
    requires
        reads_back(t),
    ensures
        unquoted(quoted(t)) == Some(t),
{
    lemma_escape_round_trip(t);
    assert(quoted(t).subrange(1, quoted(t).len() - 1) =~= escaped(t));
}

/// The bytes counted here are those of the text's UTF-8 encoding, which is
/// what `str::len` counts.
pub proof fn lemma_byte_width_is_encoded_len(t: Seq<char>)
    ensures
        byte_width(t) == vstd::utf8::encode_utf8(t).len(),
    decreases t.len(),
{
    if t.len() > 0 {
        lemma_char_code(t[0]);
        lemma_byte_width_is_encoded_len(t.drop_first());
    }
}

/// One more character adds its bytes.
proof fn lemma_byte_width_take(t: Seq<char>, n: int)
    requires
        0 <= n < t.len(),
    ensures
        byte_width(t.take(n + 1)) == byte_width(t.take(n)) + char_width(t[n]),
    decreases n,
{
    if n == 0 {
        assert(t.take(1).drop_first() =~= t.take(0));
        assert(byte_width(t.take(0)) == 0);
    } else {
        assert(t.take(n + 1).drop_first() =~= t.drop_first().take(n));
        assert(t.take(n).drop_first() =~= t.drop_first().take(n - 1));
        lemma_byte_width_take(t.drop_first(), n - 1);
    }
}

/// Cutting a text to a number of bytes gives its longest start that fits:
/// the result is the text up to a character boundary, it takes no more
/// than `limit` bytes, and with the next character it would take more.
pub proof fn lemma_clipped_is_longest(t: Seq<char>, limit: nat)
    ensures
        clip_len(t, limit) <= t.len(),
        clipped(t, limit) == t.subrange(0, clip_len(t, limit) as int),
        byte_width(clipped(t, limit)) <= limit,
        clip_len(t, limit) < t.len() ==> byte_width(t.take(clip_len(t, limit) as int + 1)) > limit,
    decreases t.len(),
{
    if t.len() == 0 || char_width(t[0]) > limit {
        assert(t.take(0).len() == 0);
        if t.len() > 0 {
            lemma_byte_width_take(t, 0);
        }
    } else {
        let rest = t.drop_first();
        let left = (limit - char_width(t[0])) as nat;
        let n = clip_len(rest, left) as int;
        lemma_clipped_is_longest(rest, left);
        assert(t.take(n + 1).drop_first() =~= rest.take(n));
        if n < rest.len() {
            assert(t.take(n + 2).drop_first() =~= rest.take(n + 1));
        }
    }
}

/// A text of one character is kept whole where the limit is at least the
/// bytes of the character, and cut to nothing below that: a character of
/// four bytes needs a limit of four.
pub proof fn lemma_clipped_character(c: char, limit: nat)
    ensures
        limit >= char_width(c) ==> clipped(seq![c], limit) == seq![c],
        limit < char_width(c) ==> clipped(seq![c], limit) == Seq::<char>::empty(),
        1 <= char_width(c) <= 4,
{
    let t = seq![c];
    assert(t[0] == c);
    if limit >= char_width(c) {
        assert(t.drop_first().len() == 0);
        assert(clip_len(t.drop_first(), (limit - char_width(c)) as nat) == 0);
        assert(t.take(1) =~= t);
    } else {
        assert(t.take(0) =~= Seq::<char>::empty());
    }
}

/// The number of bytes that `c` takes in UTF-8.
pub(crate) fn char_bytes(c: char) -> (n: usize)
    ensures
        n as nat == char_width(c),
{
    let code: u32 = c as u32;
    if code < 0x80 {
        1
    } else if code < 0x800 {
        2
    } else if code < 0x1_0000 {
        3
    } else {
        4
    }
}

/// The number of spaces that bring the first `count` characters of `t` up to
/// `width` bytes.
fn shortfall(t: &Vec<char>, count: usize, width: usize) -> (n: usize)
    requires
        count <= t.len(),
    ensures
        n as nat == fill(width as nat, byte_width(t@.take(count as int))),
{
    let ghost body = t@.take(count as int);
    let mut left: usize = width;
    let mut i: usize = 0;
    assert(body.skip(0) =~= body);
    while i < count
        invariant
            i <= count <= t.len(),
            body == t@.take(count as int),
            fill(width as nat, byte_width(body)) == fill(left as nat, byte_width(body.skip(i as int))),
        decreases count - i,
    {
        let w = char_bytes(t[i]);
        proof {
            assert(body.skip(i as int).drop_first() =~= body.skip(i + 1));
            assert(body.skip(i as int)[0] == t@[i as int]);
        }
        if left <= w {
            return 0;
        }
        left = left - w;
        i += 1;
    }
    assert(body.skip(count as int).len() == 0);
    left
}

/// How many characters from the start of `t` fit in `limit` bytes.
fn clip(t: &Vec<char>, limit: usize) -> (n: usize)
    ensures
        n as nat == clip_len(t@, limit as nat),
        n <= t.len(),
{
    let mut left: usize = limit;
    let mut i: usize = 0;
    assert(t@.skip(0) =~= t@);
    while i < t.len()
        invariant
            i <= t.len(),
            clip_len(t@, limit as nat) == i + clip_len(t@.skip(i as int), left as nat),
        decreases t.len() - i,
    {
        let w = char_bytes(t[i]);
        proof {
            assert(t@.skip(i as int).drop_first() =~= t@.skip(i + 1));
            assert(t@.skip(i as int)[0] == t@[i as int]);
        }
        if w > left {
            return i;
        }
        left = left - w;
        i += 1;
    }
    assert(t@.skip(i as int).len() == 0);
    i
}

/// The first `count` characters of `t`, in a field of `width` bytes.
fn place(t: &Vec<char>, count: usize, width: usize, left: bool) -> (out: Vec<char>)
    requires
        count <= t.len(),
    ensures
        out@ == in_field(t@.take(count as int), width as nat, left),
{
    let n = shortfall(t, count, width);
    let mut out: Vec<char> = Vec::new();
    if !left {
        push_repeat(&mut out, ' ', n);
    }
    let ghost before = out@;
    let mut i: usize = 0;
    while i < count
        invariant
            i <= count <= t.len(),
            out@ == before + t@.take(i as int),
        decreases count - i,
    {
        out.push(t[i]);
        assert(t@.take(i + 1) =~= t@.take(i as int).push(t@[i as int]));
        i += 1;
    }
    if left {
        push_repeat(&mut out, ' ', n);
    }
    assert(out@ =~= in_field(t@.take(count as int), width as nat, left));
    out
}

/// Appends what stands for `c` in a quoted string, see `escape`.
fn push_escape(out: &mut Vec<char>, c: char)
    ensures
        final(out)@ == old(out)@ + escape(c),
{
    let code: u32 = c as u32;
    if c == '"' {
        out.push('\\');
        out.push('"');
    } else if c == '\\' {
        out.push('\\');
        out.push('\\');
    } else if c == '\n' {
        out.push('\\');
        out.push('n');
    } else if c == '\r' {
        out.push('\\');
        out.push('r');
    } else if c == '\0' {
        out.push('\\');
        out.push('0');
    } else if code < 32 || code == 127 {
        out.push('\\');
        push_digits(out, code as u64, 10, false);
    } else {
        out.push(c);
    }
    assert(out@ =~= old(out)@ + escape(c));
}

/// `t` escaped, between double quotes.
fn quote(t: &Vec<char>) -> (out: Vec<char>)
    ensures
        out@ == quoted(t@),
{
    let mut out: Vec<char> = Vec::new();
    out.push('"');
    let mut i: usize = 0;
    assert(t@.skip(0) =~= t@);
    while i < t.len()
        invariant
            i <= t.len(),
            out@ + escaped(t@.skip(i as int)) == seq!['"'] + escaped(t@),
        decreases t.len() - i,
    {
        let ghost before = out@;
        push_escape(&mut out, t[i]);
        proof {
            let rest = t@.skip(i as int);
            assert(rest.drop_first() =~= t@.skip(i + 1));
            assert(rest[0] == t@[i as int]);
            assert(out@ + escaped(t@.skip(i + 1)) =~= before + escaped(rest));
        }
        i += 1;
    }
    assert(escaped(t@.skip(i as int)) =~= Seq::<char>::empty());
    assert(out@ =~= seq!['"'] + escaped(t@));
    out.push('"');
    out
}

/// What is read so far, followed by what the rest of the text gives.
spec fn read_on(head: Seq<char>, rest: Option<Seq<char>>) -> Option<Seq<char>> {
    match rest {
        Some(tail) => Some(head + tail),
        None => None,
    }
}

/// The text that the quoted string `text` stands for, see `unquoted`.
pub fn unquote(text: &str) -> (r: Option<String>)
    ensures
        match r {
            Some(s) => unquoted(text@) == Some(s@),
            None => unquoted(text@) is None,
        },
{
    let t = chars_of(text);
    let n = t.len();
    if n < 2 || t[0] != '"' || t[n - 1] != '"' {
        return None;
    }
    let mut b: Vec<char> = Vec::new();
    let mut j: usize = 1;
    while j < n - 1
        invariant
            1 <= j <= n - 1,
            n == t.len(),
            b@ == t@.subrange(1, j as int),
        decreases n - j,
    {
        b.push(t[j]);
        j += 1;
        assert(b@ =~= t@.subrange(1, j as int));
    }
    let mut out: Vec<char> = Vec::new();
    let mut i: usize = 0;
    assert(b@.skip(0) =~= b@);
    assert(Seq::<char>::empty() + unescaped(b@)->0 =~= unescaped(b@)->0);
    assert(unquoted(text@) == unescaped(b@));
    while i < b.len()
        invariant
            i <= b.len(),
            unquoted(text@) == unescaped(b@),
            unescaped(b@) == read_on(out@, unescaped(b@.skip(i as int))),
        decreases b.len() - i,
    {
        let ghost s = b@.skip(i as int);
        let ghost before = out@;
        let c = b[i];
        assert(s[0] == c);
        if c != '\\' {
            out.push(c);
            proof {
                assert(s.drop_first() =~= b@.skip(i + 1));
                if let Some(tail) = unescaped(b@.skip(i + 1)) {
                    assert(before + (seq![c] + tail) =~= out@ + tail);
                }
            }
            i += 1;
        } else {
            if b.len() - i < 2 {
                return None;
            }
            let e = b[i + 1];
            assert(s[1] == e);
            let mut end: usize = i + 2;
            let found: char = if e == '"' || e == '\\' {
                e
            } else if e == 'n' {
                '\n'
            } else if e == 'r' {
                '\r'
            } else if e == '0' {
                '\0'
            } else if '0' <= e && e <= '9' {
                end = scan_digits(&b, i + 1);
                proof {
                    lemma_digits_end(s, 1);
                    lemma_digits_after_skip(b@, i as int, 1, digits_end(s, 1));
                }
                match read_number(&b, i + 1, end, 127) {
                    None => {
                        return None;
                    },
                    Some(code) => {
                        if code == 0 || code == 10 || code == 13 || (code >= 32 && code != 127) {
                            return None;
                        }
                        match char::from_u32(code as u32) {
                            Some(found) => found,
                            None => {
                                return None;
                            },
                        }
                    },
                }
            } else {
                return None;
            };
            out.push(found);
            proof {
                assert(s.skip(end - i) =~= b@.skip(end as int));
                if let Some(tail) = unescaped(b@.skip(end as int)) {
                    assert(before + (seq![found] + tail) =~= out@ + tail);
                }
            }
            i = end;
        }
    }
    proof {
        assert(b@.skip(i as int).len() == 0);
        assert(out@ + Seq::<char>::empty() =~= out@);
    }
    Some(string_of(&out))
}

/// Renders a character, see `char_text`.
pub(crate) fn format_char(c: char, spec: &ConversionSpecifier) -> (r: Result<Vec<char>, FormatError>)
    ensures
        chars_result(r) == char_text(c, *spec),
{
    if !spec.is_resolved() {
        return Err(FormatError::Unknown);
    }
    match spec.conversion_type {
        ConversionType::Char => {
            let mut t: Vec<char> = Vec::new();
            t.push(c);
            assert(t@.take(1) =~= seq![c]);
            Ok(place(&t, 1, spec.width_or_zero(), spec.left_adj))
        },
        _ => Err(FormatError::WrongType),
    }
}

/// Renders a string, see `string_text`.
pub(crate) fn format_str(s: &str, spec: &ConversionSpecifier) -> (r: Result<Vec<char>, FormatError>)
    ensures
        chars_result(r) == string_text(s@, *spec),
{
    if !spec.is_resolved() {
        return Err(FormatError::Unknown);
    }
    match spec.conversion_type {
        ConversionType::String => {
            let t = chars_of(s);
            let count = clip(&t, spec.precision_or_zero());
            Ok(place(&t, count, spec.width_or_zero(), spec.left_adj))
        },
        ConversionType::QuotedString => {
            let t = chars_of(s);
            Ok(quote(&t))
        },
        _ => Err(FormatError::WrongType),
    }
}

} // verus!
