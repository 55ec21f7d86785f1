use lformat::string::unquote;
use lformat::{ConversionSpecifier, ConversionType, Format, FormatError, NumericParam};

fn spec(conversion_type: ConversionType) -> ConversionSpecifier {
    ConversionSpecifier {
        alt_form: false,
        zero_pad: false,
        left_adj: false,
        space_sign: false,
        force_sign: false,
        width: NumericParam::Literal(0),
        precision: NumericParam::Literal(i32::MAX),
        conversion_type,
    }
}

#[test]
fn strings_are_copied() {
    assert_eq!(lformat::format("%s", &[&""]).unwrap(), "");
    assert_eq!(lformat::format("%s", &[&"plain"]).unwrap(), "plain");
    assert_eq!(lformat::format("%S", &[&"plain"]).unwrap(), "plain");
    assert_eq!(lformat::format("%s", &[&String::from("owned")]).unwrap(), "owned");
    assert_eq!(lformat::format("%s|%s", &[&"a\nb", &"\"q\""]).unwrap(), "a\nb|\"q\"");
}

#[test]
fn strings_are_padded_by_their_bytes() {
    assert_eq!(lformat::format("%6s|", &[&"ab"]).unwrap(), "    ab|");
    assert_eq!(lformat::format("%-6s|", &[&"ab"]).unwrap(), "ab    |");
    assert_eq!(lformat::format("%06s|", &[&"ab"]).unwrap(), "    ab|");
    assert_eq!(lformat::format("%2s|", &[&"abc"]).unwrap(), "abc|");
    assert_eq!(lformat::format("%6s|", &[&"äb"]).unwrap(), "   äb|");
    assert_eq!(lformat::format("%6s|", &[&"€"]).unwrap(), "   €|");
    assert_eq!(lformat::format("%-6s|", &[&"𒀀"]).unwrap(), "𒀀  |");
    assert_eq!(lformat::format("%6s|", &[&String::from("äb")]).unwrap(), "   äb|");
}

#[test]
fn precision_cuts_strings_at_character_boundaries() {
    assert_eq!(lformat::format("%.0s|", &[&"abc"]).unwrap(), "|");
    assert_eq!(lformat::format("%.2s|", &[&"abc"]).unwrap(), "ab|");
    assert_eq!(lformat::format("%.3s|", &[&"abc"]).unwrap(), "abc|");
    assert_eq!(lformat::format("%.9s|", &[&"abc"]).unwrap(), "abc|");
    assert_eq!(lformat::format("%.1s|", &[&"äb"]).unwrap(), "|");
    assert_eq!(lformat::format("%.2s|", &[&"äb"]).unwrap(), "ä|");
    assert_eq!(lformat::format("%.3s|", &[&"äb"]).unwrap(), "äb|");
    assert_eq!(lformat::format("%.2s|", &[&"a€"]).unwrap(), "a|");
    assert_eq!(lformat::format("%.3s|", &[&"a€"]).unwrap(), "a|");
    assert_eq!(lformat::format("%.4s|", &[&"a€"]).unwrap(), "a€|");
}

#[test]
fn four_byte_character_needs_four_bytes_of_precision() {
    for precision in 1..=3 {
        let template = format!("%5.{precision}s|");
        assert_eq!(lformat::format(&template, &[&"𒀀"]).unwrap(), "     |");
        let template = format!("%-5.{precision}s|");
        assert_eq!(lformat::format(&template, &[&"𒀀"]).unwrap(), "     |");
    }
    for precision in 4..=9 {
        let template = format!("%5.{precision}s|");
        assert_eq!(lformat::format(&template, &[&"𒀀"]).unwrap(), " 𒀀|");
    }
}

#[test]
fn characters_are_padded_by_their_bytes() {
    assert_eq!(lformat::format("%c", &[&'x']).unwrap(), "x");
    assert_eq!(lformat::format("%C", &[&'x']).unwrap(), "x");
    assert_eq!(lformat::format("%3c|", &[&'x']).unwrap(), "  x|");
    assert_eq!(lformat::format("%-3c|", &[&'x']).unwrap(), "x  |");
    assert_eq!(lformat::format("%3c|", &[&'ä']).unwrap(), " ä|");
    assert_eq!(lformat::format("%3c|", &[&'€']).unwrap(), "€|");
    assert_eq!(lformat::format("%5c|", &[&'𒀀']).unwrap(), " 𒀀|");
    assert_eq!(lformat::format("%-5c|", &[&'𒀀']).unwrap(), "𒀀 |");
    assert_eq!(lformat::format("%03c|", &[&'x']).unwrap(), "  x|");
}

#[test]
fn strings_and_characters_refuse_other_conversions() {
    for template in ["%d", "%x", "%o", "%f", "%e", "%g", "%a", "%c"] {
        assert_eq!(lformat::format(template, &[&"s"]), Err(FormatError::WrongType), "{template}");
        assert_eq!(
            lformat::format(template, &[&String::from("s")]),
            Err(FormatError::WrongType),
            "{template}"
        );
    }
    for template in ["%d", "%x", "%o", "%f", "%e", "%g", "%a", "%s", "%q"] {
        assert_eq!(lformat::format(template, &[&'c']), Err(FormatError::WrongType), "{template}");
    }
    let unresolved = ConversionSpecifier {
        precision: NumericParam::FromArgument,
        ..spec(ConversionType::String)
    };
    assert_eq!("s".format(&unresolved), Err(FormatError::Unknown));
    assert_eq!('c'.format(&unresolved), Err(FormatError::Unknown));
}

#[test]
fn quoting_escapes_each_special_character() {
    assert_eq!(lformat::format("%q", &[&"\""]).unwrap(), "\"\\\"\"");
    assert_eq!(lformat::format("%q", &[&"\\"]).unwrap(), "\"\\\\\"");
    assert_eq!(lformat::format("%q", &[&"\n"]).unwrap(), "\"\\n\"");
    assert_eq!(lformat::format("%q", &[&"\r"]).unwrap(), "\"\\r\"");
    assert_eq!(lformat::format("%q", &[&"\0"]).unwrap(), "\"\\0\"");
    assert_eq!(lformat::format("%q", &[&"\x01"]).unwrap(), "\"\\1\"");
    assert_eq!(lformat::format("%q", &[&"\t"]).unwrap(), "\"\\9\"");
    assert_eq!(lformat::format("%q", &[&"\x0b"]).unwrap(), "\"\\11\"");
    assert_eq!(lformat::format("%q", &[&"\x1f"]).unwrap(), "\"\\31\"");
    assert_eq!(lformat::format("%q", &[&"\x7f"]).unwrap(), "\"\\127\"");
    assert_eq!(lformat::format("%q", &[&" ~"]).unwrap(), "\" ~\"");
}

#[test]
fn quoting_passes_other_characters_through() {
    assert_eq!(lformat::format("%q", &[&"größe € 𒀀"]).unwrap(), "\"größe € 𒀀\"");
    assert_eq!(lformat::format("%q", &[&"\u{80}\u{9f}"]).unwrap(), "\"\u{80}\u{9f}\"");
    assert_eq!(lformat::format("%q", &[&String::from("a'b")]).unwrap(), "\"a'b\"");
}

#[test]
fn quoting_ignores_width_and_precision() {
    assert_eq!(lformat::format("%10q|", &[&"ab"]).unwrap(), "\"ab\"|");
    assert_eq!(lformat::format("%-10q|", &[&"ab"]).unwrap(), "\"ab\"|");
    assert_eq!(lformat::format("%.1q|", &[&"abc"]).unwrap(), "\"abc\"|");
    assert_eq!(lformat::format("%010.1q|", &[&"abc"]).unwrap(), "\"abc\"|");
}

#[test]
fn unquote_undoes_quoting() {
    let texts = [
        "",
        "hello",
        "hello\nworld",
        "hello \"world\" \\test",
        "hello\0world\x01\x02",
        "tab\tseparated\x7f",
        "\r\n\0\\\"",
        "größe € 𒀀",
        "\\n is no newline",
        "\x1f\x1e\x1d\x01",
        "0123456789",
        "\n5\r6\x007",
    ];
    for text in texts {
        let quoted = lformat::format("%q", &[&text]).unwrap();
        assert_eq!(unquote(&quoted).as_deref(), Some(text), "{quoted}");
    }
}

#[test]
fn unquote_reads_a_digit_after_a_numbered_character_into_the_number() {
    let quoted = lformat::format("%q", &[&"\x012"]).unwrap();
    assert_eq!(quoted, "\"\\12\"");
    assert_eq!(unquote(&quoted).as_deref(), Some("\x0c"));
    let quoted = lformat::format("%q", &[&"\x7f1"]).unwrap();
    assert_eq!(quoted, "\"\\1271\"");
    assert_eq!(unquote(&quoted), None);
}

#[test]
fn unquote_refuses_what_is_not_quoted() {
    for text in ["", "\"", "abc", "\"abc", "abc\"", "\"\\\"", "\"\\x\"", "\"\\128\"", "\"\\32\""] {
        assert_eq!(unquote(text), None, "{text}");
    }
    assert_eq!(unquote("\"\"").as_deref(), Some(""));
    assert_eq!(unquote("\"\\10\""), None);
    assert_eq!(unquote("\"\\13\""), None);
    assert_eq!(unquote("\"\\0\"").as_deref(), Some("\0"));
    assert_eq!(unquote("\"\\01\"").as_deref(), Some("\x001"));
    assert_eq!(unquote("\"\\31\"").as_deref(), Some("\x1f"));
    assert_eq!(unquote("\"\\127\"").as_deref(), Some("\x7f"));
    assert_eq!(unquote("\"a\"b\"").as_deref(), Some("a\"b"));
}
