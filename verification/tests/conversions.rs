use fhex::ToHex;
use lformat::{Float, Format, FormatError};

fn float(x: f64) -> Float {
    Float::from_text(x.is_sign_negative(), &format!("{:e}", x.abs()), &x.abs().to_hex()).unwrap()
}

fn check_fmt<T: Format>(fmt: &str, arg: T, expected: &str) {
    let our_result = lformat::format(fmt, &[&arg]).unwrap();
    assert_eq!(our_result, expected);
}

fn check_fmt_f(fmt: &str, arg: f64, expected: &str) {
    check_fmt(fmt, float(arg), expected);
}

fn check_fmt_s(fmt: &str, arg: &str, expected: &str) {
    check_fmt(fmt, arg, expected);
}

#[test]
fn test_int() {
    check_fmt("%d", 12, "12");
    check_fmt("~%d~", 148, "~148~");
    check_fmt("00%dxx", -91232, "00-91232xx");
    check_fmt("%x", -9232, "ffffdbf0");
    check_fmt("%X", 432, "1B0");
    check_fmt("%09X", 432, "0000001B0");
    check_fmt("%9X", 432, "      1B0");
    check_fmt("%+9X", 492, "      1EC");
    check_fmt("% #9x", 4589, "   0x11ed");
    check_fmt("%2o", 4, " 4");
    check_fmt("% 12d", -4, "          -4");
    check_fmt("% 12d", 48, "          48");
    check_fmt("%ld", -4_i64, "-4");
    check_fmt("%lX", -4_i64, "FFFFFFFFFFFFFFFC");
    check_fmt("%ld", 48_i64, "48");
    check_fmt("%-8hd", -12_i16, "-12     ");
    check_fmt("%llx", 0x0123456789abcdef_u64, "123456789abcdef");
}

#[test]
fn test_float() {
    check_fmt_f("%f", -46.38, "-46.380000");
    check_fmt_f("%012.3f", 1.2, "00000001.200");
    check_fmt_f("%0012.3f", 1.2, "00000001.200");
    check_fmt_f("%012.3e", 1.7, "0001.700e+00");
    check_fmt_f("%e", 1e300, "1.000000e+300");
    check_fmt_f("%012.3g%%!", 2.6, "0000000002.6%!");
    check_fmt_f("%012.5G", -2.69, "-00000002.69");
    check_fmt_f("%+7.4f", 42.785, "+42.7850");
    check_fmt_f("{}% 7.4E", 493.12, "{} 4.9312E+02");
    check_fmt_f("% 7.4E", -120.3, "-1.2030E+02");
    check_fmt_f("%-10F", f64::INFINITY, "INF       ");
    check_fmt_f("%+010F", f64::INFINITY, "      +INF");
    check_fmt_f("%.0f", 9.99, "10");
    check_fmt_f("%.1f", 999.99, "1000.0");
    check_fmt_f("%.1f", 9.99, "10.0");
    check_fmt_f("%.1e", 9.99, "1.0e+01");
    check_fmt_f("%.2f", 9.99, "9.99");
    check_fmt_f("%.2e", 9.99, "9.99e+00");
    check_fmt_f("%.3f", 9.99, "9.990");
    check_fmt_f("%.3e", 9.99, "9.990e+00");
    check_fmt_f("%.1g", 9.99, "1e+01");
    check_fmt_f("%.1G", 9.99, "1E+01");
    check_fmt_f("%.1f", 2.99, "3.0");
    check_fmt_f("%.1e", 2.99, "3.0e+00");
    check_fmt_f("%.1g", 2.99, "3");
    check_fmt_f("%.1f", 2.599, "2.6");
    check_fmt_f("%.1e", 2.599, "2.6e+00");
    check_fmt_f("%.1g", 2.599, "3");

    assert_eq!(lformat::format("% f", &[&float(f64::NAN)]).unwrap(), " nan");
    assert_eq!(lformat::format("%+f", &[&float(f64::NAN)]).unwrap(), "+nan");
}

#[test]
fn test_str() {
    check_fmt_s("test %% with string: %s yay\n", "FOO", "test % with string: FOO yay\n");
    check_fmt_s(
        "%s",
        "testing with a slightly longer string to make sure it doesn't truncate",
        "testing with a slightly longer string to make sure it doesn't truncate",
    );
    check_fmt("test char %c", '~', "test char ~");
    check_fmt_s("%4s", "A", "   A");
    check_fmt_s("%4s", "𒀀", "𒀀"); // multi-byte character test (4 bytes)
    check_fmt_s("%-4sX", "A", "A   X");
    check_fmt_s("%-4sX", "𒀀", "𒀀X"); // multi-byte character test (4 bytes)
    check_fmt_s("%1.3s", "ABCDEFG", "ABC");
    check_fmt_s("%1.4s", "𒀀𒀀", "𒀀"); // multi-byte character test (4 bytes per char)
    check_fmt_s("%8.4s", "ABCDEFG", "    ABCD");

    // A precision never cuts inside a character: the text is cut at the
    // character boundary before.
    assert_eq!(lformat::format("%1.1s", &[&"𒀀𒀀𒀀"]).unwrap(), " ");
    assert_eq!(lformat::format("%1.2s", &[&"𒀀𒀀𒀀"]).unwrap(), " ");
    assert_eq!(lformat::format("%1.3s", &[&"𒀀𒀀𒀀"]).unwrap(), " ");
    assert_eq!(lformat::format("%1.4s", &[&"𒀀𒀀𒀀"]).unwrap(), "𒀀");
    assert_eq!(lformat::format("%1.5s", &[&"𒀀𒀀𒀀"]).unwrap(), "𒀀");
    assert_eq!(lformat::format("%1.6s", &[&"𒀀𒀀𒀀"]).unwrap(), "𒀀");
    assert_eq!(lformat::format("%1.7s", &[&"𒀀𒀀𒀀"]).unwrap(), "𒀀");
    assert_eq!(lformat::format("%1.8s", &[&"𒀀𒀀𒀀"]).unwrap(), "𒀀𒀀");
}

#[test]
fn test_char() {
    check_fmt("%c", 'x', "x");
    check_fmt("%c", b'x', "x");
    check_fmt("%c", b'x' as i8, "x");
    check_fmt("%c", u16::try_from('x').unwrap(), "x");
    check_fmt("%c", u32::try_from('x').unwrap(), "x");
    check_fmt("%4c", 'A', "   A");
    check_fmt("%-4cX", 'A', "A   X");
}

#[test]
fn test_sanity() {
    // u8 must not misinterpret bytes from multi-byte UTF-8 characters
    let bytes = "∆".as_bytes();
    assert!(bytes.len() > 1);
    assert_eq!(lformat::format("%c", &[&bytes[0]]), Err(FormatError::WrongType));
}

#[test]
fn test_ptr() {
    let buf: [u8; 4] = [0; 4];
    let address = buf.as_ptr() as usize;

    check_fmt("%p", address, &format!("{:#x}", address));
    check_fmt("%llx", address, &format!("{:x}", address));
    check_fmt("%#llx", address, &format!("{:#x}", address));
    check_fmt("%x", address, &format!("{:x}", address));
    check_fmt("%#x", address, &format!("{:#x}", address));
}
