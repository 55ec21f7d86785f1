use fhex::ToHex;
use lformat::{
    ConversionSpecifier, ConversionType, Float, FloatClass, Format, FormatError, NumericParam,
};

fn float(x: f64) -> Float {
    Float::from_text(x.is_sign_negative(), &format!("{:e}", x.abs()), &x.abs().to_hex()).unwrap()
}

fn render(template: &str, x: f64) -> String {
    lformat::format(template, &[&float(x)]).unwrap()
}

#[test]
fn renders_common_float_templates() {
    assert_eq!(render("%+.2f", 3.14159), "+3.14");
    assert_eq!(render("%f", 1.5), "1.500000");
    assert_eq!(render("%e", 1.5), "1.500000e+00");
    assert_eq!(render("%E", 1.5), "1.500000E+00");
    assert_eq!(render("%g", 1.5), "1.5");
    assert_eq!(render("%a", 1.5), "0x1.8p+0");
}

#[test]
fn fixed_form() {
    assert_eq!(render("%f", 0.0), "0.000000");
    assert_eq!(render("%f", 1.0), "1.000000");
    assert_eq!(render("%f", 123456.789), "123456.789000");
    assert_eq!(render("%.2f", 123456.789), "123456.79");
    assert_eq!(render("%.0f", 123456.789), "123457");
    assert_eq!(render("%.3f", 0.0004), "0.000");
    assert_eq!(render("%.3f", 0.0005), "0.001");
    assert_eq!(render("%.10f", 0.1), "0.1000000000");
    assert_eq!(render("%.30f", 1.5), "1.500000000000000000000000000000");
    assert_eq!(render("%f", 1e22), "10000000000000000000000.000000");
    assert_eq!(render("%.1f", 1e22), "10000000000000000000000.0");
    assert_eq!(render("%.2f", 1e-30), "0.00");
    assert_eq!(render("%f", 5e-324), "0.000000");
    assert_eq!(render("%F", 2.5), "2.500000");
}

#[test]
fn fixed_form_rounds_a_half_away_from_zero() {
    assert_eq!(render("%.0f", 0.5), "1");
    assert_eq!(render("%.0f", 1.5), "2");
    assert_eq!(render("%.0f", 2.5), "3");
    assert_eq!(render("%.0f", 0.4), "0");
    assert_eq!(render("%.0f", -0.5), "-1");
    assert_eq!(render("%.0f", -2.5), "-3");
    assert_eq!(render("%.2f", 0.125), "0.13");
    assert_eq!(render("%.2f", 0.124), "0.12");
    assert_eq!(render("%.2f", 1.005), "1.01");
    assert_eq!(render("%.1f", 0.25), "0.3");
}

#[test]
fn fixed_form_carries_into_the_integer_part() {
    assert_eq!(render("%.1f", 99.95), "100.0");
    assert_eq!(render("%.0f", 999.5), "1000");
    assert_eq!(render("%.2f", 9.995), "10.00");
    assert_eq!(render("%.0f", 9.99), "10");
    assert_eq!(render("%.3f", 0.9996), "1.000");
}

#[test]
fn scientific_form() {
    assert_eq!(render("%e", 0.0), "0.000000e+00");
    assert_eq!(render("%e", 1.0), "1.000000e+00");
    assert_eq!(render("%e", 123456.789), "1.234568e+05");
    assert_eq!(render("%e", 0.000123456789), "1.234568e-04");
    assert_eq!(render("%.0e", 12345.0), "1e+04");
    assert_eq!(render("%.0e", 0.0), "0e+00");
    assert_eq!(render("%.1e", 0.05), "5.0e-02");
    assert_eq!(render("%.25e", 1.5), "1.5000000000000000000000000e+00");
    assert_eq!(render("%e", 1e100), "1.000000e+100");
    assert_eq!(render("%e", 1e-100), "1.000000e-100");
    assert_eq!(render("%e", 1e10), "1.000000e+10");
    assert_eq!(render("%e", 1e-10), "1.000000e-10");
    assert_eq!(render("%e", 1e9), "1.000000e+09");
    assert_eq!(render("%e", 5e-324), "5.000000e-324");
    assert_eq!(render("%e", f64::MAX), "1.797693e+308");
    assert_eq!(render("%.16e", f64::MAX), "1.7976931348623157e+308");
    assert_eq!(render("%.18e", f64::MAX), "1.797693134862315700e+308");
    assert_eq!(render("%E", 0.000123456789), "1.234568E-04");
}

#[test]
fn scientific_form_renormalizes_after_a_carry() {
    assert_eq!(render("%.2e", 9.995), "1.00e+01");
    assert_eq!(render("%.2e", 9.994), "9.99e+00");
    assert_eq!(render("%.0e", 9.5), "1e+01");
    assert_eq!(render("%.0e", 0.95), "1e+00");
    assert_eq!(render("%.3e", 999950.0), "1.000e+06");
    assert_eq!(render("%.1e", 0.0995), "1.0e-01");
    assert_eq!(render("%.5e", 9.9999951e-5), "1.00000e-04");
}

#[test]
fn compact_form_chooses_by_the_exponent() {
    assert_eq!(render("%g", 0.0), "0");
    assert_eq!(render("%g", 1.0), "1");
    assert_eq!(render("%g", 100000.0), "100000");
    assert_eq!(render("%g", 1000000.0), "1e+06");
    assert_eq!(render("%g", 0.0001), "0.0001");
    assert_eq!(render("%g", 0.00001), "1e-05");
    assert_eq!(render("%g", 123456789.0), "1.23457e+08");
    assert_eq!(render("%g", 0.000123456), "0.000123456");
    assert_eq!(render("%g", 3.14159265), "3.14159");
    assert_eq!(render("%G", 0.00001), "1E-05");
    assert_eq!(render("%g", 1e10), "1e+10");
    assert_eq!(render("%g", 1.5e10), "1.5e+10");
    assert_eq!(render("%.3g", 1234.0), "1.23e+03");
    assert_eq!(render("%.4g", 1234.0), "1234");
    assert_eq!(render("%.5g", 1234.0), "1234");
    assert_eq!(render("%.10g", 1234.5), "1234.5");
}

#[test]
fn compact_form_takes_the_exponent_of_the_rounded_value() {
    assert_eq!(render("%.3g", 9.995), "10");
    assert_eq!(render("%.3g", 9.994), "9.99");
    assert_eq!(render("%.2g", 99.5), "1e+02");
    assert_eq!(render("%.3g", 999.5), "1e+03");
    assert_eq!(render("%.3g", 0.00009995), "0.0001");
    assert_eq!(render("%g", 999999.5), "1e+06");
    assert_eq!(render("%g", 999999.4), "999999");
}

#[test]
fn compact_form_raises_precision_zero_to_one() {
    assert_eq!(render("%.0g", 1234.0), "1e+03");
    assert_eq!(render("%.1g", 1234.0), "1e+03");
    assert_eq!(render("%.0g", 5.0), "5");
    assert_eq!(render("%.0g", 0.5), "0.5");
    assert_eq!(render("%.0g", 0.0), "0");
}

#[test]
fn compact_form_strips_zeros_with_and_without_the_alternate_form() {
    assert_eq!(render("%g", 1.5), "1.5");
    assert_eq!(render("%#g", 1.5), "1.5");
    assert_eq!(render("%g", 2.0), "2");
    assert_eq!(render("%#g", 2.0), "2");
    assert_eq!(render("%g", 100.0), "100");
    assert_eq!(render("%#g", 1e10), "1e+10");
    assert_eq!(render("%g", 0.5), "0.5");
    assert_eq!(render("%.3g", 1.10), "1.1");
}

#[test]
fn hexadecimal_form() {
    assert_eq!(render("%a", 1.0), "0x1p+0");
    assert_eq!(render("%a", 3.0), "0x1.8p+1");
    assert_eq!(render("%A", 1.5), "0X1.8P+0");
    assert_eq!(render("%a", -16.0), "-0x1p+4");
    assert_eq!(render("%a", 0.0), "0x0p+0");
    assert_eq!(render("%a", -0.0), "-0x0p+0");
    assert_eq!(render("%a", 1e-10), "0x1.b7cdfd9d7bdbbp-34");
    assert_eq!(render("%A", 1e-10), "0X1.B7CDFD9D7BDBBP-34");
    assert_eq!(render("%a", f64::MAX), "0x1.fffffffffffffp+1023");
    assert_eq!(render("%.2a", 1.5), "0x1.8p+0");
    assert_eq!(render("%+a", 1.5), "+0x1.8p+0");
    assert_eq!(render("%12a|", 1.5), "    0x1.8p+0|");
    assert_eq!(render("%-12a|", 1.5), "0x1.8p+0    |");
    assert_eq!(render("%012a|", 1.5), "00000x1.8p+0|");
    assert_eq!(render("%012a|", -1.5), "-0000x1.8p+0|");
}

#[test]
fn hexadecimal_form_is_the_text_it_was_given() {
    let x = Float::finite(false, 15, -1, "-0x1.abcdefp+0");
    assert_eq!(lformat::format("%a", &[&x]).unwrap(), "0x1.abcdefp+0");
    assert_eq!(lformat::format("%A", &[&x]).unwrap(), "0X1.ABCDEFP+0");
    assert_eq!(lformat::format("%f", &[&x]).unwrap(), "1.500000");
    let x = Float::finite(true, 15, -1, "straße");
    assert_eq!(lformat::format("%A", &[&x]).unwrap(), "-STRAßE");
}

#[test]
fn sign_and_padding_of_floats() {
    assert_eq!(render("%10.3f|", 3.14159), "     3.142|");
    assert_eq!(render("%-10.3f|", 3.14159), "3.142     |");
    assert_eq!(render("%010.3f|", 3.14159), "000003.142|");
    assert_eq!(render("%010.3f|", -3.14159), "-00003.142|");
    assert_eq!(render("%+010.3f|", 3.14159), "+00003.142|");
    assert_eq!(render("%-010.3f|", 3.14159), "3.142     |");
    assert_eq!(render("% .2f", 3.14159), " 3.14");
    assert_eq!(render("%+ .2f", 3.14159), "+3.14");
    assert_eq!(render("% +.2f", 3.14159), "+3.14");
    assert_eq!(render("% .2f", -3.14159), "-3.14");
    assert_eq!(render("%12e|", 1.5), "1.500000e+00|");
    assert_eq!(render("%14e|", -1.5), " -1.500000e+00|");
    assert_eq!(render("%014e|", -1.5), "-01.500000e+00|");
    assert_eq!(render("%8g|", 1.5), "     1.5|");
    assert_eq!(render("%08g|", -1.5), "-00001.5|");
    assert_eq!(render("%3f|", 1.5), "1.500000|");
}

#[test]
fn negative_zero_keeps_its_sign() {
    assert_eq!(render("%f", -0.0), "-0.000000");
    assert_eq!(render("%e", -0.0), "-0.000000e+00");
    assert_eq!(render("%g", -0.0), "-0");
    assert_eq!(render("%+f", 0.0), "+0.000000");
    assert_eq!(render("%.0f", -0.4), "-0");
}

#[test]
fn values_that_are_not_finite() {
    assert_eq!(render("%f", f64::INFINITY), "inf");
    assert_eq!(render("%e", f64::INFINITY), "inf");
    assert_eq!(render("%g", f64::INFINITY), "inf");
    assert_eq!(render("%a", f64::INFINITY), "inf");
    assert_eq!(render("%F", f64::INFINITY), "INF");
    assert_eq!(render("%E", f64::NEG_INFINITY), "-INF");
    assert_eq!(render("%G", f64::NEG_INFINITY), "-INF");
    assert_eq!(render("%A", f64::NEG_INFINITY), "-INF");
    assert_eq!(render("%f", f64::NAN), "nan");
    assert_eq!(render("%a", f64::NAN), "nan");
    assert_eq!(render("%E", f64::NAN), "NAN");
    assert_eq!(render("%f", -f64::NAN), "-nan");
    assert_eq!(render("%+f", f64::INFINITY), "+inf");
    assert_eq!(render("% f", f64::INFINITY), " inf");
    assert_eq!(render("%.0f", f64::INFINITY), "inf");
    assert_eq!(render("%.10e", f64::NAN), "nan");
}

#[test]
fn values_that_are_not_finite_are_never_padded_with_zeros() {
    assert_eq!(render("%5f|", f64::NAN), "  nan|");
    assert_eq!(render("%-5f|", f64::NAN), "nan  |");
    assert_eq!(render("%05f|", f64::NAN), "  nan|");
    assert_eq!(render("%05f|", f64::INFINITY), "  inf|");
    assert_eq!(render("%06f|", f64::NEG_INFINITY), "  -inf|");
    assert_eq!(render("%-06f|", f64::NEG_INFINITY), "-inf  |");
    assert_eq!(render("%08a|", f64::INFINITY), "     inf|");
}

#[test]
fn floats_refuse_other_conversions() {
    for template in ["%d", "%i", "%u", "%o", "%x", "%X", "%c", "%s", "%q", "%p"] {
        assert_eq!(
            lformat::format(template, &[&float(1.5)]),
            Err(FormatError::WrongType),
            "{template}"
        );
        assert_eq!(
            lformat::format(template, &[&float(f64::NAN)]),
            Err(FormatError::WrongType),
            "{template}"
        );
    }
    assert_eq!(float(1.5).as_int(), None);
    assert_eq!(lformat::format("%*d", &[&float(5.0), &1]), Err(FormatError::WrongType));
    let unresolved = ConversionSpecifier {
        alt_form: false,
        zero_pad: false,
        left_adj: false,
        space_sign: false,
        force_sign: false,
        width: NumericParam::Literal(0),
        precision: NumericParam::FromArgument,
        conversion_type: ConversionType::DecFloatLower,
    };
    assert_eq!(float(1.5).format(&unresolved), Err(FormatError::Unknown));
}

#[test]
fn precision_from_an_argument_applies_to_floats() {
    assert_eq!(lformat::format("%.*f", &[&2, &float(3.14159)]).unwrap(), "3.14");
    assert_eq!(lformat::format("%*.*f", &[&8, &2, &float(3.14159)]).unwrap(), "    3.14");
    assert_eq!(lformat::format("%.*f", &[&-3, &float(3.14159)]).unwrap(), "3");
    assert_eq!(lformat::format("%.*e", &[&0, &float(3.14159)]).unwrap(), "3e+00");
}

#[test]
fn narrow_floats_widen_without_loss() {
    assert_eq!(render("%f", 0.1f32 as f64), "0.100000");
    assert_eq!(render("%.10f", 0.1f32 as f64), "0.1000000015");
    assert_eq!(render("%g", 0.5f32 as f64), "0.5");
    assert_eq!(render("%e", f32::MAX as f64), "3.402823e+38");
}

#[test]
fn float_from_text_reads_std_and_plain_decimals() {
    let expected = Float {
        negative: false,
        class: FloatClass::Finite,
        coefficient: 15,
        exponent: -1,
        hex: String::from("0x1.8p+0"),
    };
    for text in ["1.5e0", "1.5", "15e-1", "0.15E+1", "0.15e1", "015e-1", "150e-2"] {
        let found = Float::from_text(false, text, "0x1.8p+0");
        if text == "150e-2" {
            assert_eq!(found, Some(Float { coefficient: 150, exponent: -2, ..expected.clone() }));
        } else {
            assert_eq!(found, Some(expected.clone()), "{text}");
        }
    }
    assert_eq!(Float::from_text(true, "15", "h"), Some(Float::finite(true, 15, 0, "h")));
    assert_eq!(Float::from_text(false, "1e300", "h"), Some(Float::finite(false, 1, 300, "h")));
    assert_eq!(Float::from_text(false, "1.", "h"), Some(Float::finite(false, 1, 0, "h")));
    assert_eq!(Float::from_text(false, "0e0", "h"), Some(Float::finite(false, 0, 0, "h")));
    assert_eq!(
        Float::from_text(false, "1.7976931348623157e308", "h"),
        Some(Float::finite(false, 17976931348623157, 292, "h"))
    );
    assert_eq!(Float::from_text(true, "5e-324", "h"), Some(Float::finite(true, 5, -324, "h")));
}

#[test]
fn float_from_text_reads_the_names() {
    assert_eq!(
        Float::from_text(true, "inf", "inf"),
        Some(Float {
            negative: true,
            class: FloatClass::Infinite,
            coefficient: 0,
            exponent: 0,
            hex: String::from("inf"),
        })
    );
    assert_eq!(
        Float::from_text(false, "NaN", "nan"),
        Some(Float {
            negative: false,
            class: FloatClass::Nan,
            coefficient: 0,
            exponent: 0,
            hex: String::from("nan"),
        })
    );
    assert_eq!(Float::infinite(true).class, FloatClass::Infinite);
    assert!(Float::infinite(true).negative);
    assert_eq!(Float::nan(false).class, FloatClass::Nan);
    assert_eq!(lformat::format("%f", &[&Float::infinite(true)]).unwrap(), "-inf");
    assert_eq!(lformat::format("%F", &[&Float::nan(false)]).unwrap(), "NAN");
}

#[test]
fn float_from_text_refuses_other_text() {
    for text in
        ["", "abc", "nan", "Inf", "infinity", "-1.5", "+1.5", ".5", "1e", "1e+", "1e-", "1.5x",
        "1e5x", "1 ", " 1", "1e 5", "1.5.5", "1e5e5", "e5", "1,5"]
    {
        assert_eq!(Float::from_text(false, text, ""), None, "{text}");
    }
}

#[test]
fn float_from_text_keeps_to_its_ranges() {
    assert_eq!(
        Float::from_text(false, "18446744073709551615", ""),
        Some(Float::finite(false, u64::MAX, 0, ""))
    );
    assert_eq!(Float::from_text(false, "18446744073709551616", ""), None);
    assert_eq!(Float::from_text(false, "1.8446744073709551616", ""), None);
    assert_eq!(
        Float::from_text(false, "00000000000000000000000001", ""),
        Some(Float::finite(false, 1, 0, ""))
    );
    assert_eq!(
        Float::from_text(false, "1e2147483647", ""),
        Some(Float::finite(false, 1, i32::MAX, ""))
    );
    assert_eq!(Float::from_text(false, "1e2147483648", ""), None);
    assert_eq!(
        Float::from_text(false, "1e-2147483647", ""),
        Some(Float::finite(false, 1, -2147483647, ""))
    );
    assert_eq!(
        Float::from_text(false, "0.1e-2147483647", ""),
        Some(Float::finite(false, 1, i32::MIN, ""))
    );
    assert_eq!(Float::from_text(false, "0.01e-2147483647", ""), None);
    assert_eq!(Float::from_text(false, "1e-2147483648", ""), None);
}

#[test]
fn any_decimal_renders_exactly() {
    let x = Float::finite(false, u64::MAX, 0, "");
    assert_eq!(lformat::format("%f", &[&x]).unwrap(), "18446744073709551615.000000");
    assert_eq!(lformat::format("%.19e", &[&x]).unwrap(), "1.8446744073709551615e+19");
    assert_eq!(lformat::format("%.18e", &[&x]).unwrap(), "1.844674407370955162e+19");
    assert_eq!(lformat::format("%e", &[&x]).unwrap(), "1.844674e+19");
    let x = Float::finite(false, u64::MAX, -20, "");
    assert_eq!(lformat::format("%.20f", &[&x]).unwrap(), "0.18446744073709551615");
    assert_eq!(lformat::format("%.19f", &[&x]).unwrap(), "0.1844674407370955162");
    assert_eq!(lformat::format("%.0f", &[&x]).unwrap(), "0");
    let x = Float::finite(false, 9_999_999_999_999_999_999, -19, "");
    assert_eq!(lformat::format("%.0f", &[&x]).unwrap(), "1");
    assert_eq!(lformat::format("%.18f", &[&x]).unwrap(), "1.000000000000000000");
    assert_eq!(lformat::format("%.19f", &[&x]).unwrap(), "0.9999999999999999999");
    assert_eq!(lformat::format("%.3e", &[&x]).unwrap(), "1.000e+00");
    assert_eq!(lformat::format("%g", &[&x]).unwrap(), "1");
    let x = Float::finite(true, 5, -25, "");
    assert_eq!(lformat::format("%.24f", &[&x]).unwrap(), "-0.000000000000000000000001");
    assert_eq!(lformat::format("%.25f", &[&x]).unwrap(), "-0.0000000000000000000000005");
    assert_eq!(lformat::format("%.23f", &[&x]).unwrap(), "-0.00000000000000000000000");
    let x = Float::finite(false, 12, 3, "");
    assert_eq!(lformat::format("%g", &[&x]).unwrap(), "12000");
    assert_eq!(lformat::format("%.1f", &[&x]).unwrap(), "12000.0");
    assert_eq!(lformat::format("%e", &[&x]).unwrap(), "1.200000e+04");
}
