use nagame::config::{OutputConfig, OutputConfigError};
use nagame::number::{append_decimal, append_signed, parse_i32, parse_unsigned};
use nagame::rate::{parse_rate, parse_rate_rounded, RateError};
use nagame::scale::Scale;
use nagame::text::{
    contains_text, is_blank, is_space_char, same_text, text_before, trim_text,
};
use nagame::wayland::OutputMode;

fn chars(text: &str) -> Vec<char> {
    text.chars().collect()
}

/// Rates that are easy, hard to round, out of range, or no numbers at all.
fn rates() -> Vec<String> {
    let mut list: Vec<String> = [
        "0", "1", "60", "59.94", "59.940", "143.973", "119.88", "239.76", "0.001", "0.0005", "0.0004",
        "4294967.295", "4294967.2954", "4294967.2955", "4294967.296", "2147483.647", "2147483.648",
        "1e3", "1E3", "1e-3", "1e+3", ".5", "5.", "+60", "-60", "-0", "1e400", "1e-400", "1e-324",
        "4.9e-324", "2.4703282292062328e-324", "2.4703282292062327e-324", "1.7976931348623157e308",
        "1.7976931348623159e308", "inf", "INF", "-inf", "Infinity", "nan", "NaN", "-nan", "",
        ".", "+", "-", "e5", "1e", "1e+", "1.2.3", " 60", "60 ", "6_0", "0x10", "1f64", "infinit",
        "\u{666}", "60\u{0}", "1e99999999999999999999", "0e99999999999999999999",
        "1e-99999999999999999999", "0.1", "0.2", "0.3", "9007199254740993", "9007199254740992.5",
        "33.3333333333333333333333333333333333", "59.9999999999999999999999999",
        "123456789012345678901234567890e-27",
    ]
    .iter()
    .map(|text| text.to_string())
    .collect();
    for millihertz in [1u32, 7, 999, 1001, 23976, 29970, 47952, 59940, 59951, 74973, 164999, 2147483647] {
        list.push(format!("{}.{:03}", millihertz / 1000, millihertz % 1000));
    }
    list
}

#[test]
fn rates_are_rounded_as_doubles_are() {
    for text in rates() {
        let expected = match text.parse::<f64>() {
            Err(_) => Err(RateError::NotANumber),
            Ok(rate) => {
                if !rate.is_finite() || rate <= 0.0 || rate * 1000.0 > u32::MAX as f64 {
                    Err(RateError::OutOfRange)
                } else {
                    Ok((rate * 1000.0).round() as u32)
                }
            }
        };
        assert_eq!(parse_rate(&chars(&text)), expected, "{text:?}");
    }
}

#[test]
fn lenient_rates_are_rounded_as_doubles_are() {
    for text in rates() {
        let expected = text.parse::<f64>().ok().map(|rate| (rate * 1000.0).round() as i32);
        assert_eq!(parse_rate_rounded(&chars(&text)), expected, "{text:?}");
    }
}

#[test]
fn every_decimal_rate_survives_rounding() {
    for millihertz in (1u32..=500_000).step_by(997) {
        let text = format!("{}.{:03}", millihertz / 1000, millihertz % 1000);
        assert_eq!(parse_rate(&chars(&text)), Ok(millihertz), "{text}");
        assert_eq!(parse_rate_rounded(&chars(&text)), Some(millihertz as i32), "{text}");
    }
    assert_eq!(parse_rate(&chars("2147483.647")), Ok(2147483647));
}

#[test]
fn scales_are_judged_as_doubles_are() {
    let values = [
        0.0, -0.0, 5e-324, -5e-324, 0.005, 0.01, -0.01, 0.010000000000000002, 0.02, 1.0, 1.005, 1.01,
        1.0100000000000002, 0.99, 0.9899999999999999, 1.5, 2.0, 9.99, 10.0, 10.000000000000002,
        1e308, -1e308, f64::MAX, f64::INFINITY, f64::NEG_INFINITY, f64::NAN, 0.1, 0.11, 0.09,
        0.30000000000000004, 0.29, 0.31,
    ];
    for a in values {
        let scale = Scale { bits: a.to_bits() };
        let in_range = a.is_finite() && a > 0.0 && a <= 10.0;
        assert_eq!(scale.is_in_range(), in_range, "{a}");
        for b in values {
            let other = Scale { bits: b.to_bits() };
            assert_eq!(scale.is_apart(&other), (a - b).abs() > 0.01, "{a} {b}");
            assert_eq!(scale.is_apart(&other), other.is_apart(&scale), "{a} {b}");
        }
    }
    let mut output = OutputConfig::new("DP-1".to_string());
    output.scale = Some(Scale { bits: 11.0f64.to_bits() });
    assert_eq!(output.validate(), Err(OutputConfigError::ScaleOutOfRange));
}

#[test]
fn modes_are_formatted_in_whole_hertz() {
    let rates = [
        0, 1, 499, 500, 501, 999, 1000, 1499, 1500, 1501, 2500, 3500, 59500, 59940, 60000, 60500,
        143973, i32::MAX, -1, -499, -500, -501, -1500, -2500, i32::MIN,
    ];
    for refresh_mhz in rates {
        let mode = OutputMode { width: 1920, height: -1080, refresh_mhz, preferred: false };
        let expected = format!("1920x-1080@{:.0}", refresh_mhz as f64 / 1000.0);
        assert_eq!(mode.format(), expected, "{refresh_mhz}");
    }
    let mode = OutputMode { width: 1920, height: 1080, refresh_mhz: 59940, preferred: true };
    assert_eq!(mode.format(), "1920x1080@60");
}

#[test]
fn integers_are_written_and_read() {
    for value in [0u64, 9, 10, 99, 100, 65536, u64::MAX] {
        let mut text = String::from("n=");
        append_decimal(&mut text, value);
        assert_eq!(text, format!("n={value}"));
    }
    for value in [0, 1, -1, 10, -10, i32::MAX, i32::MIN] {
        let mut text = String::new();
        append_signed(&mut text, value);
        assert_eq!(text, value.to_string());
        assert_eq!(parse_i32(&chars(&text)), Some(value));
    }
    let texts = [
        "", "+", "-", "0", "-0", "+0", "007", "+7", "-7", "2147483647", "2147483648", "-2147483648",
        "-2147483649", "99999999999999999999", "1 ", " 1", "1x", "\u{665}", "--1", "+-1", "4294967295",
        "4294967296",
    ];
    for text in texts {
        assert_eq!(parse_i32(&chars(text)), text.parse::<i32>().ok(), "{text:?}");
        let unsigned = if text == "-0" { None } else { text.parse::<u32>().ok() };
        assert_eq!(parse_unsigned(&chars(text), 0xffff_ffff), unsigned.map(u64::from), "{text:?}");
    }
}

#[test]
fn white_space_is_that_of_the_standard_library() {
    for code in 0..=0x10ffffu32 {
        if let Some(c) = char::from_u32(code) {
            assert_eq!(is_space_char(c), c.is_whitespace(), "{code:x}");
        }
    }
    for text in ["", " ", "\t\n", " a ", "a b", "\u{3000}x\u{a0}", "x\u{200b}"] {
        assert_eq!(trim_text(text), text.trim(), "{text:?}");
        assert_eq!(is_blank(text), text.trim().is_empty(), "{text:?}");
    }
}

#[test]
fn texts_are_ordered_as_strings_are() {
    let texts = ["", "a", "B", "ab", "b", "DP-1", "DP-10", "DP-2", "eDP-1", "é", "z", "\u{ffff}", "\u{10000}"];
    for a in texts {
        for b in texts {
            assert_eq!(text_before(a, b), a < b, "{a:?} {b:?}");
            assert_eq!(same_text(a, b), a == b);
            assert_eq!(contains_text(a, b), a.contains(b), "{a:?} {b:?}");
        }
    }
}
