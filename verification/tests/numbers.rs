use xtql::number::{classify_float, decimal_string, parse_i64, FloatText};
use xtql::text::{chars_of, is_whitespace, join, same_text, strip_first, strip_leading, trim};

#[test]
fn parse_i64_reads_signed_decimals() {
    assert_eq!(parse_i64("0"), Some(0));
    assert_eq!(parse_i64("-0"), Some(0));
    assert_eq!(parse_i64("+0"), Some(0));
    assert_eq!(parse_i64("42"), Some(42));
    assert_eq!(parse_i64("+42"), Some(42));
    assert_eq!(parse_i64("-42"), Some(-42));
    assert_eq!(parse_i64("007"), Some(7));
    assert_eq!(parse_i64("-0000000000000000000000000000000000012"), Some(-12));
    assert_eq!(parse_i64("9223372036854775807"), Some(i64::MAX));
    assert_eq!(parse_i64("-9223372036854775808"), Some(i64::MIN));
}

#[test]
fn parse_i64_rejects_what_is_no_integer_in_range() {
    for bad in [
        "", "-", "+", "--1", "+-1", "1-", "1+1", " 1", "1 ", "1_000", "1.0", "1e3", "0x10", "a",
        "١٢", "9223372036854775808", "-9223372036854775809", "99999999999999999999999999999999",
        "-99999999999999999999999999999999999999999999", "1\u{0}", "٣",
    ] {
        assert_eq!(parse_i64(bad), None);
    }
}

#[test]
fn parse_i64_agrees_with_the_standard_library() {
    for sample in [
        "0", "-0", "+17", "0012", "-", "", "12a", "9223372036854775807", "9223372036854775808",
        "-9223372036854775808", "-9223372036854775809", "+", "++1", " 7", "7\n", "１２",
        "18446744073709551616", "170141183460469231731687303715884105728",
    ] {
        assert_eq!(parse_i64(sample), sample.parse::<i64>().ok());
    }
    for n in [-1000i64, -1, 0, 1, 9, 10, 99, 100, 4096, i64::MAX - 1, i64::MIN + 1] {
        assert_eq!(parse_i64(&n.to_string()), Some(n));
    }
}

#[test]
fn decimal_string_writes_every_digit() {
    assert_eq!(decimal_string(0), "0");
    assert_eq!(decimal_string(7), "7");
    assert_eq!(decimal_string(10), "10");
    assert_eq!(decimal_string(1234567890), "1234567890");
    assert_eq!(decimal_string(usize::MAX), usize::MAX.to_string());
    for n in 0..1200usize {
        assert_eq!(decimal_string(n), n.to_string());
    }
}

#[test]
fn is_whitespace_is_the_unicode_property() {
    for code in 0..0x11_0000u32 {
        if let Some(c) = char::from_u32(code) {
            assert_eq!(is_whitespace(c), c.is_whitespace());
        }
    }
}

#[test]
fn trim_removes_white_space_at_both_ends() {
    assert_eq!(trim("  12 \t\n"), "12");
    assert_eq!(trim("12"), "12");
    assert_eq!(trim(""), "");
    assert_eq!(trim(" \u{a0}\u{3000} "), "");
    assert_eq!(trim("\u{2003}a b\u{85}"), "a b");
    assert_eq!(trim(" é "), "é");
    for sample in ["", " ", "a", " a", "a ", "  a  b  ", "\t\r\n-1.5e3\u{2028}", "\u{feff}x"] {
        assert_eq!(trim(sample), sample.trim());
    }
}

#[test]
fn strip_first_removes_one_character() {
    assert_eq!(strip_first(":docs"), Some("docs".to_string()));
    assert_eq!(strip_first("::a"), Some(":a".to_string()));
    assert_eq!(strip_first(":"), Some("".to_string()));
    assert_eq!(strip_first("éa"), Some("a".to_string()));
    assert_eq!(strip_first(""), None);
}

#[test]
fn strip_leading_removes_the_whole_run() {
    assert_eq!(strip_leading(":asc", ':'), "asc");
    assert_eq!(strip_leading(":::a:b", ':'), "a:b");
    assert_eq!(strip_leading("desc", ':'), "desc");
    assert_eq!(strip_leading(":::", ':'), "");
    assert_eq!(strip_leading("", ':'), "");
    for sample in ["", ":", "a:", "::é:", ":a"] {
        assert_eq!(strip_leading(sample, ':'), sample.trim_start_matches(':'));
    }
}

#[test]
fn text_helpers_keep_every_character() {
    assert_eq!(chars_of("aé\u{1F600}"), vec!['a', 'é', '\u{1F600}']);
    assert_eq!(chars_of(""), Vec::<char>::new());
    assert_eq!(join("$", "name"), "$name");
    assert_eq!(join("", ""), "");
    assert_eq!(join("xt/", "id"), "xt/id");
    assert!(same_text(&"true".to_string(), "true"));
    assert!(!same_text(&"true".to_string(), "True"));
    assert!(!same_text(&"true".to_string(), "tru"));
    assert!(same_text(&String::new(), ""));
}

#[test]
fn classify_float_tells_the_three_kinds_apart() {
    for text in ["0", "1", "-1", "+1", "1.5", "1.", ".5", "-.5", "1e5", "1E5", "1e-5", "1.5e+10", "007.250", "1e999"] {
        assert_eq!(classify_float(text), FloatText::Decimal);
    }
    for text in ["inf", "INF", "-inf", "+inf", "infinity", "Infinity", "-INFINITY", "nan", "NaN", "-nan", "+NAN"] {
        assert_eq!(classify_float(text), FloatText::Special);
    }
    for text in [
        "", "+", "-", ".", "+.", "e", "e5", ".e5", "1e", "1e+", "1e-", "1ee5", "1e5.0", "1..5",
        "1.5.", "1_0", " 1", "1 ", "in", "infinit", "infinityy", "na", "nanx", "--1", "+-1", "0x1",
        "1f", "١", "1e٥", "ınf", "K", "1e5e5",
    ] {
        assert_eq!(classify_float(text), FloatText::Invalid);
    }
}

#[test]
fn classify_float_accepts_what_the_standard_library_reads() {
    let alphabet = ['0', '7', '.', 'e', 'E', '+', '-', 'i', 'n', 'f', 'a', 'N', ' ', 'x'];
    let mut samples: Vec<String> = vec![String::new()];
    let mut last: Vec<String> = vec![String::new()];
    for _ in 0..4 {
        let mut next = Vec::new();
        for prefix in &last {
            for c in alphabet {
                let mut longer = prefix.clone();
                longer.push(c);
                next.push(longer);
            }
        }
        samples.extend(next.iter().cloned());
        last = next;
    }
    for extra in ["infinity", "-Infinity", "+INFINITY", "infinit", "infinityy", "1.5e-10", "12345.6789E+12"] {
        samples.push(extra.to_string());
    }
    for sample in samples {
        let read = sample.parse::<f64>().is_ok();
        assert_eq!(classify_float(&sample) != FloatText::Invalid, read);
        if let Ok(value) = sample.parse::<f64>() {
            let special = !value.is_finite();
            assert_eq!(classify_float(&sample) == FloatText::Special, special);
        }
    }
}
