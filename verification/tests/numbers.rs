use perf_dashboard::domain::decimal::{parse_named, parse_truncated, Decimal};
use perf_dashboard::domain::numeral::{
    format_integer, parse_integer, parse_magnitude, Magnitude, MAGNITUDE_LIMIT,
};
use perf_dashboard::domain::text::{chars_of, comes_before, text_of, trim};

fn chars(s: &str) -> Vec<char> {
    s.chars().collect()
}

fn micros(s: &str) -> Option<i64> {
    Decimal::from_text(s).map(|d| d.micros)
}

#[test]
fn chars_and_text_are_inverse() {
    assert_eq!(chars_of("p95 é"), vec!['p', '9', '5', ' ', 'é']);
    assert_eq!(text_of(&chars("p95 é")), "p95 é");
    assert_eq!(text_of(&Vec::new()), "");
}

#[test]
fn trim_drops_white_space_at_both_ends_only() {
    assert_eq!(trim(&chars("  4 2\t\n")), chars("4 2"));
    assert_eq!(trim(&chars("\u{a0}\u{3000}x\u{2003}")), chars("x"));
    assert_eq!(trim(&chars(" \t ")), chars(""));
    assert_eq!(trim(&chars("")), chars(""));
    assert_eq!(trim(&chars("a")), chars("a"));
}

#[test]
fn trim_agrees_with_the_standard_library() {
    for s in ["  a b  ", "\u{85}x", "x\u{1680}", "\u{200b}x", "\u{2028}\u{2029}x\u{202f}\u{205f}"] {
        assert_eq!(text_of(&trim(&chars(s))), s.trim());
    }
}

#[test]
fn order_of_strings_is_by_character_then_length() {
    assert!(comes_before(&chars("v1"), &chars("v2")));
    assert!(!comes_before(&chars("v2"), &chars("v1")));
    assert!(!comes_before(&chars("v1"), &chars("v1")));
    assert!(comes_before(&chars("v1"), &chars("v10")));
    assert!(comes_before(&chars(""), &chars("a")));
    assert!(!comes_before(&chars("a"), &chars("")));
    assert!(comes_before(&chars("V9"), &chars("v1")));
    assert!(comes_before(&chars("v10"), &chars("v9")));
}

#[test]
fn order_of_strings_agrees_with_the_standard_library() {
    let words = ["", "a", "ab", "b", "B", "é", "v1", "v10", "v2", "\u{10000}", "\u{ffff}"];
    for a in words {
        for b in words {
            assert_eq!(comes_before(&chars(a), &chars(b)), a < b);
        }
    }
}

#[test]
fn integers_are_read() {
    assert_eq!(parse_integer(&chars("42")), Some(42));
    assert_eq!(parse_integer(&chars("+42")), Some(42));
    assert_eq!(parse_integer(&chars("-42")), Some(-42));
    assert_eq!(parse_integer(&chars("-0")), Some(0));
    assert_eq!(parse_integer(&chars("0000000000000000000000000000000005")), Some(5));
    assert_eq!(parse_integer(&chars("9223372036854775807")), Some(i64::MAX));
    assert_eq!(parse_integer(&chars("-9223372036854775808")), Some(i64::MIN));
}

#[test]
fn what_is_no_integer_is_refused() {
    for s in ["", "+", "-", "abc", "4 2", " 42", "42 ", "42.0", "4e2", "--4", "+-4", "٤٢"] {
        assert_eq!(parse_integer(&chars(s)), None, "{}", s);
    }
}

#[test]
fn integers_out_of_range_are_refused() {
    assert_eq!(parse_integer(&chars("9223372036854775808")), None);
    assert_eq!(parse_integer(&chars("-9223372036854775809")), None);
    assert_eq!(parse_integer(&chars("99999999999999999999999999999")), None);
}

#[test]
fn integers_agree_with_the_standard_library() {
    for s in ["0", "-1", "+7", "007", "123456789", "", "-", "1_000", "0x10", "١"] {
        assert_eq!(parse_integer(&chars(s)), s.parse::<i64>().ok(), "{}", s);
    }
}

#[test]
fn integers_are_written() {
    assert_eq!(text_of(&format_integer(0)), "0");
    assert_eq!(text_of(&format_integer(42)), "42");
    assert_eq!(text_of(&format_integer(-42)), "-42");
    assert_eq!(text_of(&format_integer(i64::MAX)), "9223372036854775807");
    assert_eq!(text_of(&format_integer(i64::MIN)), "-9223372036854775808");
}

#[test]
fn integers_come_back_as_written() {
    for v in [0, 1, -1, 9, 10, 99, 100, -1000, 123456789, i64::MAX, i64::MIN] {
        assert_eq!(parse_integer(&format_integer(v)), Some(v));
    }
}

#[test]
fn decimals_are_read_in_millionths() {
    assert_eq!(micros("123.45"), Some(123_450_000));
    assert_eq!(micros("100"), Some(100_000_000));
    assert_eq!(micros("-2.5"), Some(-2_500_000));
    assert_eq!(micros("+2.5"), Some(2_500_000));
    assert_eq!(micros(".5"), Some(500_000));
    assert_eq!(micros("5."), Some(5_000_000));
    assert_eq!(micros("0"), Some(0));
    assert_eq!(micros("-0"), Some(0));
    assert_eq!(micros("000.000001"), Some(1));
}

#[test]
fn decimals_are_cut_after_the_sixth_place() {
    assert_eq!(micros("0.1234567"), Some(123_456));
    assert_eq!(micros("0.9999999"), Some(999_999));
    assert_eq!(micros("-0.9999999"), Some(-999_999));
    assert_eq!(micros("-0.0000004"), Some(0));
    assert_eq!(micros("0.00000000000000000000000000000000000001"), Some(0));
}

#[test]
fn decimals_with_an_exponent_are_read() {
    assert_eq!(micros("1e3"), Some(1_000_000_000));
    assert_eq!(micros("1E3"), Some(1_000_000_000));
    assert_eq!(micros("1.5e+2"), Some(150_000_000));
    assert_eq!(micros("1.5E-2"), Some(15_000));
    assert_eq!(micros("12345e-7"), Some(1_234));
    assert_eq!(micros(".5e1"), Some(5_000_000));
    assert_eq!(micros("5.e0"), Some(5_000_000));
    assert_eq!(micros("1e-400"), Some(0));
    assert_eq!(micros("0e99"), Some(0));
    assert_eq!(micros("0.000e999999999999999999999999999999999"), Some(0));
    assert_eq!(micros("7e-999999999999999999999999999999999"), Some(0));
    assert_eq!(micros("1234567890123456789012345678901234567890e-35"), Some(12_345_678_901));
    assert_eq!(micros("0.00000000000000000000000000001e30"), Some(10_000_000));
    assert_eq!(micros("1e0000000000000000000000000000000001"), Some(10_000_000));
}

#[test]
fn what_is_no_numeral_is_refused() {
    for s in [
        "", ".", "+", "-", "-.", "e5", ".e5", "1e", "1e+", "1e-", "1e5.0", "1.2.3", "1..2", "abc",
        "inf", "-inf", "infinity", "nan", "NaN", " 1", "1 ", "1,5", "0x10", "1e5e5", "--1", "1_0",
    ] {
        assert_eq!(micros(s), None, "{}", s);
    }
}

#[test]
fn decimals_out_of_range_are_refused() {
    assert_eq!(micros("9223372036854.775807"), Some(i64::MAX));
    assert_eq!(micros("9223372036854.775808"), None);
    assert_eq!(micros("-9223372036854.775808"), Some(i64::MIN));
    assert_eq!(micros("-9223372036854.775809"), None);
    assert_eq!(micros("-9223372036854.7758089"), Some(i64::MIN));
    assert_eq!(micros("1e13"), None);
    assert_eq!(micros("1e400"), None);
    assert_eq!(micros("1e99999999999999999999999999999999"), None);
    assert_eq!(micros("0.0000000001e99999999999999999999999999999999"), None);
}

#[test]
fn decimals_are_written_without_needless_zeros() {
    assert_eq!(Decimal { micros: 150_000_000 }.to_text(), "150");
    assert_eq!(Decimal { micros: 42_900_000 }.to_text(), "42.9");
    assert_eq!(Decimal { micros: 0 }.to_text(), "0");
    assert_eq!(Decimal { micros: 1 }.to_text(), "0.000001");
    assert_eq!(Decimal { micros: -500 }.to_text(), "-0.0005");
    assert_eq!(Decimal { micros: -1_000_000 }.to_text(), "-1");
    assert_eq!(Decimal { micros: 1_010_000 }.to_text(), "1.01");
    assert_eq!(Decimal { micros: i64::MAX }.to_text(), "9223372036854.775807");
    assert_eq!(Decimal { micros: i64::MIN }.to_text(), "-9223372036854.775808");
}

#[test]
fn decimals_come_back_as_written() {
    for v in [0, 1, -1, 10, 999_999, 1_000_000, -1_000_001, 123_456_789, i64::MAX, i64::MIN] {
        let d = Decimal { micros: v };
        assert_eq!(Decimal::from_text(&d.to_text()), Some(d));
        assert_eq!(Decimal::parse(&d.to_chars()), Some(d));
    }
}

#[test]
fn decimals_agree_with_floats_on_short_numerals() {
    for s in ["100", "200.5", "-3.25", "0.125", "1e2", "2.5e-1", "42.9"] {
        let f: f64 = s.parse().unwrap();
        assert_eq!(micros(s), Some((f * 1e6) as i64), "{}", s);
    }
}

#[test]
fn whole_parts_are_cut_toward_zero() {
    assert_eq!(parse_truncated(&chars("42.9")), Some(42));
    assert_eq!(parse_truncated(&chars("-42.9")), Some(-42));
    assert_eq!(parse_truncated(&chars("0.9")), Some(0));
    assert_eq!(parse_truncated(&chars("-0.9")), Some(0));
    assert_eq!(parse_truncated(&chars("4.29e1")), Some(42));
    assert_eq!(parse_truncated(&chars("429e-1")), Some(42));
    assert_eq!(parse_truncated(&chars("abc")), None);
    assert_eq!(parse_truncated(&chars("")), None);
}

#[test]
fn whole_parts_are_held_to_the_range() {
    assert_eq!(parse_truncated(&chars("1e30")), Some(i64::MAX));
    assert_eq!(parse_truncated(&chars("-1e30")), Some(i64::MIN));
    assert_eq!(parse_truncated(&chars("9223372036854775808")), Some(i64::MAX));
    assert_eq!(parse_truncated(&chars("9223372036854775807.9")), Some(i64::MAX));
    assert_eq!(parse_truncated(&chars("-9223372036854775808.5")), Some(i64::MIN));
    assert_eq!(parse_truncated(&chars("-9223372036854775809")), Some(i64::MIN));
}

#[test]
fn whole_parts_agree_with_floats_cast_to_integers() {
    for s in ["42.9", "-42.9", "1e30", "-1e30", "0.5", "1e3", "7.", ".7"] {
        let f: f64 = s.parse().unwrap();
        assert_eq!(parse_truncated(&chars(s)), Some(f as i64), "{}", s);
    }
}

#[test]
fn numbers_written_as_words_are_read() {
    assert_eq!(parse_named(&chars("nan")), Some(0));
    assert_eq!(parse_named(&chars("-NaN")), Some(0));
    assert_eq!(parse_named(&chars("inf")), Some(i64::MAX));
    assert_eq!(parse_named(&chars("+Infinity")), Some(i64::MAX));
    assert_eq!(parse_named(&chars("-INF")), Some(i64::MIN));
    assert_eq!(parse_named(&chars("-infinity")), Some(i64::MIN));
    for s in ["", "-", "in", "infi", "infinit", "infinityy", "nann", "na", "1nf", "i nf", " inf"] {
        assert_eq!(parse_named(&chars(s)), None, "{}", s);
    }
    // Letters that only look like the ones of the words spell nothing.
    for s in ["\u{131}nf", "\u{130}NF", "n\u{e1}n", "\u{ff49}nf", "Inf\u{20}"] {
        assert_eq!(parse_named(&chars(s)), None, "{}", s);
    }
}

#[test]
fn magnitudes_are_scaled() {
    assert_eq!(parse_magnitude(&chars("1.5"), 0), Magnitude::Fits(1));
    assert_eq!(parse_magnitude(&chars("1.5"), 1), Magnitude::Fits(15));
    assert_eq!(parse_magnitude(&chars("-1.5"), 3), Magnitude::Fits(1500));
    assert_eq!(parse_magnitude(&chars("9223372036854775808"), 0), Magnitude::Fits(MAGNITUDE_LIMIT));
    assert_eq!(parse_magnitude(&chars("9223372036854775809"), 0), Magnitude::Exceeds);
    assert_eq!(parse_magnitude(&chars("1"), 19), Magnitude::Exceeds);
    assert_eq!(parse_magnitude(&chars("0"), 30), Magnitude::Fits(0));
    assert_eq!(parse_magnitude(&chars("x"), 0), Magnitude::Malformed);
}

fn next(state: &mut u64) -> u64 {
    *state = state.wrapping_mul(6364136223846793005).wrapping_add(1442695040888963407);
    *state >> 33
}

fn random_text(state: &mut u64, alphabet: &[char], most: u64) -> String {
    let len = next(state) % (most + 1);
    (0..len).map(|_| alphabet[(next(state) % alphabet.len() as u64) as usize]).collect()
}

#[test]
fn integers_agree_with_the_standard_library_on_many_strings() {
    let alphabet = ['0', '1', '2', '9', '+', '-', ' ', '.', 'e', 'x'];
    let mut state = 7;
    for _ in 0..20_000 {
        let s = random_text(&mut state, &alphabet, 22);
        assert_eq!(parse_integer(&chars(&s)), s.parse::<i64>().ok(), "{:?}", s);
    }
}

#[test]
fn numerals_are_what_the_standard_library_reads_as_finite_floats() {
    let alphabet = ['0', '1', '5', '9', '+', '-', '.', 'e', 'E', ' ', 'n', 'i'];
    let mut state = 11;
    for _ in 0..20_000 {
        let s = random_text(&mut state, &alphabet, 8);
        let float = s.parse::<f64>().ok().filter(|f| !f.is_nan());
        let numeral = parse_truncated(&chars(&s));
        let named = s.to_lowercase().contains('n') || s.to_lowercase().contains('i');
        if !named {
            assert_eq!(numeral.is_some(), float.is_some(), "{:?}", s);
        }
        if let (Some(v), Some(f)) = (numeral, float) {
            if f.abs() < 1e15 {
                assert_eq!(v, f as i64, "{:?}", s);
            }
        }
    }
}

#[test]
fn trimming_agrees_with_the_standard_library_on_many_strings() {
    let alphabet = [' ', '\t', '\n', '\u{b}', '\u{c}', '\r', 'a', '1', '\u{85}', '\u{a0}', '\u{2007}', '\u{feff}'];
    let mut state = 13;
    for _ in 0..20_000 {
        let s = random_text(&mut state, &alphabet, 6);
        assert_eq!(text_of(&trim(&chars(&s))), s.trim(), "{:?}", s);
    }
}

#[test]
fn decimals_come_back_as_written_for_many_values() {
    let mut state = 17;
    for _ in 0..20_000 {
        let v = (next(&mut state) << 33 | next(&mut state)) as i64 >> (next(&mut state) % 64);
        let d = Decimal { micros: v };
        assert_eq!(Decimal::from_text(&d.to_text()), Some(d), "{}", v);
        assert_eq!(parse_integer(&format_integer(v)), Some(v));
        assert_eq!(text_of(&format_integer(v)), v.to_string());
    }
}
