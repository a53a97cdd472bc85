use perf_dashboard::domain::decimal::Decimal;
use perf_dashboard::domain::perf::{parse_row_no, Error, PerfRow};
use perf_dashboard::usecase::normalize::{
    field, find_column, header, normalize, parse_count, parse_decimal, parse_text, serialize,
};

fn strings(items: &[&str]) -> Vec<String> {
    items.iter().map(|s| s.to_string()).collect()
}

fn invalid(field: &str, value: &str) -> Error {
    Error::InvalidField { field: field.to_string(), value: value.to_string() }
}

fn dec(micros: i64) -> Option<Decimal> {
    Some(Decimal { micros })
}

fn full_row() -> PerfRow {
    PerfRow {
        release_tag: "v1".to_string(),
        row_no: Some(7),
        test_scenario: Some("login".to_string()),
        p95_latency_ms: dec(120_500_000),
        avg_tps: dec(100_000_000),
        peak_tps: dec(150_250_000),
        failed_txn_pct: dec(500_000),
        failed_txn_count: Some(3),
        total_txn_count: dec(1_000_000_000),
        baseline_avg_tps: dec(95_000_000),
        test_result_text: Some("PASS".to_string()),
        remark_text: Some("first, run".to_string()),
    }
}

fn bare_row(tag: &str) -> PerfRow {
    PerfRow {
        release_tag: tag.to_string(),
        row_no: None,
        test_scenario: None,
        p95_latency_ms: None,
        avg_tps: None,
        peak_tps: None,
        failed_txn_pct: None,
        failed_txn_count: None,
        total_txn_count: None,
        baseline_avg_tps: None,
        test_result_text: None,
        remark_text: None,
    }
}

#[test]
fn row_no_is_read_as_an_integer() {
    assert_eq!(parse_row_no(Some("42")), Ok(Some(42)));
    assert_eq!(parse_row_no(Some("-3")), Ok(Some(-3)));
    assert_eq!(parse_row_no(Some("+3")), Ok(Some(3)));
}

#[test]
fn row_no_written_as_a_decimal_is_cut_toward_zero() {
    assert_eq!(parse_row_no(Some("42.9")), Ok(Some(42)));
    assert_eq!(parse_row_no(Some("-42.9")), Ok(Some(-42)));
    assert_eq!(parse_row_no(Some("4.2e1")), Ok(Some(42)));
    assert_eq!(parse_row_no(Some("1e30")), Ok(Some(i64::MAX)));
    assert_eq!(parse_row_no(Some("9223372036854775808")), Ok(Some(i64::MAX)));
}

#[test]
fn row_no_that_is_empty_or_absent_is_absent() {
    assert_eq!(parse_row_no(Some("")), Ok(None));
    assert_eq!(parse_row_no(Some("   ")), Ok(None));
    assert_eq!(parse_row_no(Some("\t\n")), Ok(None));
    assert_eq!(parse_row_no(None), Ok(None));
}

#[test]
fn row_no_is_read_between_white_space() {
    assert_eq!(parse_row_no(Some(" 42 ")), Ok(Some(42)));
    assert_eq!(parse_row_no(Some("\t42.9\n")), Ok(Some(42)));
}

#[test]
fn row_no_that_is_no_number_fails_with_the_field_as_it_stands() {
    assert_eq!(parse_row_no(Some("abc")), Err(invalid("row_no", "abc")));
    assert_eq!(parse_row_no(Some(" abc ")), Err(invalid("row_no", " abc ")));
    assert_eq!(parse_row_no(Some("4 2")), Err(invalid("row_no", "4 2")));
    assert_eq!(parse_row_no(Some("n/a")), Err(invalid("row_no", "n/a")));
    assert_eq!(parse_row_no(Some("na")), Err(invalid("row_no", "na")));
    assert_eq!(parse_row_no(Some("infinite")), Err(invalid("row_no", "infinite")));
    assert_eq!(parse_row_no(Some("in f")), Err(invalid("row_no", "in f")));
    assert_eq!(parse_row_no(Some("--inf")), Err(invalid("row_no", "--inf")));
    assert_eq!(parse_row_no(Some("\u{131}nf")), Err(invalid("row_no", "\u{131}nf")));
}

#[test]
fn row_no_written_as_a_word_for_no_number_is_zero() {
    for s in ["nan", "NaN", "NAN", "nAn", "+nan", "-nan", " nan "] {
        assert_eq!(parse_row_no(Some(s)), Ok(Some(0)), "{}", s);
    }
}

#[test]
fn row_no_written_as_a_word_for_the_unbounded_is_the_end_of_the_range() {
    for s in ["inf", "INF", "Inf", "+inf", "infinity", "Infinity", "INFINITY", "+iNfInItY", "\tinf\n"] {
        assert_eq!(parse_row_no(Some(s)), Ok(Some(i64::MAX)), "{}", s);
    }
    for s in ["-inf", "-INF", "-infinity", "-Infinity", " -inf "] {
        assert_eq!(parse_row_no(Some(s)), Ok(Some(i64::MIN)), "{}", s);
    }
}

fn step(state: &mut u64) -> u64 {
    *state = state.wrapping_mul(6364136223846793005).wrapping_add(1442695040888963407);
    *state >> 33
}

fn read_as_the_standard_library_reads(s: &str) -> Option<Option<i64>> {
    let t = s.trim();
    if t.is_empty() {
        Some(None)
    } else if let Ok(i) = t.parse::<i64>() {
        Some(Some(i))
    } else if let Ok(f) = t.parse::<f64>() {
        Some(Some(f as i64))
    } else {
        None
    }
}

#[test]
fn row_no_agrees_with_the_readers_of_the_standard_library_on_many_fields() {
    let alphabet = [
        '0', '1', '5', '9', '+', '-', '.', 'e', 'E', ' ', 'n', 'N', 'a', 'A', 'i', 'I', 'f', 'F',
        't', 'y',
    ];
    let words = ["nan", "inf", "infinity", "NaN", "INF", "Infinity", "-inf", "+nan", "-Infinity"];
    let mut state = 23;
    for round in 0..40_000 {
        let len = step(&mut state) % 7;
        let mut s: String =
            (0..len).map(|_| alphabet[(step(&mut state) % 20) as usize]).collect();
        if round % 4 == 0 {
            let word = words[(step(&mut state) % 9) as usize];
            s = match step(&mut state) % 4 {
                0 => word.to_string(),
                1 => format!(" {} ", word),
                2 => format!("{}{}", s, word),
                _ => format!("{}{}", word, s),
            };
        }
        let expected = read_as_the_standard_library_reads(&s);
        match parse_row_no(Some(&s)) {
            Ok(v) => assert_eq!(Some(v), expected, "{:?}", s),
            Err(e) => {
                assert_eq!(None, expected, "{:?}", s);
                assert_eq!(e, invalid("row_no", &s));
            }
        }
    }
}

#[test]
fn text_fields_are_copied_or_absent() {
    assert_eq!(parse_text(Some("login")), Some("login".to_string()));
    assert_eq!(parse_text(Some(" ")), Some(" ".to_string()));
    assert_eq!(parse_text(Some("")), None);
    assert_eq!(parse_text(None), None);
}

#[test]
fn measurement_fields_are_read_or_absent_or_fail() {
    assert_eq!(parse_decimal("avg_tps", Some("100.5")), Ok(dec(100_500_000)));
    assert_eq!(parse_decimal("avg_tps", Some("")), Ok(None));
    assert_eq!(parse_decimal("avg_tps", None), Ok(None));
    assert_eq!(parse_decimal("avg_tps", Some("fast")), Err(invalid("avg_tps", "fast")));
    assert_eq!(parse_decimal("avg_tps", Some(" 1")), Err(invalid("avg_tps", " 1")));
    assert_eq!(parse_decimal("peak_tps", Some("1e99")), Err(invalid("peak_tps", "1e99")));
}

#[test]
fn counting_fields_are_read_or_absent_or_fail() {
    assert_eq!(parse_count("failed_txn_count", Some("3")), Ok(Some(3)));
    assert_eq!(parse_count("failed_txn_count", Some("")), Ok(None));
    assert_eq!(parse_count("failed_txn_count", None), Ok(None));
    assert_eq!(
        parse_count("failed_txn_count", Some("3.0")),
        Err(invalid("failed_txn_count", "3.0"))
    );
    assert_eq!(
        parse_count("failed_txn_count", Some("many")),
        Err(invalid("failed_txn_count", "many"))
    );
}

#[test]
fn columns_are_found_by_name() {
    let h = strings(&["b", "a", "b"]);
    assert_eq!(find_column(&h, "a"), Some(1));
    assert_eq!(find_column(&h, "b"), Some(0));
    assert_eq!(find_column(&h, "c"), None);
    let f = strings(&["1", "2"]);
    assert_eq!(field(&h, &f, "a"), Some("2"));
    assert_eq!(field(&h, &f, "b"), Some("1"));
    assert_eq!(field(&h, &f, "c"), None);
    assert_eq!(field(&h, &strings(&["1"]), "a"), None);
}

#[test]
fn the_header_names_the_twelve_columns() {
    assert_eq!(
        header(),
        strings(&[
            "release_tag",
            "row_no",
            "test_scenario",
            "p95_latency_ms",
            "avg_tps",
            "peak_tps",
            "failed_txn_pct",
            "failed_txn_count",
            "total_txn_count",
            "baseline_avg_tps",
            "test_result_text",
            "remark_text",
        ])
    );
}

#[test]
fn a_full_record_is_normalised() {
    let fields = strings(&[
        "v1", "7", "login", "120.5", "100", "150.25", "0.5", "3", "1000", "95", "PASS",
        "first, run",
    ]);
    assert_eq!(normalize(&header(), &fields), Ok(full_row()));
}

#[test]
fn empty_fields_are_absent() {
    let fields = strings(&["v1", "", "", "", "", "", "", "", "", "", "", ""]);
    assert_eq!(normalize(&header(), &fields), Ok(bare_row("v1")));
}

#[test]
fn an_empty_release_tag_is_taken_as_it_is() {
    let fields = strings(&["", "", "", "", "", "", "", "", "", "", "", ""]);
    assert_eq!(normalize(&header(), &fields), Ok(bare_row("")));
}

#[test]
fn fields_are_found_under_their_columns_in_any_order() {
    let h = strings(&["avg_tps", "remark_text", "release_tag", "row_no"]);
    let fields = strings(&["12.5", "slow", "v3", "9.99"]);
    let mut expected = bare_row("v3");
    expected.row_no = Some(9);
    expected.avg_tps = dec(12_500_000);
    expected.remark_text = Some("slow".to_string());
    assert_eq!(normalize(&h, &fields), Ok(expected));
}

#[test]
fn a_record_without_a_release_tag_column_fails() {
    let h = strings(&["row_no", "avg_tps"]);
    assert_eq!(
        normalize(&h, &strings(&["1", "2"])),
        Err(Error::MissingField { field: "release_tag".to_string() })
    );
    assert_eq!(
        normalize(&header(), &Vec::new()),
        Err(Error::MissingField { field: "release_tag".to_string() })
    );
}

#[test]
fn a_record_that_ends_early_lacks_the_rest() {
    let mut expected = bare_row("v1");
    expected.row_no = Some(2);
    assert_eq!(normalize(&header(), &strings(&["v1", "2"])), Ok(expected));
}

#[test]
fn the_first_bad_field_in_column_order_fails_the_record() {
    let fields = strings(&["v1", "x", "s", "y", "z", "", "", "w", "", "", "", ""]);
    assert_eq!(normalize(&header(), &fields), Err(invalid("row_no", "x")));
    let fields = strings(&["v1", "1", "s", "y", "z", "", "", "w", "", "", "", ""]);
    assert_eq!(normalize(&header(), &fields), Err(invalid("p95_latency_ms", "y")));
    let fields = strings(&["v1", "1", "s", "1", "z", "", "", "w", "", "", "", ""]);
    assert_eq!(normalize(&header(), &fields), Err(invalid("avg_tps", "z")));
    let fields = strings(&["v1", "1", "s", "1", "1", "p", "q", "w", "", "", "", ""]);
    assert_eq!(normalize(&header(), &fields), Err(invalid("peak_tps", "p")));
    let fields = strings(&["v1", "1", "s", "1", "1", "1", "q", "w", "", "", "", ""]);
    assert_eq!(normalize(&header(), &fields), Err(invalid("failed_txn_pct", "q")));
    let fields = strings(&["v1", "1", "s", "1", "1", "1", "1", "w", "t", "b", "", ""]);
    assert_eq!(normalize(&header(), &fields), Err(invalid("failed_txn_count", "w")));
    let fields = strings(&["v1", "1", "s", "1", "1", "1", "1", "1", "t", "b", "", ""]);
    assert_eq!(normalize(&header(), &fields), Err(invalid("total_txn_count", "t")));
    let fields = strings(&["v1", "1", "s", "1", "1", "1", "1", "1", "1", "b", "", ""]);
    assert_eq!(normalize(&header(), &fields), Err(invalid("baseline_avg_tps", "b")));
}

#[test]
fn a_row_is_written_in_the_order_of_the_columns() {
    assert_eq!(
        serialize(&full_row()),
        strings(&[
            "v1", "7", "login", "120.5", "100", "150.25", "0.5", "3", "1000", "95", "PASS",
            "first, run",
        ])
    );
    assert_eq!(
        serialize(&bare_row("v9")),
        strings(&["v9", "", "", "", "", "", "", "", "", "", "", ""])
    );
}

#[test]
fn a_row_written_and_normalised_again_is_itself() {
    let mut odd = bare_row("release with spaces, commas and \"quotes\"");
    odd.row_no = Some(i64::MIN);
    odd.avg_tps = dec(-1);
    odd.peak_tps = dec(i64::MAX);
    odd.failed_txn_count = Some(i64::MAX);
    odd.remark_text = Some(" ".to_string());
    for row in [full_row(), bare_row("v1"), bare_row(""), odd] {
        assert_eq!(normalize(&header(), &serialize(&row)), Ok(row));
    }
}

#[test]
fn normalising_twice_gives_what_normalising_once_gives() {
    let h = strings(&["row_no", "release_tag", "avg_tps", "test_scenario", "extra"]);
    let fields = strings(&[" 42.9 ", "v1", "1.50e2", "", "ignored"]);
    let once = normalize(&h, &fields).unwrap();
    assert_eq!(once.row_no, Some(42));
    assert_eq!(once.avg_tps, dec(150_000_000));
    assert_eq!(once.test_scenario, None);
    let fields_again = serialize(&once);
    assert_eq!(normalize(&header(), &fields_again), Ok(once));
}

#[test]
fn errors_say_what_they_are() {
    assert_eq!(Error::Database("down".to_string()).message(), "Database error: down");
    assert_eq!(Error::NotFound.message(), "Not found");
    assert_eq!(Error::Unknown.message(), "Unknown error");
    assert_eq!(Error::Source("empty".to_string()).message(), "Unusable source: empty");
    assert_eq!(invalid("row_no", "abc").message(), "Invalid row_no: abc");
    assert_eq!(
        Error::MissingField { field: "release_tag".to_string() }.message(),
        "Missing release_tag"
    );
    assert_eq!(
        Error::MalformedRecord("short".to_string()).message(),
        "Malformed record: short"
    );
}

#[test]
fn copies_are_equal() {
    let row = full_row();
    assert_eq!(row.clone(), row);
    let e = invalid("a", "b");
    assert_eq!(e.clone(), e);
}

#[test]
fn a_row_from_a_store_without_a_release_tag_has_the_empty_one() {
    let row = PerfRow::from_columns(
        None, Some(1), None, None, dec(5), None, None, None, None, None, None, None,
    );
    let mut expected = bare_row("");
    expected.row_no = Some(1);
    expected.avg_tps = dec(5);
    assert_eq!(row, expected);
    let row = PerfRow::from_columns(
        Some("v1".to_string()),
        Some(7),
        Some("login".to_string()),
        dec(120_500_000),
        dec(100_000_000),
        dec(150_250_000),
        dec(500_000),
        Some(3),
        dec(1_000_000_000),
        dec(95_000_000),
        Some("PASS".to_string()),
        Some("first, run".to_string()),
    );
    assert_eq!(row, full_row());
}
