//! From the fields of one record to a typed row, and back.
//!
//! A record comes as the fields of one row of a source together with the
//! source's header row, which says under which column each field stands.

use crate::domain::decimal::{decimal_text, decimal_value, lemma_decimal_round_trip, Decimal};
use crate::domain::numeral::{
    format_integer, integer_text, integer_value, lemma_integer_round_trip, parse_integer,
};
use crate::domain::perf::{
    decimal_view, integer_view, parse_row_no, row_no_of, slice_view, text_view, Error, ErrorView,
    PerfRow, PerfRowView,
};
use crate::domain::text::{chars_of, lemma_trimmed_fixed, text_of, trimmed};
use vstd::prelude::*;
use vstd::string::*;

verus! {

/// The column of the release under test; no record may lack it.
pub const RELEASE_TAG: &'static str = "release_tag";

/// The column of the row's ordinal.
pub const ROW_NO: &'static str = "row_no";

/// The column of the scenario, a text.
pub const TEST_SCENARIO: &'static str = "test_scenario";

/// The column of the latency, a measurement.
pub const P95_LATENCY_MS: &'static str = "p95_latency_ms";

/// The column of the average throughput, a measurement.
pub const AVG_TPS: &'static str = "avg_tps";

/// The column of the peak throughput, a measurement.
pub const PEAK_TPS: &'static str = "peak_tps";

/// The column of the share of failed transactions, a measurement.
pub const FAILED_TXN_PCT: &'static str = "failed_txn_pct";

/// The column of the number of failed transactions, a count.
pub const FAILED_TXN_COUNT: &'static str = "failed_txn_count";

/// The column of the number of transactions, a measurement.
pub const TOTAL_TXN_COUNT: &'static str = "total_txn_count";

/// The column of the baseline's average throughput, a measurement.
pub const BASELINE_AVG_TPS: &'static str = "baseline_avg_tps";

/// The column of the verdict, a text.
pub const TEST_RESULT_TEXT: &'static str = "test_result_text";

/// The column of remarks, a text.
pub const REMARK_TEXT: &'static str = "remark_text";

/// The names of the columns of a source, in the order in which a row's
/// fields are written.
pub open spec fn columns() -> Seq<Seq<char>> {
    seq![
        RELEASE_TAG@,
        ROW_NO@,
        TEST_SCENARIO@,
        P95_LATENCY_MS@,
        AVG_TPS@,
        PEAK_TPS@,
        FAILED_TXN_PCT@,
        FAILED_TXN_COUNT@,
        TOTAL_TXN_COUNT@,
        BASELINE_AVG_TPS@,
        TEST_RESULT_TEXT@,
        REMARK_TEXT@,
    ]
}

/// Where the column `name` first stands in `header`, or the length of
/// `header` if it does not name that column.
pub open spec fn position(header: Seq<Seq<char>>, name: Seq<char>) -> int
    decreases header.len(),
{
    if header.len() == 0 || header[0] == name {
        0
    } else {
        1 + position(header.drop_first(), name)
    }
}

/// The field of a record that stands under the column `name`; none where
/// the header does not name the column or the record ends before it.
pub open spec fn field_under(
    header: Seq<Seq<char>>,
    fields: Seq<Seq<char>>,
    name: Seq<char>,
) -> Option<Seq<char>> {
    let at = position(header, name);
    if at < header.len() && at < fields.len() {
        Some(fields[at])
    } else {
        None
    }
}

/// Whether `header` names each of the twelve columns once and nothing else.
pub open spec fn is_header(header: Seq<Seq<char>>) -> bool {
    &&& header.len() == columns().len()
    &&& forall|k: int| 0 <= k < columns().len() ==> position(header, #[trigger] columns()[k])
        < header.len()
}

/// What a field of text holds: the field as it stands, or nothing for an
/// absent or empty one.
pub open spec fn text_field(raw: Option<Seq<char>>) -> Option<Seq<char>> {
    match raw {
        Some(s) if s.len() > 0 => Some(s),
        _ => None,
    }
}

/// What a field of the measurement column `name` holds: nothing for an
/// absent or empty field; else the millionths that the field writes as a
/// decimal numeral; else a failure that names the column and gives the field.
pub open spec fn decimal_field(name: Seq<char>, raw: Option<Seq<char>>) -> Result<
    Option<int>,
    ErrorView,
> {
    match raw {
        None => Ok(None),
        Some(s) => if s.len() == 0 {
            Ok(None)
        } else if decimal_value(s) is Some {
            Ok(decimal_value(s))
        } else {
            Err(ErrorView::InvalidField { field: name, value: s })
        },
    }
}

/// What a field of the counting column `name` holds: nothing for an absent or
/// empty field; else the integer that the field writes; else a failure that
/// names the column and gives the field.
pub open spec fn count_field(name: Seq<char>, raw: Option<Seq<char>>) -> Result<
    Option<int>,
    ErrorView,
> {
    match raw {
        None => Ok(None),
        Some(s) => if s.len() == 0 {
            Ok(None)
        } else if integer_value(s) is Some {
            Ok(integer_value(s))
        } else {
            Err(ErrorView::InvalidField { field: name, value: s })
        },
    }
}

/// The first failure among the fields of a record, taken in the order of the
/// columns; none where every field reads as what its column holds.
pub open spec fn first_failure(header: Seq<Seq<char>>, fields: Seq<Seq<char>>) -> Option<
    ErrorView,
> {
    if field_under(header, fields, RELEASE_TAG@) is None {
        Some(ErrorView::MissingField { field: RELEASE_TAG@ })
    } else if row_no_of(field_under(header, fields, ROW_NO@)) is Err {
        Some(row_no_of(field_under(header, fields, ROW_NO@))->Err_0)
    } else if decimal_field(P95_LATENCY_MS@, field_under(header, fields, P95_LATENCY_MS@)) is Err {
        Some(decimal_field(P95_LATENCY_MS@, field_under(header, fields, P95_LATENCY_MS@))->Err_0)
    } else if decimal_field(AVG_TPS@, field_under(header, fields, AVG_TPS@)) is Err {
        Some(decimal_field(AVG_TPS@, field_under(header, fields, AVG_TPS@))->Err_0)
    } else if decimal_field(PEAK_TPS@, field_under(header, fields, PEAK_TPS@)) is Err {
        Some(decimal_field(PEAK_TPS@, field_under(header, fields, PEAK_TPS@))->Err_0)
    } else if decimal_field(FAILED_TXN_PCT@, field_under(header, fields, FAILED_TXN_PCT@)) is Err {
        Some(decimal_field(FAILED_TXN_PCT@, field_under(header, fields, FAILED_TXN_PCT@))->Err_0)
    } else if count_field(FAILED_TXN_COUNT@, field_under(header, fields, FAILED_TXN_COUNT@))
        is Err {
        Some(count_field(FAILED_TXN_COUNT@, field_under(header, fields, FAILED_TXN_COUNT@))->Err_0)
    } else if decimal_field(TOTAL_TXN_COUNT@, field_under(header, fields, TOTAL_TXN_COUNT@))
        is Err {
        Some(decimal_field(TOTAL_TXN_COUNT@, field_under(header, fields, TOTAL_TXN_COUNT@))->Err_0)
    } else if decimal_field(BASELINE_AVG_TPS@, field_under(header, fields, BASELINE_AVG_TPS@))
        is Err {
        Some(
            decimal_field(BASELINE_AVG_TPS@, field_under(header, fields, BASELINE_AVG_TPS@))->Err_0,
        )
    } else {
        None
    }
}

/// The row that the fields of a record make where none of them fails.
pub open spec fn row_of(header: Seq<Seq<char>>, fields: Seq<Seq<char>>) -> PerfRowView {
    PerfRowView {
        release_tag: field_under(header, fields, RELEASE_TAG@)->0,
        row_no: row_no_of(field_under(header, fields, ROW_NO@))->Ok_0,
        test_scenario: text_field(field_under(header, fields, TEST_SCENARIO@)),
        p95_latency_ms: decimal_field(
            P95_LATENCY_MS@,
            field_under(header, fields, P95_LATENCY_MS@),
        )->Ok_0,
        avg_tps: decimal_field(AVG_TPS@, field_under(header, fields, AVG_TPS@))->Ok_0,
        peak_tps: decimal_field(PEAK_TPS@, field_under(header, fields, PEAK_TPS@))->Ok_0,
        failed_txn_pct: decimal_field(
            FAILED_TXN_PCT@,
            field_under(header, fields, FAILED_TXN_PCT@),
        )->Ok_0,
        failed_txn_count: count_field(
            FAILED_TXN_COUNT@,
            field_under(header, fields, FAILED_TXN_COUNT@),
        )->Ok_0,
        total_txn_count: decimal_field(
            TOTAL_TXN_COUNT@,
            field_under(header, fields, TOTAL_TXN_COUNT@),
        )->Ok_0,
        baseline_avg_tps: decimal_field(
            BASELINE_AVG_TPS@,
            field_under(header, fields, BASELINE_AVG_TPS@),
        )->Ok_0,
        test_result_text: text_field(field_under(header, fields, TEST_RESULT_TEXT@)),
        remark_text: text_field(field_under(header, fields, REMARK_TEXT@)),
    }
}

/// What normalising a record gives: the first failure among its fields, or
/// the row that they make.
pub open spec fn normalized(header: Seq<Seq<char>>, fields: Seq<Seq<char>>) -> Result<
    PerfRowView,
    ErrorView,
> {
    match first_failure(header, fields) {
        Some(e) => Err(e),
        None => Ok(row_of(header, fields)),
    }
}

/// No column of that name stands before its first place.
pub proof fn lemma_position_least(header: Seq<Seq<char>>, name: Seq<char>, k: int)
    requires
        0 <= k <= header.len(),
        forall|i: int| 0 <= i < k ==> #[trigger] header[i] != name,
    ensures
        position(header, name) >= k,
        position(header, name) <= header.len(),
        (k == header.len() || header[k] == name) ==> position(header, name) == k,
    decreases header.len(),
{
    if header.len() > 0 && header[0] != name {
        let rest = header.drop_first();
        if k > 0 {
            assert forall|i: int| 0 <= i < k - 1 implies #[trigger] rest[i] != name by {
                assert(rest[i] == header[i + 1]);
            }
            lemma_position_least(rest, name, k - 1);
            if k < header.len() {
                assert(rest[k - 1] == header[k]);
            }
        } else {
            lemma_position_least(rest, name, 0);
        }
    } else if header.len() > 0 {
        assert(k == 0);
    }
}

/// Where the column `name` first stands in `header`, if it stands there.
pub fn find_column(header: &Vec<String>, name: &str) -> (r: Option<usize>)
    ensures
        match r {
            Some(at) => at == position(header.deep_view(), name@) && at < header.len(),
            None => position(header.deep_view(), name@) == header.len(),
        },
{
    let wanted = String::from_str(name);
    let ghost names = header.deep_view();
    let mut at: usize = 0;
    while at < header.len()
        invariant
            at <= header.len(),
            names == header.deep_view(),
            wanted@ == name@,
            forall|i: int| 0 <= i < at ==> #[trigger] names[i] != name@,
        decreases header.len() - at,
    {
        if header[at] == wanted {
            proof {
                assert(names[at as int] == header@[at as int]@);
                lemma_position_least(names, name@, at as int);
            }
            return Some(at);
        }
        assert(names[at as int] == header@[at as int]@);
        at += 1;
    }
    proof {
        lemma_position_least(names, name@, at as int);
    }
    None
}

/// The field of a record that stands under the column `name`.
pub fn field<'a>(header: &Vec<String>, fields: &'a Vec<String>, name: &str) -> (r: Option<
    &'a str,
>)
    ensures
        slice_view(r) == field_under(header.deep_view(), fields.deep_view(), name@),
{
    match find_column(header, name) {
        Some(at) => {
            if at < fields.len() {
                assert(fields.deep_view()[at as int] == fields@[at as int]@);
                Some(fields[at].as_str())
            } else {
                None
            }
        },
        None => None,
    }
}

/// Reads a field of text as `text_field` defines it.
pub fn parse_text(raw: Option<&str>) -> (r: Option<String>)
    ensures
        text_view(r) == text_field(slice_view(raw)),
{
    match raw {
        None => None,
        Some(s) => {
            if s.is_empty() {
                None
            } else {
                Some(String::from_str(s))
            }
        },
    }
}

/// Reads a field of a measurement column as `decimal_field` defines it.
pub fn parse_decimal(name: &str, raw: Option<&str>) -> (r: Result<Option<Decimal>, Error>)
    ensures
        match r {
            Ok(v) => decimal_field(name@, slice_view(raw)) == Ok::<Option<int>, ErrorView>(
                decimal_view(v),
            ),
            Err(e) => decimal_field(name@, slice_view(raw)) == Err::<Option<int>, ErrorView>(e@),
        },
{
    match raw {
        None => Ok(None),
        Some(s) => {
            let chars = chars_of(s);
            if chars.len() == 0 {
                return Ok(None);
            }
            match Decimal::parse(&chars) {
                Some(d) => Ok(Some(d)),
                None => Err(
                    Error::InvalidField {
                        field: String::from_str(name),
                        value: String::from_str(s),
                    },
                ),
            }
        },
    }
}

/// Reads a field of a counting column as `count_field` defines it.
pub fn parse_count(name: &str, raw: Option<&str>) -> (r: Result<Option<i64>, Error>)
    ensures
        match r {
            Ok(v) => count_field(name@, slice_view(raw)) == Ok::<Option<int>, ErrorView>(
                integer_view(v),
            ),
            Err(e) => count_field(name@, slice_view(raw)) == Err::<Option<int>, ErrorView>(e@),
        },
{
    match raw {
        None => Ok(None),
        Some(s) => {
            let chars = chars_of(s);
            if chars.len() == 0 {
                return Ok(None);
            }
            match parse_integer(&chars) {
                Some(v) => Ok(Some(v)),
                None => Err(
                    Error::InvalidField {
                        field: String::from_str(name),
                        value: String::from_str(s),
                    },
                ),
            }
        },
    }
}

/// Makes a typed row of the fields of one record: each field is looked up
/// under its column's name and read as what the column holds. The first
/// field that does not read, in the order of the columns, fails the record.
pub fn normalize(header: &Vec<String>, fields: &Vec<String>) -> (r: Result<PerfRow, Error>)
    ensures
        match r {
            Ok(row) => normalized(header.deep_view(), fields.deep_view()) == Ok::<
                PerfRowView,
                ErrorView,
            >(row@),
            Err(e) => normalized(header.deep_view(), fields.deep_view()) == Err::<
                PerfRowView,
                ErrorView,
            >(e@),
        },
{
    let release_tag = match field(header, fields, RELEASE_TAG) {
        Some(s) => String::from_str(s),
        None => {
            return Err(Error::MissingField { field: String::from_str(RELEASE_TAG) });
        },
    };
    let row_no = match parse_row_no(field(header, fields, ROW_NO)) {
        Ok(v) => v,
        Err(e) => {
            return Err(e);
        },
    };
    let test_scenario = parse_text(field(header, fields, TEST_SCENARIO));
    let p95_latency_ms = match parse_decimal(P95_LATENCY_MS, field(header, fields, P95_LATENCY_MS)) {
        Ok(v) => v,
        Err(e) => {
            return Err(e);
        },
    };
    let avg_tps = match parse_decimal(AVG_TPS, field(header, fields, AVG_TPS)) {
        Ok(v) => v,
        Err(e) => {
            return Err(e);
        },
    };
    let peak_tps = match parse_decimal(PEAK_TPS, field(header, fields, PEAK_TPS)) {
        Ok(v) => v,
        Err(e) => {
            return Err(e);
        },
    };
    let failed_txn_pct = match parse_decimal(FAILED_TXN_PCT, field(header, fields, FAILED_TXN_PCT)) {
        Ok(v) => v,
        Err(e) => {
            return Err(e);
        },
    };
    let failed_txn_count = match parse_count(
        FAILED_TXN_COUNT,
        field(header, fields, FAILED_TXN_COUNT),
    ) {
        Ok(v) => v,
        Err(e) => {
            return Err(e);
        },
    };
    let total_txn_count = match parse_decimal(
        TOTAL_TXN_COUNT,
        field(header, fields, TOTAL_TXN_COUNT),
    ) {
        Ok(v) => v,
        Err(e) => {
            return Err(e);
        },
    };
    let baseline_avg_tps = match parse_decimal(
        BASELINE_AVG_TPS,
        field(header, fields, BASELINE_AVG_TPS),
    ) {
        Ok(v) => v,
        Err(e) => {
            return Err(e);
        },
    };
    let test_result_text = parse_text(field(header, fields, TEST_RESULT_TEXT));
    let remark_text = parse_text(field(header, fields, REMARK_TEXT));
    Ok(
        PerfRow {
            release_tag,
            row_no,
            test_scenario,
            p95_latency_ms,
            avg_tps,
            peak_tps,
            failed_txn_pct,
            failed_txn_count,
            total_txn_count,
            baseline_avg_tps,
            test_result_text,
            remark_text,
        },
    )
}

/// How an optional string is written in a field: as it stands, or as the
/// empty field.
pub open spec fn written_text(o: Option<Seq<char>>) -> Seq<char> {
    match o {
        Some(s) => s,
        None => Seq::empty(),
    }
}

/// How an optional integer is written in a field.
pub open spec fn written_integer(o: Option<int>) -> Seq<char> {
    match o {
        Some(v) => integer_text(v),
        None => Seq::empty(),
    }
}

/// How an optional measurement is written in a field.
pub open spec fn written_decimal(o: Option<int>) -> Seq<char> {
    match o {
        Some(v) => decimal_text(v),
        None => Seq::empty(),
    }
}

/// The fields that write `row`, in the order of the columns.
pub open spec fn fields_of(row: PerfRowView) -> Seq<Seq<char>> {
    seq![
        row.release_tag,
        written_integer(row.row_no),
        written_text(row.test_scenario),
        written_decimal(row.p95_latency_ms),
        written_decimal(row.avg_tps),
        written_decimal(row.peak_tps),
        written_decimal(row.failed_txn_pct),
        written_integer(row.failed_txn_count),
        written_decimal(row.total_txn_count),
        written_decimal(row.baseline_avg_tps),
        written_text(row.test_result_text),
        written_text(row.remark_text),
    ]
}

/// Whether an optional number is one that an `i64` holds.
pub open spec fn in_range(o: Option<int>) -> bool {
    o matches Some(v) ==> i64::MIN <= v <= i64::MAX
}

/// Whether `row` is such as normalising makes them: its numbers are such as
/// an `i64` holds, and a string that may be absent is not there and empty.
pub open spec fn is_normal(row: PerfRowView) -> bool {
    &&& in_range(row.row_no)
    &&& in_range(row.p95_latency_ms)
    &&& in_range(row.avg_tps)
    &&& in_range(row.peak_tps)
    &&& in_range(row.failed_txn_pct)
    &&& in_range(row.failed_txn_count)
    &&& in_range(row.total_txn_count)
    &&& in_range(row.baseline_avg_tps)
    &&& row.test_scenario matches Some(s) ==> s.len() > 0
    &&& row.test_result_text matches Some(s) ==> s.len() > 0
    &&& row.remark_text matches Some(s) ==> s.len() > 0
}

/// The twelve column names differ from each other.
pub proof fn lemma_columns_distinct()
    ensures
        columns().len() == 12,
        forall|i: int, j: int|
            0 <= i < j < 12 ==> #[trigger] columns()[i] != #[trigger] columns()[j],
{
    reveal_strlit("release_tag");
    reveal_strlit("row_no");
    reveal_strlit("test_scenario");
    reveal_strlit("p95_latency_ms");
    reveal_strlit("avg_tps");
    reveal_strlit("peak_tps");
    reveal_strlit("failed_txn_pct");
    reveal_strlit("failed_txn_count");
    reveal_strlit("total_txn_count");
    reveal_strlit("baseline_avg_tps");
    reveal_strlit("test_result_text");
    reveal_strlit("remark_text");
    let c = columns();
    assert(c[0].len() == 11 && c[0][2] == 'l');
    assert(c[1].len() == 6);
    assert(c[2].len() == 13);
    assert(c[3].len() == 14 && c[3][0] == 'p');
    assert(c[4].len() == 7);
    assert(c[5].len() == 8);
    assert(c[6].len() == 14 && c[6][0] == 'f');
    assert(c[7].len() == 16 && c[7][0] == 'f');
    assert(c[8].len() == 15);
    assert(c[9].len() == 16 && c[9][0] == 'b');
    assert(c[10].len() == 16 && c[10][0] == 't');
    assert(c[11].len() == 11 && c[11][2] == 'm');
}

/// Under the header that names the columns in their order, the field of the
/// column at `k` is the field at `k`.
pub proof fn lemma_field_in_order(fields: Seq<Seq<char>>, k: int)
    requires
        fields.len() == 12,
        0 <= k < 12,
    ensures
        field_under(columns(), fields, columns()[k]) == Some(fields[k]),
{
    lemma_columns_distinct();
    assert forall|i: int| 0 <= i < k implies #[trigger] columns()[i] != columns()[k] by {}
    lemma_position_least(columns(), columns()[k], k);
}

/// A number written as an integer reads as itself, also between white space.
pub proof fn lemma_written_integer_reads(o: Option<int>)
    requires
        in_range(o),
    ensures
        row_no_of(Some(written_integer(o))) == Ok::<Option<int>, ErrorView>(o),
        forall|name: Seq<char>|
            #[trigger] count_field(name, Some(written_integer(o))) == Ok::<Option<int>, ErrorView>(
                o,
            ),
{
    match o {
        Some(v) => {
            lemma_integer_round_trip(v);
            lemma_trimmed_fixed(integer_text(v));
        },
        None => {
            assert(trimmed(Seq::<char>::empty()) =~= Seq::<char>::empty());
        },
    }
}

/// A measurement written out reads as itself.
pub proof fn lemma_written_decimal_reads(o: Option<int>)
    requires
        in_range(o),
    ensures
        forall|name: Seq<char>|
            #[trigger] decimal_field(name, Some(written_decimal(o))) == Ok::<
                Option<int>,
                ErrorView,
            >(o),
{
    match o {
        Some(v) => {
            lemma_decimal_round_trip(v);
        },
        None => {},
    }
}

/// Written out in fields and normalised again, a row is what it was.
pub proof fn lemma_round_trip(row: PerfRowView)
    requires
        is_normal(row),
    ensures
        normalized(columns(), fields_of(row)) == Ok::<PerfRowView, ErrorView>(row),
{
    let fields = fields_of(row);
    let header = columns();
    lemma_columns_distinct();
    lemma_field_in_order(fields, 0);
    lemma_field_in_order(fields, 1);
    lemma_field_in_order(fields, 2);
    lemma_field_in_order(fields, 3);
    lemma_field_in_order(fields, 4);
    lemma_field_in_order(fields, 5);
    lemma_field_in_order(fields, 6);
    lemma_field_in_order(fields, 7);
    lemma_field_in_order(fields, 8);
    lemma_field_in_order(fields, 9);
    lemma_field_in_order(fields, 10);
    lemma_field_in_order(fields, 11);
    lemma_written_integer_reads(row.row_no);
    lemma_written_integer_reads(row.failed_txn_count);
    lemma_written_decimal_reads(row.p95_latency_ms);
    lemma_written_decimal_reads(row.avg_tps);
    lemma_written_decimal_reads(row.peak_tps);
    lemma_written_decimal_reads(row.failed_txn_pct);
    lemma_written_decimal_reads(row.total_txn_count);
    lemma_written_decimal_reads(row.baseline_avg_tps);
    assert(first_failure(header, fields) is None);
    let again = row_of(header, fields);
    assert(again.test_scenario == row.test_scenario);
    assert(again.test_result_text == row.test_result_text);
    assert(again.remark_text == row.remark_text);
    assert(again == row);
}

/// What normalising makes is such a row as `is_normal` describes.
pub proof fn lemma_normalized_is_normal(header: Seq<Seq<char>>, fields: Seq<Seq<char>>)
    ensures
        normalized(header, fields) matches Ok(row) ==> is_normal(row),
{
}

/// Normalising a record, writing the row out and normalising it again gives
/// the same row.
pub proof fn lemma_normalize_is_stable(header: Seq<Seq<char>>, fields: Seq<Seq<char>>)
    ensures
        normalized(header, fields) matches Ok(row) ==> normalized(columns(), fields_of(row))
            == Ok::<PerfRowView, ErrorView>(row),
{
    lemma_normalized_is_normal(header, fields);
    if let Ok(row) = normalized(header, fields) {
        lemma_round_trip(row);
    }
}

/// The header that names the columns in their order.
pub fn header() -> (h: Vec<String>)
    ensures
        h.deep_view() == columns(),
{
    let mut h: Vec<String> = Vec::new();
    h.push(String::from_str(RELEASE_TAG));
    h.push(String::from_str(ROW_NO));
    h.push(String::from_str(TEST_SCENARIO));
    h.push(String::from_str(P95_LATENCY_MS));
    h.push(String::from_str(AVG_TPS));
    h.push(String::from_str(PEAK_TPS));
    h.push(String::from_str(FAILED_TXN_PCT));
    h.push(String::from_str(FAILED_TXN_COUNT));
    h.push(String::from_str(TOTAL_TXN_COUNT));
    h.push(String::from_str(BASELINE_AVG_TPS));
    h.push(String::from_str(TEST_RESULT_TEXT));
    h.push(String::from_str(REMARK_TEXT));
    assert(h.deep_view() =~= columns());
    h
}

/// Writes an optional string as `written_text` defines it.
fn write_text(o: &Option<String>) -> (s: String)
    ensures
        s@ == written_text(text_view(*o)),
{
    match o {
        Some(s) => s.clone(),
        None => String::new(),
    }
}

/// Writes an optional integer as `written_integer` defines it.
fn write_integer(o: Option<i64>) -> (s: String)
    ensures
        s@ == written_integer(integer_view(o)),
{
    match o {
        Some(v) => text_of(&format_integer(v)),
        None => String::new(),
    }
}

/// Writes an optional measurement as `written_decimal` defines it.
fn write_decimal(o: Option<Decimal>) -> (s: String)
    ensures
        s@ == written_decimal(decimal_view(o)),
{
    match o {
        Some(d) => d.to_text(),
        None => String::new(),
    }
}

/// The fields that write `row`, in the order of the columns.
pub fn serialize(row: &PerfRow) -> (fields: Vec<String>)
    ensures
        fields.deep_view() == fields_of(row@),
{
    let mut fields: Vec<String> = Vec::new();
    fields.push(row.release_tag.clone());
    fields.push(write_integer(row.row_no));
    fields.push(write_text(&row.test_scenario));
    fields.push(write_decimal(row.p95_latency_ms));
    fields.push(write_decimal(row.avg_tps));
    fields.push(write_decimal(row.peak_tps));
    fields.push(write_decimal(row.failed_txn_pct));
    fields.push(write_integer(row.failed_txn_count));
    fields.push(write_decimal(row.total_txn_count));
    fields.push(write_decimal(row.baseline_avg_tps));
    fields.push(write_text(&row.test_result_text));
    fields.push(write_text(&row.remark_text));
    assert(fields.deep_view() =~= fields_of(row@));
    fields
}

} // verus!
