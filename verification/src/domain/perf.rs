//! Performance records, filters over them, what is computed from them, and
//! what can go wrong.

use crate::domain::decimal::{
    named_value, parse_named, parse_truncated, truncated_value, Decimal,
};
use crate::domain::numeral::{integer_value, parse_integer};
use crate::domain::text::{chars_of, trim, trimmed};
use vstd::prelude::*;
use vstd::string::*;

verus! {

/// What went wrong.
#[derive(Debug, PartialEq, Eq)]
pub enum Error {
    /// The store refused an operation; its complaint.
    Database(String),
    /// Nothing matches.
    NotFound,
    /// A failure of no known kind.
    Unknown,
    /// The source as a whole cannot be used; why.
    Source(String),
    /// A field of one record does not read as what its column holds: the
    /// column's name and the field as it stands in the source.
    InvalidField { field: String, value: String },
    /// A record has nothing under a column that no record may lack.
    MissingField { field: String },
    /// The reader could not hand out one record; its complaint.
    MalformedRecord(String),
}

/// An `Error` with its strings as sequences of characters.
pub enum ErrorView {
    Database(Seq<char>),
    NotFound,
    Unknown,
    Source(Seq<char>),
    InvalidField { field: Seq<char>, value: Seq<char> },
    MissingField { field: Seq<char> },
    MalformedRecord(Seq<char>),
}

impl View for Error {
    type V = ErrorView;

    open spec fn view(&self) -> ErrorView {
        match self {
            Error::Database(complaint) => ErrorView::Database(complaint@),
            Error::NotFound => ErrorView::NotFound,
            Error::Unknown => ErrorView::Unknown,
            Error::Source(why) => ErrorView::Source(why@),
            Error::InvalidField { field, value } => ErrorView::InvalidField {
                field: field@,
                value: value@,
            },
            Error::MissingField { field } => ErrorView::MissingField { field: field@ },
            Error::MalformedRecord(complaint) => ErrorView::MalformedRecord(complaint@),
        }
    }
}

impl DeepView for Error {
    type V = ErrorView;

    open spec fn deep_view(&self) -> ErrorView {
        self@
    }
}

impl Clone for Error {
    fn clone(&self) -> (r: Error)
        ensures
            r@ == self@,
    {
        match self {
            Error::Database(complaint) => Error::Database(complaint.clone()),
            Error::NotFound => Error::NotFound,
            Error::Unknown => Error::Unknown,
            Error::Source(why) => Error::Source(why.clone()),
            Error::InvalidField { field, value } => Error::InvalidField {
                field: field.clone(),
                value: value.clone(),
            },
            Error::MissingField { field } => Error::MissingField { field: field.clone() },
            Error::MalformedRecord(complaint) => Error::MalformedRecord(complaint.clone()),
        }
    }
}

/// What an error says of itself.
pub open spec fn message_of(e: ErrorView) -> Seq<char> {
    match e {
        ErrorView::Database(complaint) => "Database error: "@ + complaint,
        ErrorView::NotFound => "Not found"@,
        ErrorView::Unknown => "Unknown error"@,
        ErrorView::Source(why) => "Unusable source: "@ + why,
        ErrorView::InvalidField { field, value } => "Invalid "@ + field + ": "@ + value,
        ErrorView::MissingField { field } => "Missing "@ + field,
        ErrorView::MalformedRecord(complaint) => "Malformed record: "@ + complaint,
    }
}

impl Error {
    /// What the error says of itself.
    pub fn message(&self) -> (m: String)
        ensures
            m@ == message_of(self@),
    {
        match self {
            Error::Database(complaint) => String::from_str("Database error: ").concat(
                complaint.as_str(),
            ),
            Error::NotFound => String::from_str("Not found"),
            Error::Unknown => String::from_str("Unknown error"),
            Error::Source(why) => String::from_str("Unusable source: ").concat(why.as_str()),
            Error::InvalidField { field, value } => String::from_str("Invalid ").concat(
                field.as_str(),
            ).concat(": ").concat(value.as_str()),
            Error::MissingField { field } => String::from_str("Missing ").concat(field.as_str()),
            Error::MalformedRecord(complaint) => String::from_str("Malformed record: ").concat(
                complaint.as_str(),
            ),
        }
    }
}

/// The view of an optional string.
pub open spec fn text_view(o: Option<String>) -> Option<Seq<char>> {
    match o {
        Some(s) => Some(s@),
        None => None,
    }
}

/// The view of an optional measurement.
pub open spec fn decimal_view(o: Option<Decimal>) -> Option<int> {
    match o {
        Some(d) => Some(d@),
        None => None,
    }
}

/// The view of an optional integer.
pub open spec fn integer_view(o: Option<i64>) -> Option<int> {
    match o {
        Some(v) => Some(v as int),
        None => None,
    }
}

/// A copy of an optional string.
pub fn clone_text(o: &Option<String>) -> (r: Option<String>)
    ensures
        text_view(r) == text_view(*o),
{
    match o {
        Some(s) => Some(s.clone()),
        None => None,
    }
}

/// The result of one test run.
#[derive(Debug, PartialEq, Eq)]
pub struct PerfRow {
    /// The release under test.
    pub release_tag: String,
    /// The row's ordinal in its source.
    pub row_no: Option<i64>,
    pub test_scenario: Option<String>,
    pub p95_latency_ms: Option<Decimal>,
    pub avg_tps: Option<Decimal>,
    pub peak_tps: Option<Decimal>,
    pub failed_txn_pct: Option<Decimal>,
    pub failed_txn_count: Option<i64>,
    pub total_txn_count: Option<Decimal>,
    pub baseline_avg_tps: Option<Decimal>,
    pub test_result_text: Option<String>,
    pub remark_text: Option<String>,
}

/// A `PerfRow` as plain values: strings as sequences of characters,
/// measurements as millionths.
pub struct PerfRowView {
    pub release_tag: Seq<char>,
    pub row_no: Option<int>,
    pub test_scenario: Option<Seq<char>>,
    pub p95_latency_ms: Option<int>,
    pub avg_tps: Option<int>,
    pub peak_tps: Option<int>,
    pub failed_txn_pct: Option<int>,
    pub failed_txn_count: Option<int>,
    pub total_txn_count: Option<int>,
    pub baseline_avg_tps: Option<int>,
    pub test_result_text: Option<Seq<char>>,
    pub remark_text: Option<Seq<char>>,
}

impl View for PerfRow {
    type V = PerfRowView;

    open spec fn view(&self) -> PerfRowView {
        PerfRowView {
            release_tag: self.release_tag@,
            row_no: integer_view(self.row_no),
            test_scenario: text_view(self.test_scenario),
            p95_latency_ms: decimal_view(self.p95_latency_ms),
            avg_tps: decimal_view(self.avg_tps),
            peak_tps: decimal_view(self.peak_tps),
            failed_txn_pct: decimal_view(self.failed_txn_pct),
            failed_txn_count: integer_view(self.failed_txn_count),
            total_txn_count: decimal_view(self.total_txn_count),
            baseline_avg_tps: decimal_view(self.baseline_avg_tps),
            test_result_text: text_view(self.test_result_text),
            remark_text: text_view(self.remark_text),
        }
    }
}

impl DeepView for PerfRow {
    type V = PerfRowView;

    open spec fn deep_view(&self) -> PerfRowView {
        self@
    }
}

impl PerfRow {
    /// The row that a store hands back column by column: a column that the
    /// store gave no value for is absent, and a release tag that it gave none
    /// for is the empty string.
    pub fn from_columns(
        release_tag: Option<String>,
        row_no: Option<i64>,
        test_scenario: Option<String>,
        p95_latency_ms: Option<Decimal>,
        avg_tps: Option<Decimal>,
        peak_tps: Option<Decimal>,
        failed_txn_pct: Option<Decimal>,
        failed_txn_count: Option<i64>,
        total_txn_count: Option<Decimal>,
        baseline_avg_tps: Option<Decimal>,
        test_result_text: Option<String>,
        remark_text: Option<String>,
    ) -> (row: PerfRow)
        ensures
            row@ == (PerfRowView {
                release_tag: match release_tag {
                    Some(tag) => tag@,
                    None => Seq::empty(),
                },
                row_no: integer_view(row_no),
                test_scenario: text_view(test_scenario),
                p95_latency_ms: decimal_view(p95_latency_ms),
                avg_tps: decimal_view(avg_tps),
                peak_tps: decimal_view(peak_tps),
                failed_txn_pct: decimal_view(failed_txn_pct),
                failed_txn_count: integer_view(failed_txn_count),
                total_txn_count: decimal_view(total_txn_count),
                baseline_avg_tps: decimal_view(baseline_avg_tps),
                test_result_text: text_view(test_result_text),
                remark_text: text_view(remark_text),
            }),
    {
        PerfRow {
            release_tag: match release_tag {
                Some(tag) => tag,
                None => String::new(),
            },
            row_no,
            test_scenario,
            p95_latency_ms,
            avg_tps,
            peak_tps,
            failed_txn_pct,
            failed_txn_count,
            total_txn_count,
            baseline_avg_tps,
            test_result_text,
            remark_text,
        }
    }
}

impl Clone for PerfRow {
    fn clone(&self) -> (r: PerfRow)
        ensures
            r@ == self@,
    {
        PerfRow {
            release_tag: self.release_tag.clone(),
            row_no: self.row_no,
            test_scenario: clone_text(&self.test_scenario),
            p95_latency_ms: self.p95_latency_ms,
            avg_tps: self.avg_tps,
            peak_tps: self.peak_tps,
            failed_txn_pct: self.failed_txn_pct,
            failed_txn_count: self.failed_txn_count,
            total_txn_count: self.total_txn_count,
            baseline_avg_tps: self.baseline_avg_tps,
            test_result_text: clone_text(&self.test_result_text),
            remark_text: clone_text(&self.remark_text),
        }
    }
}

/// What a listing is narrowed by. A bound that is absent narrows nothing.
#[derive(Debug, PartialEq, Eq)]
pub struct PerfRunFilter {
    pub release_tag: Option<String>,
    pub test_scenario: Option<String>,
    pub min_p95_latency_ms: Option<Decimal>,
    pub max_p95_latency_ms: Option<Decimal>,
    pub min_avg_tps: Option<Decimal>,
    pub max_avg_tps: Option<Decimal>,
}

/// A `PerfRunFilter` as plain values.
pub struct PerfRunFilterView {
    pub release_tag: Option<Seq<char>>,
    pub test_scenario: Option<Seq<char>>,
    pub min_p95_latency_ms: Option<int>,
    pub max_p95_latency_ms: Option<int>,
    pub min_avg_tps: Option<int>,
    pub max_avg_tps: Option<int>,
}

impl View for PerfRunFilter {
    type V = PerfRunFilterView;

    open spec fn view(&self) -> PerfRunFilterView {
        PerfRunFilterView {
            release_tag: text_view(self.release_tag),
            test_scenario: text_view(self.test_scenario),
            min_p95_latency_ms: decimal_view(self.min_p95_latency_ms),
            max_p95_latency_ms: decimal_view(self.max_p95_latency_ms),
            min_avg_tps: decimal_view(self.min_avg_tps),
            max_avg_tps: decimal_view(self.max_avg_tps),
        }
    }
}

/// The view of an optional filter.
pub open spec fn filter_view(filter: Option<PerfRunFilter>) -> Option<PerfRunFilterView> {
    match filter {
        Some(f) => Some(f@),
        None => None,
    }
}

impl Clone for PerfRunFilter {
    fn clone(&self) -> (r: PerfRunFilter)
        ensures
            r@ == self@,
    {
        PerfRunFilter {
            release_tag: clone_text(&self.release_tag),
            test_scenario: clone_text(&self.test_scenario),
            min_p95_latency_ms: self.min_p95_latency_ms,
            max_p95_latency_ms: self.max_p95_latency_ms,
            min_avg_tps: self.min_avg_tps,
            max_avg_tps: self.max_avg_tps,
        }
    }
}

/// Figures over all the runs of a store.
#[derive(Clone, Copy, Debug, PartialEq, Eq, Structural)]
pub struct PerfSummary {
    /// How many runs the store holds.
    pub total_runs: usize,
    /// The mean of the runs' average throughput, over the runs that have one.
    pub avg_tps: Option<Decimal>,
    /// The mean of the runs' latency, over the runs that have one.
    pub avg_latency_ms: Option<Decimal>,
}

/// Mean throughput by release.
#[derive(Debug, PartialEq, Eq)]
pub struct PerfTrends {
    /// One point for each release: its tag and the mean of its runs' average
    /// throughput. The points stand in the order of their tags.
    pub trend_points: Vec<(String, Decimal)>,
}

impl View for PerfTrends {
    type V = Seq<(Seq<char>, int)>;

    open spec fn view(&self) -> Seq<(Seq<char>, int)> {
        self.trend_points.deep_view()
    }
}

/// What `parse_row_no` makes of a field: nothing where the field is absent
/// or holds white space only; else the integer that the field writes between
/// its white space; else, where it writes a decimal numeral there, the whole
/// part of that; else, where it writes `nan`, `inf` or `infinity` there, the
/// whole number that stands for the word; else a failure that names the
/// column and gives the field.
pub open spec fn row_no_of(raw: Option<Seq<char>>) -> Result<Option<int>, ErrorView> {
    match raw {
        None => Ok(None),
        Some(s) => {
            let t = trimmed(s);
            if t.len() == 0 {
                Ok(None)
            } else if integer_value(t) is Some {
                Ok(integer_value(t))
            } else if truncated_value(t) is Some {
                Ok(truncated_value(t))
            } else if named_value(t) is Some {
                Ok(named_value(t))
            } else {
                Err(ErrorView::InvalidField { field: "row_no"@, value: s })
            }
        },
    }
}

/// The view of an optional string slice.
pub open spec fn slice_view(o: Option<&str>) -> Option<Seq<char>> {
    match o {
        Some(s) => Some(s@),
        None => None,
    }
}

/// Reads a row's ordinal, forgiving what exports make of it: white space
/// round it, and a decimal numeral or one of the words `nan`, `inf` and
/// `infinity` in the place of an integer.
pub fn parse_row_no(raw: Option<&str>) -> (r: Result<Option<i64>, Error>)
    ensures
        match r {
            Ok(v) => row_no_of(slice_view(raw)) == Ok::<Option<int>, ErrorView>(integer_view(v)),
            Err(e) => row_no_of(slice_view(raw)) == Err::<Option<int>, ErrorView>(e@),
        },
{
    match raw {
        None => Ok(None),
        Some(s) => {
            let t = trim(&chars_of(s));
            if t.len() == 0 {
                return Ok(None);
            }
            match parse_integer(&t) {
                Some(v) => Ok(Some(v)),
                None => match parse_truncated(&t) {
                    Some(v) => Ok(Some(v)),
                    None => match parse_named(&t) {
                        Some(v) => Ok(Some(v)),
                        None => Err(
                            Error::InvalidField {
                                field: String::from_str("row_no"),
                                value: String::from_str(s),
                            },
                        ),
                    },
                },
            }
        },
    }
}

} // verus!
