//! Queries for a relational store of the records.
//!
//! A query is a fixed text with numbered parameters (`$1`, `$2`, ...) and
//! the values that are bound to them. No value ever becomes part of a text: a
//! bound adds its column, its comparison and the number of its parameter to
//! the text, and its value to the values.

use crate::domain::decimal::Decimal;
use crate::domain::digits::{nat_digits, push_nat};
use crate::domain::perf::{
    clone_text, decimal_view, filter_view, integer_view, text_view, PerfRow, PerfRowView,
    PerfRunFilter, PerfRunFilterView,
};
use crate::domain::text::text_of;
use vstd::prelude::*;
use vstd::string::*;

verus! {

/// The text that lists every record.
pub const LIST: &'static str =
    "SELECT release_tag, row_no, test_scenario, p95_latency_ms, avg_tps, peak_tps, failed_txn_pct, failed_txn_count, total_txn_count, baseline_avg_tps, test_result_text, remark_text FROM perf_runs_normalized WHERE 1=1";

/// The text that asks for the records with one ordinal.
pub const GET_BY_ID: &'static str =
    "SELECT release_tag, row_no, test_scenario, p95_latency_ms, avg_tps, peak_tps, failed_txn_pct, failed_txn_count, total_txn_count, baseline_avg_tps, test_result_text, remark_text FROM perf_runs_normalized WHERE row_no = $1";

/// The text that puts one record into the store.
pub const INSERT: &'static str =
    "INSERT INTO perf_runs_normalized (release_tag, row_no, test_scenario, p95_latency_ms, avg_tps, peak_tps, failed_txn_pct, failed_txn_count, total_txn_count, baseline_avg_tps, test_result_text, remark_text) VALUES ($1, $2, $3, $4, $5, $6, $7, $8, $9, $10, $11, $12)";

/// What ends a listing: the records are asked for in the order of their
/// ordinals, so that the same question always has the same answer.
pub const IN_ORDER: &'static str = " ORDER BY row_no";

/// What joins a bound to the text before it.
pub const AND: &'static str = " AND ";

/// What stands before the number of a parameter.
pub const MARK: &'static str = "$";

/// The release is the bound value.
pub const RELEASE_TAG_IS: &'static str = "release_tag = ";

/// The scenario is the bound value.
pub const TEST_SCENARIO_IS: &'static str = "test_scenario = ";

/// The latency is the bound value or more.
pub const LATENCY_AT_LEAST: &'static str = "p95_latency_ms >= ";

/// The latency is the bound value or less.
pub const LATENCY_AT_MOST: &'static str = "p95_latency_ms <= ";

/// The average throughput is the bound value or more.
pub const THROUGHPUT_AT_LEAST: &'static str = "avg_tps >= ";

/// The average throughput is the bound value or less.
pub const THROUGHPUT_AT_MOST: &'static str = "avg_tps <= ";

/// A value bound to a parameter; `None` binds the absence of one.
#[derive(Debug, PartialEq, Eq)]
pub enum BindValue {
    Text(Option<String>),
    Number(Option<Decimal>),
    Integer(Option<i64>),
}

/// A `BindValue` as plain values.
pub enum BindView {
    Text(Option<Seq<char>>),
    Number(Option<int>),
    Integer(Option<int>),
}

impl DeepView for BindValue {
    type V = BindView;

    open spec fn deep_view(&self) -> BindView {
        match self {
            BindValue::Text(t) => BindView::Text(text_view(*t)),
            BindValue::Number(d) => BindView::Number(decimal_view(*d)),
            BindValue::Integer(n) => BindView::Integer(integer_view(*n)),
        }
    }
}

/// A query: its text, and the values for its parameters in the order of
/// their numbers.
#[derive(Debug, PartialEq, Eq)]
pub struct SqlQuery {
    pub text: String,
    pub params: Vec<BindValue>,
}

/// A query as plain values.
pub struct SqlQueryView {
    pub text: Seq<char>,
    pub params: Seq<BindView>,
}

impl View for SqlQuery {
    type V = SqlQueryView;

    open spec fn view(&self) -> SqlQueryView {
        SqlQueryView { text: self.text@, params: self.params.deep_view() }
    }
}

/// The query `q` narrowed by one more bound, if there is one: the text gains
/// the bound's column and comparison and the parameter whose number is the
/// count of the values so far and one; the values gain the bound's.
pub open spec fn narrowed(q: SqlQueryView, comparison: Seq<char>, bound: Option<BindView>) -> SqlQueryView {
    match bound {
        None => q,
        Some(value) => SqlQueryView {
            text: q.text + AND@ + comparison + MARK@ + nat_digits((q.params.len() + 1) as nat),
            params: q.params.push(value),
        },
    }
}

/// A string to bind, if there is one.
pub open spec fn bound_text(o: Option<Seq<char>>) -> Option<BindView> {
    match o {
        Some(s) => Some(BindView::Text(Some(s))),
        None => None,
    }
}

/// A measurement to bind, if there is one.
pub open spec fn bound_number(o: Option<int>) -> Option<BindView> {
    match o {
        Some(v) => Some(BindView::Number(Some(v))),
        None => None,
    }
}

/// The query for all records narrowed by each bound that a filter sets, in
/// the order of the filter's fields.
pub open spec fn bounded_query_of(filter: Option<PerfRunFilterView>) -> SqlQueryView {
    let all = SqlQueryView { text: LIST@, params: Seq::empty() };
    match filter {
        None => all,
        Some(f) => {
            let q1 = narrowed(all, RELEASE_TAG_IS@, bound_text(f.release_tag));
            let q2 = narrowed(q1, TEST_SCENARIO_IS@, bound_text(f.test_scenario));
            let q3 = narrowed(q2, LATENCY_AT_LEAST@, bound_number(f.min_p95_latency_ms));
            let q4 = narrowed(q3, LATENCY_AT_MOST@, bound_number(f.max_p95_latency_ms));
            let q5 = narrowed(q4, THROUGHPUT_AT_LEAST@, bound_number(f.min_avg_tps));
            narrowed(q5, THROUGHPUT_AT_MOST@, bound_number(f.max_avg_tps))
        },
    }
}

/// The query that lists the records which a filter admits: the query for all
/// records, narrowed by each bound that the filter sets, and asked for in the
/// order of the ordinals.
pub open spec fn list_query_of(filter: Option<PerfRunFilterView>) -> SqlQueryView {
    let q = bounded_query_of(filter);
    SqlQueryView { text: q.text + IN_ORDER@, params: q.params }
}

/// The values of a row in the order of its columns.
pub open spec fn row_values(row: PerfRowView) -> Seq<BindView> {
    seq![
        BindView::Text(Some(row.release_tag)),
        BindView::Integer(row.row_no),
        BindView::Text(row.test_scenario),
        BindView::Number(row.p95_latency_ms),
        BindView::Number(row.avg_tps),
        BindView::Number(row.peak_tps),
        BindView::Number(row.failed_txn_pct),
        BindView::Integer(row.failed_txn_count),
        BindView::Number(row.total_txn_count),
        BindView::Number(row.baseline_avg_tps),
        BindView::Text(row.test_result_text),
        BindView::Text(row.remark_text),
    ]
}

impl SqlQuery {
    /// The query with the text `text` and no values.
    pub fn fixed(text: &str) -> (q: SqlQuery)
        ensures
            q@ == (SqlQueryView { text: text@, params: Seq::empty() }),
    {
        let q = SqlQuery { text: String::from_str(text), params: Vec::new() };
        assert(q.params.deep_view() =~= Seq::<BindView>::empty());
        q
    }

    /// Narrows the query by one more bound.
    pub fn narrow(&mut self, comparison: &str, value: BindValue)
        ensures
            final(self)@ == narrowed(old(self)@, comparison@, Some(value.deep_view())),
    {
        let ghost held = self.params.deep_view();
        self.params.push(value);
        assert(self.params.deep_view() =~= held.push(value.deep_view()));
        let mut number: Vec<char> = Vec::new();
        push_nat(self.params.len() as u64, &mut number);
        assert(number@ =~= nat_digits(self.params.len() as nat));
        self.text.append(AND);
        self.text.append(comparison);
        self.text.append(MARK);
        self.text.append(text_of(&number).as_str());
    }
}

/// Narrows `q` by a bound on a string, if there is one.
fn narrow_by_text(q: &mut SqlQuery, comparison: &str, bound: &Option<String>)
    ensures
        final(q)@ == narrowed(old(q)@, comparison@, bound_text(text_view(*bound))),
{
    match bound {
        Some(s) => q.narrow(comparison, BindValue::Text(Some(s.clone()))),
        None => {},
    }
}

/// Narrows `q` by a bound on a measurement, if there is one.
fn narrow_by_number(q: &mut SqlQuery, comparison: &str, bound: &Option<Decimal>)
    ensures
        final(q)@ == narrowed(old(q)@, comparison@, bound_number(decimal_view(*bound))),
{
    match bound {
        Some(d) => q.narrow(comparison, BindValue::Number(Some(*d))),
        None => {},
    }
}

/// The query that lists the records which `filter` admits, or all records
/// without a filter. Its text depends on which bounds the filter sets and on
/// nothing else; the values of the bounds are bound, each as it was given.
pub fn list_query(filter: &Option<PerfRunFilter>) -> (q: SqlQuery)
    ensures
        q@ == list_query_of(filter_view(*filter)),
        q@.text == listing_text(filter_view(*filter)),
        q@.params == listing_values(filter_view(*filter)),
{
    proof {
        lemma_listing_parts(filter_view(*filter));
    }
    let mut q = SqlQuery::fixed(LIST);
    match filter {
        None => {},
        Some(f) => {
            narrow_by_text(&mut q, RELEASE_TAG_IS, &f.release_tag);
            narrow_by_text(&mut q, TEST_SCENARIO_IS, &f.test_scenario);
            narrow_by_number(&mut q, LATENCY_AT_LEAST, &f.min_p95_latency_ms);
            narrow_by_number(&mut q, LATENCY_AT_MOST, &f.max_p95_latency_ms);
            narrow_by_number(&mut q, THROUGHPUT_AT_LEAST, &f.min_avg_tps);
            narrow_by_number(&mut q, THROUGHPUT_AT_MOST, &f.max_avg_tps);
        },
    }
    q.text.append(IN_ORDER);
    q
}

/// The query for the record whose ordinal is `row_no`.
pub fn get_by_id_query(row_no: i64) -> (q: SqlQuery)
    ensures
        q@ == (SqlQueryView {
            text: GET_BY_ID@,
            params: seq![BindView::Integer(Some(row_no as int))],
        }),
{
    let mut params: Vec<BindValue> = Vec::new();
    params.push(BindValue::Integer(Some(row_no)));
    let q = SqlQuery { text: String::from_str(GET_BY_ID), params };
    assert(q.params.deep_view() =~= seq![BindView::Integer(Some(row_no as int))]);
    q
}

/// The query that puts `row` into the store: its twelve values in the order
/// of the columns.
pub fn insert_query(row: &PerfRow) -> (q: SqlQuery)
    ensures
        q@ == (SqlQueryView { text: INSERT@, params: row_values(row@) }),
{
    let mut params: Vec<BindValue> = Vec::new();
    params.push(BindValue::Text(Some(row.release_tag.clone())));
    params.push(BindValue::Integer(row.row_no));
    params.push(BindValue::Text(clone_text(&row.test_scenario)));
    params.push(BindValue::Number(row.p95_latency_ms));
    params.push(BindValue::Number(row.avg_tps));
    params.push(BindValue::Number(row.peak_tps));
    params.push(BindValue::Number(row.failed_txn_pct));
    params.push(BindValue::Integer(row.failed_txn_count));
    params.push(BindValue::Number(row.total_txn_count));
    params.push(BindValue::Number(row.baseline_avg_tps));
    params.push(BindValue::Text(clone_text(&row.test_result_text)));
    params.push(BindValue::Text(clone_text(&row.remark_text)));
    let q = SqlQuery { text: String::from_str(INSERT), params };
    assert(q.params.deep_view() =~= row_values(row@));
    q
}

/// Whether two filters set the same bounds, whatever the values.
pub open spec fn same_bounds(f: PerfRunFilterView, g: PerfRunFilterView) -> bool {
    &&& f.release_tag is Some == g.release_tag is Some
    &&& f.test_scenario is Some == g.test_scenario is Some
    &&& f.min_p95_latency_ms is Some == g.min_p95_latency_ms is Some
    &&& f.max_p95_latency_ms is Some == g.max_p95_latency_ms is Some
    &&& f.min_avg_tps is Some == g.min_avg_tps is Some
    &&& f.max_avg_tps is Some == g.max_avg_tps is Some
}

/// One for a bound that is set, nothing for one that is not.
pub open spec fn one_if(set: bool) -> nat {
    if set {
        1
    } else {
        0
    }
}

/// `text` with one more bound, if it is set: its column and comparison, and
/// the parameter whose number follows the `before` that stand in the text
/// already.
pub open spec fn with_bound(text: Seq<char>, comparison: Seq<char>, set: bool, before: nat) -> Seq<
    char,
> {
    if set {
        text + AND@ + comparison + MARK@ + nat_digits(before + 1)
    } else {
        text
    }
}

/// The text of a listing by a filter of which it is only said which bounds
/// it sets: the text for all records, each bound that is set with the next
/// number, and the order asked for.
pub open spec fn list_text_of(
    release_tag: bool,
    test_scenario: bool,
    min_latency: bool,
    max_latency: bool,
    min_throughput: bool,
    max_throughput: bool,
) -> Seq<char> {
    let n1 = one_if(release_tag);
    let n2 = n1 + one_if(test_scenario);
    let n3 = n2 + one_if(min_latency);
    let n4 = n3 + one_if(max_latency);
    let n5 = n4 + one_if(min_throughput);
    let t1 = with_bound(LIST@, RELEASE_TAG_IS@, release_tag, 0);
    let t2 = with_bound(t1, TEST_SCENARIO_IS@, test_scenario, n1);
    let t3 = with_bound(t2, LATENCY_AT_LEAST@, min_latency, n2);
    let t4 = with_bound(t3, LATENCY_AT_MOST@, max_latency, n3);
    let t5 = with_bound(t4, THROUGHPUT_AT_LEAST@, min_throughput, n4);
    with_bound(t5, THROUGHPUT_AT_MOST@, max_throughput, n5) + IN_ORDER@
}

/// The text of a listing by `filter`: that of the bounds which it sets.
pub open spec fn listing_text(filter: Option<PerfRunFilterView>) -> Seq<char> {
    match filter {
        None => list_text_of(false, false, false, false, false, false),
        Some(f) => list_text_of(
            f.release_tag is Some,
            f.test_scenario is Some,
            f.min_p95_latency_ms is Some,
            f.max_p95_latency_ms is Some,
            f.min_avg_tps is Some,
            f.max_avg_tps is Some,
        ),
    }
}

/// The value of a bound as a sequence: the value alone, or nothing.
pub open spec fn value_if_set(bound: Option<BindView>) -> Seq<BindView> {
    match bound {
        Some(value) => seq![value],
        None => Seq::empty(),
    }
}

/// The values that a listing by `filter` binds: the value of each bound
/// that the filter sets, as it was given, in the order of the filter's
/// fields.
pub open spec fn listing_values(filter: Option<PerfRunFilterView>) -> Seq<BindView> {
    match filter {
        None => Seq::empty(),
        Some(f) => value_if_set(bound_text(f.release_tag)) + value_if_set(
            bound_text(f.test_scenario),
        ) + value_if_set(bound_number(f.min_p95_latency_ms)) + value_if_set(
            bound_number(f.max_p95_latency_ms),
        ) + value_if_set(bound_number(f.min_avg_tps)) + value_if_set(
            bound_number(f.max_avg_tps),
        ),
    }
}

/// One more bound adds its value to the values and one to their count.
proof fn lemma_narrowed_values(q: SqlQueryView, comparison: Seq<char>, bound: Option<BindView>)
    ensures
        narrowed(q, comparison, bound).params == q.params + value_if_set(bound),
        narrowed(q, comparison, bound).params.len() == q.params.len() + one_if(bound is Some),
        narrowed(q, comparison, bound).text == with_bound(
            q.text,
            comparison,
            bound is Some,
            q.params.len(),
        ),
{
    match bound {
        Some(value) => {
            assert(q.params.push(value) =~= q.params + seq![value]);
        },
        None => {
            assert(q.params =~= q.params + Seq::<BindView>::empty());
        },
    }
}

/// A listing is made of two parts that do not touch: a text that depends on
/// which bounds the filter sets and on nothing else, and the values of those
/// bounds, each as it was given and at the place of its number.
pub proof fn lemma_listing_parts(filter: Option<PerfRunFilterView>)
    ensures
        list_query_of(filter).text == listing_text(filter),
        list_query_of(filter).params == listing_values(filter),
{
    match filter {
        None => {},
        Some(f) => {
            let all = SqlQueryView { text: LIST@, params: Seq::empty() };
            let q1 = narrowed(all, RELEASE_TAG_IS@, bound_text(f.release_tag));
            let q2 = narrowed(q1, TEST_SCENARIO_IS@, bound_text(f.test_scenario));
            let q3 = narrowed(q2, LATENCY_AT_LEAST@, bound_number(f.min_p95_latency_ms));
            let q4 = narrowed(q3, LATENCY_AT_MOST@, bound_number(f.max_p95_latency_ms));
            let q5 = narrowed(q4, THROUGHPUT_AT_LEAST@, bound_number(f.min_avg_tps));
            let q6 = narrowed(q5, THROUGHPUT_AT_MOST@, bound_number(f.max_avg_tps));
            lemma_narrowed_values(all, RELEASE_TAG_IS@, bound_text(f.release_tag));
            lemma_narrowed_values(q1, TEST_SCENARIO_IS@, bound_text(f.test_scenario));
            lemma_narrowed_values(q2, LATENCY_AT_LEAST@, bound_number(f.min_p95_latency_ms));
            lemma_narrowed_values(q3, LATENCY_AT_MOST@, bound_number(f.max_p95_latency_ms));
            lemma_narrowed_values(q4, THROUGHPUT_AT_LEAST@, bound_number(f.min_avg_tps));
            lemma_narrowed_values(q5, THROUGHPUT_AT_MOST@, bound_number(f.max_avg_tps));
            assert(all.params + value_if_set(bound_text(f.release_tag)) =~= value_if_set(
                bound_text(f.release_tag),
            ));
            assert(q6.params =~= listing_values(filter));
            assert(bounded_query_of(filter) == q6);
        },
    }
}

/// The text of a listing depends on which bounds a filter sets and on
/// nothing else: whatever characters a filter's values hold, none of them
/// reaches the text, and every value stands among the values to bind as it
/// was given, one for each bound that is set, in the order of their numbers.
pub proof fn lemma_values_never_reach_text(f: PerfRunFilterView, g: PerfRunFilterView)
    requires
        same_bounds(f, g),
    ensures
        list_query_of(Some(f)).text == list_query_of(Some(g)).text,
        list_query_of(Some(f)).params == listing_values(Some(f)),
        list_query_of(Some(g)).params == listing_values(Some(g)),
        list_query_of(Some(f)).params.len() == list_query_of(Some(g)).params.len(),
{
    lemma_listing_parts(Some(f));
    lemma_listing_parts(Some(g));
    lemma_values_counted(f);
    lemma_values_counted(g);
}

/// A listing binds as many values as its filter sets bounds.
pub proof fn lemma_values_counted(f: PerfRunFilterView)
    ensures
        listing_values(Some(f)).len() == one_if(f.release_tag is Some) + one_if(
            f.test_scenario is Some,
        ) + one_if(f.min_p95_latency_ms is Some) + one_if(f.max_p95_latency_ms is Some) + one_if(
            f.min_avg_tps is Some,
        ) + one_if(f.max_avg_tps is Some),
{
}

} // verus!
