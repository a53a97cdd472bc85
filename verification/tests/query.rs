use perf_dashboard::domain::decimal::Decimal;
use perf_dashboard::domain::perf::{PerfRow, PerfRunFilter};
use perf_dashboard::usecase::query::{
    get_by_id_query, insert_query, list_query, BindValue, SqlQuery, GET_BY_ID, INSERT, IN_ORDER,
    LIST,
};

fn no_bounds() -> PerfRunFilter {
    PerfRunFilter {
        release_tag: None,
        test_scenario: None,
        min_p95_latency_ms: None,
        max_p95_latency_ms: None,
        min_avg_tps: None,
        max_avg_tps: None,
    }
}

fn text(s: &str) -> BindValue {
    BindValue::Text(Some(s.to_string()))
}

fn number(micros: i64) -> BindValue {
    BindValue::Number(Some(Decimal { micros }))
}

#[test]
fn listing_everything_binds_nothing() {
    let all = format!("{}{}", LIST, IN_ORDER);
    assert!(all.ends_with("FROM perf_runs_normalized WHERE 1=1 ORDER BY row_no"));
    assert_eq!(list_query(&None), SqlQuery { text: all.clone(), params: Vec::new() });
    assert_eq!(list_query(&Some(no_bounds())), SqlQuery { text: all, params: Vec::new() });
}

#[test]
fn each_bound_adds_a_numbered_parameter_and_a_value() {
    let f = PerfRunFilter {
        release_tag: Some("v1".to_string()),
        test_scenario: Some("login".to_string()),
        min_p95_latency_ms: Some(Decimal { micros: 1 }),
        max_p95_latency_ms: Some(Decimal { micros: 2 }),
        min_avg_tps: Some(Decimal { micros: 3 }),
        max_avg_tps: Some(Decimal { micros: 4 }),
    };
    let q = list_query(&Some(f));
    assert_eq!(
        q.text,
        format!(
            "{} AND release_tag = $1 AND test_scenario = $2 AND p95_latency_ms >= $3 AND p95_latency_ms <= $4 AND avg_tps >= $5 AND avg_tps <= $6 ORDER BY row_no",
            LIST
        )
    );
    assert_eq!(
        q.params,
        vec![text("v1"), text("login"), number(1), number(2), number(3), number(4)]
    );
}

#[test]
fn parameters_are_numbered_by_the_bounds_that_are_set() {
    let mut f = no_bounds();
    f.test_scenario = Some("login".to_string());
    f.max_avg_tps = Some(Decimal { micros: 100_000_000 });
    let q = list_query(&Some(f));
    assert_eq!(
        q.text,
        format!("{} AND test_scenario = $1 AND avg_tps <= $2 ORDER BY row_no", LIST)
    );
    assert_eq!(q.params, vec![text("login"), number(100_000_000)]);
    let mut f = no_bounds();
    f.min_avg_tps = Some(Decimal { micros: 100_000_000 });
    let q = list_query(&Some(f));
    assert_eq!(q.text, format!("{} AND avg_tps >= $1 ORDER BY row_no", LIST));
    assert_eq!(q.params, vec![number(100_000_000)]);
}

#[test]
fn a_value_never_becomes_part_of_the_text() {
    let mut plain = no_bounds();
    plain.release_tag = Some("v1".to_string());
    let mut quoted = no_bounds();
    quoted.release_tag = Some("O'Brien".to_string());
    let mut hostile = no_bounds();
    hostile.release_tag = Some("'; DROP TABLE perf_runs_normalized; --".to_string());
    let expected = format!("{} AND release_tag = $1 ORDER BY row_no", LIST);
    assert_eq!(list_query(&Some(plain)).text, expected);
    let q = list_query(&Some(quoted));
    assert_eq!(q.text, expected);
    assert!(!q.text.contains("O'Brien"));
    assert!(!q.text.contains('\''));
    assert_eq!(q.params, vec![text("O'Brien")]);
    let q = list_query(&Some(hostile));
    assert_eq!(q.text, expected);
    assert_eq!(q.params, vec![text("'; DROP TABLE perf_runs_normalized; --")]);
}

#[test]
fn narrowing_numbers_parameters_past_nine() {
    let mut q = SqlQuery::fixed("SELECT 1 WHERE 1=1");
    for i in 0..11 {
        q.narrow("x = ", BindValue::Integer(Some(i)));
    }
    assert!(q.text.ends_with(" AND x = $9 AND x = $10 AND x = $11"), "{}", q.text);
    assert_eq!(q.params.len(), 11);
    assert_eq!(q.params[10], BindValue::Integer(Some(10)));
}

#[test]
fn the_query_for_one_record_binds_its_ordinal() {
    let q = get_by_id_query(42);
    assert_eq!(q.text, GET_BY_ID);
    assert!(q.text.ends_with("WHERE row_no = $1"));
    assert_eq!(q.params, vec![BindValue::Integer(Some(42))]);
}

#[test]
fn the_query_that_inserts_binds_the_twelve_values_in_column_order() {
    let row = PerfRow {
        release_tag: "v1".to_string(),
        row_no: Some(7),
        test_scenario: None,
        p95_latency_ms: Some(Decimal { micros: 1 }),
        avg_tps: None,
        peak_tps: Some(Decimal { micros: 2 }),
        failed_txn_pct: Some(Decimal { micros: 3 }),
        failed_txn_count: Some(4),
        total_txn_count: Some(Decimal { micros: 5 }),
        baseline_avg_tps: Some(Decimal { micros: 6 }),
        test_result_text: Some("PASS".to_string()),
        remark_text: None,
    };
    let q = insert_query(&row);
    assert_eq!(q.text, INSERT);
    assert_eq!(
        q.params,
        vec![
            text("v1"),
            BindValue::Integer(Some(7)),
            BindValue::Text(None),
            number(1),
            BindValue::Number(None),
            number(2),
            number(3),
            BindValue::Integer(Some(4)),
            number(5),
            number(6),
            text("PASS"),
            BindValue::Text(None),
        ]
    );
}
