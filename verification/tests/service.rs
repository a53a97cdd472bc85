use perf_dashboard::domain::decimal::Decimal;
use perf_dashboard::domain::perf::{PerfRow, PerfRunFilter, PerfSummary, PerfTrends};
use perf_dashboard::usecase::aggregate::Tally;
use perf_dashboard::usecase::perf_runs_service::{row_admitted, PerfRunsService};

fn dec(units: i64) -> Option<Decimal> {
    Some(Decimal { micros: units * 1_000_000 })
}

fn row(tag: &str, row_no: Option<i64>, avg_tps: Option<Decimal>) -> PerfRow {
    PerfRow {
        release_tag: tag.to_string(),
        row_no,
        test_scenario: None,
        p95_latency_ms: None,
        avg_tps,
        peak_tps: None,
        failed_txn_pct: None,
        failed_txn_count: None,
        total_txn_count: None,
        baseline_avg_tps: None,
        test_result_text: None,
        remark_text: None,
    }
}

fn run(
    tag: &str,
    row_no: i64,
    scenario: &str,
    latency: Option<Decimal>,
    avg_tps: Option<Decimal>,
) -> PerfRow {
    let mut r = row(tag, Some(row_no), avg_tps);
    r.test_scenario = Some(scenario.to_string());
    r.p95_latency_ms = latency;
    r
}

fn no_bounds() -> PerfRunFilter {
    PerfRunFilter {
        release_tag: None,
        test_scenario: None,
        min_p95_latency_ms: None,
        max_p95_latency_ms: None,
        min_avg_tps: None,
        max_avg_tps: None,
    }
}

fn store() -> PerfRunsService {
    PerfRunsService::new(vec![
        run("v1", 1, "login", dec(120), dec(100)),
        run("v2", 2, "login", dec(80), dec(250)),
        run("v1", 3, "checkout", None, dec(99)),
        run("v1", 4, "checkout", dec(200), None),
        run("O'Brien", 5, "login", dec(100), dec(100)),
    ])
}

fn row_nos(rows: &[PerfRow]) -> Vec<i64> {
    rows.iter().map(|r| r.row_no.unwrap()).collect()
}

#[test]
fn summary_of_no_records_has_no_means() {
    let service = PerfRunsService::new(Vec::new());
    assert_eq!(
        service.summary(),
        PerfSummary { total_runs: 0, avg_tps: None, avg_latency_ms: None }
    );
}

#[test]
fn summary_leaves_absent_measurements_out_of_the_mean() {
    let service = PerfRunsService::new(vec![
        row("a", None, dec(100)),
        row("b", None, dec(200)),
        row("c", None, None),
    ]);
    let s = service.summary();
    assert_eq!(s.total_runs, 3);
    assert_eq!(s.avg_tps, dec(150));
    assert_eq!(s.avg_latency_ms, None);
}

#[test]
fn summary_takes_each_mean_over_its_own_measurements() {
    let s = store().summary();
    assert_eq!(s.total_runs, 5);
    // (100 + 250 + 99 + 100) / 4
    assert_eq!(s.avg_tps, Some(Decimal { micros: 137_250_000 }));
    // (120 + 80 + 200 + 100) / 4
    assert_eq!(s.avg_latency_ms, dec(125));
}

#[test]
fn means_are_cut_toward_zero() {
    let of = |values: &[i64]| {
        let rows = values.iter().map(|v| row("r", None, Some(Decimal { micros: *v }))).collect();
        PerfRunsService::new(rows).summary().avg_tps.map(|d| d.micros)
    };
    assert_eq!(of(&[1, 2]), Some(1));
    assert_eq!(of(&[-1, -2]), Some(-1));
    assert_eq!(of(&[1, 1, 2]), Some(1));
    assert_eq!(of(&[-7, 2]), Some(-2));
    assert_eq!(of(&[-1, 1]), Some(0));
    assert_eq!(of(&[i64::MAX, i64::MAX, i64::MAX]), Some(i64::MAX));
    assert_eq!(of(&[i64::MIN, i64::MIN]), Some(i64::MIN));
    assert_eq!(of(&[i64::MIN, i64::MAX]), Some(0));
    assert_eq!(of(&[]), None);
}

#[test]
fn a_tally_gives_the_mean_of_what_it_took_in() {
    let mut t = Tally::new();
    assert_eq!(t.mean(), None);
    t.add(Decimal { micros: 10 });
    t.add(Decimal { micros: 21 });
    assert_eq!(t.mean(), Some(Decimal { micros: 15 }));
}

#[test]
fn trends_give_the_mean_of_each_release_in_the_order_of_the_tags() {
    let service = PerfRunsService::new(vec![
        row("v2", None, dec(50)),
        row("v1", None, dec(100)),
        row("v1", None, dec(200)),
    ]);
    assert_eq!(
        service.trends(),
        PerfTrends {
            trend_points: vec![
                ("v1".to_string(), Decimal { micros: 150_000_000 }),
                ("v2".to_string(), Decimal { micros: 50_000_000 }),
            ]
        }
    );
}

#[test]
fn trends_leave_out_a_release_without_a_measurement() {
    let service = PerfRunsService::new(vec![
        row("v3", None, None),
        row("v1", None, dec(10)),
        row("v2", None, None),
        row("v1", None, None),
        row("v2", None, dec(30)),
        row("v3", None, None),
    ]);
    assert_eq!(
        service.trends().trend_points,
        vec![
            ("v1".to_string(), Decimal { micros: 10_000_000 }),
            ("v2".to_string(), Decimal { micros: 30_000_000 }),
        ]
    );
    assert_eq!(PerfRunsService::new(Vec::new()).trends().trend_points, Vec::new());
}

#[test]
fn trends_order_tags_as_strings() {
    let tags = ["v10", "v9", "V1", "", "b", "a", "v1", "é", "v10"];
    let rows = tags.iter().map(|t| row(t, None, dec(1))).collect();
    let points = PerfRunsService::new(rows).trends().trend_points;
    let got: Vec<&str> = points.iter().map(|p| p.0.as_str()).collect();
    assert_eq!(got, vec!["", "V1", "a", "b", "v1", "v10", "v9", "é"]);
    let mut sorted = got.clone();
    sorted.sort();
    assert_eq!(got, sorted);
}

#[test]
fn list_without_a_filter_gives_every_record_in_the_order_of_the_store() {
    assert_eq!(row_nos(&store().list(None)), vec![1, 2, 3, 4, 5]);
    assert_eq!(row_nos(&store().list(Some(no_bounds()))), vec![1, 2, 3, 4, 5]);
    assert_eq!(store().list(None), *store().rows());
    assert!(PerfRunsService::new(Vec::new()).list(None).is_empty());
}

#[test]
fn list_by_release_tag_gives_only_that_release() {
    let mut f = no_bounds();
    f.release_tag = Some("v1".to_string());
    let found = store().list(Some(f));
    assert_eq!(row_nos(&found), vec![1, 3, 4]);
    assert!(found.iter().all(|r| r.release_tag == "v1"));
}

#[test]
fn list_by_least_throughput_gives_only_records_that_have_as_much() {
    let mut f = no_bounds();
    f.min_avg_tps = dec(100);
    let found = store().list(Some(f));
    assert_eq!(row_nos(&found), vec![1, 2, 5]);
    assert!(found.iter().all(|r| r.avg_tps.unwrap().micros >= 100_000_000));
}

#[test]
fn list_bounds_are_inclusive_and_each_stands_alone() {
    let mut f = no_bounds();
    f.max_avg_tps = dec(100);
    assert_eq!(row_nos(&store().list(Some(f))), vec![1, 3, 5]);
    let mut f = no_bounds();
    f.min_p95_latency_ms = dec(100);
    assert_eq!(row_nos(&store().list(Some(f))), vec![1, 4, 5]);
    let mut f = no_bounds();
    f.max_p95_latency_ms = dec(100);
    assert_eq!(row_nos(&store().list(Some(f))), vec![2, 5]);
    let mut f = no_bounds();
    f.min_p95_latency_ms = dec(100);
    f.max_p95_latency_ms = dec(120);
    assert_eq!(row_nos(&store().list(Some(f))), vec![1, 5]);
}

#[test]
fn list_bounds_all_hold_together() {
    let mut f = no_bounds();
    f.release_tag = Some("v1".to_string());
    f.test_scenario = Some("checkout".to_string());
    assert_eq!(row_nos(&store().list(Some(f))), vec![3, 4]);
    let mut f = no_bounds();
    f.release_tag = Some("v1".to_string());
    f.test_scenario = Some("checkout".to_string());
    f.min_avg_tps = dec(1);
    assert_eq!(row_nos(&store().list(Some(f))), vec![3]);
    let mut f = no_bounds();
    f.release_tag = Some("v2".to_string());
    f.test_scenario = Some("checkout".to_string());
    assert!(store().list(Some(f)).is_empty());
}

#[test]
fn list_takes_a_tag_with_a_quote_as_any_other() {
    let mut f = no_bounds();
    f.release_tag = Some("O'Brien".to_string());
    assert_eq!(row_nos(&store().list(Some(f))), vec![5]);
    let mut f = no_bounds();
    f.release_tag = Some("v1' OR '1'='1".to_string());
    assert!(store().list(Some(f)).is_empty());
}

#[test]
fn a_record_without_a_scenario_meets_no_bound_on_it() {
    let mut f = no_bounds();
    f.test_scenario = Some("".to_string());
    assert!(!row_admitted(&f, &row("v1", None, None)));
    assert!(row_admitted(&no_bounds(), &row("v1", None, None)));
}

#[test]
fn get_by_id_gives_the_record_with_that_ordinal() {
    assert_eq!(store().get_by_id(3), Some(run("v1", 3, "checkout", None, dec(99))));
}

#[test]
fn get_by_id_of_an_ordinal_that_no_record_has_gives_nothing() {
    assert_eq!(store().get_by_id(42), None);
    assert_eq!(PerfRunsService::new(Vec::new()).get_by_id(1), None);
    assert_eq!(PerfRunsService::new(vec![row("v1", None, None)]).get_by_id(0), None);
}

#[test]
fn get_by_id_gives_the_first_of_several() {
    let service = PerfRunsService::new(vec![
        row("a", Some(2), None),
        row("b", Some(1), None),
        row("c", Some(1), None),
    ]);
    assert_eq!(service.get_by_id(1), Some(row("b", Some(1), None)));
}

#[test]
fn import_puts_a_record_at_the_end() {
    let mut service = PerfRunsService::new(vec![row("a", Some(1), None)]);
    assert_eq!(service.import(row("b", Some(2), None)), Ok(()));
    assert_eq!(*service.rows(), vec![row("a", Some(1), None), row("b", Some(2), None)]);
    assert_eq!(service.get_by_id(2), Some(row("b", Some(2), None)));
}
