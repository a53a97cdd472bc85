//! The store of performance records and what it answers: listings narrowed
//! by a filter, look-ups by ordinal, a summary, and the trend of throughput
//! over releases.
//!
//! The store holds its records in memory, in the order in which they were
//! taken in. Records that are kept elsewhere are handed to
//! `PerfRunsService::new`, and the answers are computed here.

use crate::domain::decimal::Decimal;
use crate::domain::perf::{
    decimal_view, filter_view, Error, PerfRow, PerfRowView, PerfRunFilter, PerfRunFilterView,
    PerfSummary, PerfTrends,
};
use crate::domain::text::{
    chars_of, comes_before, lemma_precedes_irreflexive, lemma_precedes_total,
    lemma_precedes_transitive, precedes,
};
use crate::usecase::aggregate::{
    avg_tps_of, avg_tps_of_release, latency_of, lemma_measured_push, mean, measured, Tally,
};
use vstd::prelude::*;
use vstd::string::*;

verus! {

/// Whether `row` meets every bound that `filter` sets. A bound on a
/// measurement is met only by a row that has the measurement.
pub open spec fn admits(filter: PerfRunFilterView, row: PerfRowView) -> bool {
    &&& filter.release_tag matches Some(tag) ==> row.release_tag == tag
    &&& filter.test_scenario matches Some(scenario) ==> row.test_scenario == Some(scenario)
    &&& filter.min_p95_latency_ms matches Some(least) ==> (row.p95_latency_ms matches Some(v)
        && v >= least)
    &&& filter.max_p95_latency_ms matches Some(most) ==> (row.p95_latency_ms matches Some(v) && v
        <= most)
    &&& filter.min_avg_tps matches Some(least) ==> (row.avg_tps matches Some(v) && v >= least)
    &&& filter.max_avg_tps matches Some(most) ==> (row.avg_tps matches Some(v) && v <= most)
}

/// The rows that a listing gives: all of them where there is no filter, else
/// those that the filter admits; in either case in the order in which the
/// store holds them.
pub open spec fn selected(rows: Seq<PerfRowView>, filter: Option<PerfRunFilterView>) -> Seq<
    PerfRowView,
> {
    match filter {
        None => rows,
        Some(f) => rows.filter(|row: PerfRowView| admits(f, row)),
    }
}

/// Whether a bound on a string is met by `value`.
fn text_meets(bound: &Option<String>, value: &String) -> (b: bool)
    ensures
        b == (*bound matches Some(t) ==> value@ == t@),
{
    match bound {
        None => true,
        Some(t) => *t == *value,
    }
}

/// Whether a bound on an optional string is met by `value`.
fn optional_text_meets(bound: &Option<String>, value: &Option<String>) -> (b: bool)
    ensures
        b == (*bound matches Some(t) ==> (*value matches Some(v) && v@ == t@)),
{
    match bound {
        None => true,
        Some(t) => match value {
            None => false,
            Some(v) => *t == *v,
        },
    }
}

/// Whether a lower bound is met by `value`.
fn at_least(bound: &Option<Decimal>, value: &Option<Decimal>) -> (b: bool)
    ensures
        b == (*bound matches Some(least) ==> (*value matches Some(v) && v@ >= least@)),
{
    match bound {
        None => true,
        Some(least) => match value {
            None => false,
            Some(v) => v.micros >= least.micros,
        },
    }
}

/// Whether an upper bound is met by `value`.
fn at_most(bound: &Option<Decimal>, value: &Option<Decimal>) -> (b: bool)
    ensures
        b == (*bound matches Some(most) ==> (*value matches Some(v) && v@ <= most@)),
{
    match bound {
        None => true,
        Some(most) => match value {
            None => false,
            Some(v) => v.micros <= most.micros,
        },
    }
}

/// Whether `row` meets every bound that `filter` sets.
pub fn row_admitted(filter: &PerfRunFilter, row: &PerfRow) -> (b: bool)
    ensures
        b == admits(filter@, row@),
{
    text_meets(&filter.release_tag, &row.release_tag) && optional_text_meets(
        &filter.test_scenario,
        &row.test_scenario,
    ) && at_least(&filter.min_p95_latency_ms, &row.p95_latency_ms) && at_most(
        &filter.max_p95_latency_ms,
        &row.p95_latency_ms,
    ) && at_least(&filter.min_avg_tps, &row.avg_tps) && at_most(&filter.max_avg_tps, &row.avg_tps)
}

/// The store: the records in the order in which they were taken in. A
/// record that the store holds stays as it is and where it is: the store
/// only ever gains records at its end.
pub struct PerfRunsService {
    rows: Vec<PerfRow>,
}

impl View for PerfRunsService {
    type V = Seq<PerfRowView>;

    /// The records that the store holds, in its order.
    closed spec fn view(&self) -> Seq<PerfRowView> {
        self.rows.deep_view()
    }
}

impl PerfRunsService {
    /// A store that holds `rows`.
    pub fn new(rows: Vec<PerfRow>) -> (service: PerfRunsService)
        ensures
            service@ == rows.deep_view(),
    {
        PerfRunsService { rows }
    }

    /// The records that the store holds, in its order.
    pub fn rows(&self) -> (rows: &Vec<PerfRow>)
        ensures
            rows.deep_view() == self@,
    {
        &self.rows
    }

    /// The records that `filter` admits, or all of them without a filter, in
    /// the order in which the store holds them.
    pub fn list(&self, filter: Option<PerfRunFilter>) -> (found: Vec<PerfRow>)
        ensures
            found.deep_view() == selected(self@, filter_view(filter)),
    {
        let ghost all = self.rows.deep_view();
        let mut found: Vec<PerfRow> = Vec::new();
        let mut i: usize = 0;
        match filter {
            None => {
                while i < self.rows.len()
                    invariant
                        i <= self.rows.len(),
                        all == self.rows.deep_view(),
                        found.deep_view() == all.take(i as int),
                    decreases self.rows.len() - i,
                {
                    let ghost before = found.deep_view();
                    found.push(self.rows[i].clone());
                    assert(found.deep_view() =~= before.push(self.rows[i as int]@));
                    assert(all.take(i + 1) =~= all.take(i as int).push(self.rows[i as int]@));
                    i += 1;
                }
                assert(all.take(i as int) =~= all);
            },
            Some(f) => {
                let ghost pred = |row: PerfRowView| admits(f@, row);
                assert(all.take(0).filter(pred) =~= Seq::<PerfRowView>::empty()) by {
                    reveal(Seq::filter);
                }
                while i < self.rows.len()
                    invariant
                        i <= self.rows.len(),
                        all == self.rows.deep_view(),
                        pred == (|row: PerfRowView| admits(f@, row)),
                        found.deep_view() == all.take(i as int).filter(pred),
                    decreases self.rows.len() - i,
                {
                    proof {
                        assert(all.take(i + 1) =~= all.take(i as int).push(self.rows[i as int]@));
                        all.take(i as int).lemma_filter_push(self.rows[i as int]@, pred);
                    }
                    if row_admitted(&f, &self.rows[i]) {
                        let ghost before = found.deep_view();
                        found.push(self.rows[i].clone());
                        assert(found.deep_view() =~= before.push(self.rows[i as int]@));
                    }
                    i += 1;
                }
                assert(all.take(i as int) =~= all);
            },
        }
        found
    }

    /// The first record of the store, in the order in which it holds them,
    /// whose ordinal is `row_no`; none where no record has that ordinal, which
    /// is no failure.
    pub fn get_by_id(&self, row_no: i64) -> (found: Option<PerfRow>)
        ensures
            found is None <==> forall|i: int|
                0 <= i < self@.len() ==> (#[trigger] self@[i]).row_no != Some(row_no as int),
            found matches Some(row) ==> exists|i: int|
                #[trigger] is_first_with(self@, row_no as int, i) && self@[i] == row@,
    {
        let ghost all = self.rows.deep_view();
        let mut i: usize = 0;
        while i < self.rows.len()
            invariant
                i <= self.rows.len(),
                all == self.rows.deep_view(),
                forall|j: int| 0 <= j < i ==> (#[trigger] all[j]).row_no != Some(row_no as int),
            decreases self.rows.len() - i,
        {
            assert(all[i as int] == self.rows@[i as int]@);
            match self.rows[i].row_no {
                Some(n) if n == row_no => {
                    let row = self.rows[i].clone();
                    assert(is_first_with(all, row_no as int, i as int));
                    return Some(row);
                },
                _ => {},
            }
            i += 1;
        }
        None
    }

    /// How many records the store holds, and the means of their average
    /// throughput and of their latency, each over the records that have the
    /// measurement. A measurement that no record has, has no mean.
    pub fn summary(&self) -> (s: PerfSummary)
        ensures
            s.total_runs == self@.len(),
            decimal_view(s.avg_tps) == mean(measured(self@, avg_tps_of())),
            decimal_view(s.avg_latency_ms) == mean(measured(self@, latency_of())),
            s.total_runs == 0 ==> s.avg_tps is None && s.avg_latency_ms is None,
    {
        let ghost all = self.rows.deep_view();
        let mut tps = Tally::new();
        let mut latency = Tally::new();
        let mut i: usize = 0;
        while i < self.rows.len()
            invariant
                i <= self.rows.len(),
                all == self.rows.deep_view(),
                tps.values() == measured(all.take(i as int), avg_tps_of()),
                latency.values() == measured(all.take(i as int), latency_of()),
                tps.values().len() <= i,
                latency.values().len() <= i,
            decreases self.rows.len() - i,
        {
            proof {
                assert(all[i as int] == self.rows@[i as int]@);
                assert(all.take(i + 1) =~= all.take(i as int).push(all[i as int]));
                lemma_measured_push(all.take(i as int), all[i as int], avg_tps_of());
                lemma_measured_push(all.take(i as int), all[i as int], latency_of());
            }
            match self.rows[i].avg_tps {
                Some(d) => tps.add(d),
                None => {},
            }
            match self.rows[i].p95_latency_ms {
                Some(d) => latency.add(d),
                None => {},
            }
            i += 1;
        }
        assert(all.take(i as int) =~= all);
        PerfSummary {
            total_runs: self.rows.len(),
            avg_tps: tps.mean(),
            avg_latency_ms: latency.mean(),
        }
    }

    /// The mean of the average throughput of each release: one point for
    /// each release of which some record has the measurement, in the order of
    /// the tags. A release of which no record has it gets no point.
    pub fn trends(&self) -> (t: PerfTrends)
        ensures
            is_trend_series(self@, t@),
    {
        let ghost all = self.rows.deep_view();
        let releases = tally_releases(&self.rows);
        let mut points: Vec<(String, Decimal)> = Vec::new();
        let mut k: usize = 0;
        while k < releases.len()
            invariant
                k <= releases.len(),
                all == self.rows.deep_view(),
                tallied(releases@, all),
                points.len() == k,
                forall|j: int|
                    0 <= j < k ==> (#[trigger] points.deep_view()[j]).0 == releases@[j].tag@,
                forall|j: int|
                    0 <= j < k ==> mean(release_values(all, releases@[j].tag@)) == Some(
                        (#[trigger] points.deep_view()[j]).1,
                    ),
            decreases releases.len() - k,
        {
            let ghost before = points.deep_view();
            // No release is tallied without a measurement, so each has a mean.
            if let Some(m) = releases[k].tally.mean() {
                points.push((releases[k].tag.clone(), m));
                assert(points.deep_view() =~= before.push((releases@[k as int].tag@, m@)));
            }
            k += 1;
        }
        let t = PerfTrends { trend_points: points };
        proof {
            assert forall|i: int, j: int| 0 <= i < j < t@.len() implies precedes(
                (#[trigger] t@[i]).0,
                (#[trigger] t@[j]).0,
            ) by {
                assert(precedes(releases@[i].tag@, releases@[j].tag@));
            }
            assert forall|tag: Seq<char>| #[trigger]
                release_values(all, tag).len() > 0 implies has_point(t@, tag) by {
                assert(has_release(releases@, tag));
                let j = choose|j: int| 0 <= j < releases@.len() && #[trigger] releases@[j].tag@ == tag;
                assert(t@[j].0 == tag);
            }
        }
        t
    }

    /// Puts `new_run` at the end of the store.
    pub fn import(&mut self, new_run: PerfRow) -> (r: Result<(), Error>)
        ensures
            r is Ok,
            final(self)@ == old(self)@.push(new_run@),
    {
        let ghost held = self@;
        self.rows.push(new_run);
        assert(self@ =~= held.push(new_run@));
        Ok(())
    }
}

/// Whether the record at `i` is the first of `rows` whose ordinal is
/// `row_no`.
pub open spec fn is_first_with(rows: Seq<PerfRowView>, row_no: int, i: int) -> bool {
    &&& 0 <= i < rows.len()
    &&& rows[i].row_no == Some(row_no)
    &&& forall|j: int| 0 <= j < i ==> (#[trigger] rows[j]).row_no != Some(row_no)
}

/// The average throughputs that the records of the release `tag` have, in
/// the order of the records.
pub open spec fn release_values(rows: Seq<PerfRowView>, tag: Seq<char>) -> Seq<int> {
    measured(rows, avg_tps_of_release(tag))
}

/// Whether `points` has a point for the release `tag`.
pub open spec fn has_point(points: Seq<(Seq<char>, int)>, tag: Seq<char>) -> bool {
    exists|i: int| 0 <= i < points.len() && (#[trigger] points[i]).0 == tag
}

/// Whether `points` is the trend of `rows`: its points stand in the strict
/// order of their tags, each holds the mean of the average throughputs of
/// its release, and every release that has such a measurement has a point.
pub open spec fn is_trend_series(rows: Seq<PerfRowView>, points: Seq<(Seq<char>, int)>) -> bool {
    &&& forall|i: int, j: int|
        0 <= i < j < points.len() ==> precedes((#[trigger] points[i]).0, (#[trigger] points[j]).0)
    &&& forall|i: int|
        0 <= i < points.len() ==> mean(release_values(rows, (#[trigger] points[i]).0)) == Some(
            points[i].1,
        )
    &&& forall|tag: Seq<char>| #[trigger]
        release_values(rows, tag).len() > 0 ==> has_point(points, tag)
}

/// The measurements of one release.
struct Release {
    tag: String,
    tally: Tally,
}

/// Whether `releases` has an entry for the release `tag`.
spec fn has_release(releases: Seq<Release>, tag: Seq<char>) -> bool {
    exists|k: int| 0 <= k < releases.len() && (#[trigger] releases[k]).tag@ == tag
}

/// Whether `releases` holds the tallies of `rows` by release: in the strict
/// order of their tags, each the tally of the average throughputs of its
/// release, none of them empty, and none missing.
spec fn tallied(releases: Seq<Release>, rows: Seq<PerfRowView>) -> bool {
    &&& forall|a: int, b: int|
        0 <= a < b < releases.len() ==> precedes(
            (#[trigger] releases[a]).tag@,
            (#[trigger] releases[b]).tag@,
        )
    &&& forall|k: int|
        0 <= k < releases.len() ==> {
            &&& (#[trigger] releases[k]).tally.values() == release_values(rows, releases[k].tag@)
            &&& releases[k].tally.values().len() > 0
        }
    &&& forall|tag: Seq<char>| #[trigger]
        release_values(rows, tag).len() > 0 ==> has_release(releases, tag)
}

/// A record adds its average throughput to the values of its own release and
/// nothing to those of any other.
proof fn lemma_release_values_push(rows: Seq<PerfRowView>, row: PerfRowView, tag: Seq<char>)
    ensures
        release_values(rows.push(row), tag) == if row.release_tag == tag && row.avg_tps is Some {
            release_values(rows, tag).push(row.avg_tps->0)
        } else {
            release_values(rows, tag)
        },
{
    lemma_measured_push(rows, row, avg_tps_of_release(tag));
}

/// A release has no more values than there are records.
proof fn lemma_release_values_len(rows: Seq<PerfRowView>, tag: Seq<char>)
    ensures
        release_values(rows, tag).len() <= rows.len(),
    decreases rows.len(),
{
    if rows.len() > 0 {
        lemma_release_values_len(rows.drop_last(), tag);
    }
}

/// Where the release `tag` stands among `releases`, or where it is to be
/// put.
fn place_of(releases: &Vec<Release>, tag: &String) -> (r: (usize, bool))
    requires
        forall|a: int, b: int|
            0 <= a < b < releases.len() ==> precedes(
                (#[trigger] releases@[a]).tag@,
                (#[trigger] releases@[b]).tag@,
            ),
    ensures
        r.0 <= releases.len(),
        r.1 ==> r.0 < releases.len() && releases@[r.0 as int].tag@ == tag@,
        r.1 == has_release(releases@, tag@),
        forall|k: int| 0 <= k < r.0 ==> precedes((#[trigger] releases@[k]).tag@, tag@),
        !r.1 && r.0 < releases.len() ==> precedes(tag@, releases@[r.0 as int].tag@),
{
    let wanted = chars_of(tag.as_str());
    let mut at: usize = 0;
    while at < releases.len()
        invariant
            at <= releases.len(),
            wanted@ == tag@,
            forall|k: int| 0 <= k < at ==> precedes((#[trigger] releases@[k]).tag@, tag@),
            forall|a: int, b: int|
                0 <= a < b < releases.len() ==> precedes(
                    (#[trigger] releases@[a]).tag@,
                    (#[trigger] releases@[b]).tag@,
                ),
        decreases releases.len() - at,
    {
        let here = chars_of(releases[at].tag.as_str());
        if !comes_before(&here, &wanted) {
            let found = !comes_before(&wanted, &here);
            proof {
                lemma_precedes_total(here@, wanted@);
                lemma_ordered_lookup(releases@, tag@, at as int);
            }
            return (at, found);
        }
        at += 1;
    }
    proof {
        lemma_ordered_lookup(releases@, tag@, at as int);
    }
    (at, false)
}

/// Among releases in the strict order of their tags, `tag` can stand only
/// where the tags before it end.
proof fn lemma_ordered_lookup(releases: Seq<Release>, tag: Seq<char>, at: int)
    requires
        0 <= at <= releases.len(),
        forall|a: int, b: int|
            0 <= a < b < releases.len() ==> precedes(
                (#[trigger] releases[a]).tag@,
                (#[trigger] releases[b]).tag@,
            ),
        forall|k: int| 0 <= k < at ==> precedes((#[trigger] releases[k]).tag@, tag),
        at < releases.len() ==> !precedes(releases[at].tag@, tag),
    ensures
        has_release(releases, tag) == (at < releases.len() && releases[at].tag@ == tag),
{
    if has_release(releases, tag) {
        let k = choose|k: int| 0 <= k < releases.len() && (#[trigger] releases[k]).tag@ == tag;
        lemma_precedes_irreflexive(tag);
        if k < at {
            assert(precedes(releases[k].tag@, tag));
        } else if k > at {
            assert(precedes(releases[at].tag@, releases[k].tag@));
        }
    } else if at < releases.len() && releases[at].tag@ == tag {
        assert(has_release(releases, tag));
    }
}

/// Takes the measurement `d` of a record of the release `tag` into the
/// tallies.
fn enter(
    releases: &mut Vec<Release>,
    tag: &String,
    d: Decimal,
    Ghost(rows): Ghost<Seq<PerfRowView>>,
    Ghost(row): Ghost<PerfRowView>,
)
    requires
        tallied(old(releases)@, rows),
        row.release_tag == tag@,
        row.avg_tps == Some(d@),
        rows.len() < usize::MAX,
    ensures
        tallied(final(releases)@, rows.push(row)),
{
    let (at, found) = place_of(releases, tag);
    let ghost held = releases@;
    let ghost grown = rows.push(row);
    proof {
        assert forall|t: Seq<char>| true implies #[trigger] release_values(grown, t) == if t
            == tag@ {
            release_values(rows, t).push(d@)
        } else {
            release_values(rows, t)
        } by {
            lemma_release_values_push(rows, row, t);
        }
        lemma_release_values_len(rows, tag@);
        lemma_precedes_irreflexive(tag@);
    }
    if found {
        let mut release = releases.remove(at);
        release.tally.add(d);
        releases.insert(at, release);
        proof {
            let now = releases@;
            assert(now.len() == held.len());
            assert forall|k: int| 0 <= k < now.len() implies (#[trigger] now[k]).tag@
                == held[k].tag@ by {}
            assert forall|k: int| 0 <= k < now.len() implies {
                &&& (#[trigger] now[k]).tally.values() == release_values(grown, now[k].tag@)
                &&& now[k].tally.values().len() > 0
            } by {
                if k != at {
                    assert(now[k] == held[k]);
                    if k < at {
                        assert(precedes(held[k].tag@, held[at as int].tag@));
                    } else {
                        assert(precedes(held[at as int].tag@, held[k].tag@));
                    }
                }
            }
            assert forall|a: int, b: int| 0 <= a < b < now.len() implies precedes(
                (#[trigger] now[a]).tag@,
                (#[trigger] now[b]).tag@,
            ) by {
                assert(precedes(held[a].tag@, held[b].tag@));
            }
            assert forall|t: Seq<char>| #[trigger]
                release_values(grown, t).len() > 0 implies has_release(now, t) by {
                if t == tag@ {
                    assert(now[at as int].tag@ == t);
                } else {
                    assert(has_release(held, t));
                    let k = choose|k: int| 0 <= k < held.len() && (#[trigger] held[k]).tag@ == t;
                    assert(now[k].tag@ == t);
                }
            }
        }
    } else {
        let mut tally = Tally::new();
        tally.add(d);
        releases.insert(at, Release { tag: tag.clone(), tally });
        proof {
            let now = releases@;
            assert(release_values(rows, tag@).len() == 0);
            assert(release_values(grown, tag@) =~= Seq::<int>::empty().push(d@));
            assert forall|k: int| 0 <= k < now.len() implies {
                &&& (#[trigger] now[k]).tally.values() == release_values(grown, now[k].tag@)
                &&& now[k].tally.values().len() > 0
            } by {
                if k < at {
                    assert(now[k] == held[k]);
                    assert(precedes(held[k].tag@, tag@));
                } else if k > at {
                    assert(now[k] == held[k - 1]);
                    if k - 1 > at {
                        assert(precedes(held[at as int].tag@, held[k - 1].tag@));
                        lemma_precedes_transitive(tag@, held[at as int].tag@, held[k - 1].tag@);
                    }
                }
            }
            assert forall|a: int, b: int| 0 <= a < b < now.len() implies precedes(
                (#[trigger] now[a]).tag@,
                (#[trigger] now[b]).tag@,
            ) by {
                if b < at {
                    assert(precedes(held[a].tag@, held[b].tag@));
                } else if b == at {
                    assert(precedes(held[a].tag@, tag@));
                } else if a < at {
                    assert(precedes(held[a].tag@, held[b - 1].tag@));
                } else if a == at {
                    if b - 1 > at {
                        assert(precedes(held[at as int].tag@, held[b - 1].tag@));
                        lemma_precedes_transitive(tag@, held[at as int].tag@, held[b - 1].tag@);
                    }
                } else {
                    assert(precedes(held[a - 1].tag@, held[b - 1].tag@));
                }
            }
            assert forall|t: Seq<char>| #[trigger]
                release_values(grown, t).len() > 0 implies has_release(now, t) by {
                if t == tag@ {
                    assert(now[at as int].tag@ == t);
                } else {
                    assert(has_release(held, t));
                    let k = choose|k: int| 0 <= k < held.len() && (#[trigger] held[k]).tag@ == t;
                    if k < at {
                        assert(now[k].tag@ == t);
                    } else {
                        assert(now[k + 1].tag@ == t);
                    }
                }
            }
        }
    }
}

/// The tallies of the average throughputs of `rows`, by release.
fn tally_releases(rows: &Vec<PerfRow>) -> (releases: Vec<Release>)
    ensures
        tallied(releases@, rows.deep_view()),
{
    let ghost all = rows.deep_view();
    let mut releases: Vec<Release> = Vec::new();
    let mut i: usize = 0;
    proof {
        assert forall|tag: Seq<char>| #[trigger]
            release_values(all.take(0), tag).len() > 0 implies has_release(releases@, tag) by {}
    }
    while i < rows.len()
        invariant
            i <= rows.len(),
            all == rows.deep_view(),
            tallied(releases@, all.take(i as int)),
        decreases rows.len() - i,
    {
        let ghost seen = all.take(i as int);
        proof {
            assert(all[i as int] == rows@[i as int]@);
            assert(all.take(i + 1) =~= seen.push(all[i as int]));
        }
        match rows[i].avg_tps {
            Some(d) => {
                enter(&mut releases, &rows[i].release_tag, d, Ghost(seen), Ghost(all[i as int]));
            },
            None => {
                proof {
                    let grown = seen.push(all[i as int]);
                    assert forall|t: Seq<char>| true implies #[trigger] release_values(grown, t)
                        == release_values(seen, t) by {
                        lemma_release_values_push(seen, all[i as int], t);
                    }
                }
            },
        }
        i += 1;
    }
    assert(all.take(i as int) =~= all);
    releases
}

/// What a filter keeps of a sequence was in the sequence.
proof fn lemma_kept_was_there(rows: Seq<PerfRowView>, pred: spec_fn(PerfRowView) -> bool, i: int)
    requires
        0 <= i < rows.filter(pred).len(),
    ensures
        rows.contains(rows.filter(pred)[i]),
    decreases rows.len(),
{
    reveal(Seq::filter);
    if rows.len() > 0 {
        let before = rows.drop_last();
        let kept = before.filter(pred);
        if i < kept.len() {
            lemma_kept_was_there(before, pred, i);
            let k = choose|k: int| 0 <= k < before.len() && before[k] == kept[i];
            assert(rows[k] == kept[i]);
        } else {
            assert(rows[rows.len() - 1] == rows.filter(pred)[i]);
        }
    }
}

/// A listing by a filter holds only records that the filter admits, each of
/// them a record of the store, and it holds every record of the store that
/// the filter admits.
pub proof fn lemma_listing_is_exact(rows: Seq<PerfRowView>, filter: PerfRunFilterView)
    ensures
        forall|i: int|
            0 <= i < selected(rows, Some(filter)).len() ==> admits(
                filter,
                #[trigger] selected(rows, Some(filter))[i],
            ) && rows.contains(selected(rows, Some(filter))[i]),
        forall|i: int|
            0 <= i < rows.len() && admits(filter, #[trigger] rows[i]) ==> selected(
                rows,
                Some(filter),
            ).contains(rows[i]),
{
    let pred = |row: PerfRowView| admits(filter, row);
    let listed = rows.filter(pred);
    assert forall|i: int| 0 <= i < listed.len() implies admits(filter, #[trigger] listed[i])
        && rows.contains(listed[i]) by {
        rows.lemma_filter_pred(pred, i);
        lemma_kept_was_there(rows, pred, i);
    }
    assert forall|i: int| 0 <= i < rows.len() && admits(filter, #[trigger] rows[i])
        implies listed.contains(rows[i]) by {
        rows.lemma_filter_contains(pred, i);
    }
}

/// Whether `filter` sets no bound at all.
pub open spec fn sets_no_bound(filter: PerfRunFilterView) -> bool {
    &&& filter.release_tag is None
    &&& filter.test_scenario is None
    &&& filter.min_p95_latency_ms is None
    &&& filter.max_p95_latency_ms is None
    &&& filter.min_avg_tps is None
    &&& filter.max_avg_tps is None
}

/// A filter that sets no bound lists what no filter lists: every record.
pub proof fn lemma_no_bound_lists_all(rows: Seq<PerfRowView>, filter: PerfRunFilterView)
    requires
        sets_no_bound(filter),
    ensures
        selected(rows, Some(filter)) == rows,
        selected(rows, Some(filter)) == selected(rows, None),
    decreases rows.len(),
{
    let pred = |row: PerfRowView| admits(filter, row);
    reveal(Seq::filter);
    if rows.len() > 0 {
        lemma_no_bound_lists_all(rows.drop_last(), filter);
        assert(pred(rows.last()));
        assert(rows.drop_last().push(rows.last()) =~= rows);
    }
}

/// Listed by release, every record is of that release; listed by a least
/// throughput, every record has a throughput, and one that is no less.
pub proof fn lemma_listed_meet_bounds(rows: Seq<PerfRowView>, filter: PerfRunFilterView, i: int)
    requires
        0 <= i < selected(rows, Some(filter)).len(),
    ensures
        filter.release_tag matches Some(tag) ==> selected(rows, Some(filter))[i].release_tag
            == tag,
        filter.min_avg_tps matches Some(least) ==> (selected(
            rows,
            Some(filter),
        )[i].avg_tps matches Some(v) && v >= least),
{
    lemma_listing_is_exact(rows, filter);
}

/// Tags in their strict order that are the same tags are the same sequence.
proof fn lemma_ordered_tags_agree(a: Seq<Seq<char>>, b: Seq<Seq<char>>)
    requires
        forall|i: int, j: int| 0 <= i < j < a.len() ==> precedes(#[trigger] a[i], #[trigger] a[j]),
        forall|i: int, j: int| 0 <= i < j < b.len() ==> precedes(#[trigger] b[i], #[trigger] b[j]),
        forall|t: Seq<char>| a.contains(t) <==> b.contains(t),
    ensures
        a == b,
    decreases a.len(),
{
    if a.len() == 0 {
        if b.len() > 0 {
            assert(b.contains(b[0]));
            assert(a.contains(b[0]));
        }
        assert(a =~= b);
    } else {
        assert(a.contains(a[0]));
        assert(b.contains(a[0]));
        let j = choose|j: int| 0 <= j < b.len() && b[j] == a[0];
        assert(b.contains(b[0]));
        assert(a.contains(b[0]));
        let i = choose|i: int| 0 <= i < a.len() && a[i] == b[0];
        lemma_precedes_irreflexive(a[0]);
        if j > 0 {
            assert(precedes(b[0], b[j]));
            if i > 0 {
                assert(precedes(a[0], a[i]));
                lemma_precedes_transitive(a[0], b[0], a[0]);
            }
        }
        assert(a[0] == b[0]);
        let ta = a.drop_first();
        let tb = b.drop_first();
        assert forall|x: int, y: int| 0 <= x < y < ta.len() implies precedes(
            #[trigger] ta[x],
            #[trigger] ta[y],
        ) by {
            assert(precedes(a[x + 1], a[y + 1]));
        }
        assert forall|x: int, y: int| 0 <= x < y < tb.len() implies precedes(
            #[trigger] tb[x],
            #[trigger] tb[y],
        ) by {
            assert(precedes(b[x + 1], b[y + 1]));
        }
        assert forall|t: Seq<char>| ta.contains(t) <==> tb.contains(t) by {
            lemma_precedes_irreflexive(t);
            if ta.contains(t) {
                let k = choose|k: int| 0 <= k < ta.len() && ta[k] == t;
                assert(a[k + 1] == t);
                assert(precedes(a[0], a[k + 1]));
                assert(a.contains(t));
                assert(b.contains(t));
                let m = choose|m: int| 0 <= m < b.len() && b[m] == t;
                assert(m > 0);
                assert(tb[m - 1] == t);
            }
            if tb.contains(t) {
                let k = choose|k: int| 0 <= k < tb.len() && tb[k] == t;
                assert(b[k + 1] == t);
                assert(precedes(b[0], b[k + 1]));
                assert(b.contains(t));
                assert(a.contains(t));
                let m = choose|m: int| 0 <= m < a.len() && a[m] == t;
                assert(m > 0);
                assert(ta[m - 1] == t);
            }
        }
        lemma_ordered_tags_agree(ta, tb);
        assert(a =~= seq![a[0]] + ta);
        assert(b =~= seq![b[0]] + tb);
    }
}

/// The records of a store have one trend and no other.
pub proof fn lemma_trend_series_is_unique(
    rows: Seq<PerfRowView>,
    a: Seq<(Seq<char>, int)>,
    b: Seq<(Seq<char>, int)>,
)
    requires
        is_trend_series(rows, a),
        is_trend_series(rows, b),
    ensures
        a == b,
{
    let ta = a.map_values(|p: (Seq<char>, int)| p.0);
    let tb = b.map_values(|p: (Seq<char>, int)| p.0);
    assert forall|i: int, j: int| 0 <= i < j < ta.len() implies precedes(
        #[trigger] ta[i],
        #[trigger] ta[j],
    ) by {
        assert(precedes(a[i].0, a[j].0));
    }
    assert forall|i: int, j: int| 0 <= i < j < tb.len() implies precedes(
        #[trigger] tb[i],
        #[trigger] tb[j],
    ) by {
        assert(precedes(b[i].0, b[j].0));
    }
    assert forall|t: Seq<char>| ta.contains(t) <==> tb.contains(t) by {
        if ta.contains(t) {
            let k = choose|k: int| 0 <= k < ta.len() && ta[k] == t;
            assert(mean(release_values(rows, a[k].0)) == Some(a[k].1));
            assert(release_values(rows, t).len() > 0);
            assert(has_point(b, t));
            let m = choose|m: int| 0 <= m < b.len() && (#[trigger] b[m]).0 == t;
            assert(tb[m] == t);
        }
        if tb.contains(t) {
            let k = choose|k: int| 0 <= k < tb.len() && tb[k] == t;
            assert(mean(release_values(rows, b[k].0)) == Some(b[k].1));
            assert(release_values(rows, t).len() > 0);
            assert(has_point(a, t));
            let m = choose|m: int| 0 <= m < a.len() && (#[trigger] a[m]).0 == t;
            assert(ta[m] == t);
        }
    }
    lemma_ordered_tags_agree(ta, tb);
    assert(a.len() == b.len());
    assert forall|i: int| 0 <= i < a.len() implies a[i] == b[i] by {
        assert(ta[i] == tb[i]);
        assert(mean(release_values(rows, a[i].0)) == Some(a[i].1));
        assert(mean(release_values(rows, b[i].0)) == Some(b[i].1));
    }
    assert(a =~= b);
}

} // verus!
