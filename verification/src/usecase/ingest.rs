//! Taking the records of a source into the store.
//!
//! The first row of a source is its header. Every row after it is one
//! record; records are numbered from one. A record that cannot be read is
//! set aside with its number and the cause, and the rest are taken in all
//! the same: a bad record never stops a run. Only a source without a usable
//! header fails as a whole.

use crate::domain::perf::{Error, ErrorView, PerfRow, PerfRowView};
use crate::usecase::normalize::{
    columns, find_column, is_header, normalize, normalized, position, AVG_TPS, BASELINE_AVG_TPS,
    FAILED_TXN_COUNT, FAILED_TXN_PCT, P95_LATENCY_MS, PEAK_TPS, RELEASE_TAG, REMARK_TEXT, ROW_NO,
    TEST_RESULT_TEXT, TEST_SCENARIO, TOTAL_TXN_COUNT,
};
use crate::usecase::perf_runs_service::PerfRunsService;
use crate::usecase::source::{csv_rows, read_rows, SourceRow};
use vstd::prelude::*;
use vstd::string::*;

verus! {

/// Why a source without any row cannot be used.
pub const NO_HEADER: &'static str = "the source has no header row";

/// Why a source whose first row is not the header cannot be used.
pub const WRONG_HEADER: &'static str = "the header row does not name the expected columns";

/// A record that was set aside.
#[derive(Debug, PartialEq, Eq)]
pub struct RecordFailure {
    /// The record's number in its source, counted from one.
    pub index: usize,
    /// Why it was set aside.
    pub cause: Error,
}

impl DeepView for RecordFailure {
    type V = (int, ErrorView);

    open spec fn deep_view(&self) -> (int, ErrorView) {
        (self.index as int, self.cause@)
    }
}

/// How a run ended.
#[derive(Debug, PartialEq, Eq)]
pub struct ImportReport {
    /// How many records were taken into the store.
    pub inserted: usize,
    /// The records that were set aside, in the order of the source.
    pub failures: Vec<RecordFailure>,
}

impl ImportReport {
    /// The report of a run in which nothing has happened yet.
    pub fn new() -> (report: ImportReport)
        ensures
            report.inserted == 0,
            report.failures.deep_view() == Seq::<(int, ErrorView)>::empty(),
    {
        let report = ImportReport { inserted: 0, failures: Vec::new() };
        assert(report.failures.deep_view() =~= Seq::<(int, ErrorView)>::empty());
        report
    }

    /// Notes what became of the record with the number `index`: it was
    /// taken in, or it is set aside for the cause given.
    pub fn record(&mut self, index: usize, outcome: Result<(), Error>)
        requires
            outcome is Ok ==> old(self).inserted < usize::MAX,
        ensures
            match outcome {
                Ok(_) => {
                    &&& final(self).inserted == old(self).inserted + 1
                    &&& final(self).failures.deep_view() == old(self).failures.deep_view()
                },
                Err(e) => {
                    &&& final(self).inserted == old(self).inserted
                    &&& final(self).failures.deep_view() == old(self).failures.deep_view().push(
                        (index as int, e@),
                    )
                },
            },
    {
        match outcome {
            Ok(_) => {
                self.inserted = self.inserted + 1;
            },
            Err(e) => {
                let ghost listed = self.failures.deep_view();
                self.failures.push(RecordFailure { index, cause: e });
                assert(self.failures.deep_view() =~= listed.push((index as int, e@)));
            },
        }
    }

    /// How many records were set aside.
    pub fn skipped(&self) -> (n: usize)
        ensures
            n == self.failures.len(),
    {
        self.failures.len()
    }
}

/// A row of a source as plain values: its fields, or the reader's complaint.
pub type RowView = Result<Seq<Seq<char>>, Seq<char>>;

/// What becomes of one record: the row that it makes, or why it is set
/// aside.
pub type Outcome = Result<PerfRowView, ErrorView>;

/// Why a source as a whole cannot be used, if it cannot: it has no row at
/// all, the reader could not hand out its first row, or that row does not
/// name the expected columns.
pub open spec fn source_failure(rows: Seq<RowView>) -> Option<ErrorView> {
    if rows.len() == 0 {
        Some(ErrorView::Source(NO_HEADER@))
    } else {
        match rows[0] {
            Err(complaint) => Some(ErrorView::Source(complaint)),
            Ok(header) => if is_header(header) {
                None
            } else {
                Some(ErrorView::Source(WRONG_HEADER@))
            },
        }
    }
}

/// What becomes of the record `row` under `header`.
pub open spec fn outcome(header: Seq<Seq<char>>, row: RowView) -> Outcome {
    match row {
        Ok(fields) => normalized(header, fields),
        Err(complaint) => Err(ErrorView::MalformedRecord(complaint)),
    }
}

/// What becomes of each record of a source, in order: of each row after the
/// first, under the first as header.
pub open spec fn outcomes(rows: Seq<RowView>) -> Seq<Outcome> {
    Seq::new((rows.len() - 1) as nat, |i: int| outcome(rows[0]->Ok_0, rows[i + 1]))
}

/// The rows that the records make which are not set aside, in order.
pub open spec fn accepted(outcomes: Seq<Outcome>) -> Seq<PerfRowView>
    decreases outcomes.len(),
{
    if outcomes.len() == 0 {
        Seq::empty()
    } else {
        let before = accepted(outcomes.drop_last());
        match outcomes.last() {
            Ok(row) => before.push(row),
            Err(_) => before,
        }
    }
}

/// The records that are set aside, in order: the number of each, counted
/// from one, and the cause.
pub open spec fn rejected(outcomes: Seq<Outcome>) -> Seq<(int, ErrorView)>
    decreases outcomes.len(),
{
    if outcomes.len() == 0 {
        Seq::empty()
    } else {
        let before = rejected(outcomes.drop_last());
        match outcomes.last() {
            Ok(_) => before,
            Err(e) => before.push((outcomes.len() as int, e)),
        }
    }
}

/// Every record is either taken in or set aside.
pub proof fn lemma_every_record_counted(outcomes: Seq<Outcome>)
    ensures
        accepted(outcomes).len() + rejected(outcomes).len() == outcomes.len(),
    decreases outcomes.len(),
{
    if outcomes.len() > 0 {
        lemma_every_record_counted(outcomes.drop_last());
    }
}

/// The view of the outcome of one record.
pub open spec fn outcome_view(o: Result<PerfRow, Error>) -> Outcome {
    match o {
        Ok(row) => Ok(row@),
        Err(e) => Err(e@),
    }
}

/// The views of the outcomes of the records.
pub open spec fn outcomes_view(os: Seq<Result<PerfRow, Error>>) -> Seq<Outcome> {
    Seq::new(os.len(), |i: int| outcome_view(os[i]))
}

/// Whether `header` names each of the twelve columns once and nothing else.
pub fn check_header(header: &Vec<String>) -> (ok: bool)
    ensures
        ok == is_header(header.deep_view()),
{
    if header.len() != 12 {
        return false;
    }
    let names: [&'static str; 12] = [
        RELEASE_TAG,
        ROW_NO,
        TEST_SCENARIO,
        P95_LATENCY_MS,
        AVG_TPS,
        PEAK_TPS,
        FAILED_TXN_PCT,
        FAILED_TXN_COUNT,
        TOTAL_TXN_COUNT,
        BASELINE_AVG_TPS,
        TEST_RESULT_TEXT,
        REMARK_TEXT,
    ];
    let mut k: usize = 0;
    while k < 12
        invariant
            k <= 12,
            header.len() == 12,
            forall|j: int| 0 <= j < 12 ==> (#[trigger] names@[j])@ == columns()[j],
            forall|j: int|
                0 <= j < k ==> position(header.deep_view(), #[trigger] columns()[j]) < header.len(),
        decreases 12 - k,
    {
        if find_column(header, names[k]).is_none() {
            assert(columns()[k as int] == names@[k as int]@);
            return false;
        }
        assert(columns()[k as int] == names@[k as int]@);
        k += 1;
    }
    true
}

/// The header of a source whose rows are `rows`, unless the source as a
/// whole cannot be used.
pub fn header_of(rows: &Vec<SourceRow>) -> (r: Result<&Vec<String>, Error>)
    ensures
        match r {
            Ok(header) => source_failure(rows.deep_view()) is None && rows.len() > 0
                && rows.deep_view()[0] == Ok::<Seq<Seq<char>>, Seq<char>>(header.deep_view()),
            Err(e) => source_failure(rows.deep_view()) == Some(e@),
        },
{
    if rows.len() == 0 {
        return Err(Error::Source(String::from_str(NO_HEADER)));
    }
    assert(rows.deep_view()[0] == rows@[0].deep_view());
    match &rows[0] {
        SourceRow::Broken(complaint) => Err(Error::Source(complaint.clone())),
        SourceRow::Fields(header) => {
            if check_header(header) {
                Ok(header)
            } else {
                Err(Error::Source(String::from_str(WRONG_HEADER)))
            }
        },
    }
}

/// What becomes of the record `row` under `header`.
pub fn decode_record(header: &Vec<String>, row: &SourceRow) -> (o: Result<PerfRow, Error>)
    ensures
        outcome_view(o) == outcome(header.deep_view(), row.deep_view()),
{
    match row {
        SourceRow::Fields(fields) => normalize(header, fields),
        SourceRow::Broken(complaint) => Err(Error::MalformedRecord(complaint.clone())),
    }
}

/// What becomes of each record of a source whose rows are `rows`, unless the
/// source as a whole cannot be used.
pub fn decode_rows(rows: &Vec<SourceRow>) -> (r: Result<Vec<Result<PerfRow, Error>>, Error>)
    ensures
        match r {
            Ok(os) => source_failure(rows.deep_view()) is None && outcomes_view(os@) == outcomes(
                rows.deep_view(),
            ),
            Err(e) => source_failure(rows.deep_view()) == Some(e@),
        },
{
    let header = match header_of(rows) {
        Ok(header) => header,
        Err(e) => {
            return Err(e);
        },
    };
    let ghost all = rows.deep_view();
    let mut os: Vec<Result<PerfRow, Error>> = Vec::new();
    let mut i: usize = 1;
    while i < rows.len()
        invariant
            1 <= i <= rows.len(),
            all == rows.deep_view(),
            os.len() == i - 1,
            forall|j: int|
                0 <= j < i - 1 ==> outcome_view(#[trigger] os@[j]) == outcome(
                    header.deep_view(),
                    all[j + 1],
                ),
        decreases rows.len() - i,
    {
        assert(all[i as int] == rows@[i as int].deep_view());
        os.push(decode_record(header, &rows[i]));
        i += 1;
    }
    assert(outcomes_view(os@) =~= outcomes(all));
    Ok(os)
}

/// What becomes of each record of the CSV source `data`: see `decode_rows`.
pub fn decode_csv(data: &[u8]) -> (r: Result<Vec<Result<PerfRow, Error>>, Error>)
    ensures
        match r {
            Ok(os) => source_failure(csv_rows(data@)) is None && outcomes_view(os@) == outcomes(
                csv_rows(data@),
            ),
            Err(e) => source_failure(csv_rows(data@)) == Some(e@),
        },
{
    let rows = read_rows(data);
    decode_rows(&rows)
}

/// Takes the records of a source whose rows are `rows` into the store.
///
/// A source without a usable header fails as a whole and leaves the store as
/// it was. Otherwise every record that reads is put at the end of the store,
/// in the order of the source, and every other is listed in the report with
/// its number and the cause.
pub fn import_rows(service: &mut PerfRunsService, rows: &Vec<SourceRow>) -> (r: Result<
    ImportReport,
    Error,
>)
    ensures
        match r {
            Ok(report) => {
                &&& source_failure(rows.deep_view()) is None
                &&& final(service)@ == old(service)@ + accepted(outcomes(rows.deep_view()))
                &&& report.inserted == accepted(outcomes(rows.deep_view())).len()
                &&& report.failures.deep_view() == rejected(outcomes(rows.deep_view()))
                &&& report.inserted + report.failures.len() == rows.len() - 1
            },
            Err(e) => source_failure(rows.deep_view()) == Some(e@) && final(service)@ == old(
                service,
            )@,
        },
{
    let header = match header_of(rows) {
        Ok(header) => header,
        Err(e) => {
            return Err(e);
        },
    };
    let ghost all = outcomes(rows.deep_view());
    let ghost before = service@;
    let mut report = ImportReport::new();
    let mut i: usize = 1;
    while i < rows.len()
        invariant
            1 <= i <= rows.len(),
            all == outcomes(rows.deep_view()),
            rows.deep_view()[0] == Ok::<Seq<Seq<char>>, Seq<char>>(header.deep_view()),
            service@ == before + accepted(all.take(i - 1)),
            report.inserted == accepted(all.take(i - 1)).len(),
            report.failures.deep_view() == rejected(all.take(i - 1)),
            report.inserted <= i - 1,
        decreases rows.len() - i,
    {
        proof {
            assert(all.take(i as int).drop_last() =~= all.take(i - 1));
            assert(all.take(i as int).last() == all[i - 1]);
            assert(rows.deep_view()[i as int] == rows@[i as int].deep_view());
        }
        match decode_record(header, &rows[i]) {
            Ok(row) => {
                let taken = service.import(row);
                assert(service@ =~= before + accepted(all.take(i as int)));
                report.record(i, taken);
            },
            Err(e) => {
                report.record(i, Err(e));
            },
        }
        i += 1;
    }
    proof {
        assert(all.take(rows.len() - 1) =~= all);
        lemma_every_record_counted(all);
        assert(report.failures.deep_view().len() == report.failures.len());
    }
    Ok(report)
}

/// Takes the records of the CSV source `data` into the store: see
/// `import_rows`.
pub fn import_csv(service: &mut PerfRunsService, data: &[u8]) -> (r: Result<ImportReport, Error>)
    ensures
        match r {
            Ok(report) => {
                &&& source_failure(csv_rows(data@)) is None
                &&& final(service)@ == old(service)@ + accepted(outcomes(csv_rows(data@)))
                &&& report.inserted == accepted(outcomes(csv_rows(data@))).len()
                &&& report.failures.deep_view() == rejected(outcomes(csv_rows(data@)))
                &&& report.inserted + report.failures.len() == csv_rows(data@).len() - 1
            },
            Err(e) => source_failure(csv_rows(data@)) == Some(e@) && final(service)@ == old(
                service,
            )@,
        },
{
    let rows = read_rows(data);
    import_rows(service, &rows)
}

} // verus!
