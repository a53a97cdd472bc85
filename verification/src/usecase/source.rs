//! The rows of a CSV source.

use vstd::prelude::*;

verus! {

/// One row of a source as the reader handed it out.
#[derive(Debug, PartialEq, Eq)]
pub enum SourceRow {
    /// The fields of a row that was read.
    Fields(Vec<String>),
    /// The reader's complaint about a row that it could not hand out.
    Broken(String),
}

impl DeepView for SourceRow {
    type V = Result<Seq<Seq<char>>, Seq<char>>;

    open spec fn deep_view(&self) -> Result<Seq<Seq<char>>, Seq<char>> {
        match self {
            SourceRow::Fields(fields) => Ok(fields.deep_view()),
            SourceRow::Broken(complaint) => Err(complaint@),
        }
    }
}

/// The rows that the `csv` crate's reader finds in `data` when it is told
/// that the data has no header row, so that the header comes out as the first
/// row: for each row in turn its fields, or the reader's complaint about it.
pub uninterp spec fn csv_rows(data: Seq<u8>) -> Seq<Result<Seq<Seq<char>>, Seq<char>>>;

/// Reads `data` with a reader built by `csv::ReaderBuilder` with
/// `has_headers(false)` and otherwise as the crate sets it up, and collects
/// what `Reader::records` yields. Nothing is claimed of the rows but that
/// they are a function of the bytes, named `csv_rows`.
#[verifier::external_body]
pub(crate) fn read_rows(data: &[u8]) -> (rows: Vec<SourceRow>)
    ensures
        rows.deep_view() == csv_rows(data@),
{
    let mut reader = csv::ReaderBuilder::new().has_headers(false).from_reader(data);
    reader.records().map(|r| match r {
        Ok(record) => SourceRow::Fields(record.iter().map(String::from).collect()),
        Err(e) => SourceRow::Broken(e.to_string()),
    }).collect()
}

} // verus!
