//! The end of the pipeline: encoding the table as delimited text, and the
//! whole run from document text to output bytes.

use vstd::prelude::*;
use crate::events::{parse_events, xml_events_of};
use crate::machine::{process_events, run_model};
use crate::table::{csv_records, table_of};

verus! {

/// What `csv::Writer` produces for a record list, with delimiter `;` and
/// standard quoting. The encoding depends on the records alone.
pub uninterp spec fn csv_encoding(records: Seq<Seq<Seq<char>>>) -> Seq<u8>;

/// The error surfaced when the document cannot be parsed; the message is
/// the reader's own wording.
#[derive(Debug)]
pub struct ParseError {
    pub message: String,
}

/// Relies on `csv::WriterBuilder` and `csv::Writer::write_record`: each
/// record is written in order, delimited by `;`. The sink is an in-memory
/// buffer, whose writes cannot fail, and the writer is flexible, so no
/// record is refused.
#[verifier::external_body]
pub(crate) fn encode_records(records: &Vec<Vec<String>>) -> (out: Vec<u8>)
    ensures
        out@ == csv_encoding(records.deep_view()),
{
    let mut w = csv::WriterBuilder::new().delimiter(b';').flexible(true).from_writer(Vec::new());
    for record in records {
        w.write_record(record).unwrap();
    }
    w.into_inner().unwrap()
}

/// The whole run on one document text: parse it to events, traverse them,
/// and encode the header and the rows. A document the reader rejects comes
/// back as a `ParseError`.
pub fn process_feed(text: &str) -> (r: Result<Vec<u8>, ParseError>)
    ensures
        xml_events_of(text@) is Some ==> r is Ok && r->Ok_0@ == csv_encoding(
            table_of(run_model(xml_events_of(text@)->0).offers),
        ),
        xml_events_of(text@) is None ==> r is Err,
{
    match parse_events(text) {
        Ok(events) => {
            let offers = process_events(&events);
            let records = csv_records(&offers);
            Ok(encode_records(&records))
        },
        Err(message) => Err(ParseError { message }),
    }
}

} // verus!
