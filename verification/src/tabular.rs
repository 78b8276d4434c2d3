//! Streaming tabular (CSV) candle ingestion: the outside reader splits the
//! bytes into records of trimmed cells; everything after that — header
//! aliasing, decimal parsing, validation, quantization — is this crate's
//! verified logic. A record the reader cannot produce is surfaced as a
//! per-record error; the stream continues past it.

use vstd::prelude::*;

use crate::candle::Candle;
use crate::parse::{spec_header_map, spec_record_to_candle, HeaderMap, ParseError};

verus! {

/// What the CSV reader makes of a byte stream: one entry per record, in
/// order; a record it cannot produce is `None`, any other is its cells as
/// character sequences, trimmed of leading and trailing whitespace.
pub uninterp spec fn csv_rows_of(data: Seq<u8>) -> Seq<Option<Seq<Seq<char>>>>;

/// Relies on csv::Reader (headers untouched, flexible width, trimmed
/// cells): splits a byte stream into records of trimmed cells, one
/// per-record error for each record it cannot read.
#[verifier::external_body]
fn csv_rows(data: &[u8]) -> (r: Vec<Option<Vec<Vec<char>>>>)
    ensures
        r.deep_view() == csv_rows_of(data@),
{
    let mut rd = csv::ReaderBuilder::new().has_headers(false).flexible(true).trim(
        csv::Trim::All,
    ).from_reader(data);
    let mut out = Vec::new();
    let mut rec = csv::StringRecord::new();
    loop {
        match rd.read_record(&mut rec) {
            Ok(true) => out.push(Some(rec.iter().map(|f| f.chars().collect()).collect())),
            Ok(false) => return out,
            Err(_) => out.push(None),
        }
    }
}

/// The outcome of one data record: its candle, or why it was rejected. A
/// rejected record does not stop the stream.
pub open spec fn spec_row_result(
    hm: HeaderMap,
    row: Option<Seq<Seq<char>>>,
    ncols: int,
    tsm: int,
) -> Result<Candle, ParseError> {
    match row {
        None => Err(ParseError::BadRecord),
        Some(cells) => if cells.len() != ncols {
            Err(ParseError::WrongColumnCount)
        } else {
            spec_record_to_candle(hm, cells, tsm)
        },
    }
}

/// The outcome of a whole table: the first record is the header; each
/// later record yields a candle or a per-record error. An unreadable or
/// unmappable header fails the whole table.
pub open spec fn spec_candles_from_rows(
    rows: Seq<Option<Seq<Seq<char>>>>,
    tsm: int,
) -> Result<Seq<Result<Candle, ParseError>>, ParseError> {
    if rows.len() == 0 {
        Err(ParseError::MissingColumn(crate::parse::FieldKind::Open))
    } else {
        match rows[0] {
            None => Err(ParseError::BadRecord),
            Some(headers) => match spec_header_map(headers) {
                Err(e) => Err(e),
                Ok(hm) => Ok(
                    Seq::new(
                        (rows.len() - 1) as nat,
                        |i: int| spec_row_result(hm, rows[i + 1], headers.len() as int, tsm),
                    ),
                ),
            },
        }
    }
}

/// Map split records to candles: the first record is the header row, each
/// later record becomes a candle or a per-record error, exactly as
/// `spec_candles_from_rows` describes.
pub fn candles_from_rows(rows: &Vec<Option<Vec<Vec<char>>>>, tick_size_micro: i64) -> (r: Result<
    Vec<Result<Candle, ParseError>>,
    ParseError,
>)
    requires
        tick_size_micro >= 1,
    ensures
        ({
            let sp = spec_candles_from_rows(rows.deep_view(), tick_size_micro as int);
            &&& (sp matches Ok(s) ==> r matches Ok(v) && v@ == s)
            &&& (sp matches Err(e) ==> r == Err::<Vec<Result<Candle, ParseError>>, ParseError>(e))
        }),
{
    let ghost dv = rows.deep_view();
    if rows.len() == 0 {
        return Err(ParseError::MissingColumn(crate::parse::FieldKind::Open));
    }
    let headers = match &rows[0] {
        None => {
            proof {
                assert(dv[0] is None);
            }
            return Err(ParseError::BadRecord);
        },
        Some(h) => h,
    };
    proof {
        assert(dv[0] == Some(headers.deep_view()));
    }
    let hm = match HeaderMap::from_headers(headers) {
        Ok(hm) => hm,
        Err(e) => {
            return Err(e);
        },
    };
    let ncols = headers.len();
    let n = rows.len();
    let mut out: Vec<Result<Candle, ParseError>> = Vec::new();
    let ghost sp = spec_candles_from_rows(dv, tick_size_micro as int).unwrap();
    let mut i: usize = 1;
    while i < n
        invariant
            1 <= i <= n,
            n == rows@.len(),
            dv == rows.deep_view(),
            dv.len() == n,
            dv[0] is Some,
            ncols as int == dv[0].unwrap().len(),
            spec_header_map(dv[0].unwrap()) == Ok::<HeaderMap, ParseError>(hm),
            tick_size_micro >= 1,
            sp == spec_candles_from_rows(dv, tick_size_micro as int).unwrap(),
            sp.len() == n - 1,
            out@.len() == i - 1,
            forall|j: int| 0 <= j < i - 1 ==> out@[j] == sp[j],
        decreases n - i,
    {
        proof {
            assert(dv[i as int] == rows@[i as int].deep_view());
            assert(sp[i - 1] == spec_row_result(
                hm,
                dv[i as int],
                ncols as int,
                tick_size_micro as int,
            ));
        }
        let item: Result<Candle, ParseError> = match &rows[i] {
            None => Err(ParseError::BadRecord),
            Some(cells) => {
                if cells.len() != ncols {
                    Err(ParseError::WrongColumnCount)
                } else {
                    crate::parse::record_to_candle(&hm, cells, tick_size_micro)
                }
            },
        };
        out.push(item);
        i += 1;
    }
    proof {
        assert(out@ =~= sp);
    }
    Ok(out)
}

/// Parse a whole CSV byte stream into candles: the reader splits it into
/// trimmed records, the header row is mapped by its column names, and each
/// data record yields a candle or a per-record error that does not stop
/// the stream.
pub fn parse_csv_candles(data: &[u8], tick_size_micro: i64) -> (r: Result<
    Vec<Result<Candle, ParseError>>,
    ParseError,
>)
    requires
        tick_size_micro >= 1,
    ensures
        ({
            let sp = spec_candles_from_rows(csv_rows_of(data@), tick_size_micro as int);
            &&& (sp matches Ok(s) ==> r matches Ok(v) && v@ == s)
            &&& (sp matches Err(e) ==> r == Err::<Vec<Result<Candle, ParseError>>, ParseError>(e))
        }),
{
    let rows = csv_rows(data);
    candles_from_rows(&rows, tick_size_micro)
}

} // verus!
