//! The Dalian exchange (DCE): its yearly spreadsheets and its catalogue of
//! download links.
use crate::date::Date;
use crate::text::{decimal_chars, ends_with, ends_with_text, push_decimal, push_str, string_of};
use vstd::prelude::*;

pub mod links;
pub mod parse;

pub use links::{parse_download_links, DownloadLinks, Key};
use links::index_of_key;

use parse::{
    as_date, as_number, as_str, as_u32, column_of, date_of_cell, header_ok, parse_xslx_header, u32_of_cell,
    Cell, CellError, HeaderError, Number, LEN,
};

verus! {

/// One DCE trading record. The prices are the numbers of the spreadsheet as
/// they stand there; they are narrowed to `f32` where a row is written out.
#[derive(Debug)]
pub struct Data {
    pub code: String,
    pub date: Date,
    pub prev: Number,
    pub open: Number,
    pub high: Number,
    pub low: Number,
    pub close: Number,
    pub settle: Number,
    pub zd1: Number,
    pub zd2: Number,
    pub vol: u32,
    pub amount: u32,
    pub position: u32,
}

/// Why a row does not give a record.
#[derive(Clone, Copy, Debug, PartialEq, Eq, Structural)]
pub enum RowError {
    /// The column table does not have one column per field.
    BadColumns,
    /// The row has no cell in the column of this field.
    MissingCell { field: usize },
    /// The cell of this field does not give its value.
    BadCell { field: usize, error: CellError },
}

/// The cell of field `i`, where the row reaches its column.
pub open spec fn cell_of(row: Seq<Cell>, pos: Seq<usize>, i: int) -> Option<Cell> {
    if pos[i] < row.len() {
        Some(row[pos[i] as int])
    } else {
        None
    }
}

/// What is wrong with the value of field `i`, if anything: the contract is
/// text, the date a date, the prices numbers, the rest `u32`s.
pub open spec fn field_error(row: Seq<Cell>, pos: Seq<usize>, i: int) -> Option<RowError> {
    match cell_of(row, pos, i) {
        None => Some(RowError::MissingCell { field: i as usize }),
        Some(c) => {
            let res: Result<(), CellError> = if i == 0 {
                if c is Text {
                    Ok(())
                } else {
                    Err(CellError::WrongKind)
                }
            } else if i == 1 {
                match date_of_cell(c) {
                    Ok(_) => Ok(()),
                    Err(e) => Err(e),
                }
            } else if i < 10 {
                if c is Float || c is Int {
                    Ok(())
                } else {
                    Err(CellError::WrongKind)
                }
            } else {
                match u32_of_cell(c) {
                    Ok(_) => Ok(()),
                    Err(e) => Err(e),
                }
            };
            match res {
                Ok(()) => None,
                Err(e) => Some(RowError::BadCell { field: i as usize, error: e }),
            }
        },
    }
}

/// The first field from `i` on whose value is wrong.
pub open spec fn first_error(row: Seq<Cell>, pos: Seq<usize>, i: int) -> Option<RowError>
    decreases LEN - i,
{
    if i >= LEN {
        None
    } else {
        match field_error(row, pos, i) {
            Some(e) => Some(e),
            None => first_error(row, pos, i + 1),
        }
    }
}

pub open spec fn number_of(c: Option<Cell>) -> Number {
    match c {
        Some(Cell::Float(b)) => Number::Float(b),
        Some(Cell::Int(i)) => Number::Int(i),
        _ => Number::Int(0),
    }
}

pub open spec fn u32_value(c: Option<Cell>) -> u32 {
    match c {
        Some(c) => match u32_of_cell(c) {
            Ok(u) => u,
            Err(_) => 0,
        },
        None => 0,
    }
}

/// `d` holds the values of the row's cells, field by field.
pub open spec fn row_matches(d: Data, row: Seq<Cell>, pos: Seq<usize>) -> bool {
    &&& cell_of(row, pos, 0) matches Some(Cell::Text(s)) && d.code@ == s@
    &&& Ok::<Date, CellError>(d.date) == date_of_cell(cell_of(row, pos, 1).unwrap())
    &&& d.prev == number_of(cell_of(row, pos, 2))
    &&& d.open == number_of(cell_of(row, pos, 3))
    &&& d.high == number_of(cell_of(row, pos, 4))
    &&& d.low == number_of(cell_of(row, pos, 5))
    &&& d.close == number_of(cell_of(row, pos, 6))
    &&& d.settle == number_of(cell_of(row, pos, 7))
    &&& d.zd1 == number_of(cell_of(row, pos, 8))
    &&& d.zd2 == number_of(cell_of(row, pos, 9))
    &&& d.vol == u32_value(cell_of(row, pos, 10))
    &&& d.amount == u32_value(cell_of(row, pos, 11))
    &&& d.position == u32_value(cell_of(row, pos, 12))
}

fn cell_at<'a>(row: &'a Vec<Cell>, pos: &Vec<usize>, i: usize) -> (r: Result<&'a Cell, RowError>)
    requires
        i < pos.len(),
    ensures
        match cell_of(row@, pos@, i as int) {
            Some(c) => r == Ok::<&Cell, RowError>(&c),
            None => r == Err::<&Cell, RowError>(RowError::MissingCell { field: i }),
        },
{
    if pos[i] < row.len() {
        Ok(&row[pos[i]])
    } else {
        Err(RowError::MissingCell { field: i })
    }
}

fn number_field(row: &Vec<Cell>, pos: &Vec<usize>, i: usize) -> (r: Result<Number, RowError>)
    requires
        2 <= i < 10,
        i < pos.len(),
    ensures
        match field_error(row@, pos@, i as int) {
            Some(e) => r == Err::<Number, RowError>(e),
            None => r == Ok::<Number, RowError>(number_of(cell_of(row@, pos@, i as int))),
        },
{
    let c = cell_at(row, pos, i)?;
    match as_number(c) {
        Ok(b) => Ok(b),
        Err(e) => Err(RowError::BadCell { field: i, error: e }),
    }
}

fn u32_field(row: &Vec<Cell>, pos: &Vec<usize>, i: usize) -> (r: Result<u32, RowError>)
    requires
        10 <= i < LEN,
        i < pos.len(),
    ensures
        match field_error(row@, pos@, i as int) {
            Some(e) => r == Err::<u32, RowError>(e),
            None => r == Ok::<u32, RowError>(u32_value(cell_of(row@, pos@, i as int))),
        },
{
    let c = cell_at(row, pos, i)?;
    match as_u32(c) {
        Ok(u) => Ok(u),
        Err(e) => Err(RowError::BadCell { field: i, error: e }),
    }
}

impl Data {
    /// Reads a row, taking each field from the column that `pos` gives it.
    pub fn new(row: &Vec<Cell>, pos: &Vec<usize>) -> (r: Result<Data, RowError>)
        ensures
            pos.len() != LEN ==> r == Err::<Data, RowError>(RowError::BadColumns),
            pos.len() == LEN ==> match r {
                Ok(d) => first_error(row@, pos@, 0) is None && row_matches(d, row@, pos@),
                Err(e) => first_error(row@, pos@, 0) == Some(e),
            },
    {
        if pos.len() != LEN {
            return Err(RowError::BadColumns);
        }
        proof {
            reveal_with_fuel(first_error, 14);
        }
        let c0 = cell_at(row, pos, 0)?;
        let code = match as_str(c0) {
            Ok(s) => s,
            Err(e) => return Err(RowError::BadCell { field: 0, error: e }),
        };
        let c1 = cell_at(row, pos, 1)?;
        let date = match as_date(c1) {
            Ok(d) => d,
            Err(e) => return Err(RowError::BadCell { field: 1, error: e }),
        };
        let prev = number_field(row, pos, 2)?;
        let open = number_field(row, pos, 3)?;
        let high = number_field(row, pos, 4)?;
        let low = number_field(row, pos, 5)?;
        let close = number_field(row, pos, 6)?;
        let settle = number_field(row, pos, 7)?;
        let zd1 = number_field(row, pos, 8)?;
        let zd2 = number_field(row, pos, 9)?;
        let vol = u32_field(row, pos, 10)?;
        let amount = u32_field(row, pos, 11)?;
        let position = u32_field(row, pos, 12)?;
        Ok(Data { code, date, prev, open, high, low, close, settle, zd1, zd2, vol, amount, position })
    }
}

/// Why a sheet does not give its records.
#[derive(Debug)]
pub enum XlsxError {
    /// The sheet has no row.
    NoHeader,
    /// The header row does not give the columns.
    Header(HeaderError),
}

/// The column of each field that a header row gives (where it gives them all).
pub open spec fn header_columns(header: Seq<Cell>) -> Seq<usize> {
    Seq::new(LEN as nat, |f: int| column_of(header, f).unwrap() as usize)
}

/// What reading the row after the header with index `k` gave: its record, or
/// the first field that did not read.
pub open spec fn row_outcome(o: Result<Data, RowError>, row: Seq<Cell>, cols: Seq<usize>) -> bool {
    match o {
        Ok(d) => first_error(row, cols, 0) is None && row_matches(d, row, cols),
        Err(e) => first_error(row, cols, 0) == Some(e),
    }
}

/// Reads the records of the first sheet of a DCE workbook, given as its rows:
/// the first row is the header, each later row a record. A row that does not
/// read is reported in its place and does not stop the others.
pub fn read_xlsx(rows: &Vec<Vec<Cell>>) -> (r: Result<Vec<Result<Data, RowError>>, XlsxError>)
    ensures
        rows.len() == 0 <==> r matches Err(XlsxError::NoHeader),
        rows.len() > 0 ==> (r is Ok <==> header_ok(rows@[0]@)),
        r matches Err(XlsxError::Header(_)) ==> rows.len() > 0 && !header_ok(rows@[0]@),
        r matches Ok(out) ==> ({
            &&& out.len() == rows.len() - 1
            &&& forall|k: int|
                0 <= k < out.len() ==> row_outcome(
                    #[trigger] out@[k],
                    rows@[k + 1]@,
                    header_columns(rows@[0]@),
                )
        }),
{
    if rows.len() == 0 {
        return Err(XlsxError::NoHeader);
    }
    let pos = match parse_xslx_header(&rows[0]) {
        Ok(pos) => pos,
        Err(e) => return Err(XlsxError::Header(e)),
    };
    assert(pos@ =~= header_columns(rows@[0]@));
    let mut out: Vec<Result<Data, RowError>> = Vec::new();
    let mut i: usize = 1;
    while i < rows.len()
        invariant
            1 <= i <= rows.len(),
            pos@ == header_columns(rows@[0]@),
            pos.len() == LEN,
            out.len() == i - 1,
            forall|k: int| 0 <= k < out.len() ==> row_outcome(#[trigger] out@[k], rows@[k + 1]@, pos@),
        decreases rows.len() - i,
    {
        let o = Data::new(&rows[i], &pos);
        out.push(o);
        i = i + 1;
    }
    Ok(out)
}

/// The site that the catalogue's links are relative to.
pub const URL_PREFIX: &'static str = "http://www.dce.com.cn";

/// No link is known for this year and name.
#[derive(Clone, Copy, Debug, PartialEq, Eq, Structural)]
pub struct LinkNotFound {
    pub year: u16,
}

/// The full address of the spreadsheet of `name` in `year`.
pub fn get_url(links: &DownloadLinks, year: u16, name: &str) -> (r: Result<String, LinkNotFound>)
    ensures
        match index_of_key(links@, (year, name@)) {
            Some(i) => r is Ok && r.unwrap()@ == URL_PREFIX@ + links@[i].1,
            None => r == Err::<String, LinkNotFound>(LinkNotFound { year }),
        },
{
    match links.get(year, name) {
        Some(postfix) => {
            let mut out: Vec<char> = Vec::new();
            push_str(&mut out, URL_PREFIX);
            push_str(&mut out, postfix.as_str());
            Ok(string_of(out.as_slice()))
        },
        None => Err(LinkNotFound { year }),
    }
}

/// What a catalogue link points to.
#[derive(Clone, Copy, Debug, PartialEq, Eq, Structural)]
pub enum LinkKind {
    /// A workbook (links ending in `.csv` point to workbooks too).
    Sheet,
    /// A zip archive.
    Archive,
    Unsupported,
}

pub open spec fn link_kind_of(link: Seq<char>) -> LinkKind {
    if ends_with(link, ".xlsx"@) || ends_with(link, ".csv"@) {
        LinkKind::Sheet
    } else if ends_with(link, ".zip"@) {
        LinkKind::Archive
    } else {
        LinkKind::Unsupported
    }
}

/// What a link points to, by its ending.
pub fn link_kind(link: &str) -> (r: LinkKind)
    ensures
        r == link_kind_of(link@),
{
    if ends_with_text(link, ".xlsx") || ends_with_text(link, ".csv") {
        LinkKind::Sheet
    } else if ends_with_text(link, ".zip") {
        LinkKind::Archive
    } else {
        LinkKind::Unsupported
    }
}

/// The cache file of a year's records of an instrument.
pub fn cache_name(year: u16, name: &str) -> (r: String)
    ensures
        r@ == "dce-"@ + decimal_chars(year as nat) + "-"@ + name@ + ".csv"@,
{
    let mut out: Vec<char> = Vec::new();
    push_str(&mut out, "dce-");
    push_decimal(&mut out, year as u64);
    push_str(&mut out, "-");
    push_str(&mut out, name);
    push_str(&mut out, ".csv");
    string_of(out.as_slice())
}

} // verus!
