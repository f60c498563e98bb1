//! The Zhengzhou exchange (CZCE): its download addresses and its pipe-delimited
//! yearly export.
use crate::date::{date_of_text, parse_date_text, Date};
use crate::numeric::{
    decimal_of_text, i32_of_text, parse_decimal, parse_i32, parse_u32, parse_whole_u32,
    u32_of_text, whole_u32_of_text, Decimal,
};
use crate::text::{
    body_after_lines, push_decimal, push_str, decimal_chars, skip_lines, string_of,
    strip_separators, trim, without_separators,
};
use crate::util::clickhouse::{
    clear_year, deduplicated, has_key, insert_with_count_reported, is_zero_dsp, keys_distinct,
    lemma_cleared_keys, lemma_dedup_distinct, lemma_dedup_keys_distinct, lemma_dedup_keys, lemma_dedup_known_keys,
    load_steps, row_key, run_steps, Command, StoredRow,
};
use crate::util::Encoding;
use vstd::prelude::*;

verus! {

/// One CZCE trading record: a contract on a trading day.
#[derive(Debug)]
pub struct Data {
    /// trading day
    pub date: Date,
    /// contract code
    pub code: String,
    /// previous settlement
    pub prev: Decimal,
    pub open: Decimal,
    pub high: Decimal,
    pub low: Decimal,
    pub close: Decimal,
    /// settlement
    pub settle: Decimal,
    /// change against the previous close
    pub zd1: Decimal,
    /// change against the previous settlement
    pub zd2: Decimal,
    /// volume
    pub vol: u32,
    /// open interest
    pub position: u32,
    /// change of open interest
    pub pos_delta: i32,
    /// turnover, in ten thousands
    pub amount: Decimal,
    /// delivery settlement price; absent where the cell is empty
    pub dsp: Option<Decimal>,
}

/// A `Data` with the contract code as characters.
pub struct DataView {
    pub date: Date,
    pub code: Seq<char>,
    pub prev: Decimal,
    pub open: Decimal,
    pub high: Decimal,
    pub low: Decimal,
    pub close: Decimal,
    pub settle: Decimal,
    pub zd1: Decimal,
    pub zd2: Decimal,
    pub vol: u32,
    pub position: u32,
    pub pos_delta: i32,
    pub amount: Decimal,
    pub dsp: Option<Decimal>,
}

impl View for Data {
    type V = DataView;

    open spec fn view(&self) -> DataView {
        DataView {
            date: self.date,
            code: self.code@,
            prev: self.prev,
            open: self.open,
            high: self.high,
            low: self.low,
            close: self.close,
            settle: self.settle,
            zd1: self.zd1,
            zd2: self.zd2,
            vol: self.vol,
            position: self.position,
            pos_delta: self.pos_delta,
            amount: self.amount,
            dsp: self.dsp,
        }
    }
}

/// The number of leading fields a record must have; later ones are ignored.
pub const FIELD_COUNT: usize = 15;

/// The delivery settlement price cell: empty means absent.
pub open spec fn optional_decimal_of_text(s: Seq<char>) -> Option<Option<Decimal>> {
    if s.len() == 0 {
        Some(None)
    } else {
        match decimal_of_text(s) {
            Some(d) => Some(Some(d)),
            None => None,
        }
    }
}

/// The row that a record's fields give, in the export's column order: date,
/// code, previous settlement, open, high, low, close, settlement, the two
/// changes, volume, open interest (its whole units), open-interest change,
/// turnover and delivery settlement price. `None` where a field does not read.
pub open spec fn row_of_fields(f: Seq<Seq<char>>) -> Option<DataView> {
    if f.len() >= FIELD_COUNT && date_of_text(f[0], true) is Some && decimal_of_text(f[2]) is Some
        && decimal_of_text(f[3]) is Some && decimal_of_text(f[4]) is Some && decimal_of_text(f[5]) is Some
        && decimal_of_text(f[6]) is Some && decimal_of_text(f[7]) is Some && decimal_of_text(f[8]) is Some
        && decimal_of_text(f[9]) is Some && u32_of_text(f[10]) is Some && whole_u32_of_text(f[11]) is Some
        && i32_of_text(f[12]) is Some && decimal_of_text(f[13]) is Some && optional_decimal_of_text(f[14]) is Some {
        Some(
            DataView {
                date: date_of_text(f[0], true).unwrap(),
                code: f[1],
                prev: decimal_of_text(f[2]).unwrap(),
                open: decimal_of_text(f[3]).unwrap(),
                high: decimal_of_text(f[4]).unwrap(),
                low: decimal_of_text(f[5]).unwrap(),
                close: decimal_of_text(f[6]).unwrap(),
                settle: decimal_of_text(f[7]).unwrap(),
                zd1: decimal_of_text(f[8]).unwrap(),
                zd2: decimal_of_text(f[9]).unwrap(),
                vol: u32_of_text(f[10]).unwrap(),
                position: whole_u32_of_text(f[11]).unwrap(),
                pos_delta: i32_of_text(f[12]).unwrap(),
                amount: decimal_of_text(f[13]).unwrap(),
                dsp: optional_decimal_of_text(f[14]).unwrap(),
            },
        )
    } else {
        None
    }
}

fn parse_optional_decimal(s: &str) -> (r: Option<Option<Decimal>>)
    ensures
        r == optional_decimal_of_text(s@),
{
    if s.is_empty() {
        Some(None)
    } else {
        match parse_decimal(s) {
            Some(d) => Some(Some(d)),
            None => None,
        }
    }
}

/// Decodes one record of the export into a row.
pub fn decode_record(f: &Vec<String>) -> (r: Option<Data>)
    ensures
        match r {
            Some(d) => row_of_fields(f.deep_view()) == Some(d@),
            None => row_of_fields(f.deep_view()) is None,
        },
{
    let ghost fv = f.deep_view();
    if f.len() < FIELD_COUNT {
        return None;
    }
    assert(forall|i: int| 0 <= i < f.len() ==> fv[i] == #[trigger] f@[i]@);
    let date = match parse_date_text(f[0].as_str(), true) {
        Some(x) => x,
        None => return None,
    };
    let prev = match parse_decimal(f[2].as_str()) {
        Some(x) => x,
        None => return None,
    };
    let open = match parse_decimal(f[3].as_str()) {
        Some(x) => x,
        None => return None,
    };
    let high = match parse_decimal(f[4].as_str()) {
        Some(x) => x,
        None => return None,
    };
    let low = match parse_decimal(f[5].as_str()) {
        Some(x) => x,
        None => return None,
    };
    let close = match parse_decimal(f[6].as_str()) {
        Some(x) => x,
        None => return None,
    };
    let settle = match parse_decimal(f[7].as_str()) {
        Some(x) => x,
        None => return None,
    };
    let zd1 = match parse_decimal(f[8].as_str()) {
        Some(x) => x,
        None => return None,
    };
    let zd2 = match parse_decimal(f[9].as_str()) {
        Some(x) => x,
        None => return None,
    };
    let vol = match parse_u32(f[10].as_str()) {
        Some(x) => x,
        None => return None,
    };
    let position = match parse_whole_u32(f[11].as_str()) {
        Some(x) => x,
        None => return None,
    };
    let pos_delta = match parse_i32(f[12].as_str()) {
        Some(x) => x,
        None => return None,
    };
    let amount = match parse_decimal(f[13].as_str()) {
        Some(x) => x,
        None => return None,
    };
    let dsp = match parse_optional_decimal(f[14].as_str()) {
        Some(x) => x,
        None => return None,
    };
    let code = f[1].clone();
    Some(
        Data {
            date,
            code,
            prev,
            open,
            high,
            low,
            close,
            settle,
            zd1,
            zd2,
            vol,
            position,
            pos_delta,
            amount,
            dsp,
        },
    )
}

/// The rows that the well-formed records give, in order.
pub open spec fn rows_of_records(recs: Seq<Option<Seq<Seq<char>>>>) -> Seq<DataView>
    decreases recs.len(),
{
    if recs.len() == 0 {
        Seq::empty()
    } else {
        let before = rows_of_records(recs.drop_last());
        match recs.last() {
            Some(f) => match row_of_fields(f) {
                Some(d) => before.push(d),
                None => before,
            },
            None => before,
        }
    }
}

/// A record that the reader could not split, or whose fields do not read.
pub open spec fn is_malformed(rec: Option<Seq<Seq<char>>>) -> bool {
    match rec {
        Some(f) => row_of_fields(f) is None,
        None => true,
    }
}

/// How many records are dropped as malformed.
pub open spec fn malformed_count(recs: Seq<Option<Seq<Seq<char>>>>) -> nat
    decreases recs.len(),
{
    if recs.len() == 0 {
        0
    } else {
        malformed_count(recs.drop_last()) + if is_malformed(recs.last()) {
            1nat
        } else {
            0nat
        }
    }
}

/// Every record either gives a row or is counted as malformed: the rows number
/// the records less the malformed ones.
pub proof fn lemma_rows_plus_malformed(recs: Seq<Option<Seq<Seq<char>>>>)
    ensures
        rows_of_records(recs).len() + malformed_count(recs) == recs.len(),
    decreases recs.len(),
{
    if recs.len() > 0 {
        lemma_rows_plus_malformed(recs.drop_last());
    }
}

/// The rows decoded from a sequence of records, and how many were dropped.
pub struct Parsed {
    pub rows: Vec<Data>,
    pub malformed: usize,
}

/// Decodes every record, keeping the rows of those that read and counting
/// the others.
pub fn decode_records(recs: &Vec<Option<Vec<String>>>) -> (r: Parsed)
    ensures
        r.rows@.map_values(|d: Data| d@) == rows_of_records(recs.deep_view()),
        r.malformed == malformed_count(recs.deep_view()),
        r.rows.len() + r.malformed == recs.len(),
{
    let ghost all = recs.deep_view();
    let mut rows: Vec<Data> = Vec::new();
    let mut malformed: usize = 0;
    let mut i: usize = 0;
    assert(all.subrange(0, 0) =~= Seq::<Option<Seq<Seq<char>>>>::empty());
    while i < recs.len()
        invariant
            i <= recs.len(),
            all == recs.deep_view(),
            rows@.map_values(|d: Data| d@) == rows_of_records(all.subrange(0, i as int)),
            malformed == malformed_count(all.subrange(0, i as int)),
            rows.len() + malformed == i,
        decreases recs.len() - i,
    {
        let ghost pre = all.subrange(0, i as int);
        let ghost next = all.subrange(0, i + 1);
        assert(next.drop_last() =~= pre);
        assert(next.last() == all[i as int]);
        match &recs[i] {
            Some(f) => {
                assert(all[i as int] == Some(f.deep_view()));
                match decode_record(f) {
                    Some(d) => {
                        let ghost old_rows = rows@;
                        rows.push(d);
                        assert(rows@.map_values(|d: Data| d@) =~= old_rows.map_values(|d: Data| d@).push(d@));
                    },
                    None => {
                        malformed = malformed + 1;
                    },
                }
            },
            None => {
                malformed = malformed + 1;
            },
        }
        i = i + 1;
    }
    assert(all.subrange(0, recs.len() as int) =~= all);
    Parsed { rows, malformed }
}

/// The records that the `csv` reader gives for `text` with this delimiter,
/// after the header record: each its fields, or `None` where it failed.
pub uninterp spec fn delimited_records_of(text: Seq<char>, delimiter: u8) -> Seq<Option<Seq<Seq<char>>>>;

/// Relies on `csv::Reader::records` of a reader built with this delimiter and
/// the default header record: one item per record after the header, its
/// fields, or an error (for instance a field count that differs from the
/// header's). The result depends on the text and the delimiter alone.
#[verifier::external_body]
fn delimited_records(text: &str, delimiter: u8) -> (r: Vec<Option<Vec<String>>>)
    ensures
        r.deep_view() == delimited_records_of(text@, delimiter),
{
    let mut reader = csv::ReaderBuilder::new().delimiter(delimiter).from_reader(text.as_bytes());
    reader.records().map(|rec| rec.ok().map(|f| f.iter().map(String::from).collect())).collect()
}

/// The cells of the export are separated by '|'.
pub const DELIMITER: u8 = 0x7c;

/// Reads the rows of a cleansed export (what `parse_txt` returns): the first
/// line names the columns, each later line is a record.
pub fn parse_rows(cleansed: &str) -> (r: Parsed)
    ensures
        r.rows@.map_values(|d: Data| d@) == rows_of_records(delimited_records_of(cleansed@, DELIMITER)),
        r.malformed == malformed_count(delimited_records_of(cleansed@, DELIMITER)),
{
    let recs = delimited_records(cleansed, DELIMITER);
    decode_records(&recs)
}

/// The export's text without its two title lines, trimmed, with the thousands
/// separators and the spaces inside cells deleted.
pub open spec fn cleansed_text(raw: Seq<char>) -> Seq<char> {
    without_separators(trim(skip_lines(raw, 2)))
}

/// Cleanses a yearly export: drops its two title lines, trims it and deletes
/// every ',' and ' '. The result is what the store loads.
pub fn parse_txt(raw: &str) -> (r: String)
    ensures
        r@ == cleansed_text(raw@),
{
    let body = body_after_lines(raw, 2);
    strip_separators(body.as_str())
}

/// Why a year has no download address.
#[derive(Clone, Copy, Debug, PartialEq, Eq)]
pub enum UrlError {
    /// The exchange publishes the years from 2010 to the current one.
    YearOutOfRange { year: u16, this_year: u16 },
}

/// The address of a year's archive: one per year up to 2014, then a
/// shared layout for 2015 to 2019, and the full-year export from 2020 on.
pub open spec fn url_of_year(year: u16) -> Seq<char> {
    let y = decimal_chars(year as nat);
    if year <= 2014 {
        "http://www.czce.com.cn/cn/exchange/datahistory"@ + y + ".zip"@
    } else if year <= 2019 {
        "http://www.czce.com.cn/cn/DFSStaticFiles/Future/"@ + y + "/FutureDataHistory.zip"@
    } else {
        "http://www.czce.com.cn/cn/DFSStaticFiles/Future/"@ + y + "/ALLFUTURES"@ + y + ".zip"@
    }
}

/// The address of the archive of `year`, which must lie between 2010 and
/// `this_year`.
pub fn get_url(year: u16, this_year: u16) -> (r: Result<String, UrlError>)
    ensures
        match r {
            Ok(u) => 2010 <= year && (year <= 2019 || year <= this_year) && u@ == url_of_year(year),
            Err(e) => !(2010 <= year && (year <= 2019 || year <= this_year)) && e == (UrlError::YearOutOfRange { year, this_year }),
        },
{
    if year < 2010 || (year > 2019 && year > this_year) {
        return Err(UrlError::YearOutOfRange { year, this_year });
    }
    let mut out: Vec<char> = Vec::new();
    if year <= 2014 {
        push_str(&mut out, "http://www.czce.com.cn/cn/exchange/datahistory");
        push_decimal(&mut out, year as u64);
        push_str(&mut out, ".zip");
    } else if year <= 2019 {
        push_str(&mut out, "http://www.czce.com.cn/cn/DFSStaticFiles/Future/");
        push_decimal(&mut out, year as u64);
        push_str(&mut out, "/FutureDataHistory.zip");
    } else {
        push_str(&mut out, "http://www.czce.com.cn/cn/DFSStaticFiles/Future/");
        push_decimal(&mut out, year as u64);
        push_str(&mut out, "/ALLFUTURES");
        push_decimal(&mut out, year as u64);
        push_str(&mut out, ".zip");
    }
    Ok(string_of(out.as_slice()))
}

/// The store steps that load a year of the export: count, insert,
/// deduplicate by (date, code), count again; and where the year came in GBK,
/// whose files write "no price" as 0, clear that year's zero delivery
/// settlement prices.
pub open spec fn czce_steps(year: u16, encoding: Encoding) -> Seq<Command> {
    if encoding == Encoding::GBK {
        load_steps().push(Command::ClearZeroDsp { year })
    } else {
        load_steps()
    }
}

/// The store steps that load the payload of `year`, read in `encoding`.
pub fn run(year: u16, encoding: Encoding) -> (r: Vec<Command>)
    ensures
        r@ == czce_steps(year, encoding),
{
    let mut steps = insert_with_count_reported();
    if encoding == Encoding::GBK {
        steps.push(Command::ClearZeroDsp { year });
    }
    steps
}

/// Loading the same payload of a year a second time leaves as many rows in
/// the store as the first load did.
pub proof fn lemma_reload_keeps_count(
    store: Seq<StoredRow>,
    payload: Seq<StoredRow>,
    year: u16,
    encoding: Encoding,
)
    ensures
        run_steps(run_steps(store, czce_steps(year, encoding), payload), czce_steps(year, encoding), payload).len()
            == run_steps(store, czce_steps(year, encoding), payload).len(),
{
    reveal_with_fuel(run_steps, 6);
    let steps = czce_steps(year, encoding);
    let d = deduplicated(store + payload);
    lemma_dedup_keys_distinct(store + payload);
    assert forall|i: int| 0 <= i < payload.len() implies has_key(d, row_key(#[trigger] payload[i])) by {
        let s = store + payload;
        assert(s[store.len() + i] == payload[i]);
        assert(has_key(s, row_key(payload[i])));
        lemma_dedup_keys(s, row_key(payload[i]));
    }
    lemma_cleared_keys(d, year);
    let once = if encoding == Encoding::GBK {
        clear_year(d, year)
    } else {
        d
    };
    assert(keys_distinct(once));
    assert forall|i: int| 0 <= i < payload.len() implies has_key(once, row_key(#[trigger] payload[i])) by {
        assert(has_key(d, row_key(payload[i])));
    }
    lemma_dedup_known_keys(once, payload);
    lemma_dedup_distinct(once);
    lemma_cleared_keys(once, year);
    if encoding == Encoding::GBK {
        assert(steps =~= seq![Command::Count, Command::Insert, Command::Deduplicate, Command::Count, Command::ClearZeroDsp { year }]);
    } else {
        assert(steps =~= seq![Command::Count, Command::Insert, Command::Deduplicate, Command::Count]);
    }
    assert(run_steps(store, steps, payload) == once);
}

/// After loading a year whose export came in GBK, no row of that year holds a
/// zero delivery settlement price: each such price became a null.
pub proof fn lemma_gbk_zero_dsp_cleared(store: Seq<StoredRow>, payload: Seq<StoredRow>, year: u16)
    ensures
        forall|i: int|
            0 <= i < run_steps(store, czce_steps(year, Encoding::GBK), payload).len()
                && (#[trigger] run_steps(store, czce_steps(year, Encoding::GBK), payload)[i]).date.year
                == year as i32 ==> !is_zero_dsp(run_steps(store, czce_steps(year, Encoding::GBK), payload)[i].dsp),
{
    let steps = czce_steps(year, Encoding::GBK);
    assert(steps.last() == Command::ClearZeroDsp { year });
    assert(steps.len() > 0);
}

/// The cache file of an export file of the archive.
pub fn cache_name(file: &str) -> (r: String)
    ensures
        r@ == "czce-"@ + file@,
{
    let mut out: Vec<char> = Vec::new();
    push_str(&mut out, "czce-");
    push_str(&mut out, file);
    string_of(out.as_slice())
}

} // verus!
