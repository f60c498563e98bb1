//! Reading the DCE spreadsheet: its cells, the header that says where each
//! field stands, and the conversions of single cells.
use crate::date::{date_from_packed, date_of_text, parse_date_text, valid_calendar_date, Date};
use crate::text::chars_of;
use vstd::arithmetic::div_mod::{lemma_basic_div, lemma_div_is_ordered, lemma_multiply_divide_lt};
use vstd::arithmetic::power2::{lemma2_to64, lemma2_to64_rest, lemma_pow2_pos, lemma_pow2_strictly_increases, lemma_pow2_unfold, pow2};
use vstd::prelude::*;

verus! {

/// A spreadsheet cell, as far as the rows are read from it. A float is held as
/// the bits of its IEEE 754 double.
#[derive(Debug)]
pub enum Cell {
    Int(i64),
    Float(u64),
    Text(String),
    /// A boolean, a date-time, a duration, an error or an empty cell.
    Other,
}

/// The fields of a row, in the order in which a row holds them.
#[derive(Clone, Copy, Debug, PartialEq, Eq, Structural)]
pub enum Field {
    Contract,
    Date,
    PrevSettle,
    Open,
    High,
    Low,
    Close,
    Settle,
    Change1,
    Change2,
    Volume,
    Turnover,
    OpenInterest,
}

/// How many fields a row has.
pub const LEN: usize = 13;

pub open spec fn field_at(i: int) -> Field {
    if i == 0 {
        Field::Contract
    } else if i == 1 {
        Field::Date
    } else if i == 2 {
        Field::PrevSettle
    } else if i == 3 {
        Field::Open
    } else if i == 4 {
        Field::High
    } else if i == 5 {
        Field::Low
    } else if i == 6 {
        Field::Close
    } else if i == 7 {
        Field::Settle
    } else if i == 8 {
        Field::Change1
    } else if i == 9 {
        Field::Change2
    } else if i == 10 {
        Field::Volume
    } else if i == 11 {
        Field::Turnover
    } else {
        Field::OpenInterest
    }
}

pub fn field_at_index(i: usize) -> (r: Field)
    ensures
        r == field_at(i as int),
{
    if i == 0 {
        Field::Contract
    } else if i == 1 {
        Field::Date
    } else if i == 2 {
        Field::PrevSettle
    } else if i == 3 {
        Field::Open
    } else if i == 4 {
        Field::High
    } else if i == 5 {
        Field::Low
    } else if i == 6 {
        Field::Close
    } else if i == 7 {
        Field::Settle
    } else if i == 8 {
        Field::Change1
    } else if i == 9 {
        Field::Change2
    } else if i == 10 {
        Field::Volume
    } else if i == 11 {
        Field::Turnover
    } else {
        Field::OpenInterest
    }
}

/// The field that a header label names, by its place in `Field`. The turnover
/// column was headed `成交金额` in some years.
pub open spec fn field_of_label(s: Seq<char>) -> Option<int> {
    if s == "合约"@ {
        Some(0)
    } else if s == "日期"@ {
        Some(1)
    } else if s == "前结算价"@ {
        Some(2)
    } else if s == "开盘价"@ {
        Some(3)
    } else if s == "最高价"@ {
        Some(4)
    } else if s == "最低价"@ {
        Some(5)
    } else if s == "收盘价"@ {
        Some(6)
    } else if s == "结算价"@ {
        Some(7)
    } else if s == "涨跌1"@ {
        Some(8)
    } else if s == "涨跌2"@ {
        Some(9)
    } else if s == "成交量"@ {
        Some(10)
    } else if s == "成交额"@ || s == "成交金额"@ {
        Some(11)
    } else if s == "持仓量"@ {
        Some(12)
    } else {
        None
    }
}

/// Whether two texts are the same.
pub fn text_eq(a: &str, b: &str) -> (r: bool)
    ensures
        r == (a@ == b@),
{
    let x = chars_of(a);
    let y = chars_of(b);
    if x.len() != y.len() {
        return false;
    }
    let mut i: usize = 0;
    while i < x.len()
        invariant
            i <= x.len() == y.len(),
            x@ == a@,
            y@ == b@,
            forall|j: int| 0 <= j < i ==> x@[j] == y@[j],
        decreases x.len() - i,
    {
        if x[i] != y[i] {
            assert(x@[i as int] != y@[i as int]);
            return false;
        }
        i = i + 1;
    }
    assert(x@ =~= y@);
    true
}

pub fn field_of_header(s: &str) -> (r: Option<usize>)
    ensures
        match field_of_label(s@) {
            Some(i) => r == Some(i as usize),
            None => r is None,
        },
{
    if text_eq(s, "合约") {
        Some(0)
    } else if text_eq(s, "日期") {
        Some(1)
    } else if text_eq(s, "前结算价") {
        Some(2)
    } else if text_eq(s, "开盘价") {
        Some(3)
    } else if text_eq(s, "最高价") {
        Some(4)
    } else if text_eq(s, "最低价") {
        Some(5)
    } else if text_eq(s, "收盘价") {
        Some(6)
    } else if text_eq(s, "结算价") {
        Some(7)
    } else if text_eq(s, "涨跌1") {
        Some(8)
    } else if text_eq(s, "涨跌2") {
        Some(9)
    } else if text_eq(s, "成交量") {
        Some(10)
    } else if text_eq(s, "成交额") || text_eq(s, "成交金额") {
        Some(11)
    } else if text_eq(s, "持仓量") {
        Some(12)
    } else {
        None
    }
}

pub open spec fn is_text(c: Cell) -> bool {
    c is Text
}

/// The field that a header cell names, if it names one.
pub open spec fn field_of_cell(c: Cell) -> Option<int> {
    match c {
        Cell::Text(s) => field_of_label(s@),
        _ => None,
    }
}

/// `label` is the text of the cell.
pub open spec fn label_of(c: Cell, label: String) -> bool {
    match c {
        Cell::Text(s) => label@ == s@,
        _ => false,
    }
}

/// Every cell of the header holds text, and every field has a column.
pub open spec fn header_ok(header: Seq<Cell>) -> bool {
    &&& forall|i: int| 0 <= i < header.len() ==> is_text(#[trigger] header[i])
    &&& forall|f: int| 0 <= f < LEN ==> #[trigger] column_of(header, f) is Some
}

/// The last column of the header that names field `f`.
pub open spec fn column_of(header: Seq<Cell>, f: int) -> Option<int>
    decreases header.len(),
{
    if header.len() == 0 {
        None
    } else if field_of_cell(header.last()) == Some(f) {
        Some(header.len() - 1)
    } else {
        column_of(header.drop_last(), f)
    }
}

/// The fields, in order, that no column of the header names.
pub open spec fn missing_fields(header: Seq<Cell>) -> Seq<Field> {
    Seq::new(LEN as nat, |f: int| f).filter(|f: int| column_of(header, f) is None).map_values(
        |f: int| field_at(f),
    )
}

/// Why a header row does not give the columns of a row.
#[derive(Debug)]
pub enum HeaderError {
    /// The cell of this column holds no text.
    NotText { column: usize },
    /// Some fields have no column; `labels` is what the header held.
    MissingFields { missing: Vec<Field>, labels: Vec<String> },
}

/// Finds the column of each field in the header row: a column counts for the
/// field that its label names, and where two name the same field the later
/// one counts. Every header cell must hold text, and every field must have a
/// column; the result lists the columns in the order of `Field`.
pub fn parse_xslx_header(header: &Vec<Cell>) -> (r: Result<Vec<usize>, HeaderError>)
    ensures
        match r {
            Ok(pos) => (forall|i: int| 0 <= i < header.len() ==> is_text(#[trigger] header@[i]))
                && pos.len() == LEN && forall|f: int|
                0 <= f < LEN ==> column_of(header@, f) == Some(#[trigger] pos@[f] as int),
            Err(HeaderError::NotText { column }) => column < header.len() && !is_text(
                header@[column as int],
            ) && forall|i: int| 0 <= i < column ==> is_text(#[trigger] header@[i]),
            Err(HeaderError::MissingFields { missing, labels }) => (forall|i: int|
                0 <= i < header.len() ==> is_text(#[trigger] header@[i])) && missing@.len() > 0
                && missing@ == missing_fields(header@) && labels.len() == header.len() && forall|
                i: int,
            |
                0 <= i < header.len() ==> label_of(header@[i], #[trigger] labels@[i]),
        },
        (forall|i: int| 0 <= i < header.len() ==> is_text(#[trigger] header@[i])) && (exists|f: int|
            0 <= f < LEN && #[trigger] column_of(header@, f) is None) ==> r matches Err(
            HeaderError::MissingFields { .. },
        ),
        r is Ok <==> header_ok(header@),
{
    let mut slots: Vec<Option<usize>> = Vec::new();
    let mut k: usize = 0;
    while k < LEN
        invariant
            k <= LEN,
            slots.len() == k,
            forall|f: int| 0 <= f < k ==> #[trigger] slots@[f] is None,
        decreases LEN - k,
    {
        slots.push(None);
        k = k + 1;
    }
    let mut labels: Vec<String> = Vec::new();
    let mut idx: usize = 0;
    assert(header@.subrange(0, 0) =~= Seq::<Cell>::empty());
    while idx < header.len()
        invariant
            idx <= header.len(),
            slots.len() == LEN,
            labels.len() == idx,
            forall|i: int| 0 <= i < idx ==> is_text(#[trigger] header@[i]),
            forall|i: int|
                0 <= i < idx ==> label_of(header@[i], #[trigger] labels@[i]),
            forall|f: int|
                0 <= f < LEN ==> match #[trigger] slots@[f] {
                    Some(c) => column_of(header@.subrange(0, idx as int), f) == Some(c as int),
                    None => column_of(header@.subrange(0, idx as int), f) is None,
                },
        decreases header.len() - idx,
    {
        let ghost pre = header@.subrange(0, idx as int);
        let ghost next = header@.subrange(0, idx + 1);
        assert(next.drop_last() =~= pre);
        match &header[idx] {
            Cell::Text(s) => {
                let found = field_of_header(s.as_str());
                match found {
                    Some(f) => {
                        slots.set(f, Some(idx));
                    },
                    None => {},
                }
                labels.push(s.clone());
                assert forall|g: int| 0 <= g < LEN implies match #[trigger] slots@[g] {
                    Some(c) => column_of(next, g) == Some(c as int),
                    None => column_of(next, g) is None,
                } by {
                    assert(next.last() == header@[idx as int]);
                }
            },
            _ => {
                return Err(HeaderError::NotText { column: idx });
            },
        }
        idx = idx + 1;
    }
    assert(header@.subrange(0, header.len() as int) =~= header@);
    let mut pos: Vec<usize> = Vec::new();
    let mut missing: Vec<Field> = Vec::new();
    let mut f: usize = 0;
    let ghost all = Seq::new(LEN as nat, |f: int| f);
    let ghost pred = |f: int| column_of(header@, f) is None;
    assert(all.subrange(0, 0).filter(pred) =~= Seq::<int>::empty());
    while f < LEN
        invariant
            f <= LEN,
            slots.len() == LEN,
            all == Seq::new(LEN as nat, |f: int| f),
            pred == (|f: int| column_of(header@, f) is None),
            forall|g: int|
                0 <= g < LEN ==> match #[trigger] slots@[g] {
                    Some(c) => column_of(header@, g) == Some(c as int),
                    None => column_of(header@, g) is None,
                },
            missing@ == all.subrange(0, f as int).filter(pred).map_values(|f: int| field_at(f)),
            missing.len() > 0 ==> exists|g: int| 0 <= g < f && #[trigger] column_of(header@, g) is None,
            missing.len() == 0 ==> pos.len() == f && forall|g: int|
                0 <= g < f ==> column_of(header@, g) == Some(#[trigger] pos@[g] as int),
        decreases LEN - f,
    {
        let ghost sub = all.subrange(0, f as int);
        assert(all.subrange(0, f + 1) =~= sub.push(f as int));
        proof {
            sub.lemma_filter_push(f as int, pred);
        }
        match slots[f] {
            Some(c) => {
                pos.push(c);
            },
            None => {
                assert(column_of(header@, f as int) is None);
                missing.push(field_at_index(f));
            },
        }
        f = f + 1;
    }
    assert(all.subrange(0, LEN as int) =~= all);
    if missing.len() > 0 {
        Err(HeaderError::MissingFields { missing, labels })
    } else {
        assert forall|g: int| 0 <= g < LEN implies #[trigger] column_of(header@, g) is Some by {
            assert(column_of(header@, g) == Some(pos@[g] as int));
        }
        Ok(pos)
    }
}

/// The whole part (rounded toward zero) of the finite double with these IEEE
/// 754 bits; `None` for an infinity or a NaN.
pub open spec fn f64_whole_part(bits: u64) -> Option<int> {
    let exp = (bits / 0x10_0000_0000_0000) % 2048;
    let frac = bits % 0x10_0000_0000_0000;
    if exp == 2047 {
        None
    } else {
        // a subnormal has exponent 1 and no implicit leading one
        let mant: int = if exp == 0 { frac as int } else { frac + 0x10_0000_0000_0000 };
        let e: int = if exp == 0 { 1 } else { exp as int };
        let mag: int = if e >= 1075 {
            mant * pow2((e - 1075) as nat)
        } else {
            mant / pow2((1075 - e) as nat) as int
        };
        Some(if bits >= 0x8000_0000_0000_0000 { -mag } else { mag })
    }
}

fn pow2_exec(n: u64) -> (r: u64)
    requires
        n < 64,
    ensures
        r == pow2(n as nat),
{
    let mut r: u64 = 1;
    let mut i: u64 = 0;
    proof {
        lemma2_to64();
        lemma2_to64_rest();
    }
    while i < n
        invariant
            i <= n < 64,
            r == pow2(i as nat),
        decreases n - i,
    {
        proof {
            lemma_pow2_unfold((i + 1) as nat);
            lemma_pow2_strictly_increases((i + 1) as nat, 64);
            lemma2_to64();
        lemma2_to64_rest();
        }
        r = r * 2;
        i = i + 1;
    }
    r
}

/// The whole part of a double, where it lies in the range of `u32`.
fn f64_as_u32(bits: u64) -> (r: Option<u32>)
    ensures
        match f64_whole_part(bits) {
            Some(w) => if 0 <= w <= u32::MAX {
                r == Some(w as u32)
            } else {
                r is None
            },
            None => r is None,
        },
{
    let exp = (bits / 0x10_0000_0000_0000) % 2048;
    let frac = bits % 0x10_0000_0000_0000;
    if exp == 2047 {
        return None;
    }
    let mant: u64 = if exp == 0 { frac } else { frac + 0x10_0000_0000_0000 };
    let e: u64 = if exp == 0 { 1 } else { exp };
    let neg = bits >= 0x8000_0000_0000_0000;
    proof {
        lemma2_to64();
        lemma2_to64_rest();
    }
    if e >= 1075 {
        // at least 2^52
        proof {
            lemma_pow2_pos((e - 1075) as nat);
            assert(mant * pow2((e - 1075) as nat) >= mant) by (nonlinear_arith)
                requires
                    pow2((e - 1075) as nat) >= 1,
                    mant >= 0,
            ;
        }
        return None;
    }
    let s = 1075 - e;
    let ghost mag: int = mant as int / pow2(s as nat) as int;
    proof {
        lemma_pow2_pos(s as nat);
        assert(mant < 0x20_0000_0000_0000);
        assert(e >= 1023 ==> mant >= 0x10_0000_0000_0000);
        assert(pow2(53) == 0x20_0000_0000_0000);
        assert(pow2(52) == 0x10_0000_0000_0000);
        assert(pow2(21) == 0x20_0000);
        assert(pow2(20) == 0x10_0000);
    }
    if e < 1023 {
        // below one: s >= 53 > log2(mant)
        proof {
            if s > 53 {
                lemma_pow2_strictly_increases(53, s as nat);
            }
            lemma_basic_div(mant as int, pow2(s as nat) as int);
        }
        assert(mag == 0);
        return Some(0);
    }
    if neg {
        // at least one in magnitude
        proof {
            if s < 52 {
                lemma_pow2_strictly_increases(s as nat, 52);
            }
            lemma_div_is_ordered(pow2(s as nat) as int, mant as int, pow2(s as nat) as int);
            vstd::arithmetic::div_mod::lemma_div_by_self(pow2(s as nat) as int);
        }
        return None;
    }
    if e >= 1055 {
        // at least 2^32: mant >= 2^52 = 2^32 * 2^20 >= 2^32 * 2^s
        proof {
            if s < 20 {
                lemma_pow2_strictly_increases(s as nat, 20);
            }
            assert(mant as int >= 0x1_0000_0000 * pow2(s as nat)) by (nonlinear_arith)
                requires
                    mant >= 0x10_0000_0000_0000,
                    pow2(s as nat) <= 0x10_0000,
            ;
            lemma_div_is_ordered(0x1_0000_0000 * pow2(s as nat) as int, mant as int, pow2(s as nat) as int);
            vstd::arithmetic::div_mod::lemma_div_multiples_vanish(0x1_0000_0000, pow2(s as nat) as int);
        }
        return None;
    }
    let d = pow2_exec(s);
    // below 2^32: mant < 2^53 = 2^32 * 2^21 <= 2^32 * 2^s
    proof {
        if s > 21 {
            lemma_pow2_strictly_increases(21, s as nat);
        }
        lemma_multiply_divide_lt(mant as int, d as int, 0x1_0000_0000);
    }
    Some((mant / d) as u32)
}

/// Why a cell does not give the value asked of it.
#[derive(Clone, Copy, Debug, PartialEq, Eq, Structural)]
pub enum CellError {
    /// The cell holds another kind of value.
    WrongKind,
    /// A number whose whole part does not fit in a `u32`, or no number at all
    /// (an infinity or a NaN).
    OutOfRange,
    /// Text or a number that is no date of the calendar.
    NotADate,
}

/// The `u32` a cell gives: a float's whole part, or an integer, that fits;
/// anything out of range is an error, never cut down.
pub open spec fn u32_of_cell(c: Cell) -> Result<u32, CellError> {
    match c {
        Cell::Float(bits) => match f64_whole_part(bits) {
            Some(w) => if 0 <= w <= u32::MAX {
                Ok(w as u32)
            } else {
                Err(CellError::OutOfRange)
            },
            None => Err(CellError::OutOfRange),
        },
        Cell::Int(i) => if 0 <= i <= u32::MAX {
            Ok(i as u32)
        } else {
            Err(CellError::OutOfRange)
        },
        _ => Err(CellError::WrongKind),
    }
}

pub fn as_u32(cell: &Cell) -> (r: Result<u32, CellError>)
    ensures
        r == u32_of_cell(*cell),
{
    match cell {
        Cell::Float(bits) => match f64_as_u32(*bits) {
            Some(u) => Ok(u),
            None => Err(CellError::OutOfRange),
        },
        Cell::Int(i) => if 0 <= *i && *i <= u32::MAX as i64 {
            Ok(*i as u32)
        } else {
            Err(CellError::OutOfRange)
        },
        _ => Err(CellError::WrongKind),
    }
}

/// A numeric cell's value: the bits of a double, or an integer.
#[derive(Clone, Copy, Debug, PartialEq, Eq, Structural)]
pub enum Number {
    Float(u64),
    Int(i64),
}

/// The number a cell holds; only float and integer cells hold one.
pub fn as_number(cell: &Cell) -> (r: Result<Number, CellError>)
    ensures
        match *cell {
            Cell::Float(bits) => r == Ok::<Number, CellError>(Number::Float(bits)),
            Cell::Int(i) => r == Ok::<Number, CellError>(Number::Int(i)),
            _ => r == Err::<Number, CellError>(CellError::WrongKind),
        },
{
    match cell {
        Cell::Float(bits) => Ok(Number::Float(*bits)),
        Cell::Int(i) => Ok(Number::Int(*i)),
        _ => Err(CellError::WrongKind),
    }
}

/// The text a cell holds; only a text cell holds one.
pub fn as_str(cell: &Cell) -> (r: Result<String, CellError>)
    ensures
        match *cell {
            Cell::Text(s) => r is Ok && r.unwrap()@ == s@,
            _ => r == Err::<String, CellError>(CellError::WrongKind),
        },
{
    match cell {
        Cell::Text(s) => Ok(s.clone()),
        _ => Err(CellError::WrongKind),
    }
}

/// The date a cell gives: a text cell as `YYYYMMDD` (with an optional sign),
/// a number as the integer `YYYYMMDD`.
pub open spec fn date_of_cell(c: Cell) -> Result<Date, CellError> {
    match c {
        Cell::Text(s) => match date_of_text(s@, false) {
            Some(d) => Ok(d),
            None => Err(CellError::NotADate),
        },
        _ => match u32_of_cell(c) {
            Ok(u) => if valid_calendar_date((u / 10000) as int, ((u % 10000) / 100) as int, (u % 100) as int) {
                Ok(Date { year: (u / 10000) as i32, month: ((u % 10000) / 100) as u8, day: (u % 100) as u8 })
            } else {
                Err(CellError::NotADate)
            },
            Err(e) => Err(e),
        },
    }
}

pub fn as_date(cell: &Cell) -> (r: Result<Date, CellError>)
    ensures
        r == date_of_cell(*cell),
        r matches Ok(d) ==> d.wf(),
{
    match cell {
        Cell::Text(s) => match parse_date_text(s.as_str(), false) {
            Some(d) => Ok(d),
            None => Err(CellError::NotADate),
        },
        _ => match as_u32(cell) {
            Ok(u) => match date_from_packed(u) {
                Some(d) => Ok(d),
                None => Err(CellError::NotADate),
            },
            Err(e) => Err(e),
        },
    }
}

} // verus!
