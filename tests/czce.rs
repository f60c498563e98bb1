use commodity_exchange_zh::czce::{get_url, parse_rows, parse_txt, run, UrlError};
use commodity_exchange_zh::date::Date;
use commodity_exchange_zh::numeric::Decimal;
use commodity_exchange_zh::util::clickhouse::Command;
use commodity_exchange_zh::util::Encoding;

const TITLE: &str = "郑州商品交易所期货每日行情(2023)\n";
const HEADER: &str = "交易日期|合约代码|昨结算|今开盘|最高价|最低价|今收盘|今结算|涨跌1|涨跌2|成交量(手)|持仓量|增减量|交易额(万元)|交割结算价\n";

fn dec(mantissa: i64, scale: usize) -> Decimal {
    Decimal { mantissa, scale }
}

fn snippet() -> String {
    let mut s = String::new();
    s.push_str(TITLE);
    s.push_str("自2020年1月1日起，成交量、持仓量、成交额、行权量均为单边计算\n");
    s.push_str(HEADER);
    s.push_str("2023-01-03|AP303    |8,284.00 |8,305.00 |8,586.00 |8,300.00 |8,586.00 |8,486.00 |302.00 |202.00 |8,129 |29,539 |-2,084 |68,985.41 |\n");
    s.push_str("2023-01-03|AP304    |8,058.00 |8,058.00 |8,484.00 |8,058.00 |8,484.00 |8,376.00 |426.00 |318.00 |2,342 |21,181 |-859 |19,616.25 |\n");
    s.push_str("2023-01-03|AP305    |7,872.00 |7,920.00 |8,358.00 |7,915.00 |8,351.00 |8,226.00 |479.00 |354.00 |269,484 |206,088 |34,044 |2,216,829.30 |\n");
    s
}

#[test]
fn test_parse_txt() {
    let cleansed = parse_txt(&snippet());
    assert!(cleansed.starts_with("交易日期|合约代码|"));
    assert!(!cleansed.contains(','));
    assert!(!cleansed.contains(' '));
    let parsed = parse_rows(&cleansed);
    assert_eq!(parsed.malformed, 0);
    assert_eq!(parsed.rows.len(), 3);
    let codes: Vec<&str> = parsed.rows.iter().map(|d| d.code.as_str()).collect();
    assert_eq!(codes, vec!["AP303", "AP304", "AP305"]);
    let third = &parsed.rows[2];
    assert_eq!(third.vol, 269484);
    assert_eq!(third.position, 206088);
    assert_eq!(third.pos_delta, 34044);
    assert_eq!(third.amount, dec(221682930, 2));
    assert_eq!(parsed.rows[1].pos_delta, -859);
}

#[test]
fn three_row_snippet_gives_amount_and_null_delivery_price() {
    let mut s = String::new();
    s.push_str(TITLE);
    s.push('\n');
    s.push_str(HEADER);
    for _ in 0..3 {
        s.push_str("2023-01-03|AP303|8284|8305|8586|8300|8586|8486|302|202|8129|29539|-2084|68985.41|\n");
    }
    let parsed = parse_rows(&parse_txt(&s));
    assert_eq!(parsed.rows.len(), 3);
    let row = &parsed.rows[0];
    assert_eq!(row.date, Date { year: 2023, month: 1, day: 3 });
    assert_eq!(row.code, "AP303");
    assert_eq!(row.prev, dec(8284, 0));
    assert_eq!(row.settle, dec(8486, 0));
    assert_eq!(row.vol, 8129);
    assert_eq!(row.position, 29539);
    assert_eq!(row.pos_delta, -2084);
    assert_eq!(row.amount, dec(6898541, 2));
    assert!((row.amount.mantissa as f64 / 100.0 - 68985.41).abs() < 1e-9);
    assert_eq!(row.dsp, None);
}

#[test]
fn malformed_records_are_dropped_and_counted() {
    let mut s = String::new();
    s.push_str(TITLE);
    s.push('\n');
    s.push_str(HEADER);
    s.push_str("2023-01-03|AP303|8284|8305|8586|8300|8586|8486|302|202|8129|29539|-2084|68985.41|\n");
    // a day that does not exist
    s.push_str("2023-02-30|AP303|8284|8305|8586|8300|8586|8486|302|202|8129|29539|-2084|68985.41|\n");
    // a volume that is no integer
    s.push_str("2023-01-04|AP303|8284|8305|8586|8300|8586|8486|302|202|81x29|29539|-2084|68985.41|\n");
    // too few cells for the header
    s.push_str("2023-01-05|AP303|8284\n");
    s.push_str("2023-01-06|AP303|8284|8305|8586|8300|8586|8486|302|202|8129|29539|-2084|68985.41|8400\n");
    let parsed = parse_rows(&parse_txt(&s));
    let data_lines = 5;
    assert_eq!(parsed.malformed, 3);
    assert_eq!(parsed.rows.len(), data_lines - parsed.malformed);
    assert_eq!(parsed.rows[1].dsp, Some(dec(8400, 0)));
}

#[test]
fn open_interest_keeps_whole_units() {
    let mut s = String::new();
    s.push_str(TITLE);
    s.push('\n');
    s.push_str(HEADER);
    s.push_str("2015-01-05|CF505|13000|13000|13100|12900|13050|13020|50|20|100|2,345.0|-5|130.5|0\n");
    s.push_str("2015-01-05|CF509|13000|13000|13100|12900|13050|13020|50|20|100|-1.0|-5|130.5|0\n");
    let parsed = parse_rows(&parse_txt(&s));
    assert_eq!(parsed.rows.len(), 1);
    assert_eq!(parsed.malformed, 1);
    assert_eq!(parsed.rows[0].position, 2345);
    assert_eq!(parsed.rows[0].dsp, Some(dec(0, 0)));
}

#[test]
fn fewer_than_two_lines_leave_nothing() {
    assert_eq!(parse_txt("only a title"), "");
    assert_eq!(parse_txt("title\r\nmemo\r\n a , b \r\n"), "ab");
}

#[test]
fn download_addresses_by_year() {
    assert_eq!(
        get_url(2012, 2023).unwrap(),
        "http://www.czce.com.cn/cn/exchange/datahistory2012.zip"
    );
    assert_eq!(
        get_url(2017, 2016).unwrap(),
        "http://www.czce.com.cn/cn/DFSStaticFiles/Future/2017/FutureDataHistory.zip"
    );
    assert_eq!(
        get_url(2023, 2023).unwrap(),
        "http://www.czce.com.cn/cn/DFSStaticFiles/Future/2023/ALLFUTURES2023.zip"
    );
    assert_eq!(
        get_url(2024, 2023),
        Err(UrlError::YearOutOfRange { year: 2024, this_year: 2023 })
    );
    assert_eq!(
        get_url(2009, 2023),
        Err(UrlError::YearOutOfRange { year: 2009, this_year: 2023 })
    );
}

#[test]
fn load_steps_clear_zero_prices_only_for_gbk() {
    assert_eq!(
        run(2023, Encoding::UTF8),
        vec![Command::Count, Command::Insert, Command::Deduplicate, Command::Count]
    );
    assert_eq!(
        run(2019, Encoding::GBK),
        vec![
            Command::Count,
            Command::Insert,
            Command::Deduplicate,
            Command::Count,
            Command::ClearZeroDsp { year: 2019 }
        ]
    );
}
