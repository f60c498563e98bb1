use commodity_exchange_zh::ce;
use commodity_exchange_zh::cli::{Exchange, Year};
use commodity_exchange_zh::date::{date_from_packed, parse_date_text, Date};
use commodity_exchange_zh::numeric::{
    parse_decimal, parse_i32, parse_u32, parse_u64, parse_whole_u32, Decimal,
};
use commodity_exchange_zh::util::clickhouse::{added_rows, parse_count, Command};
use commodity_exchange_zh::util::{display_option, read_txt, DecodingError, Encoding};

#[test]
fn numbers_from_text() {
    assert_eq!(parse_u32("8129"), Some(8129));
    assert_eq!(parse_u32("+7"), Some(7));
    assert_eq!(parse_u32("4294967295"), Some(u32::MAX));
    assert_eq!(parse_u32("4294967296"), None);
    assert_eq!(parse_u32("-1"), None);
    assert_eq!(parse_u32(""), None);
    assert_eq!(parse_u32("12a"), None);
    assert_eq!(parse_i32("-2084"), Some(-2084));
    assert_eq!(parse_i32("-2147483648"), Some(i32::MIN));
    assert_eq!(parse_i32("2147483648"), None);
    assert_eq!(parse_u64("18446744073709551615"), Some(u64::MAX));
    assert_eq!(parse_decimal("68985.41"), Some(Decimal { mantissa: 6898541, scale: 2 }));
    assert_eq!(parse_decimal("-0.5"), Some(Decimal { mantissa: -5, scale: 1 }));
    assert_eq!(parse_decimal("8486"), Some(Decimal { mantissa: 8486, scale: 0 }));
    assert_eq!(parse_decimal(".5"), Some(Decimal { mantissa: 5, scale: 1 }));
    assert_eq!(parse_decimal("1."), Some(Decimal { mantissa: 1, scale: 0 }));
    assert_eq!(parse_decimal("."), None);
    assert_eq!(parse_decimal("1.2.3"), None);
    assert_eq!(parse_decimal(""), None);
    assert_eq!(parse_whole_u32("206088.9"), Some(206088));
    assert_eq!(parse_whole_u32("-3"), None);
}

#[test]
fn dates_from_text_and_integers() {
    assert_eq!(
        parse_date_text("2023-01-03", true),
        Some(Date { year: 2023, month: 1, day: 3 })
    );
    assert_eq!(
        parse_date_text("20240229", false),
        Some(Date { year: 2024, month: 2, day: 29 })
    );
    assert_eq!(parse_date_text("20230229", false), None);
    assert_eq!(parse_date_text("2023-13-01", true), None);
    assert_eq!(parse_date_text("2023/01/03", true), None);
    assert_eq!(parse_date_text("2023-01-03", false), None);
    assert_eq!(date_from_packed(20230103), Some(Date { year: 2023, month: 1, day: 3 }));
    assert_eq!(date_from_packed(20230132), None);
    assert_eq!(date_from_packed(19000229), None);
    assert_eq!(date_from_packed(20000229), Some(Date { year: 2000, month: 2, day: 29 }));
}

#[test]
fn text_in_utf8_or_gbk() {
    let (text, enc) = read_txt("交易日期|合约代码".as_bytes()).unwrap();
    assert_eq!(text, "交易日期|合约代码");
    assert_eq!(enc, Encoding::UTF8);
    // "郑州" in GBK
    let (text, enc) = read_txt(&[0xD6, 0xA3, 0xD6, 0xDD, b'|', b'1']).unwrap();
    assert_eq!(text, "郑州|1");
    assert_eq!(enc, Encoding::GBK);
    assert_eq!(read_txt(&[0x81, 0x20]).unwrap_err(), DecodingError::NotGbk);
    assert_eq!(
        read_txt(&[0xEF, 0xBB, 0xBF, b'a', 0xFF]).unwrap_err(),
        DecodingError::NotGbk
    );
    assert_eq!(
        read_txt(&[0xFF, 0xFE, b'a', 0x00, 0x00, 0xD8]).unwrap_err(),
        DecodingError::NotGbk
    );
    assert_eq!(
        read_txt(&[0xFF, 0xFE, b'a', 0x00]).unwrap_err(),
        DecodingError::NotGbkCodec
    );
}

#[test]
fn store_commands_and_counts() {
    assert_eq!(Command::Count.sql("qihuo.czce"), "SELECT count(*) FROM qihuo.czce");
    assert_eq!(Command::Insert.sql("qihuo.dce"), "INSERT INTO qihuo.dce FORMAT CSV");
    assert_eq!(
        Command::Deduplicate.sql("qihuo.czce"),
        "OPTIMIZE TABLE qihuo.czce DEDUPLICATE BY date, code"
    );
    assert_eq!(
        Command::ClearZeroDsp { year: 2019 }.sql("qihuo.czce"),
        "ALTER TABLE qihuo.czce UPDATE dsp=Null WHERE dsp==0 AND year(date)==2019;"
    );
    assert_eq!(parse_count(" 47916\n"), Some(47916));
    assert_eq!(parse_count("many"), None);
    assert_eq!(added_rows("100", "150\n"), Some(50));
    assert_eq!(added_rows("150", "150"), Some(0));
    assert_eq!(added_rows("150", "100"), None);
    assert_eq!(added_rows("x", "100"), None);
}

#[test]
fn combined_table_count() {
    assert_eq!(ce::run("47916\n"), Ok(47916));
    assert_eq!(ce::run("\t12 "), Ok(12));
    assert_eq!(ce::run("Code: 60"), Err(ce::NotACount));
}

#[test]
fn year_arguments() {
    assert_eq!(Year::parse("2022"), Some(Year::Single(2022)));
    assert_eq!(Year::parse("2010..2013"), Some(Year::Range { start: 2010, end: 2013 }));
    assert_eq!(Year::parse("22"), None);
    assert_eq!(Year::parse("2010..=2013"), None);
    assert_eq!(Year::Single(2022).years(), vec![2022]);
    assert_eq!(Year::Range { start: 2010, end: 2013 }.years(), vec![2010, 2011, 2012]);
    assert_eq!(Year::Range { start: 2013, end: 2010 }.years(), Vec::<u16>::new());
}

#[test]
fn exchange_names() {
    assert_eq!(Exchange::parse("czce"), Some(Exchange::czce));
    assert_eq!(Exchange::parse("郑州"), Some(Exchange::czce));
    assert_eq!(Exchange::parse("DCE"), Some(Exchange::dce));
    assert_eq!(Exchange::parse("大连"), Some(Exchange::dce));
    assert_eq!(Exchange::parse("shfe"), None);
}

#[test]
fn decimals_written_out() {
    assert_eq!(Decimal { mantissa: 6898541, scale: 2 }.to_text(), "68985.41");
    assert_eq!(Decimal { mantissa: -5, scale: 1 }.to_text(), "-0.5");
    assert_eq!(Decimal { mantissa: 7, scale: 3 }.to_text(), "0.007");
    assert_eq!(Decimal { mantissa: 8284, scale: 0 }.to_text(), "8284");
    assert_eq!(Decimal { mantissa: 0, scale: 0 }.to_text(), "0");
    assert_eq!(Decimal { mantissa: i64::MIN, scale: 0 }.to_text(), "-9223372036854775808");
    assert_eq!(display_option(&Some(Decimal { mantissa: 840000, scale: 2 })), "8400.00");
    assert_eq!(display_option(&None), "");
    let d = parse_decimal("2216829.30").unwrap();
    assert_eq!(d.to_text(), "2216829.30");
}
