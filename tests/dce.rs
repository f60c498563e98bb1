use commodity_exchange_zh::date::Date;
use commodity_exchange_zh::dce::links::{build_download_links, LinkError};
use commodity_exchange_zh::dce::parse::{
    as_date, as_number, as_u32, parse_xslx_header, Cell, CellError, Field, HeaderError, Number,
};
use calamine::{DataType, Reader};
use commodity_exchange_zh::dce::{
    cache_name, get_url, link_kind, parse_download_links, read_xlsx, Data, DownloadLinks,
    LinkKind, RowError, XlsxError,
};
use std::io::Write;

const LABELS: [&str; 14] = [
    "合约", "日期", "前收盘价", "前结算价", "开盘价", "最高价", "最低价", "收盘价", "结算价",
    "涨跌1", "涨跌2", "成交量", "成交额", "持仓量",
];

fn text(s: &str) -> Cell {
    Cell::Text(s.to_string())
}

fn float(f: f64) -> Cell {
    Cell::Float(f.to_bits())
}

fn header() -> Vec<Cell> {
    LABELS.iter().map(|s| text(s)).collect()
}

#[test]
fn header_gives_the_column_of_each_field() {
    let pos = parse_xslx_header(&header()).unwrap();
    assert_eq!(pos, vec![0, 1, 3, 4, 5, 6, 7, 8, 9, 10, 11, 12, 13]);
    let mut h = header();
    h.reverse();
    h[1] = text("成交金额");
    let pos = parse_xslx_header(&h).unwrap();
    assert_eq!(pos, vec![13, 12, 10, 9, 8, 7, 6, 5, 4, 3, 2, 1, 0]);
}

#[test]
fn header_without_some_fields_is_refused() {
    let h: Vec<Cell> = LABELS
        .iter()
        .filter(|s| **s != "日期" && **s != "持仓量")
        .map(|s| text(s))
        .collect();
    match parse_xslx_header(&h) {
        Err(HeaderError::MissingFields { missing, labels }) => {
            assert_eq!(missing, vec![Field::Date, Field::OpenInterest]);
            assert_eq!(labels.len(), 12);
            assert_eq!(labels[0], "合约");
        }
        other => panic!("{other:?}"),
    }
    match parse_xslx_header(&vec![]) {
        Err(HeaderError::MissingFields { missing, .. }) => assert_eq!(missing.len(), 13),
        other => panic!("{other:?}"),
    }
    let mut h = header();
    h[2] = float(1.0);
    assert!(matches!(parse_xslx_header(&h), Err(HeaderError::NotText { column: 2 })));
}

#[test]
fn cells_as_u32() {
    assert_eq!(as_u32(&float(20230103.0)), Ok(20230103));
    assert_eq!(as_u32(&float(8129.9)), Ok(8129));
    assert_eq!(as_u32(&float(0.25)), Ok(0));
    assert_eq!(as_u32(&float(-0.5)), Ok(0));
    assert_eq!(as_u32(&float(4294967295.0)), Ok(u32::MAX));
    assert_eq!(as_u32(&float(4294967295.9)), Ok(u32::MAX));
    assert_eq!(as_u32(&float(-1.5)), Err(CellError::OutOfRange));
    assert_eq!(as_u32(&float(4294967296.0)), Err(CellError::OutOfRange));
    assert_eq!(as_u32(&float(1e10)), Err(CellError::OutOfRange));
    assert_eq!(as_u32(&float(f64::INFINITY)), Err(CellError::OutOfRange));
    assert_eq!(as_u32(&float(f64::NAN)), Err(CellError::OutOfRange));
    assert_eq!(as_u32(&Cell::Int(7)), Ok(7));
    assert_eq!(as_u32(&Cell::Int(-1)), Err(CellError::OutOfRange));
    assert_eq!(as_u32(&Cell::Int(1 << 40)), Err(CellError::OutOfRange));
    assert_eq!(as_u32(&text("7")), Err(CellError::WrongKind));
    for f in [0.0, 1.0, 2.5, 65535.99, 123456789.0, 4294967294.5, 5e-324, 1.0e-300] {
        assert_eq!(as_u32(&float(f)), Ok(f.trunc() as u32));
    }
}

#[test]
fn numeric_cells_as_numbers() {
    assert_eq!(as_number(&float(8010.5)), Ok(Number::Float(8010.5f64.to_bits())));
    assert_eq!(as_number(&Cell::Int(8010)), Ok(Number::Int(8010)));
    assert_eq!(as_number(&text("8010")), Err(CellError::WrongKind));
    assert_eq!(as_number(&Cell::Other), Err(CellError::WrongKind));
}

#[test]
fn cells_as_dates() {
    let d = Date { year: 2022, month: 12, day: 30 };
    assert_eq!(as_date(&text("20221230")), Ok(d));
    assert_eq!(as_date(&float(20221230.0)), Ok(d));
    assert_eq!(as_date(&Cell::Int(20221230)), Ok(d));
    assert_eq!(as_date(&text("2022-12-30")), Err(CellError::NotADate));
    assert_eq!(as_date(&float(20221301.0)), Err(CellError::NotADate));
    assert_eq!(as_date(&Cell::Other), Err(CellError::WrongKind));
}

fn row(code: &str, date: f64, vol: f64) -> Vec<Cell> {
    vec![
        text(code),
        float(date),
        float(8000.0),
        float(8010.0),
        float(8020.0),
        float(8030.0),
        float(7990.0),
        float(8015.0),
        float(8012.0),
        float(2.0),
        float(3.0),
        float(vol),
        float(123456.0),
        float(789.0),
    ]
}

#[test]
fn rows_by_the_header_columns() {
    let pos = parse_xslx_header(&header()).unwrap();
    let d = Data::new(&row("c2301", 20221230.0, 4567.0), &pos).unwrap();
    assert_eq!(d.code, "c2301");
    assert_eq!(d.date, Date { year: 2022, month: 12, day: 30 });
    assert_eq!(d.prev, Number::Float(8010.0f64.to_bits()));
    assert_eq!(d.zd2, Number::Float(3.0f64.to_bits()));
    let mut whole = row("c2301", 20221230.0, 4567.0);
    whole[3] = Cell::Int(8000);
    assert_eq!(Data::new(&whole, &pos).unwrap().prev, Number::Int(8000));
    assert_eq!(d.vol, 4567);
    assert_eq!(d.amount, 123456);
    assert_eq!(d.position, 789);
    let mut bad = row("c2301", 20221230.0, 4567.0);
    bad[4] = text("-");
    assert_eq!(
        Data::new(&bad, &pos).unwrap_err(),
        RowError::BadCell { field: 3, error: CellError::WrongKind }
    );
    let good = row("c2301", 20221230.0, 4567.0);
    let short: Vec<Cell> = row("c2301", 20221230.0, 4567.0).into_iter().take(5).collect();
    assert_eq!(Data::new(&short, &pos).unwrap_err(), RowError::MissingCell { field: 4 });
    assert_eq!(Data::new(&good, &pos[..12].to_vec()).unwrap_err(), RowError::BadColumns);
}

fn cell_xml(r: usize, c: usize, cell: &str) -> String {
    let col = (b'A' + c as u8) as char;
    if let Some(num) = cell.strip_prefix('#') {
        format!("<c r=\"{col}{r}\"><v>{num}</v></c>")
    } else {
        format!("<c r=\"{col}{r}\" t=\"inlineStr\"><is><t>{cell}</t></is></c>")
    }
}

fn workbook(rows: &[Vec<String>]) -> Vec<u8> {
    let mut sheet = String::from("<?xml version=\"1.0\" encoding=\"UTF-8\"?><worksheet xmlns=\"http://schemas.openxmlformats.org/spreadsheetml/2006/main\"><sheetData>");
    for (i, r) in rows.iter().enumerate() {
        sheet.push_str(&format!("<row r=\"{}\">", i + 1));
        for (j, c) in r.iter().enumerate() {
            sheet.push_str(&cell_xml(i + 1, j, c));
        }
        sheet.push_str("</row>");
    }
    sheet.push_str("</sheetData></worksheet>");
    let files = [
        ("[Content_Types].xml", "<?xml version=\"1.0\" encoding=\"UTF-8\"?><Types xmlns=\"http://schemas.openxmlformats.org/package/2006/content-types\"><Override PartName=\"/xl/workbook.xml\" ContentType=\"application/vnd.openxmlformats-officedocument.spreadsheetml.sheet.main+xml\"/><Override PartName=\"/xl/worksheets/sheet1.xml\" ContentType=\"application/vnd.openxmlformats-officedocument.spreadsheetml.worksheet+xml\"/></Types>".to_string()),
        ("xl/workbook.xml", "<?xml version=\"1.0\" encoding=\"UTF-8\"?><workbook xmlns=\"http://schemas.openxmlformats.org/spreadsheetml/2006/main\" xmlns:r=\"http://schemas.openxmlformats.org/officeDocument/2006/relationships\"><sheets><sheet name=\"Sheet1\" sheetId=\"1\" r:id=\"rId1\"/></sheets></workbook>".to_string()),
        ("xl/_rels/workbook.xml.rels", "<?xml version=\"1.0\" encoding=\"UTF-8\"?><Relationships xmlns=\"http://schemas.openxmlformats.org/package/2006/relationships\"><Relationship Id=\"rId1\" Type=\"http://schemas.openxmlformats.org/officeDocument/2006/relationships/worksheet\" Target=\"worksheets/sheet1.xml\"/></Relationships>".to_string()),
        ("xl/worksheets/sheet1.xml", sheet),
    ];
    let mut zip = zip::ZipWriter::new(std::io::Cursor::new(Vec::new()));
    for (name, body) in files.iter() {
        zip.start_file(*name, zip::write::FileOptions::default()).unwrap();
        zip.write_all(body.as_bytes()).unwrap();
    }
    zip.finish().unwrap().into_inner()
}

fn sheet_rows(n: usize) -> Vec<Vec<String>> {
    let mut rows = vec![LABELS.iter().map(|s| s.to_string()).collect::<Vec<_>>()];
    for i in 0..n {
        let mut r: Vec<String> = vec![format!("v22{:02}", i + 1), "#20221230".to_string()];
        for k in 0..12 {
            r.push(format!("#{}", 8000 + i * 10 + k));
        }
        rows.push(r);
    }
    rows
}

fn sheet(bytes: Vec<u8>) -> Vec<Vec<Cell>> {
    let mut wb: calamine::Xlsx<_> =
        calamine::open_workbook_from_rs(std::io::Cursor::new(bytes)).unwrap();
    let range = wb.worksheet_range_at(0).unwrap().unwrap();
    range
        .rows()
        .map(|row| {
            row.iter()
                .map(|c| match c {
                    DataType::Int(i) => Cell::Int(*i),
                    DataType::Float(f) => Cell::Float(f.to_bits()),
                    DataType::String(s) => Cell::Text(s.clone()),
                    _ => Cell::Other,
                })
                .collect()
        })
        .collect()
}

#[test]
fn dce_xlsx() {
    let end_row = 3;
    let outcomes = read_xlsx(&sheet(workbook(&sheet_rows(end_row)))).unwrap();
    assert_eq!(outcomes.len(), end_row);
    let table: Vec<Data> = outcomes.into_iter().map(|o| o.unwrap()).collect();
    assert_eq!(table[2].code, "v2203");
    assert_eq!(table[0].date, Date { year: 2022, month: 12, day: 30 });
    assert_eq!(table[0].prev, Number::Float(8001.0f64.to_bits()));
    assert_eq!(table[1].vol, 8019);
    assert_eq!(table[1].amount, 8020);
    assert_eq!(table[1].position, 8021);
}

#[test]
fn sheets_that_do_not_read() {
    assert!(matches!(read_xlsx(&vec![]), Err(XlsxError::NoHeader)));
    let mut rows = sheet_rows(2);
    rows[0][11] = "备注".to_string();
    assert!(matches!(
        read_xlsx(&sheet(workbook(&rows))),
        Err(XlsxError::Header(HeaderError::MissingFields { .. }))
    ));
    let mut rows = sheet_rows(3);
    rows[2][1] = "#20221232".to_string();
    let outcomes = read_xlsx(&sheet(workbook(&rows))).unwrap();
    assert_eq!(outcomes.len(), 3);
    assert!(outcomes[0].is_ok() && outcomes[2].is_ok());
    assert!(matches!(
        outcomes[1],
        Err(RowError::BadCell { field: 1, error: CellError::NotADate })
    ));
}

fn page(years: &[&str], lists: &[&[(&str, Option<&str>)]]) -> String {
    let mut html = String::from("<html><body><select>");
    for y in years {
        html.push_str(&format!("<option value=\"{y}\">{y}</option>"));
    }
    html.push_str("</select>");
    for list in lists {
        html.push_str("<ul class=\"cate_sel clearfix\" opentype=\"page\">");
        for (name, rel) in list.iter() {
            match rel {
                Some(r) => html.push_str(&format!(
                    "<li><label><input type=\"radio\" name=\"hisItem\" rel=\"{r}\">{name}</label></li>"
                )),
                None => html.push_str(&format!("<li><label>{name}</label></li>")),
            }
        }
        html.push_str("</ul>");
    }
    html.push_str("</body></html>");
    html
}

fn two_year_page() -> String {
    page(
        &["2022", "2021"],
        &[
            &[("豆粕", Some("/a/2022m.xlsx")), ("玉米", Some("/a/2022c.xlsx")), ("生猪", Some("/a/2022lh.xlsx"))],
            &[("豆粕", Some("/a/2021m.xlsx")), ("玉米", Some("/a/2021c.xlsx")), ("豆一", Some("/a/2021a.xlsx"))],
        ],
    )
}

fn keys(links: &DownloadLinks) -> Vec<(u16, String)> {
    links.iter().into_iter().map(|(k, _)| (k.year, k.name)).collect()
}

#[test]
fn selector_page_gives_sorted_catalogue() {
    let links = parse_download_links(&two_year_page()).unwrap();
    assert_eq!(links.len(), 6);
    let mut expected = keys(&links);
    expected.sort();
    assert_eq!(keys(&links), expected);
    assert_eq!(keys(&links)[0].0, 2021);
    assert_eq!(links.get(2022, "生猪"), Some("/a/2022lh.xlsx".to_string()));
    assert_eq!(
        get_url(&links, 2021, "豆一").unwrap(),
        "http://www.dce.com.cn/a/2021a.xlsx"
    );
    assert!(get_url(&links, 2020, "豆一").is_err());
}

#[test]
fn selector_page_faults_are_reported() {
    let html = page(&["2022"], &[&[("豆粕", Some("/m.xlsx"))], &[("玉米", Some("/c.xlsx"))]]);
    assert_eq!(
        parse_download_links(&html).unwrap_err(),
        LinkError::CountMismatch { options: 1, lists: 2 }
    );
    let html = page(&["2022"], &[&[("豆粕", Some("/m.xlsx")), ("玉米", None)]]);
    assert_eq!(
        parse_download_links(&html).unwrap_err(),
        LinkError::MissingLink { list: 0, item: 1 }
    );
    let html = page(&["twenty"], &[&[("豆粕", Some("/m.xlsx"))]]);
    assert_eq!(parse_download_links(&html).unwrap_err(), LinkError::BadYear { index: 0 });
}

#[test]
fn repeated_key_takes_the_later_link() {
    let years = vec![Some("2020".to_string())];
    let lists = vec![vec![
        ("b".to_string(), Some("/1".to_string())),
        ("a".to_string(), Some("/2".to_string())),
        ("b".to_string(), Some("/3".to_string())),
    ]];
    let links = build_download_links(&years, &lists).unwrap();
    assert_eq!(links.len(), 2);
    assert_eq!(keys(&links), vec![(2020, "a".to_string()), (2020, "b".to_string())]);
    assert_eq!(links.get(2020, "b"), Some("/3".to_string()));
    assert_eq!(
        build_download_links(&vec![None], &lists).unwrap_err(),
        LinkError::MissingYear { index: 0 }
    );
}

#[test]
fn binary_form_round_trip() {
    let links = parse_download_links(&two_year_page()).unwrap();
    let bytes = links.encode();
    let back = DownloadLinks::decode(&bytes).unwrap();
    assert_eq!(back.iter(), links.iter());
    assert!(DownloadLinks::decode(&bytes[..bytes.len() - 1]).is_none());
    let mut longer = bytes.clone();
    longer.push(0);
    assert!(DownloadLinks::decode(&longer).is_none());
    assert_eq!(bytes[0], 6);
    assert_eq!(&bytes[1..4], &[251, 0xe5, 0x07]);
}

#[test]
fn binary_form_matches_bincode() {
    let links = parse_download_links(&two_year_page()).unwrap();
    let mut map = indexmap::IndexMap::new();
    for (k, v) in links.iter() {
        map.insert((k.year, k.name), v);
    }
    let theirs = bincode::serde::encode_to_vec(&map, bincode::config::standard()).unwrap();
    assert_eq!(links.encode(), theirs);
}

#[test]
fn picker_leaves_out_options_and_archives() {
    let html = page(
        &["2017"],
        &[&[
            ("豆粕", Some("/m.xlsx")),
            ("豆粕期权", Some("/mo.xlsx")),
            ("玉米", Some("/c.zip")),
            ("铁矿石", Some("/i.csv")),
        ]],
    );
    let links = parse_download_links(&html).unwrap();
    let names: Vec<String> = links.choices(false).into_iter().map(|k| k.name).collect();
    assert_eq!(names, vec!["豆粕".to_string(), "铁矿石".to_string()]);
    assert_eq!(links.choices(true).len(), 4);
}

#[test]
fn links_by_kind_and_cache_names() {
    assert_eq!(link_kind("/a/b.xlsx"), LinkKind::Sheet);
    assert_eq!(link_kind("/a/b.csv"), LinkKind::Sheet);
    assert_eq!(link_kind("/a/b.zip"), LinkKind::Archive);
    assert_eq!(link_kind("/a/b.xls"), LinkKind::Unsupported);
    assert_eq!(cache_name(2022, "豆粕"), "dce-2022-豆粕.csv");
    assert_eq!(
        commodity_exchange_zh::czce::cache_name("ALLFUTURES2023.txt"),
        "czce-ALLFUTURES2023.txt"
    );
}

#[test]
fn binary_form_with_unsorted_keys_is_refused() {
    let mut map = indexmap::IndexMap::new();
    map.insert((2022u16, "玉米".to_string()), "/c.xlsx".to_string());
    map.insert((2021u16, "豆粕".to_string()), "/m.xlsx".to_string());
    let bytes = bincode::serde::encode_to_vec(&map, bincode::config::standard()).unwrap();
    assert!(DownloadLinks::decode(&bytes).is_none());
    map.sort_keys();
    let bytes = bincode::serde::encode_to_vec(&map, bincode::config::standard()).unwrap();
    let links = DownloadLinks::decode(&bytes).unwrap();
    assert_eq!(links.len(), 2);
    assert_eq!(links.encode(), bytes);
}
