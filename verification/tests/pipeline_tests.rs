use xlsx_trim::{UsedRange, XmlError};
use xlsx_trim::sheet::{is_calc_chain_member, is_worksheet_member, sheet_used_range,
    trim_sheet};

#[test]
fn pipeline_idempotence() {
    let xml = b"<?xml version=\"1.0\"?><worksheet>\
        <dimension ref=\"A1:Z100\"/>\
        <sheetData>\
        <row r=\"1\"><c r=\"A1\"><v>1</v></c><c r=\"H1\"><v>2</v></c></row>\
        <row r=\"2\" ht=\"12\"><c r=\"B2\"><f>A1+1</f><v>2</v></c></row>\
        <row r=\"50\"><c r=\"Z50\"/></row>\
        </sheetData>\
        <mergeCells count=\"2\"><mergeCell ref=\"A1:B2\"/><mergeCell ref=\"A1:Z9\"/></mergeCells>\
        <conditionalFormatting><cfRule><x/></cfRule></conditionalFormatting>\
        <!-- a comment -->\
        </worksheet>";
    let once = trim_sheet(xml).expect("first pass");
    let twice = trim_sheet(&once).expect("second pass");
    assert_eq!(twice, once);
    let u1 = sheet_used_range(xml).expect("scan input");
    let u2 = sheet_used_range(&once).expect("scan trimmed");
    assert_eq!(u1, UsedRange { last_row: 2, last_col: 8 });
    assert_eq!(u2, u1);
}

#[test]
fn end_to_end_scenario() {
    let xml = b"<?xml version=\"1.0\" encoding=\"UTF-8\"?>\
        <worksheet><dimension ref=\"A1:AX1000\"/>\
        <sheetData>\
        <row r=\"20\"><c r=\"A20\"><v>1</v></c><c r=\"E20\"><v>5</v></c></row>\
        <row r=\"1000\"><c r=\"AX1000\"/></row>\
        </sheetData>\
        <mergeCells count=\"1\"><mergeCell ref=\"A1:E20\"/></mergeCells>\
        <conditionalFormatting sqref=\"A1:AX1000\"><cfRule t=\"x\"><formula>0</formula></cfRule>\
        </conditionalFormatting>\
        </worksheet>";
    let out = trim_sheet(xml).expect("trim");
    let expect = b"<?xml version=\"1.0\" encoding=\"UTF-8\"?>\
        <worksheet><dimension ref=\"A1:E20\"/>\
        <sheetData>\
        <row r=\"20\"><c r=\"A20\"><v>1</v></c><c r=\"E20\"><v>5</v></c></row>\
        </sheetData>\
        <mergeCells count=\"1\"><mergeCell ref=\"A1:E20\"/></mergeCells>\
        </worksheet>";
    assert_eq!(String::from_utf8(out).unwrap(), String::from_utf8(expect.to_vec()).unwrap());
    assert!(is_calc_chain_member(b"xl/calcChain.xml"));
}

#[test]
fn malformed_markup_is_rejected() {
    assert_eq!(trim_sheet(b"<worksheet><unterminated"), Err(XmlError::Malformed));
    assert_eq!(trim_sheet(b"<a x=\"unclosed></a>"), Err(XmlError::Malformed));
    assert_eq!(trim_sheet(b"<!-- never closed"), Err(XmlError::Malformed));
    assert_eq!(sheet_used_range(b"<"), Err(XmlError::Malformed));
}

#[test]
fn undecodable_attributes_degrade_gracefully() {
    let xml = b"<sheetData><row r=\"zzz\"><c r=\"??\"><v>1</v></c></row></sheetData>";
    let out = trim_sheet(xml).expect("trim");
    assert_eq!(out, xml.to_vec());
}

#[test]
fn member_naming_rules() {
    assert!(is_worksheet_member(b"xl/worksheets/sheet1.xml"));
    assert!(is_worksheet_member(b"xl/worksheets/data.xml"));
    assert!(!is_worksheet_member(b"xl/worksheets/sheet1.xml.rels"));
    assert!(!is_worksheet_member(b"xl/sharedStrings.xml"));
    assert!(!is_worksheet_member(b"xl/calcChain.xml"));
    assert!(is_calc_chain_member(b"xl/calcChain.xml"));
    assert!(!is_calc_chain_member(b"xl/worksheets/sheet1.xml"));
}
