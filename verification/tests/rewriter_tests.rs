use xlsx_trim::UsedRange;
use xlsx_trim::emit::serialize_events;
use xlsx_trim::rewriter::rewrite_events;
use xlsx_trim::token::tokenize;

fn rewrite(xml: &[u8], used: UsedRange) -> Vec<u8> {
    let events = tokenize(xml).expect("markup should tokenize");
    serialize_events(&rewrite_events(&events, used))
}

#[test]
fn rewriter_bound_enforcement() {
    let xml = b"<worksheet><dimension ref=\"A1:Z100\"/><sheetData>\
        <row r=\"1\"><c r=\"A1\"><v>1</v></c><c r=\"H1\"><v>2</v></c></row>\
        <row r=\"6\"><c r=\"A6\"><v>3</v></c></row>\
        </sheetData></worksheet>";
    let out = rewrite(xml, UsedRange { last_row: 5, last_col: 7 });
    let expect = b"<worksheet><dimension ref=\"A1:G5\"/><sheetData>\
        <row r=\"1\"><c r=\"A1\"><v>1</v></c></row>\
        </sheetData></worksheet>";
    assert_eq!(out, expect.to_vec());
}

#[test]
fn rewriter_zero_range() {
    let xml = b"<worksheet><dimension ref=\"A1:Z100\"/><sheetData/></worksheet>";
    let out = rewrite(xml, UsedRange { last_row: 0, last_col: 0 });
    let expect = b"<worksheet><dimension ref=\"A1:A1\"/><sheetData/></worksheet>";
    assert_eq!(out, expect.to_vec());
}

#[test]
fn rewriter_dimension_keeps_other_attributes() {
    let xml = b"<dimension a=\"x\" ref=\"A1:Z100\" b=\"y\"/>";
    let out = rewrite(xml, UsedRange { last_row: 3, last_col: 2 });
    assert_eq!(out, b"<dimension a=\"x\" b=\"y\" ref=\"A1:B3\"/>".to_vec());
}

#[test]
fn merge_filtering() {
    let xml = b"<mergeCells count=\"2\">\
        <mergeCell ref=\"B2:D4\"/><mergeCell ref=\"B2:Z4\"/>\
        </mergeCells>";
    let out = rewrite(xml, UsedRange { last_row: 10, last_col: 10 });
    let expect = b"<mergeCells count=\"1\"><mergeCell ref=\"B2:D4\"/></mergeCells>";
    assert_eq!(out, expect.to_vec());
}

#[test]
fn merge_container_vanishes_when_nothing_survives() {
    let xml = b"<a><mergeCells count=\"1\"><mergeCell ref=\"B2:Z4\"/></mergeCells><b/></a>";
    let out = rewrite(xml, UsedRange { last_row: 4, last_col: 10 });
    assert_eq!(out, b"<a><b/></a>".to_vec());
}

#[test]
fn merge_malformed_region_dropped_alone() {
    let xml = b"<mergeCells count=\"3\">\
        <mergeCell ref=\"B2D4\"/><mergeCell ref=\"A1:B2\"/><mergeCell/>\
        </mergeCells>";
    let out = rewrite(xml, UsedRange { last_row: 10, last_col: 10 });
    let expect = b"<mergeCells count=\"1\"><mergeCell ref=\"A1:B2\"/></mergeCells>";
    assert_eq!(out, expect.to_vec());
}

#[test]
fn bulk_block_elision() {
    let xml = b"<worksheet><sheetFormatPr x=\"1\"/>\
        <conditionalFormatting sqref=\"A1:B2\">\
        <cfRule type=\"t\"><formula>1</formula><nested><deep><deeper/></deep></nested></cfRule>\
        </conditionalFormatting>\
        <pageBreaks/><phoneticPr id=\"1\"/>\
        <cols w=\"9\"/></worksheet>";
    let out = rewrite(xml, UsedRange { last_row: 2, last_col: 2 });
    let expect = b"<worksheet><sheetFormatPr x=\"1\"/><cols w=\"9\"/></worksheet>";
    assert_eq!(out, expect.to_vec());
}

#[test]
fn comments_dropped_and_text_preserved() {
    let xml = b"<a>keep<!-- gone -->me<![CDATA[raw<>]]></a>";
    let out = rewrite(xml, UsedRange { last_row: 1, last_col: 1 });
    assert_eq!(out, b"<a>keepme<![CDATA[raw<>]]></a>".to_vec());
}

#[test]
fn zero_bound_disables_clamping_on_that_axis() {
    let xml = b"<sheetData><row r=\"9\"><c r=\"A9\"><v>1</v></c></row></sheetData>";
    let out = rewrite(xml, UsedRange { last_row: 0, last_col: 0 });
    assert_eq!(out, xml.to_vec());
}
