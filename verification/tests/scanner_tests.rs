use xlsx_trim::UsedRange;
use xlsx_trim::scanner::find_used_range;
use xlsx_trim::token::tokenize;

fn scan(xml: &[u8]) -> UsedRange {
    let events = tokenize(xml).expect("markup should tokenize");
    find_used_range(&events)
}

#[test]
fn scanner_monotonicity() {
    let xml = b"<worksheet><sheetData>\
        <row r=\"5\"><c r=\"C5\"><v>1</v></c></row>\
        <row r=\"2\"><c r=\"G2\"><v>2</v></c></row>\
        <row r=\"1\"><c r=\"A1\"><v>3</v></c></row>\
        </sheetData></worksheet>";
    assert_eq!(scan(xml), UsedRange { last_row: 5, last_col: 7 });
}

#[test]
fn scanner_emptiness() {
    let xml = b"<worksheet><sheetData>\
        <row r=\"1\"><c r=\"A1\"/><c r=\"B1\"></c></row>\
        <row r=\"9\"><c r=\"Z9\"><extra/></c></row>\
        </sheetData></worksheet>";
    assert_eq!(scan(xml), UsedRange { last_row: 0, last_col: 0 });
}

#[test]
fn scanner_formula_and_inline_markers() {
    let xml = b"<worksheet><sheetData>\
        <row r=\"3\"><c r=\"B3\"><f>SUM(A1:A2)</f></c></row>\
        <row r=\"4\"><c r=\"D4\"><is><t>hi</t></is></c></row>\
        </sheetData></worksheet>";
    assert_eq!(scan(xml), UsedRange { last_row: 4, last_col: 4 });
}

#[test]
fn scanner_ignores_undecodable_addresses() {
    let xml = b"<worksheet><sheetData>\
        <row r=\"1\"><c r=\"oops\"><v>1</v></c><c><v>2</v></c><c r=\"B1\"><v>3</v></c></row>\
        </sheetData></worksheet>";
    assert_eq!(scan(xml), UsedRange { last_row: 1, last_col: 2 });
}

#[test]
fn scanner_marker_only_among_immediate_children() {
    let xml = b"<worksheet><sheetData>\
        <row r=\"1\"><c r=\"E1\"><w><v>1</v></w></c></row>\
        </sheetData></worksheet>";
    assert_eq!(scan(xml), UsedRange { last_row: 0, last_col: 0 });
}

#[test]
fn scanner_tolerates_namespace_prefixes() {
    let xml = b"<x:worksheet><x:sheetData>\
        <x:row r=\"2\"><x:c r=\"B2\"><x:v>1</x:v></x:c></x:row>\
        </x:sheetData></x:worksheet>";
    assert_eq!(scan(xml), UsedRange { last_row: 2, last_col: 2 });
}
