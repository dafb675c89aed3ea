use xlsx_trim::codec::{col_letters_to_index, decode_address, encode_column, format_u64,
    parse_row_number};

#[test]
fn encode_column_basics() {
    assert_eq!(encode_column(1), b"A".to_vec());
    assert_eq!(encode_column(2), b"B".to_vec());
    assert_eq!(encode_column(26), b"Z".to_vec());
    assert_eq!(encode_column(27), b"AA".to_vec());
    assert_eq!(encode_column(28), b"AB".to_vec());
    assert_eq!(encode_column(52), b"AZ".to_vec());
    assert_eq!(encode_column(702), b"ZZ".to_vec());
    assert_eq!(encode_column(703), b"AAA".to_vec());
    assert_eq!(encode_column(16384), b"XFD".to_vec());
}

#[test]
fn letters_to_index_basics() {
    assert_eq!(col_letters_to_index(b"A"), Some(1));
    assert_eq!(col_letters_to_index(b"Z"), Some(26));
    assert_eq!(col_letters_to_index(b"AA"), Some(27));
    assert_eq!(col_letters_to_index(b"BC"), Some(55));
    assert_eq!(col_letters_to_index(b"XFD"), Some(16384));
    assert_eq!(col_letters_to_index(b"a"), None);
    assert_eq!(col_letters_to_index(b"A1"), None);
    assert_eq!(col_letters_to_index(b""), Some(0));
}

#[test]
fn decode_address_basics() {
    assert_eq!(decode_address(b"A1"), Some((1, 1)));
    assert_eq!(decode_address(b"BC12"), Some((55, 12)));
    assert_eq!(decode_address(b"XFD1048576"), Some((16384, 1048576)));
    assert_eq!(decode_address(b"ABC"), None);
    assert_eq!(decode_address(b"a1"), None);
    assert_eq!(decode_address(b"A1B"), None);
    assert_eq!(decode_address(b""), None);
    assert_eq!(decode_address(b"A99999999999999"), None);
}

#[test]
fn parse_row_number_basics() {
    assert_eq!(parse_row_number(b"0"), Some(0));
    assert_eq!(parse_row_number(b"12"), Some(12));
    assert_eq!(parse_row_number(b"007"), Some(7));
    assert_eq!(parse_row_number(b""), None);
    assert_eq!(parse_row_number(b"1x"), None);
    assert_eq!(parse_row_number(b"4294967295"), Some(4294967295));
    assert_eq!(parse_row_number(b"4294967296"), None);
}

#[test]
fn format_u64_basics() {
    assert_eq!(format_u64(0), b"0".to_vec());
    assert_eq!(format_u64(7), b"7".to_vec());
    assert_eq!(format_u64(1048576), b"1048576".to_vec());
}

#[test]
fn codec_round_trip_full_width() {
    for i in 1u32..=16384 {
        let mut addr = encode_column(i);
        addr.push(b'1');
        assert_eq!(decode_address(&addr), Some((i, 1)));
    }
}
