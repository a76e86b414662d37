use krad::{bytes_to_u32, decode_jis, parse_bytes, split_on, tokenize_line, CodepointTable, KradError};

fn table() -> CodepointTable {
    CodepointTable::new(vec![(0xB0A1, '亜'), (0xB0EC, '一')])
}

#[test]
fn big_endian_value() {
    assert_eq!(bytes_to_u32(&[]), 0);
    assert_eq!(bytes_to_u32(&[0x7F]), 0x7F);
    assert_eq!(bytes_to_u32(&[0xB0, 0xA1]), 0xB0A1);
    assert_eq!(bytes_to_u32(&[0x01, 0x02, 0x03, 0x04]), 0x01020304);
}

#[test]
fn decodes_mapped_code() {
    assert_eq!(decode_jis(&[0xB0, 0xA1], &table()).unwrap(), "亜".to_string());
}

#[test]
fn unmapped_code_fails() {
    let res = decode_jis(&[0xB0, 0xA2], &table());
    assert!(matches!(res.unwrap_err(), KradError::Jis));
}

#[test]
fn decodes_three_byte_euc() {
    // SS3 introduces a JIS X 0212 character
    assert_eq!(decode_jis(&[0x8F, 0xB0, 0xA1], &table()).unwrap(), "丂".to_string());
}

#[test]
fn decodes_three_byte_ascii() {
    // three ASCII bytes are a valid (if unusual) EUC-JP sequence
    assert_eq!(decode_jis("abc".as_bytes(), &table()).unwrap(), "abc".to_string());
}

#[test]
fn invalid_euc_sequence_fails() {
    let res = decode_jis(&[0x8F, 0xB0, 0x41], &table());
    assert!(matches!(res.unwrap_err(), KradError::EucJp));
}

#[test]
fn truncated_euc_sequence_fails() {
    // a complete 2-byte pair followed by a lone lead byte is incomplete
    let res = decode_jis(&[0xB0, 0xA1, 0x8F], &table());
    assert!(matches!(res.unwrap_err(), KradError::EucJp));
}

#[test]
fn unsupported_token_length_fails() {
    assert!(matches!(decode_jis(&[], &table()).unwrap_err(), KradError::Length));
    assert!(matches!(decode_jis(&[0x41], &table()).unwrap_err(), KradError::Length));
    assert!(matches!(
        decode_jis(&[0x41, 0x41, 0x41, 0x41], &table()).unwrap_err(),
        KradError::Length
    ));
}

#[test]
fn unmapped_code_fails_whole_parse() {
    // a valid record precedes the bad one
    let buf: &[u8] = &[
        0xB0, 0xA1, 0x20, 0x3A, 0x20, 0xB0, 0xEC, 0x0A, // "亜 : 一\n"
        0xB0, 0xA1, 0x20, 0x3A, 0x20, 0xB0, 0xA2, 0x0A, // radical code 0xB0A2 is unmapped
    ];
    let res = parse_bytes(buf, &table());
    assert!(matches!(res.unwrap_err(), KradError::Jis));
}

#[test]
fn invalid_euc_fails_whole_parse() {
    let buf: &[u8] = &[
        0xB0, 0xA1, 0x20, 0x3A, 0x20, 0xB0, 0xEC, 0x0A, // "亜 : 一\n"
        0x8F, 0xB0, 0x41, 0x20, 0x3A, 0x20, 0xB0, 0xEC, 0x0A, // bad 3-byte kanji token
    ];
    let res = parse_bytes(buf, &table());
    assert!(matches!(res.unwrap_err(), KradError::EucJp));
}

#[test]
fn oversized_token_fails_whole_parse() {
    let buf: &[u8] = &[0x41, 0x41, 0x41, 0x41, 0x20, 0x3A, 0x20, 0xB0, 0xEC, 0x0A];
    let res = parse_bytes(buf, &table());
    assert!(matches!(res.unwrap_err(), KradError::Length));
}

#[test]
fn table_last_entry_wins() {
    let t = CodepointTable::new(vec![(0xB0A1, '亜'), (0xB0A1, '一')]);
    assert_eq!(decode_jis(&[0xB0, 0xA1], &t).unwrap(), "一".to_string());
}

#[test]
fn splits_on_byte() {
    let parts = split_on("a bc  d".as_bytes(), 0x20);
    let expected: Vec<Vec<u8>> = vec![b"a".to_vec(), b"bc".to_vec(), Vec::new(), b"d".to_vec()];
    assert_eq!(parts, expected);
    assert_eq!(split_on(&[], 0x20), vec![Vec::<u8>::new()]);
}

#[test]
fn tokenizes_data_line() {
    let ts = tokenize_line("ab : cd efg".as_bytes()).unwrap();
    let expected: Vec<Vec<u8>> = vec![b"ab".to_vec(), b"cd".to_vec(), b"efg".to_vec()];
    assert_eq!(ts, expected);
    assert!(tokenize_line("ab cd".as_bytes()).is_none());
    assert!(tokenize_line("".as_bytes()).is_none());
}

#[test]
fn error_messages() {
    assert_eq!(KradError::Jis.message(), "Invalid JIS X 0213 codepoint");
    assert_eq!(KradError::EucJp.message(), "Invalid EUC-JP codepoint");
    assert_eq!(KradError::Length.message(), "Unsupported token length");
    assert_eq!(KradError::Parse.message(), "Error while parsing kradfile");
}
