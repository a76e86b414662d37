use krad::{parse_bytes, CodepointTable, Decomposition, KradError};

// "亜 : ｜ 一 口\n" in the legacy on-disk encoding
const KANJI_LINE: &[u8] = &[
    0xB0, 0xA1, 0x20, 0x3A, 0x20, 0xA1, 0xC3, 0x20, 0xB0, 0xEC, 0x20, 0xB8, 0xFD, 0x0A,
];

// "丂 : 一 勹\n": the kanji is a 3-byte EUC-JP token, the radicals are 2-byte
const KANJI_LINE2: &[u8] = &[
    0x8F, 0xB0, 0xA1, 0x20, 0x3A, 0x20, 0xB0, 0xEC, 0x20, 0xD2, 0xB1, 0x0A,
];

const COMMENT_LINE: &[u8] = "# September 2007\n".as_bytes();

fn table() -> CodepointTable {
    CodepointTable::new(vec![
        (0xB0A1, '亜'),
        (0xA1C3, '｜'),
        (0xB0EC, '一'),
        (0xB8FD, '口'),
        (0xD2B1, '勹'),
    ])
}

fn parsed_kanji() -> Decomposition {
    Decomposition {
        kanji: "亜".to_string(),
        radicals: vec!["｜".to_string(), "一".to_string(), "口".to_string()],
    }
}

fn parsed_kanji_2() -> Decomposition {
    Decomposition {
        kanji: "丂".to_string(),
        radicals: vec!["一".to_string(), "勹".to_string()],
    }
}

#[test]
fn is_comment() {
    assert!(krad::is_comment("# September 2007".as_bytes()));
}

#[test]
fn is_comment_short() {
    assert!(krad::is_comment("#".as_bytes()));
}

#[test]
fn not_a_comment() {
    assert!(!krad::is_comment("x# y".as_bytes()));
    assert!(!krad::is_comment("".as_bytes()));
}

#[test]
fn multiple_comment_lines() {
    let buf = [COMMENT_LINE, COMMENT_LINE, KANJI_LINE].concat();
    let res = parse_bytes(&buf, &table());
    assert_eq!(res.unwrap(), vec![parsed_kanji()]);
}

#[test]
fn parses_radical() {
    let res = krad::decode_jis(&[0xA1, 0xC3], &table());
    assert_eq!(res.unwrap(), "｜".to_string());
}

#[test]
fn parses_radicals() {
    let res = parse_bytes(KANJI_LINE, &table());
    assert_eq!(res.unwrap()[0].radicals, parsed_kanji().radicals);
}

#[test]
fn parses_kanji() {
    let res = krad::kanji_line(&KANJI_LINE[..13], &table());
    assert_eq!(res.unwrap(), parsed_kanji());
}

#[test]
fn parses_kanji_2() {
    let res = krad::kanji_line(&KANJI_LINE2[..11], &table());
    assert_eq!(res.unwrap(), parsed_kanji_2());
}

#[test]
fn parses_line_as_kanji() {
    let res = parse_bytes(KANJI_LINE, &table());
    assert_eq!(res.unwrap(), vec![parsed_kanji()]);
}

#[test]
fn ignores_comment() {
    let buf = [COMMENT_LINE, KANJI_LINE].concat();
    let res = parse_bytes(&buf, &table());
    assert_eq!(res.unwrap(), vec![parsed_kanji()]);
}

#[test]
fn parses_lines() {
    let buf = [KANJI_LINE, COMMENT_LINE, KANJI_LINE].concat();
    let res = parse_bytes(&buf, &table());
    assert_eq!(res.unwrap(), vec![parsed_kanji(), parsed_kanji()]);
}

#[test]
fn trailing_comment_is_ignored() {
    let buf = [KANJI_LINE, COMMENT_LINE].concat();
    let res = parse_bytes(&buf, &table());
    assert_eq!(res.unwrap(), vec![parsed_kanji()]);
}

#[test]
fn empty_input_fails() {
    let res = parse_bytes(&[], &table());
    assert!(matches!(res.unwrap_err(), KradError::Parse));
}

#[test]
fn comment_only_input_fails() {
    let buf = [COMMENT_LINE, COMMENT_LINE].concat();
    let res = parse_bytes(&buf, &table());
    assert!(matches!(res.unwrap_err(), KradError::Parse));
}

#[test]
fn missing_trailing_newline_fails() {
    let res = parse_bytes(&KANJI_LINE[..13], &table());
    assert!(matches!(res.unwrap_err(), KradError::Parse));
}

#[test]
fn missing_separator_fails() {
    // "亜 ｜\n": two fields with no " : " between them
    let buf: &[u8] = &[0xB0, 0xA1, 0x20, 0xA1, 0xC3, 0x0A];
    let res = parse_bytes(buf, &table());
    assert!(matches!(res.unwrap_err(), KradError::Parse));
}

#[test]
fn empty_kanji_field_fails() {
    // " : ｜\n"
    let buf: &[u8] = &[0x20, 0x3A, 0x20, 0xA1, 0xC3, 0x0A];
    let res = parse_bytes(buf, &table());
    assert!(matches!(res.unwrap_err(), KradError::Parse));
}

#[test]
fn empty_radical_field_fails() {
    // "亜 :  ｜\n": the doubled space leaves an empty field
    let buf: &[u8] = &[0xB0, 0xA1, 0x20, 0x3A, 0x20, 0x20, 0xA1, 0xC3, 0x0A];
    let res = parse_bytes(buf, &table());
    assert!(matches!(res.unwrap_err(), KradError::Parse));
}

#[test]
fn empty_line_fails() {
    let buf = [KANJI_LINE, "\n".as_bytes(), KANJI_LINE].concat();
    let res = parse_bytes(&buf, &table());
    assert!(matches!(res.unwrap_err(), KradError::Parse));
}

#[test]
fn parse_is_idempotent() {
    let buf = [COMMENT_LINE, KANJI_LINE, KANJI_LINE2].concat();
    let first = parse_bytes(&buf, &table());
    let second = parse_bytes(&buf, &table());
    assert_eq!(first.unwrap(), second.unwrap());
}

#[test]
fn scenario_mixed_encodings() {
    let res = parse_bytes(KANJI_LINE2, &table());
    assert_eq!(res.unwrap(), vec![parsed_kanji_2()]);
}

#[test]
fn scenario_comment_then_record() {
    let buf = ["# note\n".as_bytes(), &[0x8F, 0xB0, 0xA1, 0x20, 0x3A, 0x20, 0xB0, 0xEC, 0x0A]]
        .concat();
    let res = parse_bytes(&buf, &table()).unwrap();
    assert_eq!(res.len(), 1);
    assert_eq!(res[0].kanji, "丂".to_string());
    assert_eq!(res[0].radicals, vec!["一".to_string()]);
}

#[test]
fn works_on_actual_file() {
    let mut buf: Vec<u8> = Vec::new();
    buf.extend_from_slice(COMMENT_LINE);
    for _ in 0..6_355 {
        buf.extend_from_slice(KANJI_LINE);
    }
    let res = parse_bytes(&buf, &table());
    assert_eq!(res.is_ok(), true);
    assert_eq!(res.unwrap().len(), 6_355);
}

#[test]
fn works_on_actual_file_2() {
    let mut buf: Vec<u8> = Vec::new();
    for _ in 0..5_801 {
        buf.extend_from_slice(KANJI_LINE2);
        buf.extend_from_slice(COMMENT_LINE);
    }
    let res = parse_bytes(&buf, &table());
    assert_eq!(res.is_ok(), true);
    assert_eq!(res.unwrap().len(), 5_801);
}
