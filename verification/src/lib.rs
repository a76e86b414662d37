//! Parsing of kanji-to-radical decomposition dictionaries.
//!
//! A dictionary file is a sequence of newline-terminated lines: comment lines
//! (first byte `#`) and data lines of the form `kanji " : " radical [" " radical]*`.
//! Every field is a raw token of legacy-encoded bytes: a 2-byte token is a
//! big-endian codepoint resolved through a caller-supplied lookup table, a
//! 3-byte token is decoded as strict EUC-JP.

pub mod split;
pub mod decode;
pub mod grammar;
pub mod laws;
pub mod parse;
pub mod records;
pub mod table;

pub use decode::{bytes_to_u32, decode_jis};
pub use grammar::{is_comment, tokenize_line};
pub use parse::{decode_record, kanji_line, parse_bytes, parse_raw};
pub use records::{Decomposition, KradError};
pub use split::split_on;
pub use table::CodepointTable;
