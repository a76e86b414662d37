use vstd::prelude::*;
use crate::records::KradError;
use crate::table::CodepointTable;

verus! {

/// The big-endian value of a byte sequence.
pub open spec fn be_val(s: Seq<u8>) -> int
    decreases s.len(),
{
    if s.len() == 0 {
        0
    } else {
        be_val(s.drop_last()) * 256 + s.last()
    }
}

pub proof fn lemma_be_val_bound(s: Seq<u8>)
    ensures
        0 <= be_val(s),
        s.len() == 0 ==> be_val(s) < 1,
        s.len() == 1 ==> be_val(s) < 0x100,
        s.len() == 2 ==> be_val(s) < 0x10000,
        s.len() == 3 ==> be_val(s) < 0x1000000,
        s.len() == 4 ==> be_val(s) < 0x100000000,
    decreases s.len(),
{
    if s.len() != 0 {
        lemma_be_val_bound(s.drop_last());
    }
}

/// Combines at most four bytes, big-endian, into one numeric value.
pub fn bytes_to_u32(b: &[u8]) -> (r: u32)
    requires
        b@.len() <= 4,
    ensures
        r as int == be_val(b@),
{
    let mut out: u32 = 0;
    let mut i: usize = 0;
    proof {
        assert(b@.take(0) =~= Seq::<u8>::empty());
    }
    while i < b.len()
        invariant
            0 <= i <= b@.len() <= 4,
            out as int == be_val(b@.take(i as int)),
        decreases b@.len() - i,
    {
        proof {
            assert(b@.take(i + 1).drop_last() =~= b@.take(i as int));
            assert(b@.take(i + 1).last() == b@[i as int]);
            lemma_be_val_bound(b@.take(i + 1));
        }
        out = out * 256 + (b[i] as u32);
        i += 1;
    }
    proof {
        assert(b@.take(b@.len() as int) =~= b@);
    }
    out
}

/// What strict EUC-JP decoding makes of a byte sequence: the decoded text, or
/// nothing where the bytes are not a valid sequence.
pub uninterp spec fn euc_jp_decoding(bytes: Seq<u8>) -> Option<Seq<char>>;

/// Relies on encoding's `EUCJPEncoding::decode` under `DecoderTrap::Strict`:
/// it decodes the whole byte slice as EUC-JP text, returns an error on any
/// malformed or incomplete sequence, and its result depends on the input
/// bytes alone.
#[verifier::external_body]
fn euc_decode_strict(b: &[u8]) -> (r: Option<String>)
    ensures
        r matches Some(s) ==> euc_jp_decoding(b@) == Some(s@),
        r is None ==> euc_jp_decoding(b@) is None,
{
    encoding::Encoding::decode(
        &encoding::codec::japanese::EUCJPEncoding,
        b,
        encoding::DecoderTrap::Strict,
    ).ok()
}

/// Relies on `String::push`: the pushed character is appended to the text.
#[verifier::external_body]
fn char_to_string(c: char) -> (r: String)
    ensures
        r@ == seq![c],
{
    let mut s = String::new();
    s.push(c);
    s
}

/// What decoding one raw token under the codepoint table `tbl` yields: the
/// canonical text, or the error named by the failing decode rule.
pub open spec fn spec_decode_token(t: Seq<u8>, tbl: Map<u16, char>) -> Result<Seq<char>, KradError> {
    if t.len() == 2 {
        let code = be_val(t) as u16;
        if tbl.contains_key(code) {
            Ok(seq![tbl[code]])
        } else {
            Err(KradError::Jis)
        }
    } else if t.len() == 3 {
        match euc_jp_decoding(t) {
            Some(s) => Ok(s),
            None => Err(KradError::EucJp),
        }
    } else {
        Err(KradError::Length)
    }
}

/// Decodes one raw token: a 2-byte token through the codepoint table, a
/// 3-byte token as strict EUC-JP, any other length fails.
pub fn decode_jis(b: &[u8], table: &CodepointTable) -> (r: Result<String, KradError>)
    ensures
        match r {
            Ok(s) => spec_decode_token(b@, table@) == Ok::<Seq<char>, KradError>(s@),
            Err(e) => spec_decode_token(b@, table@) == Err::<Seq<char>, KradError>(e),
        },
{
    if b.len() == 2 {
        proof {
            lemma_be_val_bound(b@);
        }
        let code_wide = bytes_to_u32(b);
        let code = code_wide as u16;
        match table.lookup(code) {
            Some(c) => Ok(char_to_string(c)),
            None => Err(KradError::Jis),
        }
    } else if b.len() == 3 {
        match euc_decode_strict(b) {
            Some(s) => Ok(s),
            None => Err(KradError::EucJp),
        }
    } else {
        Err(KradError::Length)
    }
}

} // verus!
