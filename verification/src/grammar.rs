use vstd::prelude::*;
use crate::split::{spec_split, split_on};

verus! {

/// The comment marker `#`, the space, the colon and the newline byte.
pub open spec fn comment_byte() -> u8 {
    35
}

pub open spec fn space_byte() -> u8 {
    32
}

pub open spec fn colon_byte() -> u8 {
    58
}

pub open spec fn newline_byte() -> u8 {
    10
}

/// A comment line: its first byte is the comment marker.
pub open spec fn is_comment_line(line: Seq<u8>) -> bool {
    line.len() > 0 && line[0] == comment_byte()
}

/// Whether a line (without its terminator) matches the data-line grammar
/// `kanji " : " radical (" " radical)*` with non-empty fields: split on the
/// space byte, it must read `kanji`, `":"`, and one or more radicals.
pub open spec fn line_is_data(line: Seq<u8>) -> bool {
    let parts = spec_split(line, space_byte());
    &&& parts.len() >= 3
    &&& parts[0].len() > 0
    &&& parts[1] == seq![colon_byte()]
    &&& forall|i: int| 2 <= i < parts.len() ==> #[trigger] parts[i].len() > 0
}

/// The raw tokens of a data line: the kanji field, then each radical field.
pub open spec fn line_token_parts(line: Seq<u8>) -> Seq<Seq<u8>> {
    let parts = spec_split(line, space_byte());
    seq![parts[0]] + parts.skip(2)
}

/// The raw tokens of a line that matches the data-line grammar.
pub open spec fn line_tokens(line: Seq<u8>) -> Option<Seq<Seq<u8>>> {
    if line_is_data(line) {
        Some(line_token_parts(line))
    } else {
        None
    }
}

/// The buffer ends with the line terminator.
pub open spec fn ends_with_newline(b: Seq<u8>) -> bool {
    b.len() > 0 && b[b.len() - 1] == newline_byte()
}

/// The lines of a terminated buffer, without their terminators.
pub open spec fn input_lines(b: Seq<u8>) -> Seq<Seq<u8>> {
    spec_split(b.take(b.len() - 1), newline_byte())
}

/// The non-comment lines of the buffer, in order.
pub open spec fn spec_data_lines(b: Seq<u8>) -> Seq<Seq<u8>> {
    input_lines(b).filter(|l: Seq<u8>| !is_comment_line(l))
}

/// The whole-buffer grammar: the buffer ends with a newline, every
/// non-comment line matches the data-line grammar, and at least one data
/// line is present.
pub open spec fn grammar_ok(b: Seq<u8>) -> bool {
    &&& ends_with_newline(b)
    &&& spec_data_lines(b).len() > 0
    &&& forall|i: int|
        0 <= i < spec_data_lines(b).len() ==> line_tokens(
            #[trigger] spec_data_lines(b)[i],
        ) is Some
}

/// The raw records of a grammatical buffer: per data line, its tokens.
pub open spec fn raw_records(b: Seq<u8>) -> Seq<Seq<Seq<u8>>> {
    spec_data_lines(b).map_values(|l: Seq<u8>| line_tokens(l)->Some_0)
}

/// Whether a line is a comment line.
pub fn is_comment(line: &[u8]) -> (r: bool)
    ensures
        r == is_comment_line(line@),
{
    line.len() > 0 && line[0] == 35
}

/// Extracts the raw tokens of a single data line (without its terminator),
/// or nothing where the line does not match the data-line grammar.
pub fn tokenize_line(line: &[u8]) -> (r: Option<Vec<Vec<u8>>>)
    ensures
        r matches Some(ts) ==> line_tokens(line@) == Some(ts.deep_view()),
        r is None ==> line_tokens(line@) is None,
{
    let mut parts = split_on(line, 32);
    let ghost parts_dv = parts.deep_view();
    if parts.len() < 3 {
        return None;
    }
    proof {
        crate::split::lemma_dv_index(&parts, 0);
    }
    if parts[0].len() == 0 {
        return None;
    }
    proof {
        crate::split::lemma_dv_index(&parts, 1);
    }
    if parts[1].len() != 1 || parts[1][0] != 58 {
        proof {
            assert(parts_dv[1] != seq![colon_byte()]);
        }
        return None;
    }
    proof {
        assert(parts_dv[1] =~= seq![colon_byte()]);
    }
    let mut i: usize = 2;
    while i < parts.len()
        invariant
            2 <= i <= parts_dv.len(),
            parts.deep_view() == parts_dv,
            parts_dv == spec_split(line@, space_byte()),
            parts_dv.len() >= 3,
            parts_dv[0].len() > 0,
            parts_dv[1] == seq![colon_byte()],
            forall|j: int| 2 <= j < i ==> #[trigger] parts_dv[j].len() > 0,
        decreases parts_dv.len() - i,
    {
        proof {
            crate::split::lemma_dv_index(&parts, i as int);
        }
        if parts[i].len() == 0 {
            proof {
                let sparts = spec_split(line@, space_byte());
                assert(sparts[i as int].len() == 0);
                assert(!line_is_data(line@));
            }
            return None;
        }
        i += 1;
    }
    parts.remove(1);
    proof {
        assert(parts.deep_view() =~= seq![parts_dv[0]] + parts_dv.skip(2));
    }
    Some(parts)
}

} // verus!
