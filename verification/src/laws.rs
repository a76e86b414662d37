use vstd::prelude::*;
use crate::decode::spec_decode_token;
use crate::grammar::{
    colon_byte, comment_byte, ends_with_newline, grammar_ok, input_lines, is_comment_line, line_tokens,
    newline_byte, raw_records, space_byte, spec_data_lines,
};
use crate::parse::{
    lemma_decode_records_err, lemma_decode_records_ok, lemma_decode_tokens_err,
    lemma_decode_tokens_ok, parse_result_matches, record_model, spec_decode_tokens, spec_parse,
};
use crate::records::{Decomposition, KradError};
use crate::split::{lemma_split_no_sep, lemma_split_step, spec_split};

verus! {

/// A byte span that can stand as a field of a data line: non-empty, with no
/// space and no newline byte.
pub open spec fn valid_token(t: Seq<u8>) -> bool {
    &&& t.len() > 0
    &&& forall|i: int| 0 <= i < t.len() ==> #[trigger] t[i] != space_byte() && t[i] != newline_byte()
}

/// The radical fields of a data line, joined by single spaces.
pub open spec fn join_sp(rads: Seq<Seq<u8>>) -> Seq<u8>
    decreases rads.len(),
{
    if rads.len() == 0 {
        Seq::<u8>::empty()
    } else if rads.len() == 1 {
        rads[0]
    } else {
        rads[0] + seq![space_byte()] + join_sp(rads.skip(1))
    }
}

/// The bytes of the data line `kanji " : " radical (" " radical)*`.
pub open spec fn data_line_bytes(kanji: Seq<u8>, rads: Seq<Seq<u8>>) -> Seq<u8> {
    kanji + seq![space_byte(), colon_byte(), space_byte()] + join_sp(rads)
}

/// Joined valid radical fields split back into exactly those fields, and the
/// joined bytes contain no newline.
proof fn lemma_join_sp_split(rads: Seq<Seq<u8>>)
    requires
        rads.len() >= 1,
        forall|i: int| 0 <= i < rads.len() ==> #[trigger] valid_token(rads[i]),
    ensures
        spec_split(join_sp(rads), space_byte()) == rads,
        join_sp(rads).len() > 0,
        forall|i: int| 0 <= i < join_sp(rads).len() ==> #[trigger] join_sp(rads)[i] != newline_byte(),
    decreases rads.len(),
{
    if rads.len() == 1 {
        assert(valid_token(rads[0]));
        lemma_split_no_sep(rads[0], space_byte());
        assert(spec_split(join_sp(rads), space_byte()) =~~= rads);
    } else {
        lemma_join_sp_split(rads.skip(1));
        let l = join_sp(rads);
        let r0 = rads[0];
        assert(valid_token(r0));
        assert(forall|j: int| 0 <= j < r0.len() ==> l[j] == r0[j]);
        assert(l[r0.len() as int] == space_byte());
        lemma_split_step(l, space_byte(), r0.len() as int);
        assert(l.take(r0.len() as int) =~= r0);
        assert(l.skip(r0.len() as int + 1) =~= join_sp(rads.skip(1)));
        assert(spec_split(l, space_byte()) =~~= seq![r0] + rads.skip(1));
        assert(seq![r0] + rads.skip(1) =~~= rads);
    }
}

/// A well-formed data line has no newline byte, is no comment line, and its
/// tokens are the kanji field followed by the radical fields.
proof fn lemma_data_line_tokens(kanji: Seq<u8>, rads: Seq<Seq<u8>>)
    requires
        valid_token(kanji),
        kanji[0] != comment_byte(),
        rads.len() >= 1,
        forall|i: int| 0 <= i < rads.len() ==> #[trigger] valid_token(rads[i]),
    ensures
        forall|i: int|
            0 <= i < data_line_bytes(kanji, rads).len() ==> #[trigger] data_line_bytes(
                kanji,
                rads,
            )[i] != newline_byte(),
        !is_comment_line(data_line_bytes(kanji, rads)),
        line_tokens(data_line_bytes(kanji, rads)) == Some(seq![kanji] + rads),
{
    let l = data_line_bytes(kanji, rads);
    lemma_join_sp_split(rads);
    assert(l[0] == kanji[0]);
    // split on the space byte: the first space closes the kanji field
    assert(forall|j: int| 0 <= j < kanji.len() ==> l[j] == kanji[j]);
    assert(l[kanji.len() as int] == space_byte());
    lemma_split_step(l, space_byte(), kanji.len() as int);
    assert(l.take(kanji.len() as int) =~= kanji);
    let m = l.skip(kanji.len() as int + 1);
    assert(m =~= seq![colon_byte()] + seq![space_byte()] + join_sp(rads));
    // the next space closes the one-byte colon field
    assert(m[0] == colon_byte() && colon_byte() != space_byte());
    assert(m[1] == space_byte());
    lemma_split_step(m, space_byte(), 1);
    assert(m.take(1) =~= seq![colon_byte()]);
    assert(m.skip(2) =~= join_sp(rads));
    let parts = spec_split(l, space_byte());
    assert(parts =~~= seq![kanji, seq![colon_byte()]] + rads);
    assert(parts[0] == kanji);
    assert(parts[1] == seq![colon_byte()]);
    assert forall|i: int| 2 <= i < parts.len() implies (#[trigger] parts[i]).len() > 0 by {
        assert(parts[i] == rads[i - 2]);
        assert(valid_token(rads[i - 2]));
    }
    assert(crate::grammar::line_is_data(l));
    assert(crate::grammar::line_token_parts(l) =~~= seq![kanji] + rads);
}

/// For every valid single data line `K " : " R1 (" " R2)*` whose tokens all
/// decode, parsing the line with its terminator yields exactly one record:
/// the decoded kanji and the decoded radicals in declaration order.
pub proof fn lemma_single_data_line(kanji: Seq<u8>, rads: Seq<Seq<u8>>, tbl: Map<u16, char>)
    requires
        valid_token(kanji),
        kanji[0] != comment_byte(),
        rads.len() >= 1,
        forall|i: int| 0 <= i < rads.len() ==> #[trigger] valid_token(rads[i]),
        spec_decode_token(kanji, tbl) is Ok,
        forall|i: int| 0 <= i < rads.len() ==> (#[trigger] spec_decode_token(rads[i], tbl)) is Ok,
    ensures
        spec_parse(data_line_bytes(kanji, rads) + seq![newline_byte()], tbl) == Ok::<_, KradError>(
            seq![
                (
                    spec_decode_token(kanji, tbl)->Ok_0,
                    rads.map_values(|t: Seq<u8>| spec_decode_token(t, tbl)->Ok_0),
                ),
            ],
        ),
{
    let l = data_line_bytes(kanji, rads);
    let b = l + seq![newline_byte()];
    let keep = |x: Seq<u8>| !is_comment_line(x);
    lemma_data_line_tokens(kanji, rads);
    assert(ends_with_newline(b));
    assert(b.take(b.len() - 1) =~= l);
    lemma_split_no_sep(l, newline_byte());
    assert(input_lines(b) =~~= seq![l]);
    assert(seq![l] =~= Seq::<Seq<u8>>::empty().push(l));
    Seq::<Seq<u8>>::empty().lemma_filter_push(l, keep);
    Seq::<Seq<u8>>::empty().lemma_filter_len(keep);
    assert(Seq::<Seq<u8>>::empty().filter(keep) =~= Seq::<Seq<u8>>::empty());
    assert(spec_data_lines(b) =~~= seq![l]);
    assert(grammar_ok(b));
    let toks = seq![kanji] + rads;
    assert(raw_records(b) =~~= seq![toks]);
    let f = |t: Seq<u8>| spec_decode_token(t, tbl)->Ok_0;
    assert(forall|i: int| 0 <= i < toks.len() ==> (#[trigger] spec_decode_token(toks[i], tbl)) is Ok)
        by {
        assert(toks[0] == kanji);
        assert(forall|i: int| 1 <= i < toks.len() ==> toks[i] == rads[i - 1]);
    }
    lemma_decode_tokens_ok(toks, tbl);
    let vals = toks.map_values(f);
    assert forall|k: int|
        0 <= k < seq![toks].len() implies (#[trigger] spec_decode_tokens(seq![toks][k], tbl)) is Ok by {
        assert(seq![toks][k] == toks);
    }
    lemma_decode_records_ok(seq![toks], tbl);
    assert(seq![toks].map_values(|ts: Seq<Seq<u8>>| record_model(spec_decode_tokens(ts, tbl)->Ok_0))
        =~= seq![record_model(vals)]);
    assert(vals[0] == f(kanji));
    assert(vals.skip(1) =~= rads.map_values(f));
    assert(record_model(vals) == (f(kanji), rads.map_values(f)));
    assert(spec_parse(b, tbl) == Ok::<_, KradError>(seq![record_model(vals)]));
}

/// Two terminated buffers with the same data lines parse alike: comment
/// lines produce no record and leave the surrounding records untouched.
pub proof fn lemma_parse_depends_on_data_lines(b1: Seq<u8>, b2: Seq<u8>, tbl: Map<u16, char>)
    requires
        ends_with_newline(b1) == ends_with_newline(b2),
        spec_data_lines(b1) == spec_data_lines(b2),
    ensures
        spec_parse(b1, tbl) == spec_parse(b2, tbl),
{
}

/// The concatenation of the given lines, each closed by the line terminator.
pub open spec fn unlines(ls: Seq<Seq<u8>>) -> Seq<u8>
    decreases ls.len(),
{
    if ls.len() == 0 {
        Seq::<u8>::empty()
    } else {
        ls[0] + seq![newline_byte()] + unlines(ls.skip(1))
    }
}

/// A terminated buffer built from newline-free lines splits back into them.
proof fn lemma_unlines_lines(ls: Seq<Seq<u8>>)
    requires
        ls.len() >= 1,
        forall|i: int, j: int|
            0 <= i < ls.len() && 0 <= j < ls[i].len() ==> #[trigger] ls[i][j] != newline_byte(),
    ensures
        unlines(ls).len() > ls[0].len(),
        ends_with_newline(unlines(ls)),
        input_lines(unlines(ls)) == ls,
    decreases ls.len(),
{
    let u = unlines(ls);
    let l0 = ls[0];
    if ls.len() == 1 {
        assert(ls.skip(1).len() == 0);
        assert(unlines(ls.skip(1)) == Seq::<u8>::empty());
        assert(u =~= l0 + seq![newline_byte()]);
        assert(u.take(u.len() - 1) =~= l0);
        lemma_split_no_sep(l0, newline_byte());
        assert(input_lines(u) =~~= ls);
    } else {
        lemma_unlines_lines(ls.skip(1));
        let rest = unlines(ls.skip(1));
        assert(u =~= l0 + seq![newline_byte()] + rest);
        assert(u[u.len() - 1] == rest[rest.len() - 1]);
        let body = u.take(u.len() - 1);
        assert(body =~= l0 + seq![newline_byte()] + rest.take(rest.len() - 1));
        assert(forall|j: int| 0 <= j < l0.len() ==> body[j] == l0[j]);
        assert(body[l0.len() as int] == newline_byte());
        lemma_split_step(body, newline_byte(), l0.len() as int);
        assert(body.take(l0.len() as int) =~= l0);
        assert(body.skip(l0.len() as int + 1) =~= rest.take(rest.len() - 1));
        assert(input_lines(u) =~~= seq![l0] + input_lines(rest));
        assert(seq![l0] + ls.skip(1) =~~= ls);
    }
}

/// Inserting a comment line at any line position of a terminated buffer
/// leaves the parse result unchanged.
pub proof fn lemma_comment_insertion(
    ls: Seq<Seq<u8>>,
    at: int,
    c: Seq<u8>,
    tbl: Map<u16, char>,
)
    requires
        ls.len() >= 1,
        0 <= at <= ls.len(),
        forall|i: int, j: int|
            0 <= i < ls.len() && 0 <= j < ls[i].len() ==> #[trigger] ls[i][j] != newline_byte(),
        is_comment_line(c),
        forall|j: int| 0 <= j < c.len() ==> #[trigger] c[j] != newline_byte(),
    ensures
        spec_parse(unlines(ls.insert(at, c)), tbl) == spec_parse(unlines(ls), tbl),
{
    let keep = |x: Seq<u8>| !is_comment_line(x);
    let ls2 = ls.insert(at, c);
    lemma_unlines_lines(ls);
    assert(forall|i: int, j: int|
        0 <= i < ls2.len() && 0 <= j < ls2[i].len() ==> #[trigger] ls2[i][j] != newline_byte())
        by {
        assert(forall|i: int| 0 <= i < at ==> ls2[i] == ls[i]);
        assert(ls2[at] == c);
        assert(forall|i: int| at < i < ls2.len() ==> ls2[i] == ls[i - 1]);
    }
    lemma_unlines_lines(ls2);
    assert(ls2 =~= ls.take(at) + seq![c] + ls.skip(at));
    assert(ls =~= ls.take(at) + ls.skip(at));
    Seq::filter_distributes_over_add(ls.take(at) + seq![c], ls.skip(at), keep);
    Seq::filter_distributes_over_add(ls.take(at), seq![c], keep);
    Seq::filter_distributes_over_add(ls.take(at), ls.skip(at), keep);
    assert(seq![c] =~= Seq::<Seq<u8>>::empty().push(c));
    Seq::<Seq<u8>>::empty().lemma_filter_push(c, keep);
    Seq::<Seq<u8>>::empty().lemma_filter_len(keep);
    assert(Seq::<Seq<u8>>::empty().filter(keep) =~= Seq::<Seq<u8>>::empty());
    assert(seq![c].filter(keep) =~= Seq::<Seq<u8>>::empty());
    assert(spec_data_lines(unlines(ls2)) == spec_data_lines(unlines(ls)));
    lemma_parse_depends_on_data_lines(unlines(ls2), unlines(ls), tbl);
}

/// Where the grammar matches and a token fails to decode while every token
/// before it (in file order, the kanji before its radicals) decodes, the
/// whole parse fails with that token's own decoding error — however many
/// valid records precede it.
pub proof fn lemma_first_decode_failure(b: Seq<u8>, tbl: Map<u16, char>, k: int, j: int)
    requires
        grammar_ok(b),
        0 <= k < raw_records(b).len(),
        0 <= j < raw_records(b)[k].len(),
        spec_decode_token(raw_records(b)[k][j], tbl) is Err,
        forall|k2: int, j2: int|
            0 <= k2 < k && 0 <= j2 < raw_records(b)[k2].len() ==> (#[trigger] spec_decode_token(
                raw_records(b)[k2][j2],
                tbl,
            )) is Ok,
        forall|j2: int|
            0 <= j2 < j ==> (#[trigger] spec_decode_token(raw_records(b)[k][j2], tbl)) is Ok,
    ensures
        spec_parse(b, tbl) == Err::<Seq<(Seq<char>, Seq<Seq<char>>)>, KradError>(
            spec_decode_token(raw_records(b)[k][j], tbl)->Err_0,
        ),
{
    let rs = raw_records(b);
    lemma_decode_tokens_err(rs[k], tbl, j);
    assert forall|k2: int| 0 <= k2 < k implies (#[trigger] spec_decode_tokens(rs[k2], tbl)) is Ok by {
        lemma_decode_tokens_ok(rs[k2], tbl);
    }
    lemma_decode_records_err(rs, tbl, k);
}

/// A first-failing 2-byte token whose big-endian code the table does not map
/// fails the whole parse with the unmapped-codepoint error.
pub proof fn lemma_unmapped_code_fails(b: Seq<u8>, tbl: Map<u16, char>, k: int, j: int)
    requires
        grammar_ok(b),
        0 <= k < raw_records(b).len(),
        0 <= j < raw_records(b)[k].len(),
        raw_records(b)[k][j].len() == 2,
        !tbl.contains_key(crate::decode::be_val(raw_records(b)[k][j]) as u16),
        forall|k2: int, j2: int|
            0 <= k2 < k && 0 <= j2 < raw_records(b)[k2].len() ==> (#[trigger] spec_decode_token(
                raw_records(b)[k2][j2],
                tbl,
            )) is Ok,
        forall|j2: int|
            0 <= j2 < j ==> (#[trigger] spec_decode_token(raw_records(b)[k][j2], tbl)) is Ok,
    ensures
        spec_parse(b, tbl) == Err::<Seq<(Seq<char>, Seq<Seq<char>>)>, KradError>(KradError::Jis),
{
    lemma_first_decode_failure(b, tbl, k, j);
}

/// A first-failing 3-byte token that is not a valid strict EUC-JP sequence
/// fails the whole parse with the invalid-sequence error.
pub proof fn lemma_invalid_euc_fails(b: Seq<u8>, tbl: Map<u16, char>, k: int, j: int)
    requires
        grammar_ok(b),
        0 <= k < raw_records(b).len(),
        0 <= j < raw_records(b)[k].len(),
        raw_records(b)[k][j].len() == 3,
        crate::decode::euc_jp_decoding(raw_records(b)[k][j]) is None,
        forall|k2: int, j2: int|
            0 <= k2 < k && 0 <= j2 < raw_records(b)[k2].len() ==> (#[trigger] spec_decode_token(
                raw_records(b)[k2][j2],
                tbl,
            )) is Ok,
        forall|j2: int|
            0 <= j2 < j ==> (#[trigger] spec_decode_token(raw_records(b)[k][j2], tbl)) is Ok,
    ensures
        spec_parse(b, tbl) == Err::<Seq<(Seq<char>, Seq<Seq<char>>)>, KradError>(KradError::EucJp),
{
    lemma_first_decode_failure(b, tbl, k, j);
}

/// Empty input, input that does not end with the line terminator, and input
/// whose lines are all comment lines are rejected with the grammar error.
pub proof fn lemma_grammar_rejects(b: Seq<u8>, tbl: Map<u16, char>)
    ensures
        b.len() == 0 ==> spec_parse(b, tbl) == Err::<Seq<(Seq<char>, Seq<Seq<char>>)>, KradError>(
            KradError::Parse,
        ),
        !ends_with_newline(b) ==> spec_parse(b, tbl) == Err::<
            Seq<(Seq<char>, Seq<Seq<char>>)>,
            KradError,
        >(KradError::Parse),
        (forall|i: int|
            0 <= i < input_lines(b).len() ==> is_comment_line(
                #[trigger] input_lines(b)[i],
            )) ==> spec_parse(b, tbl) == Err::<Seq<(Seq<char>, Seq<Seq<char>>)>, KradError>(
            KradError::Parse,
        ),
{
    if forall|i: int|
        0 <= i < input_lines(b).len() ==> is_comment_line(#[trigger] input_lines(b)[i]) {
        let keep = |x: Seq<u8>| !is_comment_line(x);
        assert(input_lines(b).all(|x: Seq<u8>| !keep(x))) by {
            reveal(Seq::all);
        }
        input_lines(b).lemma_all_neg_filter_empty(keep);
        assert(spec_data_lines(b).len() == 0);
    }
}

/// Parsing is a pure function of the buffer and the table: any two results
/// that `parse_bytes` may return for the same input agree.
pub proof fn lemma_parse_deterministic(
    b: Seq<u8>,
    tbl: Map<u16, char>,
    r1: Result<Vec<Decomposition>, KradError>,
    r2: Result<Vec<Decomposition>, KradError>,
)
    requires
        parse_result_matches(b, tbl, r1),
        parse_result_matches(b, tbl, r2),
    ensures
        r1 is Ok <==> r2 is Ok,
        r1 matches Ok(d1) ==> (r2 matches Ok(d2) && d1.deep_view() == d2.deep_view()),
        r1 matches Err(e1) ==> (r2 matches Err(e2) && e1 == e2),
{
}

} // verus!

