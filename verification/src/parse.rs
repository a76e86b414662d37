use vstd::prelude::*;
use crate::decode::spec_decode_token;
use crate::grammar::{
    ends_with_newline, grammar_ok, input_lines, is_comment, is_comment_line, line_tokens,
    raw_records, spec_data_lines, tokenize_line,
};
use crate::decode::decode_jis;
use crate::records::{Decomposition, KradError};
use crate::split::{lemma_dv_index, split_on};
use crate::table::CodepointTable;
use vstd::slice::slice_subrange;

verus! {

/// Decodes a list of raw tokens in order: the decoded texts, or the error of
/// the first token that fails.
pub open spec fn spec_decode_tokens(ts: Seq<Seq<u8>>, tbl: Map<u16, char>) -> Result<
    Seq<Seq<char>>,
    KradError,
>
    decreases ts.len(),
{
    if ts.len() == 0 {
        Ok(Seq::<Seq<char>>::empty())
    } else {
        match spec_decode_token(ts[0], tbl) {
            Ok(s) => match spec_decode_tokens(ts.skip(1), tbl) {
                Ok(rest) => Ok(seq![s] + rest),
                Err(e) => Err(e),
            },
            Err(e) => Err(e),
        }
    }
}

/// The record a data line's decoded field texts form: the kanji text, then
/// the radical texts in order.
pub open spec fn record_model(vals: Seq<Seq<char>>) -> (Seq<char>, Seq<Seq<char>>) {
    (vals[0], vals.skip(1))
}

/// Decodes a list of raw records in order: one record per data line, or the
/// error of the first token that fails.
pub open spec fn spec_decode_records(rs: Seq<Seq<Seq<u8>>>, tbl: Map<u16, char>) -> Result<
    Seq<(Seq<char>, Seq<Seq<char>>)>,
    KradError,
>
    decreases rs.len(),
{
    if rs.len() == 0 {
        Ok(Seq::<(Seq<char>, Seq<Seq<char>>)>::empty())
    } else {
        match spec_decode_tokens(rs[0], tbl) {
            Ok(vals) => match spec_decode_records(rs.skip(1), tbl) {
                Ok(rest) => Ok(seq![record_model(vals)] + rest),
                Err(e) => Err(e),
            },
            Err(e) => Err(e),
        }
    }
}

/// What parsing a whole buffer under the codepoint table `tbl` yields: the
/// decoded records of its data lines in file order, the error of the first
/// raw token that fails to decode, or the grammar error.
pub open spec fn spec_parse(b: Seq<u8>, tbl: Map<u16, char>) -> Result<
    Seq<(Seq<char>, Seq<Seq<char>>)>,
    KradError,
> {
    if grammar_ok(b) {
        spec_decode_records(raw_records(b), tbl)
    } else {
        Err(KradError::Parse)
    }
}

/// Runs the line/record grammar over the whole buffer: the raw records of
/// its data lines in file order, or nothing where the buffer does not
/// conform.
pub fn parse_raw(b: &[u8]) -> (r: Option<Vec<Vec<Vec<u8>>>>)
    ensures
        r matches Some(recs) ==> grammar_ok(b@) && recs.deep_view() == raw_records(b@),
        r is None ==> !grammar_ok(b@),
{
    let ghost keep = |l: Seq<u8>| !is_comment_line(l);
    let ghost toks = |l: Seq<u8>| line_tokens(l)->Some_0;
    if b.len() == 0 {
        return None;
    }
    if b[b.len() - 1] != 10 {
        return None;
    }
    let body = slice_subrange(b, 0, b.len() - 1);
    proof {
        assert(body@ =~= b@.take(b@.len() - 1));
    }
    let lines = split_on(body, 10);
    let mut recs: Vec<Vec<Vec<u8>>> = Vec::new();
    let mut i: usize = 0;
    proof {
        assert(input_lines(b@).take(0) =~= Seq::<Seq<u8>>::empty());
        assert(recs.deep_view() =~= Seq::<Seq<Seq<u8>>>::empty());
        assert(Seq::<Seq<u8>>::empty().filter(keep) =~= Seq::<Seq<u8>>::empty());
        assert(Seq::<Seq<u8>>::empty().map_values(toks) =~= Seq::<Seq<Seq<u8>>>::empty());
    }
    while i < lines.len()
        invariant
            0 <= i <= lines@.len(),
            ends_with_newline(b@),
            lines.deep_view() == input_lines(b@),
            ({
                let dls = input_lines(b@).take(i as int).filter(keep);
                &&& keep == (|l: Seq<u8>| !is_comment_line(l))
                &&& toks == (|l: Seq<u8>| line_tokens(l)->Some_0)
                &&& forall|j: int| 0 <= j < dls.len() ==> (#[trigger] line_tokens(dls[j])) is Some
                &&& recs.deep_view() == dls.map_values(toks)
            }),
        decreases lines@.len() - i,
    {
        proof {
            lemma_dv_index(&lines, i as int);
            let l0 = input_lines(b@)[i as int];
            assert(input_lines(b@).take(i + 1) =~= input_lines(b@).take(i as int).push(l0));
            input_lines(b@).take(i as int).lemma_filter_push(l0, keep);
        }
        let ghost l = input_lines(b@)[i as int];
        let ghost dls_old = input_lines(b@).take(i as int).filter(keep);
        let ghost dls_new = input_lines(b@).take(i + 1).filter(keep);
        if !is_comment(&lines[i]) {
            match tokenize_line(&lines[i]) {
                None => {
                    proof {
                        input_lines(b@).lemma_filter_contains(keep, i as int);
                        if grammar_ok(b@) {
                            let dls = spec_data_lines(b@);
                            let j = choose|j: int| 0 <= j < dls.len() && dls[j] == l;
                            assert(line_tokens(dls[j]) is Some);
                            assert(false);
                        }
                    }
                    return None;
                },
                Some(ts) => {
                    let ghost old_dv = recs.deep_view();
                    recs.push(ts);
                    proof {
                        assert(dls_new =~= dls_old.push(l));
                        assert(recs.deep_view() =~= old_dv.push(ts.deep_view()));
                        assert(dls_new.map_values(toks) =~= dls_old.map_values(toks).push(
                            toks(l),
                        ));
                        assert(forall|j: int|
                            0 <= j < dls_new.len() ==> (#[trigger] line_tokens(dls_new[j])) is Some);
                    }
                },
            }
        } else {
            proof {
                assert(dls_new =~= dls_old);
            }
        }
        i += 1;
    }
    proof {
        assert(input_lines(b@).take(lines@.len() as int) =~= input_lines(b@));
    }
    if recs.len() == 0 {
        proof {
            assert(spec_data_lines(b@).map_values(toks).len() == 0);
            assert(spec_data_lines(b@).len() == 0);
        }
        return None;
    }
    proof {
        assert(recs.deep_view() == raw_records(b@));
        assert(spec_data_lines(b@).len() > 0);
    }
    Some(recs)
}

/// Where every token decodes, token decoding succeeds with the decoded texts.
pub proof fn lemma_decode_tokens_ok(ts: Seq<Seq<u8>>, tbl: Map<u16, char>)
    requires
        forall|i: int| 0 <= i < ts.len() ==> (#[trigger] spec_decode_token(ts[i], tbl)) is Ok,
    ensures
        spec_decode_tokens(ts, tbl) == Ok::<_, KradError>(
            ts.map_values(|t: Seq<u8>| spec_decode_token(t, tbl)->Ok_0),
        ),
    decreases ts.len(),
{
    let f = |t: Seq<u8>| spec_decode_token(t, tbl)->Ok_0;
    if ts.len() == 0 {
        assert(ts.map_values(f) =~= Seq::<Seq<char>>::empty());
    } else {
        lemma_decode_tokens_ok(ts.skip(1), tbl);
        assert(seq![f(ts[0])] + ts.skip(1).map_values(f) =~= ts.map_values(f));
    }
}

/// Where a token fails and every earlier one decodes, token decoding fails
/// with that token's error.
pub proof fn lemma_decode_tokens_err(ts: Seq<Seq<u8>>, tbl: Map<u16, char>, k: int)
    requires
        0 <= k < ts.len(),
        spec_decode_token(ts[k], tbl) is Err,
        forall|i: int| 0 <= i < k ==> (#[trigger] spec_decode_token(ts[i], tbl)) is Ok,
    ensures
        spec_decode_tokens(ts, tbl) == Err::<Seq<Seq<char>>, KradError>(
            spec_decode_token(ts[k], tbl)->Err_0,
        ),
    decreases k,
{
    if k > 0 {
        lemma_decode_tokens_err(ts.skip(1), tbl, k - 1);
    }
}

/// Where every record decodes, record decoding succeeds with the records.
pub proof fn lemma_decode_records_ok(rs: Seq<Seq<Seq<u8>>>, tbl: Map<u16, char>)
    requires
        forall|i: int| 0 <= i < rs.len() ==> (#[trigger] spec_decode_tokens(rs[i], tbl)) is Ok,
    ensures
        spec_decode_records(rs, tbl) == Ok::<_, KradError>(
            rs.map_values(|ts: Seq<Seq<u8>>| record_model(spec_decode_tokens(ts, tbl)->Ok_0)),
        ),
    decreases rs.len(),
{
    let f = |ts: Seq<Seq<u8>>| record_model(spec_decode_tokens(ts, tbl)->Ok_0);
    if rs.len() == 0 {
        assert(rs.map_values(f) =~= Seq::<(Seq<char>, Seq<Seq<char>>)>::empty());
    } else {
        lemma_decode_records_ok(rs.skip(1), tbl);
        assert(seq![f(rs[0])] + rs.skip(1).map_values(f) =~= rs.map_values(f));
    }
}

/// Where a record fails and every earlier one decodes, record decoding fails
/// with that record's error.
pub proof fn lemma_decode_records_err(rs: Seq<Seq<Seq<u8>>>, tbl: Map<u16, char>, k: int)
    requires
        0 <= k < rs.len(),
        spec_decode_tokens(rs[k], tbl) is Err,
        forall|i: int| 0 <= i < k ==> (#[trigger] spec_decode_tokens(rs[i], tbl)) is Ok,
    ensures
        spec_decode_records(rs, tbl) == Err::<Seq<(Seq<char>, Seq<Seq<char>>)>, KradError>(
            spec_decode_tokens(rs[k], tbl)->Err_0,
        ),
    decreases k,
{
    if k > 0 {
        lemma_decode_records_err(rs.skip(1), tbl, k - 1);
    }
}

/// An element of the deep view of a vector of raw records is that record's
/// deep view.
proof fn lemma_dv_index3(v: &Vec<Vec<Vec<u8>>>, i: int)
    requires
        0 <= i < v@.len(),
    ensures
        v.deep_view()[i] == v@[i].deep_view(),
{
}

/// Every raw record of a grammatical buffer has a kanji token and at least
/// one radical token.
pub proof fn lemma_raw_records_wf(b: Seq<u8>)
    requires
        grammar_ok(b),
    ensures
        forall|k: int| 0 <= k < raw_records(b).len() ==> (#[trigger] raw_records(b)[k]).len() >= 2,
{
    assert forall|k: int|
        0 <= k < raw_records(b).len() implies (#[trigger] raw_records(b)[k]).len() >= 2 by {
        let dls = spec_data_lines(b);
        assert(line_tokens(dls[k]) is Some);
    }
}

/// Decodes one raw record's tokens: the kanji, then each radical in order.
pub fn decode_record(ts: &Vec<Vec<u8>>, table: &CodepointTable) -> (r: Result<
    Decomposition,
    KradError,
>)
    requires
        ts.deep_view().len() >= 2,
    ensures
        match r {
            Ok(d) => spec_decode_tokens(ts.deep_view(), table@) matches Ok(vals)
                && d.deep_view() == record_model(vals),
            Err(e) => spec_decode_tokens(ts.deep_view(), table@) == Err::<
                Seq<Seq<char>>,
                KradError,
            >(e),
        },
{
    let ghost tdv = ts.deep_view();
    let ghost tbl = table@;
    let ghost f = |t: Seq<u8>| spec_decode_token(t, tbl)->Ok_0;
    proof {
        lemma_dv_index(ts, 0);
    }
    let kanji = match decode_jis(&ts[0], table) {
        Ok(s) => s,
        Err(e) => {
            proof {
                lemma_decode_tokens_err(tdv, tbl, 0);
            }
            return Err(e);
        },
    };
    let mut radicals: Vec<String> = Vec::new();
    let mut j: usize = 1;
    proof {
        assert(radicals.deep_view() =~= Seq::<Seq<char>>::empty());
        assert(tdv.subrange(1, 1).map_values(f) =~= Seq::<Seq<char>>::empty());
    }
    while j < ts.len()
        invariant
            1 <= j <= tdv.len(),
            tdv == ts.deep_view(),
            tbl == table@,
            f == (|t: Seq<u8>| spec_decode_token(t, tbl)->Ok_0),
            forall|k: int| 0 <= k < j ==> (#[trigger] spec_decode_token(tdv[k], tbl)) is Ok,
            kanji@ == f(tdv[0]),
            radicals.deep_view() == tdv.subrange(1, j as int).map_values(f),
        decreases tdv.len() - j,
    {
        proof {
            lemma_dv_index(ts, j as int);
        }
        match decode_jis(&ts[j], table) {
            Ok(s) => {
                let ghost old_dv = radicals.deep_view();
                radicals.push(s);
                proof {
                    assert(radicals.deep_view() =~= old_dv.push(s@));
                    assert(tdv.subrange(1, j + 1).map_values(f) =~= tdv.subrange(
                        1,
                        j as int,
                    ).map_values(f).push(f(tdv[j as int])));
                }
            },
            Err(e) => {
                proof {
                    lemma_decode_tokens_err(tdv, tbl, j as int);
                }
                return Err(e);
            },
        }
        j += 1;
    }
    proof {
        lemma_decode_tokens_ok(tdv, tbl);
        let vals = tdv.map_values(f);
        assert(radicals.deep_view() =~= vals.skip(1)) by {
            assert(radicals.deep_view() == tdv.subrange(1, tdv.len() as int).map_values(f));
        }
        assert(kanji.deep_view() == vals[0]);
    }
    Ok(Decomposition { kanji, radicals })
}

/// Parses and decodes a single data line (without its terminator): the
/// decomposition it declares, a decoding error, or the grammar error where
/// the line does not match the data-line grammar.
pub fn kanji_line(line: &[u8], table: &CodepointTable) -> (r: Result<Decomposition, KradError>)
    ensures
        line_tokens(line@) is None ==> (r matches Err(e) && e is Parse),
        line_tokens(line@) matches Some(ts) ==> match r {
            Ok(d) => spec_decode_tokens(ts, table@) matches Ok(vals) && d.deep_view()
                == record_model(vals),
            Err(e) => spec_decode_tokens(ts, table@) == Err::<Seq<Seq<char>>, KradError>(e),
        },
{
    match tokenize_line(line) {
        None => Err(KradError::Parse),
        Some(ts) => {
            proof {
                let parts = crate::split::spec_split(line@, crate::grammar::space_byte());
                assert(ts.deep_view().len() == 1 + (parts.len() - 2));
            }
            decode_record(&ts, table)
        },
    }
}

/// The returned value `r` is exactly what `spec_parse` makes of the buffer:
/// equal records on success, the same error on failure.
pub open spec fn parse_result_matches(
    b: Seq<u8>,
    tbl: Map<u16, char>,
    r: Result<Vec<Decomposition>, KradError>,
) -> bool {
    match r {
        Ok(ds) => spec_parse(b, tbl) == Ok::<_, KradError>(ds.deep_view()),
        Err(e) => spec_parse(b, tbl) == Err::<Seq<(Seq<char>, Seq<Seq<char>>)>, KradError>(e),
    }
}

/// Parses the contents of a kradfile or kradfile2 and returns the list of
/// kanji radical decompositions, resolving 2-byte tokens through the given
/// codepoint table.
pub fn parse_bytes(b: &[u8], table: &CodepointTable) -> (r: Result<Vec<Decomposition>, KradError>)
    ensures
        parse_result_matches(b@, table@, r),
{
    let recs = match parse_raw(b) {
        Some(rs) => rs,
        None => {
            return Err(KradError::Parse);
        },
    };
    let ghost rdv = recs.deep_view();
    let ghost tbl = table@;
    let ghost g = |ts: Seq<Seq<u8>>| record_model(spec_decode_tokens(ts, tbl)->Ok_0);
    proof {
        lemma_raw_records_wf(b@);
    }
    let mut out: Vec<Decomposition> = Vec::new();
    let mut i: usize = 0;
    proof {
        assert(out.deep_view() =~= Seq::<(Seq<char>, Seq<Seq<char>>)>::empty());
        assert(rdv.take(0).map_values(g) =~= Seq::<(Seq<char>, Seq<Seq<char>>)>::empty());
    }
    while i < recs.len()
        invariant
            0 <= i <= rdv.len(),
            rdv == recs.deep_view(),
            rdv == raw_records(b@),
            grammar_ok(b@),
            tbl == table@,
            g == (|ts: Seq<Seq<u8>>| record_model(spec_decode_tokens(ts, tbl)->Ok_0)),
            forall|k: int| 0 <= k < rdv.len() ==> (#[trigger] rdv[k]).len() >= 2,
            forall|k: int| 0 <= k < i ==> (#[trigger] spec_decode_tokens(rdv[k], tbl)) is Ok,
            out.deep_view() == rdv.take(i as int).map_values(g),
        decreases rdv.len() - i,
    {
        proof {
            lemma_dv_index3(&recs, i as int);
        }
        match decode_record(&recs[i], table) {
            Ok(d) => {
                let ghost old_dv = out.deep_view();
                proof {
                    assert(d.deep_view() == g(rdv[i as int]));
                }
                out.push(d);
                proof {
                    assert(out.deep_view() =~= old_dv.push(d.deep_view()));
                    assert(rdv.take(i + 1).map_values(g) =~= rdv.take(i as int).map_values(g).push(
                        g(rdv[i as int]),
                    ));
                }
            },
            Err(e) => {
                proof {
                    lemma_decode_records_err(rdv, tbl, i as int);
                }
                return Err(e);
            },
        }
        i += 1;
    }
    proof {
        lemma_decode_records_ok(rdv, tbl);
        assert(rdv.take(rdv.len() as int) =~= rdv);
        assert(out.deep_view() == rdv.map_values(g));
    }
    Ok(out)
}

} // verus!
