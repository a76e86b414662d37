use vstd::prelude::*;
use vstd::slice::{slice_subrange, slice_to_vec};

verus! {

/// The pieces of `s` that lie between occurrences of the byte `sep`.
///
/// Splitting on every occurrence: `n` separators give `n + 1` pieces, and a
/// piece is empty where two separators are adjacent or one stands at an end.
pub open spec fn spec_split(s: Seq<u8>, sep: u8) -> Seq<Seq<u8>>
    decreases s.len(),
{
    if s.len() == 0 {
        seq![Seq::<u8>::empty()]
    } else if s[0] == sep {
        seq![Seq::<u8>::empty()] + spec_split(s.skip(1), sep)
    } else {
        let rest = spec_split(s.skip(1), sep);
        seq![seq![s[0]] + rest[0]] + rest.skip(1)
    }
}

pub proof fn lemma_split_len(s: Seq<u8>, sep: u8)
    ensures
        spec_split(s, sep).len() >= 1,
    decreases s.len(),
{
    if s.len() != 0 {
        lemma_split_len(s.skip(1), sep);
    }
}

/// A sequence without the separator splits into itself alone.
pub proof fn lemma_split_no_sep(s: Seq<u8>, sep: u8)
    requires
        forall|j: int| 0 <= j < s.len() ==> s[j] != sep,
    ensures
        spec_split(s, sep) =~~= seq![s],
    decreases s.len(),
{
    if s.len() != 0 {
        lemma_split_no_sep(s.skip(1), sep);
        let rest = spec_split(s.skip(1), sep);
        assert(seq![s[0]] + rest[0] =~= s);
    }
}

/// Splitting steps over the first occurrence of the separator.
pub proof fn lemma_split_step(s: Seq<u8>, sep: u8, k: int)
    requires
        0 <= k < s.len(),
        s[k] == sep,
        forall|j: int| 0 <= j < k ==> s[j] != sep,
    ensures
        spec_split(s, sep) =~~= seq![s.take(k)] + spec_split(s.skip(k + 1), sep),
    decreases k,
{
    if k == 0 {
        assert(s.take(0) =~= Seq::<u8>::empty());
        assert(s.skip(1) =~= s.skip(k + 1));
    } else {
        let t = s.skip(1);
        assert(forall|j: int| 0 <= j < k - 1 ==> t[j] != sep);
        lemma_split_step(t, sep, k - 1);
        lemma_split_len(t.skip(k), sep);
        assert(t.skip(k) =~= s.skip(k + 1));
        let rest = spec_split(t, sep);
        assert(rest[0] == t.take(k - 1));
        assert(seq![s[0]] + t.take(k - 1) =~= s.take(k));
        assert(rest.skip(1) =~~= spec_split(s.skip(k + 1), sep));
    }
}

/// An element of the deep view of a vector of byte vectors is the view of
/// that element.
pub proof fn lemma_dv_index(v: &Vec<Vec<u8>>, i: int)
    requires
        0 <= i < v@.len(),
    ensures
        v.deep_view()[i] == v@[i]@,
{
    assert(v.deep_view()[i] =~= v@[i]@);
}

/// Splits a byte slice on every occurrence of `sep`.
pub fn split_on(b: &[u8], sep: u8) -> (r: Vec<Vec<u8>>)
    ensures
        r.deep_view() == spec_split(b@, sep),
{
    let mut parts: Vec<Vec<u8>> = Vec::new();
    let mut start: usize = 0;
    let mut i: usize = 0;
    proof {
        assert(parts.deep_view() =~= Seq::<Seq<u8>>::empty());
        assert(b@.skip(0) =~= b@);
    }
    while i < b.len()
        invariant
            0 <= start <= i <= b@.len(),
            forall|j: int| start <= j < i ==> b@[j] != sep,
            spec_split(b@, sep) =~~= parts.deep_view() + spec_split(
                b@.skip(start as int),
                sep,
            ),
        decreases b@.len() - i,
    {
        if b[i] == sep {
            let piece = slice_to_vec(slice_subrange(b, start, i));
            let ghost old_dv = parts.deep_view();
            parts.push(piece);
            proof {
                let t = b@.skip(start as int);
                assert(forall|j: int| 0 <= j < i - start ==> t[j] != sep);
                lemma_split_step(t, sep, i - start);
                assert(t.take(i - start) =~= b@.subrange(start as int, i as int));
                assert(t.skip(i - start + 1) =~= b@.skip(i + 1));
                assert(piece.deep_view() =~= piece@);
                assert(parts.deep_view() =~= old_dv.push(piece@));
                assert(old_dv.push(piece@) =~= old_dv + seq![b@.subrange(start as int, i as int)]);
            }
            start = i + 1;
        }
        i += 1;
    }
    let piece = slice_to_vec(slice_subrange(b, start, b.len()));
    let ghost old_dv = parts.deep_view();
    parts.push(piece);
    proof {
        let t = b@.skip(start as int);
        lemma_split_no_sep(t, sep);
        assert(piece.deep_view() =~= piece@);
        assert(parts.deep_view() =~= old_dv.push(piece@));
        assert(old_dv.push(piece@) =~= old_dv + seq![t]);
    }
    parts
}

} // verus!
