use vstd::prelude::*;

verus! {

/// The mapping stated by a list of `(code, character)` entries; a later entry
/// for the same code overrides an earlier one.
pub open spec fn entries_map(entries: Seq<(u16, char)>) -> Map<u16, char>
    decreases entries.len(),
{
    if entries.len() == 0 {
        Map::<u16, char>::empty()
    } else {
        entries_map(entries.drop_last()).insert(entries.last().0, entries.last().1)
    }
}

/// A lookup table from 16-bit legacy codepoints to canonical characters.
///
/// The table itself is external data: the caller supplies the entries, and the
/// decoder only consults them. Its mathematical content is the map `self@`.
pub struct CodepointTable {
    entries: Vec<(u16, char)>,
}

impl View for CodepointTable {
    type V = Map<u16, char>;

    closed spec fn view(&self) -> Map<u16, char> {
        entries_map(self.entries@)
    }
}

impl CodepointTable {
    /// Builds a table from `(code, character)` entries; a later entry for the
    /// same code overrides an earlier one.
    pub fn new(entries: Vec<(u16, char)>) -> (r: CodepointTable)
        ensures
            r@ == entries_map(entries@),
    {
        CodepointTable { entries }
    }

    /// The canonical character for `code`, where the table maps it.
    pub fn lookup(&self, code: u16) -> (r: Option<char>)
        ensures
            r matches Some(c) ==> self@.contains_key(code) && self@[code] == c,
            r is None ==> !self@.contains_key(code),
    {
        let mut found: Option<char> = None;
        let mut i: usize = 0;
        proof {
            assert(self.entries@.take(0) =~= Seq::<(u16, char)>::empty());
        }
        while i < self.entries.len()
            invariant
                0 <= i <= self.entries@.len(),
                ({
                    let m = entries_map(self.entries@.take(i as int));
                    match found {
                        Some(c) => m.contains_key(code) && m[code] == c,
                        None => !m.contains_key(code),
                    }
                }),
            decreases self.entries@.len() - i,
        {
            let (k, v) = self.entries[i];
            if k == code {
                found = Some(v);
            }
            proof {
                assert(self.entries@.take(i + 1).drop_last() =~= self.entries@.take(i as int));
                assert(self.entries@.take(i + 1).last() == self.entries@[i as int]);
            }
            i += 1;
        }
        proof {
            assert(self.entries@.take(self.entries@.len() as int) =~= self.entries@);
        }
        found
    }
}

} // verus!
