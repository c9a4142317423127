//! The column index: which position of a row holds which named column.
use vstd::prelude::*;
use crate::value::str_eq;

verus! {

/// Position of `name` among `entries`, the latest entry for a name winning.
pub open spec fn lookup_in(entries: Seq<(Seq<char>, usize)>, name: Seq<char>) -> Option<usize>
    decreases entries.len(),
{
    if entries.len() == 0 {
        None
    } else if entries.last().0 == name {
        Some(entries.last().1)
    } else {
        lookup_in(entries.drop_last(), name)
    }
}

/// A mapping from column name to row position.
pub struct ColumnIndex {
    entries: Vec<(String, usize)>,
}

impl ColumnIndex {
    pub closed spec fn entries_view(&self) -> Seq<(Seq<char>, usize)> {
        self.entries@.map_values(|e: (String, usize)| (e.0@, e.1))
    }

    /// The position of `name`, if the index has it.
    pub open spec fn lookup(&self, name: Seq<char>) -> Option<usize> {
        lookup_in(self.entries_view(), name)
    }

    pub fn new() -> (r: ColumnIndex)
        ensures
            forall|n: Seq<char>| r.lookup(n) is None,
    {
        let r = ColumnIndex { entries: Vec::new() };
        assert(r.entries_view().len() == 0);
        r
    }

    /// Maps `name` to `pos`, replacing an earlier mapping of that name.
    pub fn insert(&mut self, name: &str, pos: usize)
        ensures
            forall|n: Seq<char>|
                #[trigger] final(self).lookup(n) == if n == name@ { Some(pos) } else { old(self).lookup(n) },
    {
        self.entries.push((String::from_str(name), pos));
        assert(self.entries_view() =~= old(self).entries_view().push((name@, pos)));
        assert(self.entries_view().drop_last() =~= old(self).entries_view());
    }

    pub fn get(&self, name: &str) -> (r: Option<usize>)
        ensures
            r == self.lookup(name@),
    {
        let mut i: usize = self.entries.len();
        assert(self.entries_view().subrange(0, i as int) =~= self.entries_view());
        while i > 0
            invariant
                i <= self.entries.len(),
                self.lookup(name@) == lookup_in(self.entries_view().subrange(0, i as int), name@),
            decreases i,
        {
            let e = &self.entries[i - 1];
            assert(self.entries_view().subrange(0, i as int).drop_last()
                =~= self.entries_view().subrange(0, i - 1));
            if str_eq(e.0.as_str(), name) {
                return Some(e.1);
            }
            i = i - 1;
        }
        None
    }
}

/// The index of the demo dataset: category, date and value.
pub fn col_index_map() -> (r: ColumnIndex)
    ensures
        r.lookup("category"@) == Some(0usize),
        r.lookup("date"@) == Some(1usize),
        r.lookup("value"@) == Some(2usize),
        forall|n: Seq<char>| n != "category"@ && n != "date"@ && n != "value"@ ==> r.lookup(n) is None,
{
    proof {
        reveal_strlit("category");
        reveal_strlit("date");
        reveal_strlit("value");
        assert("category"@.len() == 8 && "date"@.len() == 4 && "value"@.len() == 5);
    }
    let mut m = ColumnIndex::new();
    m.insert("category", 0);
    m.insert("date", 1);
    m.insert("value", 2);
    m
}

} // verus!
