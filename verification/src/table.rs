//! The block table: a mapping from block identifiers to block records.
//! Lookup by identifier is the only access pattern; rendering never mutates
//! the table.

use vstd::prelude::*;
use crate::blocks::BlockRecord;

verus! {

pub open spec fn entries_map(s: Seq<(String, BlockRecord)>) -> Map<Seq<char>, BlockRecord>
    decreases s.len(),
{
    if s.len() == 0 {
        Map::empty()
    } else {
        entries_map(s.drop_last()).insert(s.last().0@, s.last().1)
    }
}

pub open spec fn unique_keys(s: Seq<(String, BlockRecord)>) -> bool {
    forall|i: int, j: int| 0 <= i < j < s.len() ==> s[i].0@ != s[j].0@
}

proof fn lemma_entries_map_contains(s: Seq<(String, BlockRecord)>, k: Seq<char>)
    ensures
        entries_map(s).contains_key(k) <==> exists|j: int| 0 <= j < s.len() && s[j].0@ == k,
    decreases s.len(),
{
    if s.len() > 0 {
        lemma_entries_map_contains(s.drop_last(), k);
        if entries_map(s).contains_key(k) {
            if s.last().0@ == k {
                assert(s[s.len() - 1].0@ == k);
            } else {
                let j = choose|j: int| 0 <= j < s.len() - 1 && s.drop_last()[j].0@ == k;
                assert(s[j].0@ == k);
            }
        }
        if exists|j: int| 0 <= j < s.len() && s[j].0@ == k {
            let j = choose|j: int| 0 <= j < s.len() && s[j].0@ == k;
            if j < s.len() - 1 {
                assert(s.drop_last()[j].0@ == k);
            }
        }
    }
}

proof fn lemma_entries_map_at(s: Seq<(String, BlockRecord)>, j: int)
    requires
        unique_keys(s),
        0 <= j < s.len(),
    ensures
        entries_map(s).contains_key(s[j].0@),
        entries_map(s)[s[j].0@] == s[j].1,
    decreases s.len(),
{
    lemma_entries_map_contains(s, s[j].0@);
    if j < s.len() - 1 {
        assert(unique_keys(s.drop_last()));
        assert(s.drop_last()[j] == s[j]);
        lemma_entries_map_at(s.drop_last(), j);
        assert(s.last().0@ != s[j].0@);
    }
}

/// The table of blocks, keyed by identifier. Its invariant: no identifier
/// occurs twice among the entries.
pub struct BlockTable {
    entries: Vec<(String, BlockRecord)>,
}

impl View for BlockTable {
    type V = Map<Seq<char>, BlockRecord>;

    closed spec fn view(&self) -> Map<Seq<char>, BlockRecord> {
        entries_map(self.entries@)
    }
}

impl BlockTable {
    #[verifier::type_invariant]
    spec fn wf(self) -> bool {
        unique_keys(self.entries@)
    }

    /// How many blocks the table holds.
    pub closed spec fn size(self) -> nat {
        self.entries@.len()
    }

    /// An empty table.
    pub fn new() -> (r: BlockTable)
        ensures
            r@ == Map::<Seq<char>, BlockRecord>::empty(),
            r.size() == 0,
    {
        BlockTable { entries: Vec::new() }
    }

    /// The number of blocks the table holds.
    pub fn len(&self) -> (r: usize)
        ensures
            r == self.size(),
    {
        self.entries.len()
    }

    /// Binds `id` to `record`, replacing any earlier binding of the same
    /// identifier.
    pub fn insert(&mut self, id: String, record: BlockRecord)
        ensures
            final(self)@ == old(self)@.insert(id@, record),
            old(self)@.contains_key(id@) ==> final(self).size() == old(self).size(),
            !old(self)@.contains_key(id@) ==> final(self).size() == old(self).size() + 1,
    {
        proof {
            use_type_invariant(&*self);
        }
        let mut entries: Vec<(String, BlockRecord)> = Vec::new();
        core::mem::swap(&mut entries, &mut self.entries);
        let ghost s0 = entries@;
        let n = entries.len();
        let mut pos: usize = n;
        let mut i: usize = 0;
        while i < n
            invariant
                0 <= i <= n,
                entries@ == s0,
                n == s0.len(),
                unique_keys(s0),
                pos == n || (pos < i && s0[pos as int].0@ == id@),
                pos == n ==> forall|j: int| 0 <= j < i ==> s0[j].0@ != id@,
            decreases n - i,
        {
            if pos == n && entries[i].0 == id {
                pos = i;
            }
            i += 1;
        }
        if pos < n {
            let ghost p = (id, record);
            entries.set(pos, (id, record));
            proof {
                lemma_entries_map_contains(s0, s0[pos as int].0@);
                lemma_replace_at(s0, pos as int, p);
                assert(entries_map(entries@) =~= entries_map(s0).insert(id@, record));
            }
        } else {
            entries.push((id, record));
            proof {
                lemma_entries_map_contains(s0, id@);
                assert(unique_keys(entries@));
                assert(entries@.drop_last() =~= s0);
                assert(entries_map(entries@) =~= entries_map(s0).insert(id@, record));
            }
        }
        core::mem::swap(&mut entries, &mut self.entries);
    }

    /// Looks an identifier up; `None` exactly when the table has no record
    /// under it.
    pub fn get(&self, id: &String) -> (r: Option<&BlockRecord>)
        ensures
            match r {
                Some(record) => self@.contains_key(id@) && *record == self@[id@],
                None => !self@.contains_key(id@),
            },
    {
        proof {
            use_type_invariant(self);
        }
        let n = self.entries.len();
        let mut i: usize = 0;
        while i < n
            invariant
                0 <= i <= n,
                n == self.entries@.len(),
                unique_keys(self.entries@),
                self@ == entries_map(self.entries@),
                forall|j: int| 0 <= j < i ==> self.entries@[j].0@ != id@,
            decreases n - i,
        {
            if self.entries[i].0 == *id {
                proof {
                    lemma_entries_map_at(self.entries@, i as int);
                }
                return Some(&self.entries[i].1);
            }
            i += 1;
        }
        proof {
            lemma_entries_map_contains(self.entries@, id@);
        }
        None
    }
}

proof fn lemma_replace_at(s: Seq<(String, BlockRecord)>, i: int, p: (String, BlockRecord))
    requires
        unique_keys(s),
        0 <= i < s.len(),
        p.0@ == s[i].0@,
    ensures
        entries_map(s.update(i, p)) == entries_map(s).insert(p.0@, p.1),
        unique_keys(s.update(i, p)),
    decreases s.len(),
{
    let t = s.update(i, p);
    assert forall|a: int, b: int| 0 <= a < b < t.len() implies t[a].0@ != t[b].0@ by {
        assert(t[a].0@ == s[a].0@ && t[b].0@ == s[b].0@);
    }
    if i == s.len() - 1 {
        assert(t.drop_last() =~= s.drop_last());
        assert(entries_map(t) =~= entries_map(s).insert(p.0@, p.1));
    } else {
        assert(t.drop_last() =~= s.drop_last().update(i, p));
        assert(unique_keys(s.drop_last()));
        assert(s.drop_last()[i] == s[i]);
        lemma_replace_at(s.drop_last(), i, p);
        assert(s.last().0@ != s[i].0@);
        assert(entries_map(t) == entries_map(s.drop_last()).insert(p.0@, p.1).insert(
            s.last().0@,
            s.last().1,
        ));
        assert(entries_map(t) =~= entries_map(s).insert(p.0@, p.1));
    }
}

} // verus!
