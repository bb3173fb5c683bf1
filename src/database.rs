//! The card database: records keyed by card name, first record of a name wins.
use vstd::prelude::*;

use crate::types::BulkEntry;

verus! {

/// The first record of `s` named `n`.
pub open spec fn lookup(s: Seq<BulkEntry>, n: Seq<char>) -> Option<BulkEntry>
    decreases s.len(),
{
    if s.len() == 0 {
        None
    } else if lookup(s.drop_last(), n) is Some {
        lookup(s.drop_last(), n)
    } else if s.last().name@ == n {
        Some(s.last())
    } else {
        None
    }
}

/// The records of `s` whose name no earlier record has.
pub open spec fn dedup(s: Seq<BulkEntry>) -> Seq<BulkEntry>
    decreases s.len(),
{
    if s.len() == 0 {
        Seq::empty()
    } else if lookup(s.drop_last(), s.last().name@) is Some {
        dedup(s.drop_last())
    } else {
        dedup(s.drop_last()).push(s.last())
    }
}

/// The names of the records of `s` that an earlier record of the same name shadows.
pub open spec fn duplicates(s: Seq<BulkEntry>) -> Seq<Seq<char>>
    decreases s.len(),
{
    if s.len() == 0 {
        Seq::empty()
    } else if lookup(s.drop_last(), s.last().name@) is Some {
        duplicates(s.drop_last()).push(s.last().name@)
    } else {
        duplicates(s.drop_last())
    }
}

/// The card database. No two of its records share a name.
pub struct BulkDB(Vec<BulkEntry>);

impl View for BulkDB {
    type V = Seq<BulkEntry>;

    closed spec fn view(&self) -> Seq<BulkEntry> {
        self.0@
    }
}

/// Removing the shadowed records changes the answer to no lookup.
pub proof fn lemma_dedup_lookup(s: Seq<BulkEntry>, n: Seq<char>)
    ensures
        lookup(dedup(s), n) == lookup(s, n),
    decreases s.len(),
{
    if s.len() > 0 {
        lemma_dedup_lookup(s.drop_last(), n);
        if lookup(s.drop_last(), s.last().name@) is None {
            assert(dedup(s).drop_last() =~= dedup(s.drop_last()));
        }
    }
}

/// Building the database from a list keeps, of the records that share a name,
/// the first, and reports each later one: every name then finds in the database
/// the record that it finds first in the list.
pub proof fn lemma_first_record_wins(value: Seq<BulkEntry>, n: Seq<char>)
    ensures
        lookup(dedup(value), n) == lookup(value, n),
        dedup(value).len() + duplicates(value).len() == value.len(),
    decreases value.len(),
{
    lemma_dedup_lookup(value, n);
    if value.len() > 0 {
        lemma_first_record_wins(value.drop_last(), n);
    }
}

/// Searches `s` from the front for a record named `name`.
fn find_index(s: &Vec<BulkEntry>, name: &String) -> (r: Option<usize>)
    ensures
        lookup(s@, name@) is None ==> r is None,
        lookup(s@, name@) is Some ==> r is Some && r->Some_0 < s.len() && s@[r->Some_0 as int]
            == lookup(s@, name@)->Some_0,
{
    let mut i: usize = 0;
    while i < s.len()
        invariant
            i <= s.len(),
            lookup(s@.take(i as int), name@) is None,
        decreases s.len() - i,
    {
        assert(s@.take(i + 1).drop_last() =~= s@.take(i as int));
        if s[i].name == *name {
            proof {
                lemma_lookup_prefix(s@, (i + 1) as int, name@);
            }
            return Some(i);
        }
        i = i + 1;
    }
    assert(s@.take(i as int) =~= s@);
    None
}

/// A record found in a prefix is what the whole sequence finds.
proof fn lemma_lookup_prefix(s: Seq<BulkEntry>, k: int, n: Seq<char>)
    requires
        0 <= k <= s.len(),
        lookup(s.take(k), n) is Some,
    ensures
        lookup(s, n) == lookup(s.take(k), n),
    decreases s.len() - k,
{
    if k < s.len() {
        assert(s.take(k + 1).drop_last() =~= s.take(k));
        lemma_lookup_prefix(s, k + 1, n);
    } else {
        assert(s.take(k) =~= s);
    }
}

impl BulkDB {
    /// Builds the database from a list of records. Where records share a name
    /// the first is kept; the names of the others are returned, one per record
    /// discarded, in list order.
    pub fn from_entries(value: Vec<BulkEntry>) -> (r: (BulkDB, Vec<String>))
        ensures
            r.0@ == dedup(value@),
            r.1.len() == duplicates(value@).len(),
            forall|i: int| 0 <= i < r.1.len() ==> r.1[i]@ == #[trigger] duplicates(value@)[i],
    {
        let ghost all = value@;
        let mut kept: Vec<BulkEntry> = Vec::new();
        let mut dups: Vec<String> = Vec::new();
        for item in it: value
            invariant
                all == it.seq(),
                kept@ == dedup(all.take(it.index() as int)),
                dups.len() == duplicates(all.take(it.index() as int)).len(),
                forall|i: int|
                    0 <= i < dups.len() ==> dups[i]@ == #[trigger] duplicates(
                        all.take(it.index() as int),
                    )[i],
        {
            let ghost prefix = all.take(it.index() as int);
            let ghost next = all.take(it.index() + 1);
            assert(next.drop_last() =~= prefix);
            proof {
                lemma_dedup_lookup(prefix, item.name@);
            }
            match find_index(&kept, &item.name) {
                Some(_) => {
                    dups.push(item.name);
                },
                None => {
                    kept.push(item);
                },
            }
        }
        assert(all.take(all.len() as int) =~= all);
        (BulkDB(kept), dups)
    }

    pub fn len(&self) -> (r: usize)
        ensures
            r == self@.len(),
    {
        self.0.len()
    }

    /// The record named `name`, if there is one.
    pub fn get(&self, name: &String) -> (r: Option<&BulkEntry>)
        ensures
            match lookup(self@, name@) {
                None => r is None,
                Some(e) => r is Some && *r->Some_0 == e,
            },
    {
        match find_index(&self.0, name) {
            Some(i) => Some(&self.0[i]),
            None => None,
        }
    }
}

} // verus!
