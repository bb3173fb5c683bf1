//! Choosing the database file among the bulk files on offer.
use vstd::prelude::*;

use crate::parser::{chars_of, string_from_chars};
use crate::types::{BulkData, BulkType, List};

verus! {

/// Whether `i` is the first position of `s` that holds a file of kind `kind`.
pub open spec fn is_first_of_kind(s: Seq<BulkData>, kind: BulkType, i: int) -> bool {
    &&& 0 <= i < s.len()
    &&& s[i].bulk_type == kind
    &&& forall|j: int| 0 <= j < i ==> s[j].bulk_type != kind
}

/// The last segment of a `/`-separated path.
pub open spec fn last_segment(p: Seq<char>) -> Seq<char>
    decreases p.len(),
{
    if p.len() == 0 {
        p
    } else if p.last() == '/' {
        Seq::empty()
    } else {
        last_segment(p.drop_last()).push(p.last())
    }
}

impl List {
    /// The position of the first listed file of the given kind.
    pub fn find(&self, kind: BulkType) -> (r: Option<usize>)
        ensures
            match r {
                Some(i) => is_first_of_kind(self.data@, kind, i as int),
                None => forall|j: int| 0 <= j < self.data.len() ==> self.data[j].bulk_type != kind,
            },
    {
        let mut i: usize = 0;
        while i < self.data.len()
            invariant
                i <= self.data.len(),
                forall|j: int| 0 <= j < i ==> self.data[j].bulk_type != kind,
            decreases self.data.len() - i,
        {
            if self.data[i].bulk_type == kind {
                return Some(i);
            }
            i = i + 1;
        }
        None
    }
}

/// The file name that a download path ends in: what follows its last `/`.
pub fn file_name(path: &str) -> (r: String)
    ensures
        r@ == last_segment(path@),
{
    let chars = chars_of(path);
    let mut start: usize = chars.len();
    assert(chars@.take(start as int) =~= path@);
    assert(path@ + chars@.subrange(start as int, start as int) =~= path@);
    while start > 0 && chars[start - 1] != '/'
        invariant
            start <= chars.len(),
            chars@ == path@,
            last_segment(path@) == last_segment(chars@.take(start as int)) + chars@.subrange(
                start as int,
                chars.len() as int,
            ),
        decreases start,
    {
        let ghost t = chars@.take(start as int);
        assert(t.drop_last() =~= chars@.take(start - 1));
        assert(chars@.subrange(start - 1, chars.len() as int) =~= seq![t.last()]
            + chars@.subrange(start as int, chars.len() as int));
        start = start - 1;
    }
    let mut v: Vec<char> = Vec::new();
    let mut i: usize = start;
    while i < chars.len()
        invariant
            start <= i <= chars.len(),
            v@ == chars@.subrange(start as int, i as int),
        decreases chars.len() - i,
    {
        v.push(chars[i]);
        i = i + 1;
        assert(v@ =~= chars@.subrange(start as int, i as int));
    }
    assert(last_segment(chars@.take(start as int)) =~= Seq::<char>::empty());
    string_from_chars(&v)
}

} // verus!
