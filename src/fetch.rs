//! Ordering for the concurrent image fetch: jobs are tagged with their position
//! before dispatch, and results are put back by tag, whatever order they came in.
use vstd::prelude::*;

use crate::resolve::opt_view;
use crate::types::CardEntry;

verus! {

/// The most image fetches that may be in flight at once.
pub const FETCH_CONCURRENCY: usize = 8;

/// The fetches to make: the position and image address of each card that has one, in order.
pub open spec fn jobs(cs: Seq<CardEntry>) -> Seq<(int, Seq<char>)>
    decreases cs.len(),
{
    if cs.len() == 0 {
        Seq::empty()
    } else {
        match cs.last().url {
            Some(u) => jobs(cs.drop_last()).push(((cs.len() - 1) as int, u@)),
            None => jobs(cs.drop_last()),
        }
    }
}

/// The image data that the results give position `i`: that of the last result
/// tagged `i`, or none.
pub open spec fn data_for(rs: Seq<(usize, Option<Vec<u8>>)>, i: int) -> Option<Vec<u8>>
    decreases rs.len(),
{
    if rs.len() == 0 {
        None
    } else if rs.last().0 == i {
        rs.last().1
    } else {
        data_for(rs.drop_last(), i)
    }
}

/// No two results carry the same tag.
pub open spec fn distinct_tags(rs: Seq<(usize, Option<Vec<u8>>)>) -> bool {
    forall|a: int, b: int| 0 <= a < b < rs.len() ==> rs[a].0 != rs[b].0
}

/// Tags each card that has an image address with its position, in order.
/// Cards without an address get no job.
pub fn fetch_jobs(cards: &Vec<CardEntry>) -> (r: Vec<(usize, String)>)
    ensures
        r.len() == jobs(cards@).len(),
        forall|k: int|
            0 <= k < r.len() ==> r[k].0 == (#[trigger] jobs(cards@)[k]).0 && r[k].1@ == jobs(
                cards@,
            )[k].1,
{
    let mut out: Vec<(usize, String)> = Vec::new();
    let mut i: usize = 0;
    while i < cards.len()
        invariant
            i <= cards.len(),
            out.len() == jobs(cards@.take(i as int)).len(),
            forall|k: int|
                0 <= k < out.len() ==> out[k].0 == (#[trigger] jobs(cards@.take(i as int))[k]).0
                    && out[k].1@ == jobs(cards@.take(i as int))[k].1,
        decreases cards.len() - i,
    {
        assert(cards@.take(i + 1).drop_last() =~= cards@.take(i as int));
        match &cards[i].url {
            Some(u) => {
                out.push((i, u.clone()));
            },
            None => {},
        }
        i = i + 1;
    }
    assert(cards@.take(i as int) =~= cards@);
    out
}

/// Puts fetch results back in deck order: card `i` gets the data of the result
/// tagged `i` (the last one, if several are), or none if no result carries its tag.
pub fn assemble_fetched(cards: Vec<CardEntry>, results: Vec<(usize, Option<Vec<u8>>)>) -> (r:
    Vec<CardEntry>)
    ensures
        r.len() == cards.len(),
        forall|i: int|
            0 <= i < r.len() ==> {
                &&& (#[trigger] r[i]).quantity == cards[i].quantity
                &&& r[i].backface == cards[i].backface
                &&& r[i].name == cards[i].name
                &&& r[i].url == cards[i].url
                &&& r[i].data == data_for(results@, i)
            },
{
    let n = cards.len();
    let mut slots: Vec<Option<Vec<u8>>> = Vec::new();
    let mut i: usize = 0;
    while i < n
        invariant
            i <= n,
            slots.len() == i,
            forall|k: int| 0 <= k < i ==> slots[k] is None,
        decreases n - i,
    {
        slots.push(None);
        i = i + 1;
    }
    let ghost rs = results@;
    for res in it: results
        invariant
            rs == it.seq(),
            slots.len() == n,
            forall|k: int|
                0 <= k < n ==> slots[k] == data_for(#[trigger] rs.take(it.index() as int), k),
    {
        let ghost prefix = rs.take(it.index() as int);
        assert(rs.take(it.index() + 1).drop_last() =~= prefix);
        let (tag, data) = res;
        if tag < n {
            slots.set(tag, data);
        }
    }
    assert(rs.take(rs.len() as int) =~= rs);
    let ghost cs = cards@;
    let mut out: Vec<CardEntry> = Vec::new();
    for card in it: cards
        invariant
            cs == it.seq(),
            slots.len() == n,
            n == cs.len(),
            out.len() == it.index(),
            forall|k: int| it.index() <= k < n ==> slots[k] == data_for(rs, k),
            forall|k: int|
                0 <= k < out.len() ==> {
                    &&& (#[trigger] out[k]).quantity == cs[k].quantity
                    &&& out[k].backface == cs[k].backface
                    &&& out[k].name == cs[k].name
                    &&& out[k].url == cs[k].url
                    &&& out[k].data == data_for(rs, k)
                },
    {
        let j = out.len();
        let mut data: Option<Vec<u8>> = None;
        slots.set_and_swap(j, &mut data);
        out.push(
            CardEntry {
                quantity: card.quantity,
                backface: card.backface,
                name: card.name,
                url: card.url,
                data,
            },
        );
    }
    out
}

proof fn lemma_data_for_distinct(rs: Seq<(usize, Option<Vec<u8>>)>, i: int)
    requires
        distinct_tags(rs),
    ensures
        forall|k: int| 0 <= k < rs.len() && rs[k].0 == i ==> data_for(rs, i) == rs[k].1,
        (forall|k: int| 0 <= k < rs.len() ==> rs[k].0 != i) ==> data_for(rs, i) is None,
    decreases rs.len(),
{
    if rs.len() > 0 {
        let p = rs.drop_last();
        assert(distinct_tags(p));
        lemma_data_for_distinct(p, i);
        assert forall|k: int| 0 <= k < rs.len() && rs[k].0 == i implies data_for(rs, i)
            == rs[k].1 by {
            if k < rs.len() - 1 {
                assert(rs[k] == p[k]);
                assert(rs.last().0 != i);
            }
        }
    }
}

/// Which fetch finishes first does not matter: two result sequences that hold
/// the same results, each tag once, give every position the same data.
pub proof fn lemma_completion_order(
    r1: Seq<(usize, Option<Vec<u8>>)>,
    r2: Seq<(usize, Option<Vec<u8>>)>,
    i: int,
)
    requires
        distinct_tags(r1),
        distinct_tags(r2),
        forall|x: (usize, Option<Vec<u8>>)| r1.contains(x) <==> r2.contains(x),
    ensures
        data_for(r1, i) == data_for(r2, i),
{
    lemma_data_for_distinct(r1, i);
    lemma_data_for_distinct(r2, i);
    if exists|k: int| 0 <= k < r1.len() && r1[k].0 == i {
        let k = choose|k: int| 0 <= k < r1.len() && r1[k].0 == i;
        assert(r1.contains(r1[k]));
        assert(r2.contains(r1[k]));
    } else if exists|m: int| 0 <= m < r2.len() && r2[m].0 == i {
        let m = choose|m: int| 0 <= m < r2.len() && r2[m].0 == i;
        assert(r2.contains(r2[m]));
        assert(r1.contains(r2[m]));
    }
}

} // verus!
