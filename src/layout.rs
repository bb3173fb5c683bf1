//! Page layout: each card repeated once per copy, then laid out nine to a page.
use vstd::prelude::*;

use crate::consts::{CARDS_PER_COL, CARDS_PER_PAGE, CARDS_PER_ROW, CARD_HEIGHT, CARD_WIDTH, MARGIN_X, MARGIN_Y};
use crate::types::CardEntry;

verus! {

/// The positions of the physical copies: card `i` repeated `quantity` times, in order.
pub open spec fn expansion(cs: Seq<CardEntry>) -> Seq<int>
    decreases cs.len(),
{
    if cs.len() == 0 {
        Seq::empty()
    } else {
        expansion(cs.drop_last()) + Seq::new(cs.last().quantity as nat, |k: int| (cs.len() - 1) as int)
    }
}

/// The number of physical copies of the cards.
pub open spec fn copies(cs: Seq<CardEntry>) -> nat
    decreases cs.len(),
{
    if cs.len() == 0 {
        0
    } else {
        (copies(cs.drop_last()) + cs.last().quantity) as nat
    }
}

/// The top-left corner of cell `i` of a page: cells fill the first column
/// top to bottom, then the second, then the third.
pub open spec fn grid_x(i: int) -> int {
    CARD_WIDTH * (i / CARDS_PER_ROW as int) + MARGIN_X
}

pub open spec fn grid_y(i: int) -> int {
    CARD_HEIGHT * (i % CARDS_PER_COL as int) + MARGIN_Y
}

/// One physical copy placed on a page: which card, and where its top-left corner goes.
#[derive(Debug, Clone, Copy, PartialEq, Eq, Structural)]
pub struct Placement {
    pub card: usize,
    pub x: usize,
    pub y: usize,
}

/// The top-left corner of cell `i` of a page.
pub fn grid_position(i: usize) -> (r: (usize, usize))
    requires
        i < CARDS_PER_PAGE,
    ensures
        r.0 == grid_x(i as int),
        r.1 == grid_y(i as int),
{
    (CARD_WIDTH * (i / CARDS_PER_ROW) + MARGIN_X, CARD_HEIGHT * (i % CARDS_PER_COL) + MARGIN_Y)
}

proof fn lemma_expansion_len(cs: Seq<CardEntry>)
    ensures
        expansion(cs).len() == copies(cs),
    decreases cs.len(),
{
    if cs.len() > 0 {
        lemma_expansion_len(cs.drop_last());
    }
}

proof fn lemma_copies_prefix(cs: Seq<CardEntry>, j: int)
    requires
        0 <= j <= cs.len(),
    ensures
        copies(cs.take(j)) <= copies(cs),
    decreases cs.len(),
{
    if j == cs.len() {
        assert(cs.take(j) =~= cs);
    } else {
        assert(cs.take(j) =~= cs.drop_last().take(j));
        lemma_copies_prefix(cs.drop_last(), j);
    }
}

/// The copies of one card stand side by side: card `i` fills the `quantity`
/// places that follow the copies of the cards before it.
pub proof fn lemma_copies_adjacent(cs: Seq<CardEntry>, i: int, k: int)
    requires
        0 <= i < cs.len(),
        0 <= k < cs[i].quantity,
    ensures
        copies(cs.take(i)) + k < expansion(cs).len(),
        expansion(cs)[copies(cs.take(i)) + k] == i,
    decreases cs.len(),
{
    let p = cs.drop_last();
    lemma_expansion_len(cs);
    lemma_expansion_len(p);
    if i == cs.len() - 1 {
        assert(cs.take(i) =~= p);
    } else {
        assert(cs.take(i) =~= p.take(i));
        assert(p.take(i + 1).drop_last() =~= p.take(i));
        assert(p[i] == cs[i]);
        lemma_copies_prefix(p, i + 1);
        lemma_copies_adjacent(p, i, k);
    }
}

/// Each card's position, repeated once per copy, in card order.
pub fn expand_copies(cards: &Vec<CardEntry>) -> (r: Vec<usize>)
    ensures
        r@.len() == expansion(cards@).len(),
        forall|k: int| 0 <= k < r.len() ==> r[k] == #[trigger] expansion(cards@)[k],
{
    let mut out: Vec<usize> = Vec::new();
    let mut i: usize = 0;
    while i < cards.len()
        invariant
            i <= cards.len(),
            out.len() == expansion(cards@.take(i as int)).len(),
            forall|k: int| 0 <= k < out.len() ==> out[k] == #[trigger] expansion(cards@.take(i as int))[k],
        decreases cards.len() - i,
    {
        assert(cards@.take(i + 1).drop_last() =~= cards@.take(i as int));
        let q = cards[i].quantity;
        let ghost base = out@;
        let mut c: u32 = 0;
        while c < q
            invariant
                i < cards.len(),
                q == cards@[i as int].quantity,
                c <= q,
                out.len() == base.len() + c,
                forall|k: int| 0 <= k < base.len() ==> out[k] == base[k],
                forall|k: int| base.len() <= k < out.len() ==> out[k] == i,
            decreases q - c,
        {
            out.push(i);
            c = c + 1;
        }
        proof {
            let t = cards@.take(i + 1);
            assert(t.last() == cards@[i as int]);
            assert(expansion(t) == expansion(t.drop_last()) + Seq::new(q as nat, |k: int| i as int));
            assert forall|k: int| 0 <= k < out.len() implies out[k] == #[trigger] expansion(t)[k] by {
                if k >= base.len() {
                    assert(expansion(t)[k] == Seq::new(q as nat, |m: int| i as int)[k - base.len()]);
                }
            }
        }
        i = i + 1;
    }
    assert(cards@.take(i as int) =~= cards@);
    out
}

/// Whether `page` is page `p` of the layout of the copies `e`: as many cells as
/// are left, at most nine, cell `j` holding copy `9 * p + j`.
pub open spec fn is_page(page: Seq<Placement>, e: Seq<int>, p: int) -> bool {
    &&& CARDS_PER_PAGE * p < e.len()
    &&& page.len() == (if e.len() - CARDS_PER_PAGE * p >= CARDS_PER_PAGE {
        CARDS_PER_PAGE as int
    } else {
        e.len() - CARDS_PER_PAGE * p
    })
    &&& forall|j: int|
        0 <= j < page.len() ==> {
            &&& (#[trigger] page[j]).card == e[CARDS_PER_PAGE * p + j]
            &&& page[j].x == grid_x(j)
            &&& page[j].y == grid_y(j)
        }
}

/// Lays the copies out on pages of nine, in order: copy `9 * p + j` goes to cell
/// `j` of page `p`. Every page but the last is full; the last holds the rest.
pub fn plan_pages(cards: &Vec<CardEntry>) -> (r: Vec<Vec<Placement>>)
    ensures
        expansion(cards@).len() <= CARDS_PER_PAGE * r.len(),
        forall|p: int| 0 <= p < r.len() ==> is_page((#[trigger] r[p])@, expansion(cards@), p),
{
    let e = expand_copies(cards);
    let ghost ex = expansion(cards@);
    let n = e.len();
    let mut pages: Vec<Vec<Placement>> = Vec::new();
    let mut start: usize = 0;
    assert(CARDS_PER_PAGE == 9);
    while start < n
        invariant
            n == e.len(),
            ex == expansion(cards@),
            e@.len() == ex.len(),
            forall|k: int| 0 <= k < e.len() ==> e[k] == #[trigger] ex[k],
            start == (if CARDS_PER_PAGE * pages.len() <= n {
                CARDS_PER_PAGE * pages.len()
            } else {
                n as int
            }),
            forall|p: int| 0 <= p < pages.len() ==> is_page((#[trigger] pages[p])@, ex, p),
        decreases n - start,
    {
        let mut page: Vec<Placement> = Vec::new();
        let mut j: usize = 0;
        while j < CARDS_PER_PAGE && j < n - start
            invariant
                start < n,
                n == e.len(),
                j <= CARDS_PER_PAGE,
                j <= n - start,
                page.len() == j,
                forall|m: int|
                    0 <= m < j ==> {
                        &&& (#[trigger] page[m]).card == e[start + m]
                        &&& page[m].x == grid_x(m)
                        &&& page[m].y == grid_y(m)
                    },
            decreases CARDS_PER_PAGE - j,
        {
            let (x, y) = grid_position(j);
            page.push(Placement { card: e[start + j], x, y });
            j = j + 1;
        }
        assert(j == CARDS_PER_PAGE || j == n - start);
        assert(start == CARDS_PER_PAGE * pages.len());
        let ghost prev = pages@;
        assert(is_page(page@, ex, prev.len() as int));
        pages.push(page);
        start = start + j;
        assert(pages.len() == prev.len() + 1);
        assert(CARDS_PER_PAGE * pages.len() == CARDS_PER_PAGE * prev.len() + CARDS_PER_PAGE) by (nonlinear_arith)
            requires
                pages.len() == prev.len() + 1,
        ;
        assert forall|p: int| 0 <= p < pages.len() implies is_page((#[trigger] pages[p])@, ex, p) by {
            if p < prev.len() {
                assert(pages[p] == prev[p]);
            }
        }
    }
    pages
}

} // verus!
