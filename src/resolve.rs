//! Resolution of requests against the card database, splitting multi-faced cards.
use vstd::prelude::*;

use crate::database::{lookup, BulkDB};
use crate::types::{BulkEntry, BulkImageUris, CardEntry, CardLayout};

verus! {

/// A resolved print: quantity, face (`None`, front `Some(false)`, back
/// `Some(true)`), card name and image address.
pub type PrintView = (nat, Option<bool>, Seq<char>, Option<Seq<char>>);

/// The layouts whose two faces are printed as two cards.
pub open spec fn is_face_splitting(l: CardLayout) -> bool {
    l == CardLayout::Transform || l == CardLayout::Flip || l == CardLayout::Meld || l
        == CardLayout::DoubleFacedToken
}

pub open spec fn png_of(u: Option<BulkImageUris>) -> Option<Seq<char>> {
    match u {
        Some(x) => Some(x.png@),
        None => None,
    }
}

pub open spec fn opt_view(u: Option<String>) -> Option<Seq<char>> {
    match u {
        Some(x) => Some(x@),
        None => None,
    }
}

/// Whether a record is printed face by face: a face-splitting layout with two faces listed.
pub open spec fn splits(e: BulkEntry) -> bool {
    is_face_splitting(e.layout) && e.card_faces is Some && e.card_faces->Some_0.len() >= 2
}

/// The faces to print of a record, each with its image address.
pub open spec fn prints_of(e: BulkEntry) -> Seq<(Option<bool>, Option<Seq<char>>)> {
    if splits(e) {
        let f = e.card_faces->Some_0;
        seq![(Some(false), png_of(f@[0].image_uris)), (Some(true), png_of(f@[1].image_uris))]
    } else {
        seq![(None, png_of(e.image_uris))]
    }
}

/// What one request resolves to: nothing when its name is not in the database.
pub open spec fn resolve_request(db: Seq<BulkEntry>, c: CardEntry) -> Seq<PrintView> {
    match lookup(db, c.name@) {
        None => Seq::empty(),
        Some(e) => prints_of(e).map_values(
            |p: (Option<bool>, Option<Seq<char>>)| (c.quantity as nat, p.0, c.name@, p.1),
        ),
    }
}

/// What a sequence of requests resolves to, request by request, in order.
pub open spec fn resolution(db: Seq<BulkEntry>, cs: Seq<CardEntry>) -> Seq<PrintView>
    decreases cs.len(),
{
    if cs.len() == 0 {
        Seq::empty()
    } else {
        resolution(db, cs.drop_last()) + resolve_request(db, cs.last())
    }
}

/// The names of the requests that the database does not know, in order.
pub open spec fn unresolved(db: Seq<BulkEntry>, cs: Seq<CardEntry>) -> Seq<Seq<char>>
    decreases cs.len(),
{
    if cs.len() == 0 {
        Seq::empty()
    } else if lookup(db, cs.last().name@) is None {
        unresolved(db, cs.drop_last()).push(cs.last().name@)
    } else {
        unresolved(db, cs.drop_last())
    }
}

/// Whether `c` is the resolved print `p`, not yet fetched.
pub open spec fn is_print(c: CardEntry, p: PrintView) -> bool {
    &&& c.quantity == p.0
    &&& c.backface == p.1
    &&& c.name@ == p.2
    &&& opt_view(c.url) == p.3
    &&& c.data is None
}

pub fn is_face_splitting_layout(l: CardLayout) -> (r: bool)
    ensures
        r == is_face_splitting(l),
{
    match l {
        CardLayout::Transform | CardLayout::Flip | CardLayout::Meld
        | CardLayout::DoubleFacedToken => true,
        _ => false,
    }
}

fn png_address(u: &Option<BulkImageUris>) -> (r: Option<String>)
    ensures
        opt_view(r) == png_of(*u),
{
    match u {
        Some(x) => Some(x.png.clone()),
        None => None,
    }
}

fn print(c: &CardEntry, backface: Option<bool>, url: Option<String>) -> (r: CardEntry)
    ensures
        is_print(r, (c.quantity as nat, backface, c.name@, opt_view(url))),
{
    CardEntry { quantity: c.quantity, backface, name: c.name.clone(), url, data: None }
}

/// Resolves each request against the database. A request for a record with a
/// face-splitting layout and two faces gives its front and then its back face;
/// any other known request gives one print; an unknown one gives none, and its
/// name is returned among the misses.
pub fn resolve(db: &BulkDB, cards: &Vec<CardEntry>) -> (r: (Vec<CardEntry>, Vec<String>))
    ensures
        r.0.len() == resolution(db@, cards@).len(),
        forall|i: int| 0 <= i < r.0.len() ==> is_print(r.0[i], #[trigger] resolution(db@, cards@)[i]),
        r.1.len() == unresolved(db@, cards@).len(),
        forall|i: int| 0 <= i < r.1.len() ==> r.1[i]@ == #[trigger] unresolved(db@, cards@)[i],
{
    let mut out: Vec<CardEntry> = Vec::new();
    let mut missing: Vec<String> = Vec::new();
    let mut i: usize = 0;
    while i < cards.len()
        invariant
            i <= cards.len(),
            out.len() == resolution(db@, cards@.take(i as int)).len(),
            forall|k: int|
                0 <= k < out.len() ==> is_print(
                    out[k],
                    #[trigger] resolution(db@, cards@.take(i as int))[k],
                ),
            missing.len() == unresolved(db@, cards@.take(i as int)).len(),
            forall|k: int|
                0 <= k < missing.len() ==> missing[k]@ == #[trigger] unresolved(
                    db@,
                    cards@.take(i as int),
                )[k],
        decreases cards.len() - i,
    {
        let c = &cards[i];
        let ghost before = cards@.take(i as int);
        assert(cards@.take(i + 1).drop_last() =~= before);
        let ghost old_out = out@;
        match db.get(&c.name) {
            None => {
                missing.push(c.name.clone());
            },
            Some(e) => {
                let mut split = false;
                if is_face_splitting_layout(e.layout) {
                    match &e.card_faces {
                        Some(f) => {
                            if f.len() >= 2 {
                                split = true;
                                let front = png_address(&f[0].image_uris);
                                out.push(print(c, Some(false), front));
                                let back = png_address(&f[1].image_uris);
                                out.push(print(c, Some(true), back));
                            }
                        },
                        None => {},
                    }
                }
                if !split {
                    let url = png_address(&e.image_uris);
                    out.push(print(c, None, url));
                }
            },
        }
        i = i + 1;
        assert forall|k: int| 0 <= k < out.len() implies is_print(
            out[k],
            #[trigger] resolution(db@, cards@.take(i as int))[k],
        ) by {
            if k >= old_out.len() {
                assert(resolution(db@, cards@.take(i as int))[k] == resolve_request(db@, *c)[k
                    - old_out.len()]);
            }
        }
    }
    assert(cards@.take(i as int) =~= cards@);
    (out, missing)
}

/// One request alone resolves to what it resolves to among others.
proof fn lemma_resolution_single(db: Seq<BulkEntry>, c: CardEntry)
    ensures
        resolution(db, seq![c]) == resolve_request(db, c),
        unresolved(db, seq![c]) == (if lookup(db, c.name@) is None {
            seq![c.name@]
        } else {
            Seq::empty()
        }),
{
    let s = seq![c];
    assert(s.last() == c);
    assert(s.drop_last() =~= Seq::<CardEntry>::empty());
    assert(resolution(db, s.drop_last()) == Seq::<PrintView>::empty());
    assert(unresolved(db, s.drop_last()) == Seq::<Seq<char>>::empty());
    assert(resolution(db, s) =~= resolve_request(db, c));
    assert(unresolved(db, s) =~= (if lookup(db, c.name@) is None {
        seq![c.name@]
    } else {
        Seq::empty()
    }));
}

/// A request for a record with a face-splitting layout and two faces resolves
/// to two prints: the front face, then the back face, each with its own image address.
pub proof fn lemma_split_two_faces(db: Seq<BulkEntry>, c: CardEntry, e: BulkEntry)
    requires
        lookup(db, c.name@) == Some(e),
        is_face_splitting(e.layout),
        e.card_faces is Some,
        e.card_faces->Some_0.len() == 2,
    ensures
        ({
            let r = resolution(db, seq![c]);
            let f = e.card_faces->Some_0;
            &&& r.len() == 2
            &&& r[0] == (c.quantity as nat, Some(false), c.name@, png_of(f@[0].image_uris))
            &&& r[1] == (c.quantity as nat, Some(true), c.name@, png_of(f@[1].image_uris))
            &&& png_of(f@[0].image_uris) != png_of(f@[1].image_uris) ==> r[0].3 != r[1].3
        }),
{
    lemma_resolution_single(db, c);
}

/// A request for a record of any layout that is not face-splitting resolves to one print.
pub proof fn lemma_single_face(db: Seq<BulkEntry>, c: CardEntry, e: BulkEntry)
    requires
        lookup(db, c.name@) == Some(e),
        !is_face_splitting(e.layout),
    ensures
        resolution(db, seq![c]) == seq![(c.quantity as nat, None::<bool>, c.name@, png_of(e.image_uris))],
{
    lemma_resolution_single(db, c);
    assert(resolution(db, seq![c]) =~= seq![(c.quantity as nat, None::<bool>, c.name@, png_of(e.image_uris))]);
}

/// A request for a name that the database lacks resolves to nothing and is
/// reported once; the requests around it resolve as they would alone.
pub proof fn lemma_unknown_name(db: Seq<BulkEntry>, cs: Seq<CardEntry>, c: CardEntry)
    requires
        lookup(db, c.name@) is None,
    ensures
        resolution(db, seq![c]).len() == 0,
        unresolved(db, seq![c]) == seq![c.name@],
        resolution(db, cs.push(c)) == resolution(db, cs),
        unresolved(db, cs.push(c)) == unresolved(db, cs).push(c.name@),
{
    lemma_resolution_single(db, c);
    assert(cs.push(c).drop_last() =~= cs);
    assert(cs.push(c).last() == c);
    assert(resolution(db, cs.push(c)) =~= resolution(db, cs));
}

} // verus!
