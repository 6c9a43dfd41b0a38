//! The price-level view of one side of the book: each resting order seen as a
//! lot of (price, open quantity), and the aggregate open quantity per price.

use vstd::prelude::*;

verus! {

/// The aggregate open quantity of the lots at `price`.
pub open spec fn level_sum(lots: Seq<(u32, u32)>, price: u32) -> nat
    decreases lots.len(),
{
    if lots.len() == 0 {
        0
    } else {
        level_sum(lots.drop_last(), price) + if lots.last().0 == price {
            lots.last().1 as nat
        } else {
            0
        }
    }
}

/// `index` maps exactly the prices with open quantity to their aggregate:
/// no price is kept with a zero aggregate.
pub open spec fn index_matches(lots: Seq<(u32, u32)>, index: Map<u32, u32>) -> bool {
    forall|p: u32|
        #![trigger index.contains_key(p)]
        #![trigger level_sum(lots, p)]
        (index.contains_key(p) <==> level_sum(lots, p) > 0) && (index.contains_key(p)
            ==> index[p] == level_sum(lots, p))
}

pub proof fn lemma_level_sum_concat(a: Seq<(u32, u32)>, b: Seq<(u32, u32)>, p: u32)
    ensures
        level_sum(a + b, p) == level_sum(a, p) + level_sum(b, p),
    decreases b.len(),
{
    if b.len() == 0 {
        assert(a + b =~= a);
    } else {
        assert((a + b).drop_last() =~= a + b.drop_last());
        lemma_level_sum_concat(a, b.drop_last(), p);
    }
}

pub proof fn lemma_level_sum_single(x: (u32, u32), p: u32)
    ensures
        level_sum(seq![x], p) == if x.0 == p { x.1 as nat } else { 0 },
{
    assert(seq![x].drop_last() =~= Seq::<(u32, u32)>::empty());
    assert(level_sum(Seq::<(u32, u32)>::empty(), p) == 0);
    assert(seq![x].last() == x);
}

/// Inserting a lot adds its quantity at its price and nothing elsewhere.
pub proof fn lemma_level_sum_insert(s: Seq<(u32, u32)>, i: int, x: (u32, u32), p: u32)
    requires
        0 <= i <= s.len(),
    ensures
        level_sum(s.insert(i, x), p) == level_sum(s, p) + if x.0 == p { x.1 as nat } else { 0 },
{
    assert(s.insert(i, x) =~= s.take(i) + seq![x] + s.skip(i));
    assert(s =~= s.take(i) + s.skip(i));
    lemma_level_sum_concat(s.take(i) + seq![x], s.skip(i), p);
    lemma_level_sum_concat(s.take(i), seq![x], p);
    lemma_level_sum_concat(s.take(i), s.skip(i), p);
    lemma_level_sum_single(x, p);
}

/// Changing the quantity of the last lot changes its price's aggregate by
/// the same amount.
pub proof fn lemma_level_sum_update_last(s: Seq<(u32, u32)>, q: u32, p: u32)
    requires
        s.len() > 0,
    ensures
        level_sum(s.update(s.len() - 1, (s.last().0, q)), p) + (if s.last().0 == p {
            s.last().1 as nat
        } else {
            0
        }) == level_sum(s, p) + if s.last().0 == p { q as nat } else { 0 },
{
    let t = s.update(s.len() - 1, (s.last().0, q));
    assert(t.drop_last() =~= s.drop_last());
}

/// A single lot never exceeds the aggregate at its price.
pub proof fn lemma_level_sum_bounds(s: Seq<(u32, u32)>, i: int)
    requires
        0 <= i < s.len(),
    ensures
        s[i].1 as nat <= level_sum(s, s[i].0),
    decreases s.len(),
{
    if i < s.len() - 1 {
        lemma_level_sum_bounds(s.drop_last(), i);
    }
}

} // verus!
