//! Laws of the price-level map, stated over its mathematical view: what a
//! run of upserts leaves in the map, that a zero quantity always deletes, and
//! that the best level and the `n` best levels are determined.

use crate::decimal::{lemma_units_injective, Decimal};
use crate::level::{
    apply_levels, best_level, better, is_best, is_top_n, levels_wf, listed, side_wf, upsert_level,
    PriceLevel, Side,
};
use vstd::prelude::*;

verus! {

/// An upsert of a well-formed level keeps a side valid.
pub proof fn lemma_upsert_keeps_wf(m: Map<Decimal, Decimal>, level: PriceLevel)
    requires
        side_wf(m),
        level.wf(),
    ensures
        side_wf(upsert_level(m, level)),
{
}

/// Upserting well-formed levels keeps a side valid.
pub proof fn lemma_apply_keeps_wf(m: Map<Decimal, Decimal>, levels: Seq<PriceLevel>)
    requires
        side_wf(m),
        levels_wf(levels),
    ensures
        side_wf(apply_levels(m, levels)),
    decreases levels.len(),
{
    if levels.len() > 0 {
        lemma_apply_keeps_wf(m, levels.drop_last());
        assert(levels.last().wf());
        lemma_upsert_keeps_wf(apply_levels(m, levels.drop_last()), levels.last());
    }
}

/// Upserting a zero quantity never leaves the price in the map, whatever the
/// map held, and doing it again changes nothing.
pub proof fn lemma_zero_quantity_deletes(m: Map<Decimal, Decimal>, level: PriceLevel)
    requires
        level.quantity.units() == 0,
    ensures
        !upsert_level(m, level).contains_key(level.price),
        upsert_level(upsert_level(m, level), level) == upsert_level(m, level),
{
    assert(m.remove(level.price).remove(level.price) =~= m.remove(level.price));
}

/// The last level listed for a price decides: after the levels are upserted,
/// a price that none of them names is as it was; any other price is present
/// exactly when the last level that names it has a quantity above zero, and
/// then with that quantity.
pub proof fn lemma_last_level_wins(m: Map<Decimal, Decimal>, levels: Seq<PriceLevel>, p: Decimal)
    ensures
        !listed(levels, p) ==> apply_levels(m, levels).contains_key(p) == m.contains_key(p)
            && apply_levels(m, levels)[p] == m[p],
        listed(levels, p) ==> {
            let k = last_index(levels, p);
            &&& 0 <= k < levels.len()
            &&& levels[k].price == p
            &&& apply_levels(m, levels).contains_key(p) == (levels[k].quantity.units() != 0)
            &&& levels[k].quantity.units() != 0 ==> apply_levels(m, levels)[p]
                == levels[k].quantity
        },
    decreases levels.len(),
{
    if levels.len() > 0 {
        let front = levels.drop_last();
        let last = levels.last();
        lemma_last_level_wins(m, front, p);
        if last.price == p {
            assert(levels[levels.len() - 1].price == p);
        } else if listed(front, p) {
            let i = choose|i: int| 0 <= i < front.len() && (#[trigger] front[i]).price == p;
            assert(levels[i].price == p);
            let k = last_index(front, p);
            lemma_last_index(front, p);
            lemma_last_index(levels, p);
            assert(levels[k] == front[k]);
            let k2 = last_index(levels, p);
            if k2 < k {
                assert(levels[k].price == p);
            } else if k2 > k {
                assert(front[k2].price == p);
            }
        } else if listed(levels, p) {
            let i = choose|i: int| 0 <= i < levels.len() && (#[trigger] levels[i]).price == p;
            assert(front[i].price == p);
        }
        if last.price == p {
            lemma_last_index(levels, p);
        }
    }
}

/// The index of the last level of `levels` whose price is `p`.
pub open spec fn last_index(levels: Seq<PriceLevel>, p: Decimal) -> int {
    choose|k: int|
        0 <= k < levels.len() && (#[trigger] levels[k]).price == p && forall|j: int|
            k < j < levels.len() ==> (#[trigger] levels[j]).price != p
}

/// A listed price has a last index.
pub proof fn lemma_last_index(levels: Seq<PriceLevel>, p: Decimal)
    requires
        listed(levels, p),
    ensures
        0 <= last_index(levels, p) < levels.len(),
        levels[last_index(levels, p)].price == p,
        forall|j: int|
            last_index(levels, p) < j < levels.len() ==> (#[trigger] levels[j]).price != p,
    decreases levels.len(),
{
    let n = levels.len() as int;
    if levels[n - 1].price == p {
        let k = n - 1;
        assert(0 <= k < levels.len() && levels[k].price == p && forall|j: int|
            k < j < levels.len() ==> (#[trigger] levels[j]).price != p);
    } else {
        let front = levels.drop_last();
        let i = choose|i: int| 0 <= i < levels.len() && (#[trigger] levels[i]).price == p;
        assert(front[i].price == p);
        lemma_last_index(front, p);
        let k = last_index(front, p);
        assert(levels[k] == front[k]);
        assert forall|j: int| k < j < levels.len() implies (#[trigger] levels[j]).price != p by {
            if j < n - 1 {
                assert(front[j].price != p);
            }
        }
        assert(0 <= k < levels.len() && levels[k].price == p && forall|j: int|
            k < j < levels.len() ==> (#[trigger] levels[j]).price != p);
    }
}

/// No two levels of the sequence have the same price.
pub open spec fn distinct_prices(levels: Seq<PriceLevel>) -> bool {
    forall|i: int, j: int|
        0 <= i < j < levels.len() ==> (#[trigger] levels[i]).price != (#[trigger] levels[j]).price
}

/// No level of the sequence has quantity zero.
pub open spec fn no_zero_quantity(levels: Seq<PriceLevel>) -> bool {
    forall|i: int| 0 <= i < levels.len() ==> (#[trigger] levels[i]).quantity.units() != 0
}

/// Upserting, into the empty map, levels with distinct prices and no zero
/// quantity gives exactly those levels: a price-quantity pair is in the map
/// if and only if it is one of the levels.
pub proof fn lemma_apply_reproduces(levels: Seq<PriceLevel>)
    requires
        distinct_prices(levels),
        no_zero_quantity(levels),
    ensures
        forall|l: PriceLevel|
            apply_levels(Map::empty(), levels).contains_pair(l.price, l.quantity)
                <==> #[trigger] levels.contains(l),
{
    let m = apply_levels(Map::empty(), levels);
    assert forall|l: PriceLevel| m.contains_pair(l.price, l.quantity) <==> #[trigger] levels.contains(
        l,
    ) by {
        lemma_last_level_wins(Map::empty(), levels, l.price);
        if levels.contains(l) {
            let i = choose|i: int| 0 <= i < levels.len() && levels[i] == l;
            assert(levels[i].price == l.price);
            let k = last_index(levels, l.price);
            if k < i {
                assert(levels[k].price != levels[i].price);
            } else if i < k {
                assert(levels[i].price != levels[k].price);
            }
        }
        if m.contains_pair(l.price, l.quantity) {
            if listed(levels, l.price) {
                let k = last_index(levels, l.price);
                assert(levels[k] == l);
            }
        }
    }
}

/// Whatever is in the map after levels were upserted into the empty map was
/// named by one of them.
pub proof fn lemma_apply_holds_only_listed(levels: Seq<PriceLevel>, p: Decimal)
    requires
        apply_levels(Map::empty(), levels).contains_key(p),
    ensures
        listed(levels, p),
{
    lemma_last_level_wins(Map::empty(), levels, p);
}

/// In two listings of the `n` best levels that agree before index `i`, the
/// entry of the second at `i` is not better than that of the first.
proof fn lemma_top_n_not_better(
    side: Side,
    m: Map<Decimal, Decimal>,
    n: nat,
    r1: Seq<PriceLevel>,
    r2: Seq<PriceLevel>,
    i: int,
)
    requires
        is_top_n(side, m, n, r1),
        is_top_n(side, m, n, r2),
        r1.len() == r2.len(),
        0 <= i < r1.len(),
        forall|j: int| 0 <= j < i ==> (#[trigger] r1[j]).price == r2[j].price,
    ensures
        !better(side, r2[i].price, r1[i].price),
{
    let p = r1[i].price;
    let q = r2[i].price;
    if better(side, q, p) {
        assert(m.contains_pair(r2[i].price, r2[i].quantity));
        assert(m.contains_key(q));
        if listed(r1, q) {
            let j = choose|j: int| 0 <= j < r1.len() && (#[trigger] r1[j]).price == q;
            if j < i {
                assert(r1[j].price == r2[j].price);
                assert(better(side, r2[j].price, r2[i].price));
            } else if j > i {
                assert(better(side, r1[i].price, r1[j].price));
            }
        } else {
            assert(better(side, r1[i].price, q));
        }
        assert(false);
    }
}

/// Two listings of the `n` best levels of a valid side agree on their first
/// `k` entries.
proof fn lemma_top_n_prefix(
    side: Side,
    m: Map<Decimal, Decimal>,
    n: nat,
    r1: Seq<PriceLevel>,
    r2: Seq<PriceLevel>,
    k: int,
)
    requires
        side_wf(m),
        is_top_n(side, m, n, r1),
        is_top_n(side, m, n, r2),
        r1.len() == r2.len(),
        0 <= k <= r1.len(),
    ensures
        forall|j: int| 0 <= j < k ==> (#[trigger] r1[j]) == r2[j],
    decreases k,
{
    if k > 0 {
        let i = k - 1;
        lemma_top_n_prefix(side, m, n, r1, r2, i);
        assert forall|j: int| 0 <= j < i implies (#[trigger] r2[j]).price == r1[j].price by {
            assert(r1[j] == r2[j]);
        }
        lemma_top_n_not_better(side, m, n, r1, r2, i);
        lemma_top_n_not_better(side, m, n, r2, r1, i);
        assert(m.contains_pair(r1[i].price, r1[i].quantity));
        assert(m.contains_pair(r2[i].price, r2[i].quantity));
        assert(m.contains_key(r1[i].price));
        assert(m.contains_key(r2[i].price));
        lemma_units_injective(r1[i].price, r2[i].price);
    }
}

/// The `n` best levels of a valid side are determined: two listings of the
/// same length that both satisfy [`is_top_n`] are the same sequence.
pub proof fn lemma_top_n_unique(
    side: Side,
    m: Map<Decimal, Decimal>,
    n: nat,
    r1: Seq<PriceLevel>,
    r2: Seq<PriceLevel>,
)
    requires
        side_wf(m),
        is_top_n(side, m, n, r1),
        is_top_n(side, m, n, r2),
        r1.len() == r2.len(),
    ensures
        r1 == r2,
{
    lemma_top_n_prefix(side, m, n, r1, r2, r1.len() as int);
    assert(r1 =~= r2);
}

/// A valid side that holds a price has a best level, and that level is one of
/// its own; an empty side has none.
pub proof fn lemma_best_exists(side: Side, m: Map<Decimal, Decimal>)
    requires
        side_wf(m),
    ensures
        best_level(side, m).is_some() <==> exists|p: Decimal| m.contains_key(p),
        best_level(side, m) matches Some(l) ==> is_best(side, m, l.price) && m[l.price]
            == l.quantity,
    decreases m.dom().len(),
{
    if exists|p: Decimal| m.contains_key(p) {
        let p = choose|p: Decimal| m.contains_key(p);
        let rest = m.remove(p);
        assert(rest.dom() =~= m.dom().remove(p));
        lemma_best_exists(side, rest);
        if exists|q: Decimal| rest.contains_key(q) {
            let l = best_level(side, rest).unwrap();
            let q = l.price;
            assert(rest.contains_key(q));
            let w = if better(side, p, q) {
                p
            } else {
                q
            };
            assert forall|x: Decimal| #[trigger] m.contains_key(x) implies !better(side, x, w) by {
                if x != p {
                    assert(rest.contains_key(x));
                }
            }
            assert(is_best(side, m, w));
        } else {
            assert forall|x: Decimal| #[trigger] m.contains_key(x) implies !better(side, x, p) by {
                if x != p {
                    assert(rest.contains_key(x));
                }
            }
            assert(is_best(side, m, p));
        }
    }
}

} // verus!
