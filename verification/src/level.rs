//! One side of the book: an ordered map from price to quantity.
//!
//! The map is held as a vector of levels in strictly ascending price order.
//! Its mathematical view is a `Map` from price to quantity; a level whose
//! quantity is zero is never stored.

use crate::decimal::{lemma_units_injective, Decimal};
use vstd::prelude::*;

verus! {

/// Which side of the book a map holds: the best bid is the highest price, the
/// best ask the lowest.
#[derive(Clone, Copy, Debug, PartialEq, Eq, Structural)]
pub enum Side {
    Bid,
    Ask,
}

/// A price and the quantity resting at it.
#[derive(Clone, Copy, Debug, PartialEq, Eq, Structural)]
pub struct PriceLevel {
    pub price: Decimal,
    pub quantity: Decimal,
}

impl PriceLevel {
    /// Both decimals are well formed.
    pub open spec fn wf(self) -> bool {
        self.price.wf() && self.quantity.wf()
    }

    pub fn new(price: Decimal, quantity: Decimal) -> (r: PriceLevel)
        ensures
            r.price == price,
            r.quantity == quantity,
    {
        PriceLevel { price, quantity }
    }
}

/// Every level of the sequence is well formed.
pub open spec fn levels_wf(s: Seq<PriceLevel>) -> bool {
    forall|i: int| 0 <= i < s.len() ==> (#[trigger] s[i]).wf()
}

/// Whether price `a` is strictly better than price `b` on the given side.
pub open spec fn better(side: Side, a: Decimal, b: Decimal) -> bool {
    match side {
        Side::Bid => a.units() > b.units(),
        Side::Ask => a.units() < b.units(),
    }
}

/// `p` is a price of the map and no price of the map is better.
pub open spec fn is_best(side: Side, m: Map<Decimal, Decimal>, p: Decimal) -> bool {
    &&& m.contains_key(p)
    &&& forall|q: Decimal| #[trigger] m.contains_key(q) ==> !better(side, q, p)
}

/// The best level of the map, if it has any.
pub open spec fn best_level(side: Side, m: Map<Decimal, Decimal>) -> Option<PriceLevel> {
    if exists|p: Decimal| is_best(side, m, p) {
        let p = choose|p: Decimal| is_best(side, m, p);
        Some(PriceLevel { price: p, quantity: m[p] })
    } else {
        None
    }
}

/// A valid side has at most one best price.
pub proof fn lemma_best_unique(side: Side, m: Map<Decimal, Decimal>, p: Decimal, q: Decimal)
    requires
        side_wf(m),
        is_best(side, m, p),
        is_best(side, m, q),
    ensures
        p == q,
{
    assert(!better(side, q, p));
    assert(!better(side, p, q));
    lemma_units_injective(p, q);
}

/// The map after one upsert: a zero quantity removes the price, any other
/// quantity is stored under it.
pub open spec fn upsert_level(m: Map<Decimal, Decimal>, level: PriceLevel) -> Map<
    Decimal,
    Decimal,
> {
    if level.quantity.units() == 0 {
        m.remove(level.price)
    } else {
        m.insert(level.price, level.quantity)
    }
}

/// The map after upserting the levels of `levels` one after the other, first
/// to last.
pub open spec fn apply_levels(m: Map<Decimal, Decimal>, levels: Seq<PriceLevel>) -> Map<
    Decimal,
    Decimal,
>
    decreases levels.len(),
{
    if levels.len() == 0 {
        m
    } else {
        upsert_level(apply_levels(m, levels.drop_last()), levels.last())
    }
}

/// What a side may hold: a finite set of well-formed prices, each with a
/// well-formed quantity above zero.
pub open spec fn side_wf(m: Map<Decimal, Decimal>) -> bool {
    &&& m.dom().finite()
    &&& forall|p: Decimal| #[trigger]
        m.contains_key(p) ==> p.wf() && m[p].wf() && m[p].units() > 0
}

/// `r` lists the `n` best levels of `m`, best first: every entry is a level of
/// `m`, each is better than those behind it, and a price of `m` that is not
/// listed is worse than all `n` that are.
pub open spec fn is_top_n(side: Side, m: Map<Decimal, Decimal>, n: nat, r: Seq<PriceLevel>) -> bool {
    &&& r.len() <= n
    &&& forall|i: int| 0 <= i < r.len() ==> m.contains_pair(#[trigger] r[i].price, r[i].quantity)
    &&& forall|i: int, j: int|
        0 <= i < j < r.len() ==> better(side, #[trigger] r[i].price, #[trigger] r[j].price)
    &&& forall|p: Decimal| #[trigger]
        m.contains_key(p) ==> listed(r, p) || (r.len() == n && forall|i: int|
            0 <= i < r.len() ==> better(side, #[trigger] r[i].price, p))
}

/// Some entry of `r` has price `p`.
pub open spec fn listed(r: Seq<PriceLevel>, p: Decimal) -> bool {
    exists|i: int| 0 <= i < r.len() && (#[trigger] r[i]).price == p
}

/// The price-to-quantity map that a sequence of levels stands for.
pub open spec fn to_map(s: Seq<PriceLevel>) -> Map<Decimal, Decimal> {
    Map::new(
        |p: Decimal| listed(s, p),
        |p: Decimal| s[choose|i: int| 0 <= i < s.len() && (#[trigger] s[i]).price == p].quantity,
    )
}

/// Prices strictly ascending.
pub open spec fn ascending(s: Seq<PriceLevel>) -> bool {
    forall|i: int, j: int|
        0 <= i < j < s.len() ==> (#[trigger] s[i]).price.units() < (#[trigger] s[j]).price.units()
}

/// The invariant of the stored vector: well-formed levels, strictly ascending
/// prices, no zero quantity.
pub open spec fn stored(s: Seq<PriceLevel>) -> bool {
    &&& levels_wf(s)
    &&& ascending(s)
    &&& forall|i: int| 0 <= i < s.len() ==> (#[trigger] s[i]).quantity.units() > 0
}

/// Each stored level is the map's entry for its price.
proof fn lemma_to_map_index(s: Seq<PriceLevel>, i: int)
    requires
        stored(s),
        0 <= i < s.len(),
    ensures
        to_map(s).contains_key(s[i].price),
        to_map(s)[s[i].price] == s[i].quantity,
{
    let p = s[i].price;
    assert(listed(s, p));
    let j = choose|j: int| 0 <= j < s.len() && (#[trigger] s[j]).price == p;
    assert(s[j].price.units() == s[i].price.units());
    assert(j == i);
}

/// A price with the units of a stored level is that level's price.
proof fn lemma_listed_by_units(s: Seq<PriceLevel>, i: int, p: Decimal)
    requires
        stored(s),
        0 <= i < s.len(),
        p.wf(),
        s[i].price.units() == p.units(),
    ensures
        s[i].price == p,
{
    assert(s[i].wf());
    lemma_units_injective(s[i].price, p);
}

/// The view of a stored vector is a valid side with as many prices as the
/// vector has levels.
proof fn lemma_to_map_valid(s: Seq<PriceLevel>)
    requires
        stored(s),
    ensures
        side_wf(to_map(s)),
        to_map(s).dom().len() == s.len(),
    decreases s.len(),
{
    let m = to_map(s);
    if s.len() == 0 {
        assert(m.dom() =~= Set::<Decimal>::empty());
    } else {
        let t = s.drop_last();
        let last = s.last();
        assert(stored(t));
        lemma_to_map_valid(t);
        assert(s[s.len() - 1] == last);
        assert forall|p: Decimal| m.dom().contains(p) <==> to_map(t).dom().insert(
            last.price,
        ).contains(p) by {
            if listed(s, p) {
                let i = choose|i: int| 0 <= i < s.len() && (#[trigger] s[i]).price == p;
                if i < s.len() - 1 {
                    assert(t[i].price == p);
                }
            }
            if listed(t, p) {
                let i = choose|i: int| 0 <= i < t.len() && (#[trigger] t[i]).price == p;
                assert(s[i].price == p);
            }
        }
        assert(m.dom() =~= to_map(t).dom().insert(last.price));
        if listed(t, last.price) {
            let i = choose|i: int| 0 <= i < t.len() && (#[trigger] t[i]).price == last.price;
            assert(s[i].price.units() < s[s.len() - 1].price.units());
        }
        assert(!to_map(t).dom().contains(last.price));
    }
    assert forall|p: Decimal| #[trigger] m.contains_key(p) implies p.wf() && m[p].wf() && m[p].units()
        > 0 by {
        let i = choose|i: int| 0 <= i < s.len() && (#[trigger] s[i]).price == p;
        lemma_to_map_index(s, i);
        assert(s[i].wf());
    }
}

/// Inserting a new price at its place in the order stores it in the view.
proof fn lemma_insert_level(s: Seq<PriceLevel>, i: int, l: PriceLevel)
    requires
        stored(s),
        l.wf(),
        l.quantity.units() > 0,
        0 <= i <= s.len(),
        forall|j: int| 0 <= j < i ==> (#[trigger] s[j]).price.units() < l.price.units(),
        forall|j: int| i <= j < s.len() ==> (#[trigger] s[j]).price.units() > l.price.units(),
    ensures
        stored(s.insert(i, l)),
        to_map(s.insert(i, l)) == to_map(s).insert(l.price, l.quantity),
{
    let t = s.insert(i, l);
    assert forall|a: int, b: int| 0 <= a < b < t.len() implies (#[trigger] t[a]).price.units() < (
    #[trigger] t[b]).price.units() by {
        let sa = if a < i { a } else { a - 1 };
        let sb = if b < i { b } else { b - 1 };
        if a != i && b != i {
            assert(s[sa].price.units() < s[sb].price.units());
        } else if a == i {
            assert(s[sb].price.units() > l.price.units());
        } else {
            assert(s[sa].price.units() < l.price.units());
        }
    }
    assert forall|a: int| 0 <= a < t.len() implies (#[trigger] t[a]).wf() && t[a].quantity.units()
        > 0 by {
        if a != i {
            let sa = if a < i { a } else { a - 1 };
            assert(s[sa].wf());
        }
    }
    assert(stored(t));
    let m = to_map(s).insert(l.price, l.quantity);
    assert forall|p: Decimal| to_map(t).contains_key(p) == m.contains_key(p) by {
        if listed(t, p) {
            let a = choose|a: int| 0 <= a < t.len() && (#[trigger] t[a]).price == p;
            if a != i {
                let sa = if a < i { a } else { a - 1 };
                assert(s[sa].price == p);
            }
        }
        if listed(s, p) {
            let a = choose|a: int| 0 <= a < s.len() && (#[trigger] s[a]).price == p;
            let ta = if a < i { a } else { a + 1 };
            assert(t[ta].price == p);
        }
        if p == l.price {
            assert(t[i].price == p);
        }
    }
    assert forall|p: Decimal| to_map(t).contains_key(p) implies to_map(t)[p] == m[p] by {
        let a = choose|a: int| 0 <= a < t.len() && (#[trigger] t[a]).price == p;
        lemma_to_map_index(t, a);
        if a != i {
            let sa = if a < i { a } else { a - 1 };
            assert(s[sa] == t[a]);
            lemma_to_map_index(s, sa);
            assert(s[sa].price.units() != l.price.units());
        }
    }
    assert(to_map(t) =~= m);
}

/// Replacing the level stored under a price stores the new quantity in the view.
proof fn lemma_replace_level(s: Seq<PriceLevel>, i: int, l: PriceLevel)
    requires
        stored(s),
        l.wf(),
        l.quantity.units() > 0,
        0 <= i < s.len(),
        s[i].price == l.price,
    ensures
        stored(s.update(i, l)),
        to_map(s.update(i, l)) == to_map(s).insert(l.price, l.quantity),
{
    let t = s.update(i, l);
    assert forall|a: int, b: int| 0 <= a < b < t.len() implies (#[trigger] t[a]).price.units() < (
    #[trigger] t[b]).price.units() by {
        assert(s[a].price.units() < s[b].price.units());
    }
    assert forall|a: int| 0 <= a < t.len() implies (#[trigger] t[a]).wf() && t[a].quantity.units()
        > 0 by {
        if a != i {
            assert(s[a].wf());
        }
    }
    assert(stored(t));
    let m = to_map(s).insert(l.price, l.quantity);
    assert forall|p: Decimal| to_map(t).contains_key(p) == m.contains_key(p) by {
        if listed(t, p) {
            let a = choose|a: int| 0 <= a < t.len() && (#[trigger] t[a]).price == p;
            assert(s[a].price == p);
        }
        if listed(s, p) {
            let a = choose|a: int| 0 <= a < s.len() && (#[trigger] s[a]).price == p;
            assert(t[a].price == p);
        }
        if p == l.price {
            assert(t[i].price == p);
        }
    }
    assert forall|p: Decimal| to_map(t).contains_key(p) implies to_map(t)[p] == m[p] by {
        let a = choose|a: int| 0 <= a < t.len() && (#[trigger] t[a]).price == p;
        lemma_to_map_index(t, a);
        if a != i {
            assert(s[a] == t[a]);
            lemma_to_map_index(s, a);
            assert(s[a].price.units() != s[i].price.units());
        }
    }
    assert(to_map(t) =~= m);
}

/// Removing a stored level removes its price from the view.
proof fn lemma_remove_level(s: Seq<PriceLevel>, i: int)
    requires
        stored(s),
        0 <= i < s.len(),
    ensures
        stored(s.remove(i)),
        to_map(s.remove(i)) == to_map(s).remove(s[i].price),
{
    let t = s.remove(i);
    assert forall|a: int, b: int| 0 <= a < b < t.len() implies (#[trigger] t[a]).price.units() < (
    #[trigger] t[b]).price.units() by {
        let sa = if a < i { a } else { a + 1 };
        let sb = if b < i { b } else { b + 1 };
        assert(s[sa].price.units() < s[sb].price.units());
    }
    assert forall|a: int| 0 <= a < t.len() implies (#[trigger] t[a]).wf() && t[a].quantity.units()
        > 0 by {
        let sa = if a < i { a } else { a + 1 };
        assert(s[sa].wf());
    }
    assert(stored(t));
    let m = to_map(s).remove(s[i].price);
    assert forall|p: Decimal| to_map(t).contains_key(p) == m.contains_key(p) by {
        if listed(t, p) {
            let a = choose|a: int| 0 <= a < t.len() && (#[trigger] t[a]).price == p;
            let sa = if a < i { a } else { a + 1 };
            assert(s[sa].price == p);
            assert(s[sa].price.units() != s[i].price.units());
        }
        if listed(s, p) && p != s[i].price {
            let a = choose|a: int| 0 <= a < s.len() && (#[trigger] s[a]).price == p;
            let ta = if a < i { a } else { a - 1 };
            assert(t[ta].price == p);
        }
    }
    assert forall|p: Decimal| to_map(t).contains_key(p) implies to_map(t)[p] == m[p] by {
        let a = choose|a: int| 0 <= a < t.len() && (#[trigger] t[a]).price == p;
        lemma_to_map_index(t, a);
        let sa = if a < i { a } else { a + 1 };
        assert(s[sa] == t[a]);
        lemma_to_map_index(s, sa);
    }
    assert(to_map(t) =~= m);
}

/// One side of the book.
#[derive(Clone, Debug)]
pub struct PriceLevelMap {
    side: Side,
    levels: Vec<PriceLevel>,
}

impl View for PriceLevelMap {
    type V = Map<Decimal, Decimal>;

    closed spec fn view(&self) -> Map<Decimal, Decimal> {
        to_map(self.levels@)
    }
}

impl PriceLevelMap {
    /// The representation invariant.
    pub closed spec fn wf(&self) -> bool {
        stored(self.levels@)
    }

    /// The side this map holds.
    pub closed spec fn spec_side(&self) -> Side {
        self.side
    }

    /// A well-formed map views as a valid side.
    pub proof fn lemma_view_valid(&self)
        requires
            self.wf(),
        ensures
            side_wf(self@),
    {
        lemma_to_map_valid(self.levels@);
    }

    /// An empty map for the given side.
    pub fn new(side: Side) -> (r: PriceLevelMap)
        ensures
            r.wf(),
            r.spec_side() == side,
            r@ == Map::<Decimal, Decimal>::empty(),
    {
        let r = PriceLevelMap { side, levels: Vec::new() };
        assert(r@ =~= Map::<Decimal, Decimal>::empty());
        r
    }

    /// The side this map holds.
    pub fn side(&self) -> (r: Side)
        ensures
            r == self.spec_side(),
    {
        self.side
    }

    /// The number of price levels.
    pub fn len(&self) -> (r: usize)
        requires
            self.wf(),
        ensures
            r == self@.dom().len(),
    {
        proof {
            lemma_to_map_valid(self.levels@);
        }
        self.levels.len()
    }

    /// Whether the map holds no level.
    pub fn is_empty(&self) -> (r: bool)
        requires
            self.wf(),
        ensures
            r == (self@ == Map::<Decimal, Decimal>::empty()),
    {
        proof {
            if self.levels@.len() == 0 {
                assert(self@ =~= Map::<Decimal, Decimal>::empty());
            } else {
                lemma_to_map_index(self.levels@, 0);
            }
        }
        self.levels.len() == 0
    }

    /// The first index whose price is not below `price`.
    fn lower_bound(&self, price: &Decimal) -> (i: usize)
        requires
            self.wf(),
            price.wf(),
        ensures
            i <= self.levels@.len(),
            forall|j: int| 0 <= j < i ==> (#[trigger] self.levels@[j]).price.units() < price.units(),
            forall|j: int|
                i <= j < self.levels@.len() ==> (#[trigger] self.levels@[j]).price.units()
                    >= price.units(),
    {
        let mut lo: usize = 0;
        let mut hi: usize = self.levels.len();
        while lo < hi
            invariant
                self.wf(),
                price.wf(),
                lo <= hi <= self.levels@.len(),
                forall|j: int|
                    0 <= j < lo ==> (#[trigger] self.levels@[j]).price.units() < price.units(),
                forall|j: int|
                    hi <= j < self.levels@.len() ==> (#[trigger] self.levels@[j]).price.units()
                        >= price.units(),
            decreases hi - lo,
        {
            let mid: usize = lo + (hi - lo) / 2;
            assert(self.levels@[mid as int].wf());
            if self.levels[mid].price.lt(price) {
                lo = mid + 1;
            } else {
                hi = mid;
            }
        }
        lo
    }

    /// The quantity resting at `price`, if any.
    pub fn get(&self, price: &Decimal) -> (r: Option<Decimal>)
        requires
            self.wf(),
            price.wf(),
        ensures
            r == if self@.contains_key(*price) {
                Some(self@[*price])
            } else {
                None::<Decimal>
            },
    {
        let i: usize = self.lower_bound(price);
        if i < self.levels.len() {
            assert(self.levels@[i as int].wf());
            if !price.lt(&self.levels[i].price) {
                proof {
                    lemma_listed_by_units(self.levels@, i as int, *price);
                    lemma_to_map_index(self.levels@, i as int);
                }
                return Some(self.levels[i].quantity);
            }
        }
        proof {
            if listed(self.levels@, *price) {
                let j = choose|j: int|
                    0 <= j < self.levels@.len() && (#[trigger] self.levels@[j]).price == *price;
                assert(false);
            }
        }
        None
    }

    /// The best level: the highest bid or the lowest ask. `None` exactly when
    /// the map is empty.
    pub fn best(&self) -> (r: Option<PriceLevel>)
        requires
            self.wf(),
        ensures
            r == best_level(self.spec_side(), self@),
            match r {
                None => self@ == Map::<Decimal, Decimal>::empty(),
                Some(l) => self@.contains_pair(l.price, l.quantity) && is_best(
                    self.spec_side(),
                    self@,
                    l.price,
                ),
            },
    {
        let n: usize = self.levels.len();
        if n == 0 {
            assert(self@ =~= Map::<Decimal, Decimal>::empty());
            return None;
        }
        let k: usize = match self.side {
            Side::Bid => n - 1,
            Side::Ask => 0,
        };
        let l = self.levels[k];
        proof {
            let s = self.levels@;
            lemma_to_map_index(s, k as int);
            assert forall|q: Decimal| #[trigger] self@.contains_key(q) implies !better(
                self.spec_side(),
                q,
                l.price,
            ) by {
                let j = choose|j: int| 0 <= j < s.len() && (#[trigger] s[j]).price == q;
                if j != k {
                    if j < k {
                        assert(s[j].price.units() < s[k as int].price.units());
                    } else {
                        assert(s[k as int].price.units() < s[j].price.units());
                    }
                }
            }
            assert(is_best(self.spec_side(), self@, l.price));
            lemma_to_map_valid(s);
            let p = choose|p: Decimal| is_best(self.spec_side(), self@, p);
            lemma_best_unique(self.spec_side(), self@, p, l.price);
        }
        Some(l)
    }

    /// Stores `quantity` under `price`; a zero quantity removes the price
    /// instead, and removing an absent price changes nothing.
    pub fn upsert(&mut self, price: Decimal, quantity: Decimal)
        requires
            old(self).wf(),
            price.wf(),
            quantity.wf(),
        ensures
            final(self).wf(),
            final(self).spec_side() == old(self).spec_side(),
            final(self)@ == upsert_level(old(self)@, (PriceLevel { price, quantity })),
            quantity.units() == 0 ==> !final(self)@.contains_key(price),
    {
        let i: usize = self.lower_bound(&price);
        let ghost s = self.levels@;
        let mut found: bool = false;
        if i < self.levels.len() {
            assert(s[i as int].wf());
            found = !price.lt(&self.levels[i].price);
        }
        proof {
            if found {
                lemma_listed_by_units(s, i as int, price);
                lemma_to_map_index(s, i as int);
            } else if listed(s, price) {
                let j = choose|j: int| 0 <= j < s.len() && (#[trigger] s[j]).price == price;
                assert(false);
            }
        }
        let level = PriceLevel { price, quantity };
        if quantity.is_zero() {
            if found {
                self.levels.remove(i);
                proof {
                    lemma_remove_level(s, i as int);
                }
            } else {
                assert(to_map(s).remove(price) =~= to_map(s));
            }
        } else if found {
            self.levels.set(i, level);
            proof {
                lemma_replace_level(s, i as int, level);
            }
        } else {
            self.levels.insert(i, level);
            proof {
                lemma_insert_level(s, i as int, level);
            }
        }
    }

    /// Upserts every level of `levels`, first to last.
    pub fn upsert_all(&mut self, levels: &Vec<PriceLevel>)
        requires
            old(self).wf(),
            levels_wf(levels@),
        ensures
            final(self).wf(),
            final(self).spec_side() == old(self).spec_side(),
            final(self)@ == apply_levels(old(self)@, levels@),
    {
        let mut i: usize = 0;
        while i < levels.len()
            invariant
                i <= levels@.len(),
                self.wf(),
                levels_wf(levels@),
                self.spec_side() == old(self).spec_side(),
                self@ == apply_levels(old(self)@, levels@.take(i as int)),
            decreases levels@.len() - i,
        {
            let l = levels[i];
            assert(levels@[i as int].wf());
            proof {
                assert(levels@.take(i + 1).drop_last() =~= levels@.take(i as int));
            }
            self.upsert(l.price, l.quantity);
            i = i + 1;
        }
        assert(levels@.take(i as int) =~= levels@);
    }

    /// Removes every level.
    pub fn clear(&mut self)
        ensures
            final(self).wf(),
            final(self).spec_side() == old(self).spec_side(),
            final(self)@ == Map::<Decimal, Decimal>::empty(),
    {
        self.levels.clear();
        assert(self@ =~= Map::<Decimal, Decimal>::empty());
    }

    /// The `n` best levels, best first: descending prices for bids, ascending
    /// for asks.
    pub fn top_n(&self, n: usize) -> (r: Vec<PriceLevel>)
        requires
            self.wf(),
        ensures
            is_top_n(self.spec_side(), self@, n as nat, r@),
            r@.len() == if n <= self@.dom().len() {
                n as nat
            } else {
                self@.dom().len()
            },
    {
        let len: usize = self.levels.len();
        let count: usize = if n < len {
            n
        } else {
            len
        };
        let ghost s = self.levels@;
        let mut r: Vec<PriceLevel> = Vec::new();
        let mut k: usize = 0;
        while k < count
            invariant
                k <= count <= len,
                len == s.len(),
                s == self.levels@,
                r@.len() == k,
                forall|i: int|
                    0 <= i < k ==> #[trigger] r@[i] == s[rank_index(self.side, len as int, i)],
            decreases count - k,
        {
            let idx: usize = match self.side {
                Side::Bid => len - 1 - k,
                Side::Ask => k,
            };
            r.push(self.levels[idx]);
            k = k + 1;
        }
        proof {
            lemma_to_map_valid(s);
            lemma_ranked_is_top_n(self.side, s, n as nat, r@);
        }
        r
    }
}

/// The index in an ascending vector of `len` levels of the level of rank `i`
/// (rank 0 is the best).
pub open spec fn rank_index(side: Side, len: int, i: int) -> int {
    match side {
        Side::Bid => len - 1 - i,
        Side::Ask => i,
    }
}

/// Reading an ascending vector by rank yields the top levels of its view.
proof fn lemma_ranked_is_top_n(side: Side, s: Seq<PriceLevel>, n: nat, r: Seq<PriceLevel>)
    requires
        stored(s),
        r.len() == if n <= s.len() {
            n
        } else {
            s.len()
        },
        forall|i: int| 0 <= i < r.len() ==> #[trigger] r[i] == s[rank_index(side, s.len() as int, i)],
    ensures
        is_top_n(side, to_map(s), n, r),
{
    let m = to_map(s);
    let len = s.len() as int;
    assert forall|i: int| 0 <= i < r.len() implies m.contains_pair(
        #[trigger] r[i].price,
        r[i].quantity,
    ) by {
        lemma_to_map_index(s, rank_index(side, len, i));
    }
    assert forall|i: int, j: int| 0 <= i < j < r.len() implies better(
        side,
        #[trigger] r[i].price,
        #[trigger] r[j].price,
    ) by {
        let a = rank_index(side, len, i);
        let b = rank_index(side, len, j);
        assert(r[i] == s[a]);
        assert(r[j] == s[b]);
        match side {
            Side::Bid => {
                assert(s[b].price.units() < s[a].price.units());
            },
            Side::Ask => {
                assert(s[a].price.units() < s[b].price.units());
            },
        }
    }
    assert forall|p: Decimal| #[trigger] m.contains_key(p) implies listed(r, p) || (r.len() == n
        && forall|i: int| 0 <= i < r.len() ==> better(side, #[trigger] r[i].price, p)) by {
        let j = choose|j: int| 0 <= j < s.len() && (#[trigger] s[j]).price == p;
        let rank = rank_index(side, len, j);
        assert(rank_index(side, len, rank) == j);
        if rank < r.len() {
            assert(r[rank] == s[j]);
            assert(r[rank].price == p);
        } else {
            assert forall|i: int| 0 <= i < r.len() implies better(side, #[trigger] r[i].price, p) by {
                let a = rank_index(side, len, i);
                assert(r[i] == s[a]);
                match side {
                    Side::Bid => {
                        assert(s[j].price.units() < s[a].price.units());
                    },
                    Side::Ask => {
                        assert(s[a].price.units() < s[j].price.units());
                    },
                }
            }
        }
    }
}

} // verus!
