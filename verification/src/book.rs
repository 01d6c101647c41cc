//! The order book of one instrument: a bid side, an ask side, and the
//! position in the update stream that the book reflects.

use crate::decimal::Decimal;
use crate::level::{
    apply_levels, best_level, better, is_top_n, levels_wf, listed, side_wf, PriceLevel,
    PriceLevelMap, Side,
};
use crate::level_laws::{
    distinct_prices, lemma_apply_holds_only_listed, lemma_apply_keeps_wf, lemma_apply_reproduces,
    lemma_best_exists, lemma_top_n_unique, no_zero_quantity,
};
use crate::midpoint::{is_midpoint, midpoint, spec_midpoint};
use vstd::prelude::*;

verus! {

/// A full listing of both sides, tagged with the last update it reflects.
#[derive(Clone, Debug)]
pub struct DepthSnapshot {
    pub last_update_id: u64,
    pub event_time: u64,
    pub bids: Vec<PriceLevel>,
    pub asks: Vec<PriceLevel>,
}

impl DepthSnapshot {
    /// Every listed level is well formed.
    pub open spec fn wf(&self) -> bool {
        levels_wf(self.bids@) && levels_wf(self.asks@)
    }
}

/// An incremental update: the levels that changed over a range of updates.
#[derive(Clone, Debug)]
pub struct DepthDiff {
    pub event_time: u64,
    pub first_update_id: u64,
    pub final_update_id: u64,
    pub previous_final_update_id: u64,
    pub bids: Vec<PriceLevel>,
    pub asks: Vec<PriceLevel>,
}

impl DepthDiff {
    /// Every listed level is well formed.
    pub open spec fn wf(&self) -> bool {
        levels_wf(self.bids@) && levels_wf(self.asks@)
    }
}

/// The mathematical view of an order book.
pub struct BookView {
    pub symbol: Seq<char>,
    pub timestamp: u64,
    pub final_update_id: u64,
    pub bids: Map<Decimal, Decimal>,
    pub asks: Map<Decimal, Decimal>,
}

impl BookView {
    /// Both sides are valid.
    pub open spec fn wf(self) -> bool {
        side_wf(self.bids) && side_wf(self.asks)
    }

    /// The book after a reset to `snapshot`: nothing of the old levels stays.
    pub open spec fn apply_snapshot(self, snapshot: DepthSnapshot) -> BookView {
        BookView {
            symbol: self.symbol,
            timestamp: snapshot.event_time,
            final_update_id: snapshot.last_update_id,
            bids: apply_levels(Map::empty(), snapshot.bids@),
            asks: apply_levels(Map::empty(), snapshot.asks@),
        }
    }

    /// The book after the levels of `diff` are upserted.
    pub open spec fn apply_diff(self, diff: DepthDiff) -> BookView {
        BookView {
            symbol: self.symbol,
            timestamp: diff.event_time,
            final_update_id: diff.final_update_id,
            bids: apply_levels(self.bids, diff.bids@),
            asks: apply_levels(self.asks, diff.asks@),
        }
    }

    /// The highest bid, if there is a bid.
    pub open spec fn best_bid(self) -> Option<PriceLevel> {
        best_level(Side::Bid, self.bids)
    }

    /// The lowest ask, if there is an ask.
    pub open spec fn best_ask(self) -> Option<PriceLevel> {
        best_level(Side::Ask, self.asks)
    }

    /// Both sides hold a level and the best bid is not below the best ask.
    pub open spec fn crossed(self) -> bool {
        match (self.best_bid(), self.best_ask()) {
            (Some(bid), Some(ask)) => bid.price.units() >= ask.price.units(),
            _ => false,
        }
    }

    /// The book stands at `expected_previous_id` and, where asked, is not
    /// crossed.
    pub open spec fn verify(self, expected_previous_id: u64, check_crossed: bool) -> bool {
        self.final_update_id == expected_previous_id && !(check_crossed && self.crossed())
    }

    /// The exact midpoint of the best prices, where both exist and it is
    /// confirmed.
    pub open spec fn mid_price(self) -> Option<Decimal> {
        match (self.best_bid(), self.best_ask()) {
            (Some(bid), Some(ask)) => spec_midpoint(bid.price, ask.price),
            _ => None,
        }
    }
}

/// The `i`-th level of two parallel sequences of prices and quantities.
pub open spec fn zip_levels(prices: Seq<Decimal>, quantities: Seq<Decimal>) -> Seq<PriceLevel> {
    Seq::new(prices.len(), |i: int| PriceLevel { price: prices[i], quantity: quantities[i] })
}

/// The top of the book as four parallel sequences, best level first on each
/// side: ask prices ascending, bid prices descending.
#[derive(Clone, Debug)]
pub struct Depth {
    pub ask_prices: Vec<Decimal>,
    pub bid_prices: Vec<Decimal>,
    pub ask_quantities: Vec<Decimal>,
    pub bid_quantities: Vec<Decimal>,
}

impl Depth {
    /// The ask levels, best first.
    pub open spec fn asks(&self) -> Seq<PriceLevel> {
        zip_levels(self.ask_prices@, self.ask_quantities@)
    }

    /// The bid levels, best first.
    pub open spec fn bids(&self) -> Seq<PriceLevel> {
        zip_levels(self.bid_prices@, self.bid_quantities@)
    }

    /// This is the depth of `book` to `n` levels.
    pub open spec fn is_depth_of(&self, book: BookView, n: nat) -> bool {
        &&& self.ask_prices@.len() == self.ask_quantities@.len()
        &&& self.bid_prices@.len() == self.bid_quantities@.len()
        &&& is_top_n(Side::Ask, book.asks, n, self.asks())
        &&& is_top_n(Side::Bid, book.bids, n, self.bids())
        &&& self.ask_prices@.len() == if n <= book.asks.dom().len() {
            n
        } else {
            book.asks.dom().len()
        }
        &&& self.bid_prices@.len() == if n <= book.bids.dom().len() {
            n
        } else {
            book.bids.dom().len()
        }
    }
}

/// Splits levels into parallel vectors of prices and quantities.
fn unzip_levels(levels: &Vec<PriceLevel>) -> (r: (Vec<Decimal>, Vec<Decimal>))
    ensures
        r.0@.len() == levels@.len(),
        r.1@.len() == levels@.len(),
        zip_levels(r.0@, r.1@) == levels@,
{
    let mut prices: Vec<Decimal> = Vec::new();
    let mut quantities: Vec<Decimal> = Vec::new();
    let mut i: usize = 0;
    while i < levels.len()
        invariant
            i <= levels@.len(),
            prices@.len() == i,
            quantities@.len() == i,
            forall|j: int| 0 <= j < i ==> prices@[j] == (#[trigger] levels@[j]).price,
            forall|j: int| 0 <= j < i ==> quantities@[j] == (#[trigger] levels@[j]).quantity,
        decreases levels@.len() - i,
    {
        prices.push(levels[i].price);
        quantities.push(levels[i].quantity);
        i = i + 1;
    }
    assert(zip_levels(prices@, quantities@) =~= levels@);
    (prices, quantities)
}

/// The order book of one instrument.
#[derive(Clone, Debug)]
pub struct OrderBook {
    symbol: String,
    timestamp: u64,
    final_update_id: u64,
    bids: PriceLevelMap,
    asks: PriceLevelMap,
}

impl View for OrderBook {
    type V = BookView;

    closed spec fn view(&self) -> BookView {
        BookView {
            symbol: self.symbol@,
            timestamp: self.timestamp,
            final_update_id: self.final_update_id,
            bids: self.bids@,
            asks: self.asks@,
        }
    }
}

impl OrderBook {
    /// The representation invariant.
    pub closed spec fn wf(&self) -> bool {
        &&& self.bids.wf()
        &&& self.asks.wf()
        &&& self.bids.spec_side() == Side::Bid
        &&& self.asks.spec_side() == Side::Ask
    }

    /// A well-formed book has a valid view.
    pub proof fn lemma_view_valid(&self)
        requires
            self.wf(),
        ensures
            self@.wf(),
    {
        self.bids.lemma_view_valid();
        self.asks.lemma_view_valid();
    }

    /// An empty book for `symbol`, standing at update 0.
    pub fn new(symbol: String, timestamp: u64) -> (r: OrderBook)
        ensures
            r.wf(),
            r@ == (BookView {
                symbol: symbol@,
                timestamp,
                final_update_id: 0,
                bids: Map::empty(),
                asks: Map::empty(),
            }),
    {
        OrderBook {
            symbol,
            timestamp,
            final_update_id: 0,
            bids: PriceLevelMap::new(Side::Bid),
            asks: PriceLevelMap::new(Side::Ask),
        }
    }

    /// The instrument.
    pub fn symbol(&self) -> (r: &String)
        ensures
            r@ == self@.symbol,
    {
        &self.symbol
    }

    /// The event time of the last message applied.
    pub fn timestamp(&self) -> (r: u64)
        ensures
            r == self@.timestamp,
    {
        self.timestamp
    }

    /// The sequence number of the last message applied.
    pub fn final_update_id(&self) -> (r: u64)
        ensures
            r == self@.final_update_id,
    {
        self.final_update_id
    }

    /// The bid side.
    pub fn bids(&self) -> (r: &PriceLevelMap)
        requires
            self.wf(),
        ensures
            r.wf(),
            r.spec_side() == Side::Bid,
            r@ == self@.bids,
    {
        &self.bids
    }

    /// The ask side.
    pub fn asks(&self) -> (r: &PriceLevelMap)
        requires
            self.wf(),
        ensures
            r.wf(),
            r.spec_side() == Side::Ask,
            r@ == self@.asks,
    {
        &self.asks
    }

    /// Resets the book to `snapshot`: both sides are cleared, position and
    /// time are overwritten, and the snapshot's levels are upserted.
    pub fn apply_snapshot(&mut self, snapshot: &DepthSnapshot)
        requires
            old(self).wf(),
            snapshot.wf(),
        ensures
            final(self).wf(),
            final(self)@ == old(self)@.apply_snapshot(*snapshot),
    {
        self.bids.clear();
        self.asks.clear();
        self.final_update_id = snapshot.last_update_id;
        self.timestamp = snapshot.event_time;
        self.bids.upsert_all(&snapshot.bids);
        self.asks.upsert_all(&snapshot.asks);
    }

    /// Applies `diff`: position and time are overwritten and every level of
    /// the diff is upserted. Continuity is not checked here.
    pub fn apply_diff(&mut self, diff: &DepthDiff)
        requires
            old(self).wf(),
            diff.wf(),
        ensures
            final(self).wf(),
            final(self)@ == old(self)@.apply_diff(*diff),
    {
        self.final_update_id = diff.final_update_id;
        self.timestamp = diff.event_time;
        self.bids.upsert_all(&diff.bids);
        self.asks.upsert_all(&diff.asks);
    }

    /// Whether the book stands at `expected_previous_id` and, if
    /// `check_crossed` is set, is not crossed.
    pub fn verify(&self, expected_previous_id: u64, check_crossed: bool) -> (r: bool)
        requires
            self.wf(),
        ensures
            r == self@.verify(expected_previous_id, check_crossed),
            check_crossed && self@.crossed() ==> !r,
    {
        if check_crossed {
            match (self.bids.best(), self.asks.best()) {
                (Some(bid), Some(ask)) => {
                    proof {
                        self.lemma_view_valid();
                    }
                    if !bid.price.lt(&ask.price) {
                        return false;
                    }
                },
                _ => {},
            }
        }
        self.final_update_id == expected_previous_id
    }

    /// The highest bid as `(price, quantity)`.
    pub fn best_bid(&self) -> (r: Option<(Decimal, Decimal)>)
        requires
            self.wf(),
        ensures
            r == match self@.best_bid() {
                Some(l) => Some((l.price, l.quantity)),
                None => None,
            },
    {
        match self.bids.best() {
            Some(l) => Some((l.price, l.quantity)),
            None => None,
        }
    }

    /// The lowest ask as `(price, quantity)`.
    pub fn best_ask(&self) -> (r: Option<(Decimal, Decimal)>)
        requires
            self.wf(),
        ensures
            r == match self@.best_ask() {
                Some(l) => Some((l.price, l.quantity)),
                None => None,
            },
    {
        match self.asks.best() {
            Some(l) => Some((l.price, l.quantity)),
            None => None,
        }
    }

    /// The best bid and the best ask, where both sides hold a level.
    pub fn best_bid_and_ask(&self) -> (r: Option<((Decimal, Decimal), (Decimal, Decimal))>)
        requires
            self.wf(),
        ensures
            r == match (self@.best_bid(), self@.best_ask()) {
                (Some(b), Some(a)) => Some(((b.price, b.quantity), (a.price, a.quantity))),
                _ => None,
            },
    {
        match (self.best_bid(), self.best_ask()) {
            (Some(b), Some(a)) => Some((b, a)),
            _ => None,
        }
    }

    /// The price of the highest bid.
    pub fn best_bid_price(&self) -> (r: Option<Decimal>)
        requires
            self.wf(),
        ensures
            r == match self@.best_bid() {
                Some(l) => Some(l.price),
                None => None,
            },
    {
        match self.bids.best() {
            Some(l) => Some(l.price),
            None => None,
        }
    }

    /// The price of the lowest ask.
    pub fn best_ask_price(&self) -> (r: Option<Decimal>)
        requires
            self.wf(),
        ensures
            r == match self@.best_ask() {
                Some(l) => Some(l.price),
                None => None,
            },
    {
        match self.asks.best() {
            Some(l) => Some(l.price),
            None => None,
        }
    }

    /// The midpoint of the best bid and best ask prices, not rounded. `None`
    /// where a side is empty or no exact midpoint is confirmed.
    pub fn mid_price(&self) -> (r: Option<Decimal>)
        requires
            self.wf(),
        ensures
            r == self@.mid_price(),
            r matches Some(m) ==> m.wf() && is_midpoint(
                self@.best_bid().unwrap().price,
                self@.best_ask().unwrap().price,
                m,
            ),
    {
        match (self.bids.best(), self.asks.best()) {
            (Some(bid), Some(ask)) => {
                proof {
                    self.lemma_view_valid();
                }
                midpoint(&bid.price, &ask.price)
            },
            _ => None,
        }
    }

    /// The `n` best levels of each side as parallel sequences.
    pub fn depth(&self, n: usize) -> (r: Depth)
        requires
            self.wf(),
        ensures
            r.is_depth_of(self@, n as nat),
    {
        let asks = self.asks.top_n(n);
        let bids = self.bids.top_n(n);
        let (ask_prices, ask_quantities) = unzip_levels(&asks);
        let (bid_prices, bid_quantities) = unzip_levels(&bids);
        Depth { ask_prices, bid_prices, ask_quantities, bid_quantities }
    }
}

/// A snapshot of well-formed levels gives a valid book.
pub proof fn lemma_apply_snapshot_keeps_wf(book: BookView, snapshot: DepthSnapshot)
    requires
        snapshot.wf(),
    ensures
        book.apply_snapshot(snapshot).wf(),
{
    lemma_apply_keeps_wf(Map::empty(), snapshot.bids@);
    lemma_apply_keeps_wf(Map::empty(), snapshot.asks@);
}

/// A diff of well-formed levels keeps a book valid.
pub proof fn lemma_apply_diff_keeps_wf(book: BookView, diff: DepthDiff)
    requires
        book.wf(),
        diff.wf(),
    ensures
        book.apply_diff(diff).wf(),
{
    lemma_apply_keeps_wf(book.bids, diff.bids@);
    lemma_apply_keeps_wf(book.asks, diff.asks@);
}

/// A reset reproduces the snapshot: where the snapshot lists each price once
/// and no zero quantity, a level is in the book afterwards if and only if the
/// snapshot lists it, whatever the book held before.
pub proof fn lemma_snapshot_round_trip(book: BookView, snapshot: DepthSnapshot)
    requires
        distinct_prices(snapshot.bids@),
        distinct_prices(snapshot.asks@),
        no_zero_quantity(snapshot.bids@),
        no_zero_quantity(snapshot.asks@),
    ensures
        book.apply_snapshot(snapshot).final_update_id == snapshot.last_update_id,
        book.apply_snapshot(snapshot).timestamp == snapshot.event_time,
        forall|l: PriceLevel|
            book.apply_snapshot(snapshot).bids.contains_pair(l.price, l.quantity)
                <==> #[trigger] snapshot.bids@.contains(l),
        forall|l: PriceLevel|
            book.apply_snapshot(snapshot).asks.contains_pair(l.price, l.quantity)
                <==> #[trigger] snapshot.asks@.contains(l),
{
    lemma_apply_reproduces(snapshot.bids@);
    lemma_apply_reproduces(snapshot.asks@);
}

/// No level survives a reset: two books reset to the same snapshot hold the
/// same levels, and every price held afterwards is one the snapshot lists.
pub proof fn lemma_snapshot_supersedes(book: BookView, other: BookView, snapshot: DepthSnapshot)
    ensures
        book.apply_snapshot(snapshot).bids == other.apply_snapshot(snapshot).bids,
        book.apply_snapshot(snapshot).asks == other.apply_snapshot(snapshot).asks,
        forall|p: Decimal| #[trigger]
            book.apply_snapshot(snapshot).bids.contains_key(p) ==> listed(snapshot.bids@, p),
        forall|p: Decimal| #[trigger]
            book.apply_snapshot(snapshot).asks.contains_key(p) ==> listed(snapshot.asks@, p),
{
    assert forall|p: Decimal| #[trigger]
        book.apply_snapshot(snapshot).bids.contains_key(p) implies listed(snapshot.bids@, p) by {
        lemma_apply_holds_only_listed(snapshot.bids@, p);
    }
    assert forall|p: Decimal| #[trigger]
        book.apply_snapshot(snapshot).asks.contains_key(p) implies listed(snapshot.asks@, p) by {
        lemma_apply_holds_only_listed(snapshot.asks@, p);
    }
}

/// A crossed book never passes a verification that checks for crossing, at
/// whatever position it is asked about; and a book is crossed exactly when
/// some bid is at or above some ask.
pub proof fn lemma_crossed_fails_verify(book: BookView, expected_previous_id: u64)
    requires
        book.wf(),
    ensures
        book.crossed() ==> !book.verify(expected_previous_id, true),
        book.crossed() <==> exists|bid: Decimal, ask: Decimal|
            #![trigger book.bids.contains_key(bid), book.asks.contains_key(ask)]
            book.bids.contains_key(bid) && book.asks.contains_key(ask) && bid.units()
                >= ask.units(),
{
    lemma_best_exists(Side::Bid, book.bids);
    lemma_best_exists(Side::Ask, book.asks);
    if book.crossed() {
        let b = book.best_bid().unwrap().price;
        let a = book.best_ask().unwrap().price;
        assert(book.bids.contains_key(b) && book.asks.contains_key(a) && b.units() >= a.units());
    }
    if exists|bid: Decimal, ask: Decimal|
        #![trigger book.bids.contains_key(bid), book.asks.contains_key(ask)]
        book.bids.contains_key(bid) && book.asks.contains_key(ask) && bid.units() >= ask.units() {
        let (bid, ask) = choose|bid: Decimal, ask: Decimal|
            #![trigger book.bids.contains_key(bid), book.asks.contains_key(ask)]
            book.bids.contains_key(bid) && book.asks.contains_key(ask) && bid.units()
                >= ask.units();
        let b = book.best_bid().unwrap().price;
        let a = book.best_ask().unwrap().price;
        assert(!better(Side::Bid, bid, b));
        assert(!better(Side::Ask, ask, a));
    }
}

/// The depth of a book is determined by the book and `n`: two readings of the
/// same book to the same depth hold the same four sequences.
pub proof fn lemma_depth_determined(book: BookView, n: nat, first: Depth, second: Depth)
    requires
        book.wf(),
        first.is_depth_of(book, n),
        second.is_depth_of(book, n),
    ensures
        first.ask_prices@ == second.ask_prices@,
        first.ask_quantities@ == second.ask_quantities@,
        first.bid_prices@ == second.bid_prices@,
        first.bid_quantities@ == second.bid_quantities@,
{
    lemma_top_n_unique(Side::Ask, book.asks, n, first.asks(), second.asks());
    lemma_top_n_unique(Side::Bid, book.bids, n, first.bids(), second.bids());
    assert forall|i: int| 0 <= i < first.ask_prices@.len() implies first.ask_prices@[i]
        == second.ask_prices@[i] && first.ask_quantities@[i] == second.ask_quantities@[i] by {
        assert(first.asks()[i] == second.asks()[i]);
    }
    assert forall|i: int| 0 <= i < first.bid_prices@.len() implies first.bid_prices@[i]
        == second.bid_prices@[i] && first.bid_quantities@[i] == second.bid_quantities@[i] by {
        assert(first.bids()[i] == second.bids()[i]);
    }
    assert(first.ask_prices@ =~= second.ask_prices@);
    assert(first.ask_quantities@ =~= second.ask_quantities@);
    assert(first.bid_prices@ =~= second.bid_prices@);
    assert(first.bid_quantities@ =~= second.bid_quantities@);
}

} // verus!
