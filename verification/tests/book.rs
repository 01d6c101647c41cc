use orderbook::book::{DepthDiff, DepthSnapshot, OrderBook};
use orderbook::decimal::Decimal;
use orderbook::level::PriceLevel;

fn p(mantissa: i128, scale: u32) -> Decimal {
    Decimal::new(mantissa, scale).unwrap()
}

fn level(pm: i128, ps: u32, qm: i128, qs: u32) -> PriceLevel {
    PriceLevel::new(p(pm, ps), p(qm, qs))
}

fn snapshot(id: u64, time: u64, bids: Vec<PriceLevel>, asks: Vec<PriceLevel>) -> DepthSnapshot {
    DepthSnapshot { last_update_id: id, event_time: time, bids, asks }
}

fn diff(
    first: u64,
    last: u64,
    previous: u64,
    time: u64,
    bids: Vec<PriceLevel>,
    asks: Vec<PriceLevel>,
) -> DepthDiff {
    DepthDiff {
        event_time: time,
        first_update_id: first,
        final_update_id: last,
        previous_final_update_id: previous,
        bids,
        asks,
    }
}

fn book_of(bids: Vec<PriceLevel>, asks: Vec<PriceLevel>) -> OrderBook {
    let mut book = OrderBook::new("ethusdt".to_string(), 1);
    book.apply_snapshot(&snapshot(100, 2, bids, asks));
    book
}

#[test]
fn new_book_is_empty_at_update_zero() {
    let book = OrderBook::new("ethusdt".to_string(), 77);
    assert_eq!(book.symbol(), "ethusdt");
    assert_eq!(book.timestamp(), 77);
    assert_eq!(book.final_update_id(), 0);
    assert!(book.bids().is_empty());
    assert!(book.asks().is_empty());
}

#[test]
fn queries_on_an_empty_book_give_nothing() {
    let book = OrderBook::new("ethusdt".to_string(), 0);
    assert_eq!(book.best_bid(), None);
    assert_eq!(book.best_ask(), None);
    assert_eq!(book.best_bid_price(), None);
    assert_eq!(book.best_ask_price(), None);
    assert_eq!(book.best_bid_and_ask(), None);
    assert_eq!(book.mid_price(), None);
    let depth = book.depth(20);
    assert!(depth.ask_prices.is_empty());
    assert!(depth.bid_prices.is_empty());
    assert!(depth.ask_quantities.is_empty());
    assert!(depth.bid_quantities.is_empty());
}

#[test]
fn queries_with_one_side_empty() {
    let book = book_of(vec![level(100, 1, 5, 0)], vec![]);
    assert_eq!(book.best_bid(), Some((p(100, 1), p(5, 0))));
    assert_eq!(book.best_ask(), None);
    assert_eq!(book.best_bid_and_ask(), None);
    assert_eq!(book.mid_price(), None);
    assert!(book.verify(100, true));
}

#[test]
fn snapshot_then_deleting_diff_empties_the_bid_side() {
    let mut book = OrderBook::new("ethusdt".to_string(), 0);
    book.apply_snapshot(&snapshot(100, 10, vec![level(100, 1, 5, 0)], vec![level(105, 1, 3, 0)]));
    book.apply_diff(&diff(101, 105, 100, 11, vec![level(100, 1, 0, 0)], vec![]));
    assert!(book.bids().is_empty());
    assert_eq!(book.best_bid(), None);
    assert_eq!(book.final_update_id(), 105);
    assert_eq!(book.timestamp(), 11);
    assert_eq!(book.best_ask(), Some((p(105, 1), p(3, 0))));
}

#[test]
fn apply_snapshot_reproduces_the_snapshot() {
    let mut book = OrderBook::new("ethusdt".to_string(), 0);
    book.apply_snapshot(&snapshot(
        7,
        70,
        vec![level(99, 0, 1, 0), level(100, 0, 2, 0)],
        vec![level(102, 0, 4, 0), level(101, 0, 3, 0)],
    ));
    assert_eq!(book.final_update_id(), 7);
    assert_eq!(book.timestamp(), 70);
    assert_eq!(book.bids().top_n(10), vec![level(100, 0, 2, 0), level(99, 0, 1, 0)]);
    assert_eq!(book.asks().top_n(10), vec![level(101, 0, 3, 0), level(102, 0, 4, 0)]);
}

#[test]
fn apply_snapshot_leaves_no_stale_level() {
    let mut book = book_of(
        vec![level(99, 0, 1, 0), level(98, 0, 1, 0)],
        vec![level(101, 0, 1, 0), level(102, 0, 1, 0)],
    );
    book.apply_diff(&diff(101, 102, 100, 5, vec![level(97, 0, 9, 0)], vec![level(103, 0, 9, 0)]));
    book.apply_snapshot(&snapshot(50, 6, vec![level(90, 0, 2, 0)], vec![level(110, 0, 2, 0)]));
    assert_eq!(book.final_update_id(), 50);
    assert_eq!(book.bids().top_n(10), vec![level(90, 0, 2, 0)]);
    assert_eq!(book.asks().top_n(10), vec![level(110, 0, 2, 0)]);
    assert_eq!(book.symbol(), "ethusdt");
}

#[test]
fn snapshot_level_with_zero_quantity_is_not_stored() {
    let book = book_of(vec![level(99, 0, 0, 0), level(98, 0, 1, 0)], vec![level(101, 0, 0, 5)]);
    assert_eq!(book.bids().len(), 1);
    assert_eq!(book.bids().get(&p(99, 0)), None);
    assert!(book.asks().is_empty());
}

#[test]
fn snapshot_with_a_price_twice_keeps_the_last() {
    let book = book_of(vec![level(99, 0, 1, 0), level(990, 1, 4, 0)], vec![]);
    assert_eq!(book.bids().len(), 1);
    assert_eq!(book.bids().get(&p(99, 0)), Some(p(4, 0)));
}

#[test]
fn apply_diff_upserts_both_sides() {
    let mut book = book_of(
        vec![level(99, 0, 1, 0), level(98, 0, 1, 0)],
        vec![level(101, 0, 1, 0), level(102, 0, 1, 0)],
    );
    book.apply_diff(&diff(
        101,
        103,
        100,
        9,
        vec![level(99, 0, 7, 0), level(97, 0, 2, 0), level(98, 0, 0, 0)],
        vec![level(101, 0, 0, 0), level(1015, 1, 6, 0)],
    ));
    assert_eq!(book.final_update_id(), 103);
    assert_eq!(book.timestamp(), 9);
    assert_eq!(book.bids().top_n(10), vec![level(99, 0, 7, 0), level(97, 0, 2, 0)]);
    assert_eq!(book.asks().top_n(10), vec![level(1015, 1, 6, 0), level(102, 0, 1, 0)]);
}

#[test]
fn apply_diff_does_not_check_continuity() {
    let mut book = book_of(vec![level(99, 0, 1, 0)], vec![level(101, 0, 1, 0)]);
    book.apply_diff(&diff(500, 510, 499, 9, vec![], vec![]));
    assert_eq!(book.final_update_id(), 510);
    assert_eq!(book.bids().len(), 1);
}

#[test]
fn verify_compares_the_position() {
    let book = book_of(vec![level(99, 0, 1, 0)], vec![level(101, 0, 1, 0)]);
    assert!(book.verify(100, false));
    assert!(book.verify(100, true));
    assert!(!book.verify(99, false));
    assert!(!book.verify(101, true));
}

#[test]
fn verify_rejects_a_crossed_book_when_asked() {
    let crossed = book_of(vec![level(102, 0, 1, 0)], vec![level(101, 0, 1, 0)]);
    assert!(!crossed.verify(100, true));
    assert!(crossed.verify(100, false));
    let touching = book_of(vec![level(101, 0, 1, 0)], vec![level(1010, 1, 1, 0)]);
    assert!(!touching.verify(100, true));
    assert!(touching.verify(100, false));
}

#[test]
fn verify_does_not_change_the_book() {
    let book = book_of(vec![level(102, 0, 1, 0)], vec![level(101, 0, 1, 0)]);
    let before = (book.final_update_id(), book.timestamp(), book.bids().top_n(9), book.asks().top_n(9));
    let _ = book.verify(5, true);
    let after = (book.final_update_id(), book.timestamp(), book.bids().top_n(9), book.asks().top_n(9));
    assert_eq!(before, after);
}

#[test]
fn best_prices_and_levels() {
    let book = book_of(
        vec![level(100, 1, 5, 0), level(99, 1, 8, 0)],
        vec![level(105, 1, 3, 0), level(11, 0, 4, 0)],
    );
    assert_eq!(book.best_bid_price(), Some(p(100, 1)));
    assert_eq!(book.best_ask_price(), Some(p(105, 1)));
    assert_eq!(book.best_bid(), Some((p(100, 1), p(5, 0))));
    assert_eq!(book.best_ask(), Some((p(105, 1), p(3, 0))));
    assert_eq!(book.best_bid_and_ask(), Some(((p(100, 1), p(5, 0)), (p(105, 1), p(3, 0)))));
}

#[test]
fn mid_price_is_the_unrounded_half_sum() {
    let book = book_of(vec![level(100, 1, 5, 0)], vec![level(105, 1, 3, 0)]);
    assert_eq!(book.mid_price(), Some(p(1025, 2)));
    let fine = book_of(vec![level(1, 3, 5, 0)], vec![level(2, 3, 3, 0)]);
    assert_eq!(fine.mid_price(), Some(p(15, 4)));
}

#[test]
fn depth_lists_parallel_sequences_best_first() {
    let book = book_of(
        vec![level(98, 0, 3, 0), level(100, 0, 1, 0), level(99, 0, 2, 0)],
        vec![level(103, 0, 6, 0), level(101, 0, 4, 0), level(102, 0, 5, 0)],
    );
    let depth = book.depth(2);
    assert_eq!(depth.ask_prices, vec![p(101, 0), p(102, 0)]);
    assert_eq!(depth.ask_quantities, vec![p(4, 0), p(5, 0)]);
    assert_eq!(depth.bid_prices, vec![p(100, 0), p(99, 0)]);
    assert_eq!(depth.bid_quantities, vec![p(1, 0), p(2, 0)]);
}

#[test]
fn depth_returns_at_most_n_levels_per_side() {
    let book = book_of(
        vec![level(98, 0, 3, 0), level(100, 0, 1, 0), level(99, 0, 2, 0)],
        vec![level(103, 0, 6, 0)],
    );
    for n in 0..6usize {
        let depth = book.depth(n);
        assert_eq!(depth.bid_prices.len(), n.min(3));
        assert_eq!(depth.bid_quantities.len(), n.min(3));
        assert_eq!(depth.ask_prices.len(), n.min(1));
        assert_eq!(depth.ask_quantities.len(), n.min(1));
    }
}

#[test]
fn depth_is_the_same_on_every_read() {
    let book = book_of(
        vec![level(98, 0, 3, 0), level(100, 0, 1, 0)],
        vec![level(103, 0, 6, 0), level(101, 0, 4, 0)],
    );
    let first = book.depth(20);
    let second = book.depth(20);
    assert_eq!(first.ask_prices, second.ask_prices);
    assert_eq!(first.bid_prices, second.bid_prices);
    assert_eq!(first.ask_quantities, second.ask_quantities);
    assert_eq!(first.bid_quantities, second.bid_quantities);
}
