use orderbook::decimal::Decimal;
use orderbook::level::{PriceLevel, PriceLevelMap, Side};

fn d(mantissa: i128, scale: u32) -> Decimal {
    Decimal::new(mantissa, scale).unwrap()
}

fn lvl(pm: i128, ps: u32, qm: i128, qs: u32) -> PriceLevel {
    PriceLevel::new(d(pm, ps), d(qm, qs))
}

fn asks_of(levels: &[PriceLevel]) -> PriceLevelMap {
    let mut m = PriceLevelMap::new(Side::Ask);
    m.upsert_all(&levels.to_vec());
    m
}

fn bids_of(levels: &[PriceLevel]) -> PriceLevelMap {
    let mut m = PriceLevelMap::new(Side::Bid);
    m.upsert_all(&levels.to_vec());
    m
}

#[test]
fn new_map_is_empty() {
    let m = PriceLevelMap::new(Side::Bid);
    assert_eq!(m.side(), Side::Bid);
    assert_eq!(m.len(), 0);
    assert!(m.is_empty());
    assert_eq!(m.best(), None);
    assert_eq!(m.top_n(5), Vec::<PriceLevel>::new());
}

#[test]
fn price_level_new_keeps_its_parts() {
    let l = PriceLevel::new(d(105, 1), d(3, 0));
    assert_eq!(l.price, d(105, 1));
    assert_eq!(l.quantity, d(3, 0));
}

#[test]
fn upsert_inserts_a_new_price() {
    let mut m = PriceLevelMap::new(Side::Ask);
    m.upsert(d(105, 1), d(3, 0));
    assert_eq!(m.len(), 1);
    assert!(!m.is_empty());
    assert_eq!(m.get(&d(105, 1)), Some(d(3, 0)));
    assert_eq!(m.get(&d(106, 1)), None);
}

#[test]
fn upsert_replaces_the_quantity_at_a_price() {
    let mut m = PriceLevelMap::new(Side::Ask);
    m.upsert(d(105, 1), d(3, 0));
    m.upsert(d(1050, 2), d(7, 0));
    assert_eq!(m.len(), 1);
    assert_eq!(m.get(&d(105, 1)), Some(d(7, 0)));
}

#[test]
fn upsert_zero_removes_the_price() {
    let mut m = asks_of(&[lvl(105, 1, 3, 0), lvl(106, 1, 4, 0)]);
    m.upsert(d(105, 1), Decimal::zero());
    assert_eq!(m.get(&d(105, 1)), None);
    assert_eq!(m.len(), 1);
    assert_eq!(m.get(&d(106, 1)), Some(d(4, 0)));
}

#[test]
fn upsert_zero_on_absent_price_changes_nothing() {
    let mut m = asks_of(&[lvl(105, 1, 3, 0)]);
    m.upsert(d(200, 0), Decimal::zero());
    assert_eq!(m.len(), 1);
    assert_eq!(m.get(&d(105, 1)), Some(d(3, 0)));
    assert_eq!(m.get(&d(200, 0)), None);
}

#[test]
fn upsert_zero_never_leaves_the_price_whatever_was_there() {
    let prior: [Vec<PriceLevel>; 3] =
        [vec![], vec![lvl(10, 0, 1, 0)], vec![lvl(9, 0, 1, 0), lvl(10, 0, 2, 0), lvl(11, 0, 3, 0)]];
    for levels in prior {
        let mut m = bids_of(&levels);
        m.upsert(d(10, 0), d(0, 3));
        assert_eq!(m.get(&d(10, 0)), None);
        let once = m.top_n(10);
        m.upsert(d(10, 0), Decimal::zero());
        assert_eq!(m.top_n(10), once);
    }
}

#[test]
fn upsert_all_applies_first_to_last() {
    let m = asks_of(&[lvl(10, 0, 1, 0), lvl(11, 0, 2, 0), lvl(10, 0, 5, 0), lvl(11, 0, 0, 0)]);
    assert_eq!(m.len(), 1);
    assert_eq!(m.get(&d(10, 0)), Some(d(5, 0)));
    assert_eq!(m.get(&d(11, 0)), None);
}

#[test]
fn clear_removes_every_level() {
    let mut m = bids_of(&[lvl(10, 0, 1, 0), lvl(11, 0, 2, 0)]);
    m.clear();
    assert!(m.is_empty());
    assert_eq!(m.side(), Side::Bid);
    assert_eq!(m.best(), None);
}

#[test]
fn best_bid_is_the_highest_price() {
    let m = bids_of(&[lvl(100, 1, 5, 0), lvl(99, 1, 1, 0), lvl(101, 1, 2, 0), lvl(1005, 2, 9, 0)]);
    assert_eq!(m.best(), Some(lvl(101, 1, 2, 0)));
}

#[test]
fn best_ask_is_the_lowest_price() {
    let m = asks_of(&[lvl(105, 1, 3, 0), lvl(1049, 2, 1, 0), lvl(11, 0, 2, 0)]);
    assert_eq!(m.best(), Some(lvl(1049, 2, 1, 0)));
}

#[test]
fn top_n_of_asks_ascends() {
    let m = asks_of(&[lvl(12, 0, 3, 0), lvl(10, 0, 1, 0), lvl(13, 0, 4, 0), lvl(11, 0, 2, 0)]);
    assert_eq!(m.top_n(3), vec![lvl(10, 0, 1, 0), lvl(11, 0, 2, 0), lvl(12, 0, 3, 0)]);
}

#[test]
fn top_n_of_bids_descends() {
    let m = bids_of(&[lvl(12, 0, 3, 0), lvl(10, 0, 1, 0), lvl(13, 0, 4, 0), lvl(11, 0, 2, 0)]);
    assert_eq!(m.top_n(3), vec![lvl(13, 0, 4, 0), lvl(12, 0, 3, 0), lvl(11, 0, 2, 0)]);
}

#[test]
fn top_n_is_cut_at_the_number_of_levels() {
    let m = bids_of(&[lvl(12, 0, 3, 0), lvl(10, 0, 1, 0)]);
    assert_eq!(m.top_n(20), vec![lvl(12, 0, 3, 0), lvl(10, 0, 1, 0)]);
    assert_eq!(m.top_n(0), Vec::<PriceLevel>::new());
    assert_eq!(m.top_n(1), vec![lvl(12, 0, 3, 0)]);
}

#[test]
fn top_n_can_be_taken_again() {
    let m = asks_of(&[lvl(12, 0, 3, 0), lvl(10, 0, 1, 0)]);
    assert_eq!(m.top_n(2), m.top_n(2));
    assert_eq!(m.top_n(1), vec![m.best().unwrap()]);
}

#[test]
fn many_levels_stay_ordered() {
    let mut m = PriceLevelMap::new(Side::Ask);
    let mut k: i128 = 0;
    while k < 200 {
        // 7 is coprime to 200, so every price from 0 to 199 comes once.
        m.upsert(d((k * 7) % 200, 0), d(k + 1, 0));
        k += 1;
    }
    assert_eq!(m.len(), 200);
    let all = m.top_n(200);
    for i in 0..200usize {
        assert_eq!(all[i].price, d(i as i128, 0));
    }
    let mut k: i128 = 0;
    while k < 200 {
        if k % 2 == 1 {
            m.upsert(d(k, 0), Decimal::zero());
        }
        k += 1;
    }
    assert_eq!(m.len(), 100);
    let rest = m.top_n(200);
    for i in 0..100usize {
        assert_eq!(rest[i].price, d(2 * i as i128, 0));
    }
}
