use order_matching::{AskOrder, BidOrder};
use std::cmp::Ordering;
use uuid::Uuid;

#[test]
fn bid_order_test_new() {
    let id = Uuid::new_v4();
    let order = BidOrder::new(id, 200, 150, 300);

    assert_eq!(order.id, id);
    assert_eq!(order.quantity, 200);
    assert_eq!(order.current_quantity, 150);
    assert_eq!(order.price, 300);
}

#[test]
fn bid_order_test_edge_cases() {
    let max_order = BidOrder::new(Uuid::new_v4(), u32::MAX, u32::MAX, u32::MAX);
    assert_eq!(max_order.quantity, u32::MAX);

    let zero_order = BidOrder::new(Uuid::new_v4(), 0, 0, 0);
    assert_eq!(zero_order.price, 0);

    let extreme1 = BidOrder::new(Uuid::new_v4(), 1, 1, u32::MAX);
    let extreme2 = BidOrder::new(Uuid::new_v4(), u32::MAX, u32::MAX, u32::MAX);
    assert_eq!(extreme1, extreme2);
}

#[test]
fn bid_order_test_equality_based_on_price() {
    let id1 = Uuid::new_v4();
    let id2 = Uuid::new_v4();

    let order1 = BidOrder::new(id1, 100, 100, 50);
    let order2 = BidOrder::new(id2, 200, 200, 50);
    assert_eq!(order1, order2);

    let order3 = BidOrder::new(id1, 100, 100, 50);
    let order4 = BidOrder::new(id1, 100, 100, 55);
    assert_ne!(order3, order4);
}

#[test]
fn bid_order_test_partial_ordering() {
    let order1 = BidOrder::new(Uuid::new_v4(), 100, 100, 50);
    let order2 = BidOrder::new(Uuid::new_v4(), 200, 200, 60);

    assert_eq!(order1.partial_cmp(&order2), Some(Ordering::Less));
    assert_eq!(order2.partial_cmp(&order1), Some(Ordering::Greater));
    assert_eq!(order1.partial_cmp(&order1), Some(Ordering::Equal));
}

#[test]
fn bid_order_test_ordering() {
    let order_low = BidOrder::new(Uuid::new_v4(), 100, 100, 50);
    let order_high = BidOrder::new(Uuid::new_v4(), 100, 100, 60);

    assert_eq!(order_low.partial_cmp(&order_high), Some(Ordering::Less));
    assert_eq!(order_high.partial_cmp(&order_low), Some(Ordering::Greater));
}

#[test]
fn bid_order_test_sorting_same_price() {
    let id1 = Uuid::new_v4();
    let id2 = Uuid::new_v4();

    let order1 = BidOrder::new(id1, 100, 100, 50);
    let order2 = BidOrder::new(id2, 200, 200, 50);

    let mut orders = vec![order1.clone(), order2.clone()];
    orders.sort_by(|a, b| a.partial_cmp(b).unwrap());
    assert_eq!(orders[0].id, order1.id);
    assert_eq!(orders[1].id, order2.id);
}

#[test]
fn bid_order_test_sorting() {
    let mut orders = vec![
        BidOrder::new(Uuid::new_v4(), 100, 100, 70),
        BidOrder::new(Uuid::new_v4(), 100, 100, 50),
        BidOrder::new(Uuid::new_v4(), 100, 100, 60),
    ];

    orders.sort_by(|a, b| a.partial_cmp(b).unwrap());
    let prices: Vec<u32> = orders.iter().map(|o| o.price).collect();
    assert_eq!(prices, vec![50, 60, 70]);
}

#[test]
fn bid_order_test_opposite_ordering_from_ask_order() {
    let price_low = 50;
    let price_high = 60;

    let bid_low = BidOrder::new(Uuid::new_v4(), 100, 100, price_low);
    let bid_high = BidOrder::new(Uuid::new_v4(), 100, 100, price_high);

    let ask_low = AskOrder::new(Uuid::new_v4(), 100, 100, price_low);
    let ask_high = AskOrder::new(Uuid::new_v4(), 100, 100, price_high);

    let mut bids = vec![bid_low.clone(), bid_high.clone()];
    bids.sort_by(|a, b| a.partial_cmp(b).unwrap());
    assert_eq!(bids[0].price, price_low);
    assert_eq!(bids[1].price, price_high);

    let mut asks = vec![ask_low.clone(), ask_high.clone()];
    asks.sort_by(|a, b| a.partial_cmp(b).unwrap());
    assert_eq!(asks[0].price, price_high);
    assert_eq!(asks[1].price, price_low);
}
