use order_matching::{AskOrder, BidOrder, DealBook, OrderBook};
use uuid::Uuid;

#[test]
fn test_asks_push_zero_current_quantity() {
    let mut orderbook = OrderBook::new();
    let ask_id = Uuid::new_v4();
    let ask_order = AskOrder::new(ask_id, 100, 0, 500);

    orderbook.asks_push(ask_order);

    assert_eq!(orderbook.asks.len(), 0);
    assert!(&orderbook.asks_book.is_empty());
}

#[test]
fn test_asks_push_some_current_quantity() {
    let mut orderbook = OrderBook::new();
    let ask_id = Uuid::new_v4();
    let ask_order = AskOrder::new(ask_id, 100, 1, 500);

    orderbook.asks_push(ask_order);

    assert_eq!(orderbook.asks.len(), 1);
    assert!(!&orderbook.asks_book.is_empty());
}

#[test]
fn test_asks_push_existed_price() {
    let mut orderbook = OrderBook::new();
    let ask_id1 = Uuid::new_v4();
    let price: u32 = 500;

    let ask_order1 = AskOrder::new(ask_id1, 100, 1, price);
    orderbook.asks_push(ask_order1);

    let ask_id2 = Uuid::new_v4();
    let ask_order2 = AskOrder::new(ask_id2, 100, 2, price);
    orderbook.asks_push(ask_order2);

    assert_eq!(orderbook.asks.len(), 2);
    assert_eq!(orderbook.asks_book.get(&price).unwrap(), &3);
}

#[test]
fn test_bids_push_zero_current_quantity() {
    let mut orderbook = OrderBook::new();
    let bid_id = Uuid::new_v4();
    let bid_order = BidOrder::new(bid_id, 100, 0, 500);

    orderbook.bids_push(bid_order);

    assert_eq!(orderbook.bids.len(), 0);
    assert!(orderbook.bids_book.is_empty());
}

#[test]
fn test_bids_push_some_current_quantity() {
    let mut orderbook = OrderBook::new();
    let bid_id = Uuid::new_v4();
    let bid_order = BidOrder::new(bid_id, 100, 1, 500);

    orderbook.bids_push(bid_order);

    assert_eq!(orderbook.bids.len(), 1);
    assert!(!orderbook.bids_book.is_empty());
}

#[test]
fn test_bids_push_existed_price() {
    let mut orderbook = OrderBook::new();
    let price: u32 = 500;

    let bid_id1 = Uuid::new_v4();
    let bid_order1 = BidOrder::new(bid_id1, 100, 1, price);
    orderbook.bids_push(bid_order1);

    let bid_id2 = Uuid::new_v4();
    let bid_order2 = BidOrder::new(bid_id2, 100, 2, price);
    orderbook.bids_push(bid_order2);

    assert_eq!(orderbook.bids.len(), 2);
    assert_eq!(orderbook.bids_book.get(&price).unwrap(), &3);
}

#[test]
fn test_asks_pop_empty_asks_queue() {
    let mut order_book = OrderBook::new();
    let mut dealbook = DealBook::new();
    let bid_id = Uuid::new_v4();
    let bid_order = BidOrder::new(bid_id, 100, 50, 500);
    let result_order = order_book.asks_pop(bid_order, &mut dealbook);

    assert_eq!(result_order.price, 500);
    assert_eq!(result_order.quantity, 100);
    assert_eq!(result_order.current_quantity, 50);
    assert!(dealbook.deals.is_empty());
}

#[test]
fn test_asks_pop_non_empty_asks_queue() {
    let mut order_book = OrderBook::new();
    let mut dealbook = DealBook::new();
    let bid_id = Uuid::new_v4();
    let price: u32 = 500;
    let ask_order = AskOrder::new(bid_id, 100, 50, price);
    order_book.asks_push(ask_order);

    let bid_id = Uuid::new_v4();
    let bid_order = BidOrder::new(bid_id, 100, 100, price);
    let result_order = order_book.asks_pop(bid_order, &mut dealbook);

    assert_eq!(result_order.price, 500);
    assert_eq!(result_order.quantity, 100);
    assert_eq!(result_order.current_quantity, 50);

    assert!(order_book.asks.is_empty());
    assert!(!dealbook.deals.is_empty());
}

#[test]
fn test_bids_pop_empty_bids_queue() {
    let mut order_book = OrderBook::new();
    let mut dealbook = DealBook::new();
    let ask_id = Uuid::new_v4();
    let ask_order = AskOrder::new(ask_id, 100, 50, 500);
    let result_order = order_book.bids_pop(ask_order, &mut dealbook);

    assert_eq!(result_order.price, 500);
    assert_eq!(result_order.quantity, 100);
    assert_eq!(result_order.current_quantity, 50);
    assert!(dealbook.deals.is_empty());
}

#[test]
fn test_bids_pop_non_empty_bids_queue() {
    let mut order_book = OrderBook::new();
    let mut dealbook = DealBook::new();
    let ask_id = Uuid::new_v4();
    let bid_order = BidOrder::new(ask_id, 100, 50, 500);
    order_book.bids_push(bid_order);

    let bid_id = Uuid::new_v4();
    let ask_order = AskOrder::new(bid_id, 100, 100, 500);
    let result_order = order_book.bids_pop(ask_order, &mut dealbook);

    assert_eq!(result_order.price, 500);
    assert_eq!(result_order.quantity, 100);
    assert_eq!(result_order.current_quantity, 50);

    assert!(order_book.bids.is_empty());
    assert!(!dealbook.deals.is_empty());
}

#[test]
fn test_get_dom() {
    let mut orderbook = OrderBook::new();
    orderbook.asks_push(AskOrder::new(Uuid::new_v4(), 100, 100, 510));
    orderbook.asks_push(AskOrder::new(Uuid::new_v4(), 50, 50, 500));
    orderbook.bids_push(BidOrder::new(Uuid::new_v4(), 70, 70, 490));
    orderbook.bids_push(BidOrder::new(Uuid::new_v4(), 30, 30, 480));

    let dom = orderbook.get_dom();

    assert_eq!(dom.ask.len(), 2);

    let ask_prices: Vec<u32> = dom.ask.iter().map(|entry| entry.price).collect();
    assert!(ask_prices.contains(&500));
    assert!(ask_prices.contains(&510));
    assert_eq!(dom.bid.len(), 2);

    let bid_prices: Vec<u32> = dom.bid.iter().map(|entry| entry.price).collect();
    assert!(bid_prices.contains(&480));
    assert!(bid_prices.contains(&490));

    for entry in dom.ask {
        if entry.price == 500 {
            assert_eq!(entry.quantity, 50);
        } else if entry.price == 510 {
            assert_eq!(entry.quantity, 100);
        }
    }

    for entry in dom.bid {
        if entry.price == 480 {
            assert_eq!(entry.quantity, 30);
        } else if entry.price == 490 {
            assert_eq!(entry.quantity, 70);
        }
    }
}

#[test]
fn asks_peek_mut_reduces_best_ask_in_place() {
    let mut orderbook = OrderBook::new();
    let mut dealbook = DealBook::new();
    let ask_id = Uuid::new_v4();
    orderbook.asks_push(AskOrder::new(ask_id, 100, 100, 500));
    orderbook.asks_push(AskOrder::new(Uuid::new_v4(), 10, 10, 520));

    let bid_id = Uuid::new_v4();
    let result = orderbook.asks_peek_mut(BidOrder::new(bid_id, 40, 40, 510), &mut dealbook);

    assert_eq!(result.current_quantity, 0);
    assert_eq!(result.quantity, 40);
    assert_eq!(orderbook.asks.len(), 2);
    let top = orderbook.asks.last().unwrap();
    assert_eq!(top.id, ask_id);
    assert_eq!(top.current_quantity, 60);
    assert_eq!(orderbook.asks_book.get(&500), Some(&60));
    assert_eq!(orderbook.asks_book.get(&520), Some(&10));
    assert_eq!(dealbook.deals.len(), 1);
    assert_eq!(dealbook.deals[0].price, 500);
    assert_eq!(dealbook.deals[0].quantity, 40);
    assert_eq!(dealbook.deals[0].ask_order, ask_id);
    assert_eq!(dealbook.deals[0].bid_order, bid_id);
}

#[test]
fn bids_peek_mut_reduces_best_bid_in_place() {
    let mut orderbook = OrderBook::new();
    let mut dealbook = DealBook::new();
    let bid_id = Uuid::new_v4();
    orderbook.bids_push(BidOrder::new(Uuid::new_v4(), 10, 10, 480));
    orderbook.bids_push(BidOrder::new(bid_id, 100, 100, 500));

    let ask_id = Uuid::new_v4();
    let result = orderbook.bids_peek_mut(AskOrder::new(ask_id, 30, 30, 490), &mut dealbook);

    assert_eq!(result.current_quantity, 0);
    let top = orderbook.bids.last().unwrap();
    assert_eq!(top.id, bid_id);
    assert_eq!(top.current_quantity, 70);
    assert_eq!(orderbook.bids_book.get(&500), Some(&70));
    assert_eq!(dealbook.deals[0].price, 500);
    assert_eq!(dealbook.deals[0].quantity, 30);
    assert_eq!(dealbook.deals[0].ask_order, ask_id);
    assert_eq!(dealbook.deals[0].bid_order, bid_id);
}

#[test]
fn peek_mut_on_empty_side_changes_nothing() {
    let mut orderbook = OrderBook::new();
    let mut dealbook = DealBook::new();
    let result = orderbook.asks_peek_mut(BidOrder::new(Uuid::new_v4(), 100, 50, 500), &mut dealbook);
    assert_eq!(result.current_quantity, 50);
    assert!(dealbook.deals.is_empty());
    let result = orderbook.bids_peek_mut(AskOrder::new(Uuid::new_v4(), 100, 50, 500), &mut dealbook);
    assert_eq!(result.current_quantity, 50);
    assert!(dealbook.deals.is_empty());
}

#[test]
fn best_orders_come_out_first() {
    let mut orderbook = OrderBook::new();
    let mut dealbook = DealBook::new();
    orderbook.asks_push(AskOrder::new(Uuid::new_v4(), 5, 5, 510));
    orderbook.asks_push(AskOrder::new(Uuid::new_v4(), 5, 5, 490));
    orderbook.asks_push(AskOrder::new(Uuid::new_v4(), 5, 5, 500));
    let bid = BidOrder::new(Uuid::new_v4(), 100, 100, 600);
    let bid = orderbook.asks_pop(bid, &mut dealbook);
    let bid = orderbook.asks_pop(bid, &mut dealbook);
    let bid = orderbook.asks_pop(bid, &mut dealbook);
    let prices: Vec<u32> = dealbook.deals.iter().map(|d| d.price).collect();
    assert_eq!(prices, vec![490, 500, 510]);
    assert_eq!(bid.current_quantity, 85);
    assert!(orderbook.asks_book.is_empty());

    orderbook.bids_push(BidOrder::new(Uuid::new_v4(), 5, 5, 490));
    orderbook.bids_push(BidOrder::new(Uuid::new_v4(), 5, 5, 510));
    orderbook.bids_push(BidOrder::new(Uuid::new_v4(), 5, 5, 500));
    let mut dealbook = DealBook::new();
    let ask = AskOrder::new(Uuid::new_v4(), 100, 100, 1);
    let ask = orderbook.bids_pop(ask, &mut dealbook);
    let ask = orderbook.bids_pop(ask, &mut dealbook);
    let _ = orderbook.bids_pop(ask, &mut dealbook);
    let prices: Vec<u32> = dealbook.deals.iter().map(|d| d.price).collect();
    assert_eq!(prices, vec![510, 500, 490]);
}

#[test]
fn same_price_orders_are_served_in_arrival_order() {
    let mut orderbook = OrderBook::new();
    let mut dealbook = DealBook::new();
    let first = Uuid::new_v4();
    let second = Uuid::new_v4();
    orderbook.asks_push(AskOrder::new(first, 5, 5, 500));
    orderbook.asks_push(AskOrder::new(second, 5, 5, 500));
    let bid = orderbook.asks_pop(BidOrder::new(Uuid::new_v4(), 10, 10, 500), &mut dealbook);
    let _ = orderbook.asks_pop(bid, &mut dealbook);
    assert_eq!(dealbook.deals[0].ask_order, first);
    assert_eq!(dealbook.deals[1].ask_order, second);
}

#[test]
fn popping_part_of_a_level_keeps_the_rest() {
    let mut orderbook = OrderBook::new();
    let mut dealbook = DealBook::new();
    orderbook.bids_push(BidOrder::new(Uuid::new_v4(), 30, 30, 500));
    orderbook.bids_push(BidOrder::new(Uuid::new_v4(), 20, 20, 500));
    assert_eq!(orderbook.bids_book.get(&500), Some(&50));
    let ask = orderbook.bids_pop(AskOrder::new(Uuid::new_v4(), 40, 40, 500), &mut dealbook);
    assert_eq!(ask.current_quantity, 10);
    assert_eq!(orderbook.bids_book.get(&500), Some(&20));
    assert_eq!(orderbook.bids.len(), 1);
}
