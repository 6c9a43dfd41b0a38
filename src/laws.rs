//! Properties of the book and of matching, stated over the specifications
//! that the operations' contracts use.

use crate::ask_order::AskOrder;
use crate::bid_order::BidOrder;
use crate::deal::{traded, Deal};
use crate::engine::{ask_fills, ask_processed, asks_left, bid_fills, bid_processed, bids_left};
use crate::orderbook::OrderBook;
use vstd::prelude::*;

verus! {

/// In every well-formed book, each index holds a price exactly when open
/// quantity rests there, and then holds the sum of the open quantities of the
/// orders at that price.
pub proof fn index_is_aggregate(book: OrderBook, price: u32)
    requires
        book.wf(),
    ensures
        book.asks_book@.contains_key(price) <==> book.ask_level(price) > 0,
        book.asks_book@.contains_key(price) ==> book.asks_book@[price] == book.ask_level(price),
        book.bids_book@.contains_key(price) <==> book.bid_level(price) > 0,
        book.bids_book@.contains_key(price) ==> book.bids_book@[price] == book.bid_level(price),
{
}

/// In every well-formed book, no resting order has a zero open quantity.
pub proof fn no_empty_resting_orders(book: OrderBook)
    requires
        book.wf(),
    ensures
        forall|i: int| 0 <= i < book.asks@.len() ==> #[trigger] book.asks@[i].current_quantity > 0,
        forall|i: int| 0 <= i < book.bids@.len() ==> #[trigger] book.bids@[i].current_quantity > 0,
{
}

/// An incoming bid trades only with asks at or below its price, and every
/// deal is at the price of the resting ask it was made with.
pub proof fn bid_trades_at_maker_price(asks: Seq<AskOrder>, bid: BidOrder, taken: Seq<Deal>)
    requires
        bid_fills(asks, bid, taken),
    ensures
        forall|k: int|
            #![trigger taken[k]]
            0 <= k < taken.len() ==> taken[k].price == asks[asks.len() - 1 - k].price
                && asks[asks.len() - 1 - k].price <= bid.price && taken[k].price <= bid.price,
{
}

/// An incoming ask trades only with bids at or above its price, and every
/// deal is at the price of the resting bid it was made with.
pub proof fn ask_trades_at_maker_price(bids: Seq<BidOrder>, ask: AskOrder, taken: Seq<Deal>)
    requires
        ask_fills(bids, ask, taken),
    ensures
        forall|k: int|
            #![trigger taken[k]]
            0 <= k < taken.len() ==> taken[k].price == bids[bids.len() - 1 - k].price
                && ask.price <= bids[bids.len() - 1 - k].price && ask.price <= taken[k].price,
{
}

/// Each resting ask an incoming bid traded with lost exactly the quantity of
/// the deal that names it: all of it if it left the book, the deal's quantity
/// if it stayed on top. The asks it did not reach are untouched.
pub proof fn bid_takes_exactly_the_dealt_quantity(
    asks: Seq<AskOrder>,
    bid: BidOrder,
    taken: Seq<Deal>,
)
    requires
        bid_fills(asks, bid, taken),
    ensures
        ({
            let n = asks.len();
            let m = taken.len();
            let left = asks_left(asks, taken);
            &&& forall|i: int| 0 <= i < n - m ==> #[trigger] left[i] == asks[i]
            &&& forall|k: int|
                #![trigger taken[k]]
                0 <= k < m ==> taken[k].ask_order == asks[n - 1 - k].id && (if n - 1 - k
                    < left.len() {
                    left[n - 1 - k].id == asks[n - 1 - k].id && left[n - 1 - k].current_quantity
                        + taken[k].quantity == asks[n - 1 - k].current_quantity
                } else {
                    taken[k].quantity == asks[n - 1 - k].current_quantity
                })
        }),
{
}

/// Each resting bid an incoming ask traded with lost exactly the quantity of
/// the deal that names it: all of it if it left the book, the deal's quantity
/// if it stayed on top. The bids it did not reach are untouched.
pub proof fn ask_takes_exactly_the_dealt_quantity(
    bids: Seq<BidOrder>,
    ask: AskOrder,
    taken: Seq<Deal>,
)
    requires
        ask_fills(bids, ask, taken),
    ensures
        ({
            let n = bids.len();
            let m = taken.len();
            let left = bids_left(bids, taken);
            &&& forall|i: int| 0 <= i < n - m ==> #[trigger] left[i] == bids[i]
            &&& forall|k: int|
                #![trigger taken[k]]
                0 <= k < m ==> taken[k].bid_order == bids[n - 1 - k].id && (if n - 1 - k
                    < left.len() {
                    left[n - 1 - k].id == bids[n - 1 - k].id && left[n - 1 - k].current_quantity
                        + taken[k].quantity == bids[n - 1 - k].current_quantity
                } else {
                    taken[k].quantity == bids[n - 1 - k].current_quantity
                })
        }),
{
}

/// Processing an incoming ask trades no more than it offered: what it traded
/// and what is left of it add up to its quantity, and what is left lies
/// between zero and that quantity.
pub proof fn ask_quantity_is_conserved(
    before: OrderBook,
    after: OrderBook,
    ask: AskOrder,
    taken: Seq<Deal>,
)
    requires
        ask_processed(before, after, ask, taken),
    ensures
        ({
            let residual = ask.current_quantity - traded(taken);
            &&& 0 <= residual <= ask.current_quantity
            &&& traded(taken) + residual == ask.current_quantity
        }),
{
}

/// Processing an incoming bid trades no more than it asked for: what it
/// traded and what is left of it add up to its quantity, and what is left lies
/// between zero and that quantity.
pub proof fn bid_quantity_is_conserved(
    before: OrderBook,
    after: OrderBook,
    bid: BidOrder,
    taken: Seq<Deal>,
)
    requires
        bid_processed(before, after, bid, taken),
    ensures
        ({
            let residual = bid.current_quantity - traded(taken);
            &&& 0 <= residual <= bid.current_quantity
            &&& traded(taken) + residual == bid.current_quantity
        }),
{
}

} // verus!
