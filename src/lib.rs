//! A continuous double-auction matching engine: resting orders kept in price
//! priority on each side, a per-price depth index kept in step with them, and
//! a matcher that executes incoming orders against the opposite side at the
//! resting orders' prices.

pub mod ask_order;
pub mod bid_order;
pub mod deal;
pub mod dealbook;
pub mod depth_of_market;
pub mod engine;
pub mod ids;
pub mod laws;
pub mod levels;
pub mod order_message;
pub mod order_side;
pub mod orderbook;

pub use ask_order::AskOrder;
pub use bid_order::BidOrder;
pub use deal::Deal;
pub use dealbook::DealBook;
pub use depth_of_market::{DepthEntry, DepthOfMarket};
pub use order_message::OrderMessage;
pub use order_side::OrderSide;
pub use orderbook::OrderBook;
