use crate::order_side::OrderSide;
use uuid::Uuid;
use vstd::prelude::*;

verus! {

/// An order intent as it arrives at the engine.
#[derive(Clone, Copy, Debug)]
pub struct OrderMessage {
    pub id: Uuid,
    pub side: OrderSide,
    pub quantity: u32,
    pub price: u32,
}

} // verus!
