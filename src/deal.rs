use uuid::Uuid;
use vstd::prelude::*;

verus! {

/// One executed trade between a resting order and an incoming one.
#[derive(Clone, Copy, Debug)]
pub struct Deal {
    /// When the trade was recorded, in microseconds since the Unix epoch (UTC).
    pub time: i64,
    /// The resting order's price.
    pub price: u32,
    pub quantity: u32,
    pub ask_order: Uuid,
    pub bid_order: Uuid,
}

impl Deal {
    /// The deal records a trade of `quantity` at `price` between the two orders.
    pub open spec fn records(
        self,
        price: u32,
        quantity: u32,
        ask_order: Uuid,
        bid_order: Uuid,
    ) -> bool {
        &&& self.price == price
        &&& self.quantity == quantity
        &&& self.ask_order == ask_order
        &&& self.bid_order == bid_order
    }
}

/// The deals appended to `before` to give `after`.
pub open spec fn added(before: Seq<Deal>, after: Seq<Deal>) -> Seq<Deal> {
    after.skip(before.len() as int)
}

/// The total quantity traded over a run of deals.
pub open spec fn traded(deals: Seq<Deal>) -> nat
    decreases deals.len(),
{
    if deals.len() == 0 {
        0
    } else {
        traded(deals.drop_last()) + deals.last().quantity as nat
    }
}

} // verus!
