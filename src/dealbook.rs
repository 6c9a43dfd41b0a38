use crate::deal::Deal;
use uuid::Uuid;
use vstd::prelude::*;

verus! {

/// The deals produced while processing one incoming order, in execution order.
#[derive(Clone, Debug)]
pub struct DealBook {
    pub deals: Vec<Deal>,
}

/// Relies on chrono's `Utc::now` and `DateTime::timestamp_micros`: the current
/// UTC time in microseconds since the Unix epoch. Nothing is promised of it.
#[verifier::external_body]
fn now_micros() -> (r: i64) {
    chrono::Utc::now().timestamp_micros()
}

impl DealBook {
    pub fn new() -> (r: Self)
        ensures
            r.deals@.len() == 0,
    {
        DealBook { deals: Vec::new() }
    }

    /// Appends a deal at `bid_order_price` (the resting order's price),
    /// stamped with the current time.
    pub fn push(
        &mut self,
        bid_order_price: u32,
        deal_quantity: u32,
        ask_order_id: Uuid,
        bid_order_id: Uuid,
    )
        ensures
            final(self).deals@.len() == old(self).deals@.len() + 1,
            final(self).deals@.drop_last() == old(self).deals@,
            final(self).deals@.last().records(
                bid_order_price,
                deal_quantity,
                ask_order_id,
                bid_order_id,
            ),
    {
        let new_deal = Deal {
            time: now_micros(),
            price: bid_order_price,
            quantity: deal_quantity,
            ask_order: ask_order_id,
            bid_order: bid_order_id,
        };
        self.deals.push(new_deal);
        proof {
            assert(self.deals@.drop_last() =~= old(self).deals@);
        }
    }
}

} // verus!
