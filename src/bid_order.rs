use std::cmp::Ordering;
use uuid::Uuid;
use vstd::prelude::*;

verus! {

/// A resting (or incoming) buy order. Among bids, a higher price has the
/// higher priority.
#[derive(Clone, Copy, Debug)]
pub struct BidOrder {
    pub id: Uuid,
    /// The quantity the order was submitted with.
    pub quantity: u32,
    /// The quantity still open.
    pub current_quantity: u32,
    pub price: u32,
}

impl BidOrder {
    /// The open quantity never exceeds the submitted one.
    pub open spec fn wf(self) -> bool {
        self.current_quantity <= self.quantity
    }

    pub fn new(id: Uuid, quantity: u32, current_quantity: u32, price: u32) -> (r: Self)
        ensures
            r.id == id,
            r.quantity == quantity,
            r.current_quantity == current_quantity,
            r.price == price,
    {
        BidOrder { id, quantity, current_quantity, price }
    }
}

/// Two orders are equal when their prices are: priority knows nothing else.
impl PartialEq for BidOrder {
    fn eq(&self, other: &Self) -> (r: bool)
        ensures
            r == (self.price == other.price),
    {
        self.price == other.price
    }
}

impl vstd::std_specs::cmp::PartialEqSpecImpl for BidOrder {
    open spec fn obeys_eq_spec() -> bool {
        true
    }

    open spec fn eq_spec(&self, other: &BidOrder) -> bool {
        self.price == other.price
    }
}

impl Eq for BidOrder {}

/// Priority order by price alone: the dearer bid ranks higher.
impl PartialOrd for BidOrder {
    fn partial_cmp(&self, other: &Self) -> (r: Option<Ordering>) {
        if self.price < other.price {
            Some(Ordering::Less)
        } else if self.price > other.price {
            Some(Ordering::Greater)
        } else {
            Some(Ordering::Equal)
        }
    }
}

impl vstd::std_specs::cmp::PartialOrdSpecImpl for BidOrder {
    open spec fn obeys_partial_cmp_spec() -> bool {
        true
    }

    open spec fn partial_cmp_spec(&self, other: &BidOrder) -> Option<Ordering> {
        if self.price < other.price {
            Some(Ordering::Less)
        } else if self.price > other.price {
            Some(Ordering::Greater)
        } else {
            Some(Ordering::Equal)
        }
    }
}

} // verus!
