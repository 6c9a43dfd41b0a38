use std::cmp::Ordering;
use uuid::Uuid;
use vstd::prelude::*;

verus! {

/// A resting (or incoming) sell order. Among asks, a lower price has the
/// higher priority.
#[derive(Clone, Copy, Debug)]
pub struct AskOrder {
    pub id: Uuid,
    /// The quantity the order was submitted with.
    pub quantity: u32,
    /// The quantity still open.
    pub current_quantity: u32,
    pub price: u32,
}

impl AskOrder {
    /// The open quantity never exceeds the submitted one.
    pub open spec fn wf(self) -> bool {
        self.current_quantity <= self.quantity
    }

    pub fn new(id: Uuid, quantity: u32, current_quantity: u32, price: u32) -> (r: Self)
        ensures
            r.id == id,
            r.quantity == quantity,
            r.current_quantity == current_quantity,
            r.price == price,
    {
        AskOrder { id, quantity, current_quantity, price }
    }
}

/// Two orders are equal when their prices are: priority knows nothing else.
impl PartialEq for AskOrder {
    fn eq(&self, other: &Self) -> (r: bool)
        ensures
            r == (self.price == other.price),
    {
        self.price == other.price
    }
}

impl vstd::std_specs::cmp::PartialEqSpecImpl for AskOrder {
    open spec fn obeys_eq_spec() -> bool {
        true
    }

    open spec fn eq_spec(&self, other: &AskOrder) -> bool {
        self.price == other.price
    }
}

impl Eq for AskOrder {}

/// Priority order by price alone: the cheaper ask ranks higher.
impl PartialOrd for AskOrder {
    fn partial_cmp(&self, other: &Self) -> (r: Option<Ordering>) {
        if self.price > other.price {
            Some(Ordering::Less)
        } else if self.price < other.price {
            Some(Ordering::Greater)
        } else {
            Some(Ordering::Equal)
        }
    }
}

impl vstd::std_specs::cmp::PartialOrdSpecImpl for AskOrder {
    open spec fn obeys_partial_cmp_spec() -> bool {
        true
    }

    open spec fn partial_cmp_spec(&self, other: &AskOrder) -> Option<Ordering> {
        if self.price > other.price {
            Some(Ordering::Less)
        } else if self.price < other.price {
            Some(Ordering::Greater)
        } else {
            Some(Ordering::Equal)
        }
    }
}

} // verus!
