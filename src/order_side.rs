use vstd::prelude::*;

verus! {

/// The side of the book an incoming order belongs to.
#[derive(Clone, Copy, Debug, PartialEq, Eq, Structural)]
pub enum OrderSide {
    /// A sell order.
    Ask,
    /// A buy order.
    Bid,
}

} // verus!
