use vstd::prelude::*;

verus! {

/// The aggregate open quantity at one price.
#[derive(Clone, Copy, Debug, PartialEq, Eq, Structural)]
pub struct DepthEntry {
    pub price: u32,
    pub quantity: u32,
}

/// A snapshot of the book's depth: one entry per price on each side, in no
/// particular order.
#[derive(Clone, Debug)]
pub struct DepthOfMarket {
    pub ask: Vec<DepthEntry>,
    pub bid: Vec<DepthEntry>,
}

/// `entries` lists `index` exactly: one entry per key, with its value.
pub open spec fn lists_index(entries: Seq<DepthEntry>, index: Map<u32, u32>) -> bool {
    &&& entries.len() == index.dom().len()
    &&& forall|i: int| 0 <= i < entries.len() ==> #[trigger] index.contains_key(entries[i].price)
        && index[entries[i].price] == entries[i].quantity
    &&& forall|i: int, j: int|
        0 <= i < j < entries.len() ==> #[trigger] entries[i].price != #[trigger] entries[j].price
    &&& forall|p: u32| #[trigger] index.contains_key(p) ==> exists|i: int|
        0 <= i < entries.len() && #[trigger] entries[i].price == p
}

} // verus!
