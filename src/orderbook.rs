use crate::ask_order::AskOrder;
use crate::bid_order::BidOrder;
use crate::deal::Deal;
use crate::dealbook::DealBook;
use crate::depth_of_market::{lists_index, DepthEntry, DepthOfMarket};
use crate::levels::{
    index_matches, lemma_level_sum_bounds, lemma_level_sum_insert, lemma_level_sum_update_last,
    level_sum,
};
use std::collections::HashMap;
use vstd::prelude::*;
use vstd::std_specs::iter::IteratorSpec;

verus! {

broadcast use vstd::std_specs::hash::group_hash_axioms;

/// The two order queues and their depth indices.
///
/// Each queue is kept in priority order with its best order last, so the best
/// order is read, reduced or removed at the end. Orders at one price are served
/// in the order they arrived.
pub struct OrderBook {
    /// Open ask quantity per price.
    pub asks_book: HashMap<u32, u32>,
    /// Open bid quantity per price.
    pub bids_book: HashMap<u32, u32>,
    /// Resting asks, highest price first: the lowest-priced ask is last.
    pub asks: Vec<AskOrder>,
    /// Resting bids, lowest price first: the highest-priced bid is last.
    pub bids: Vec<BidOrder>,
}

/// Each ask seen as a lot of (price, open quantity).
pub open spec fn ask_lots(s: Seq<AskOrder>) -> Seq<(u32, u32)> {
    s.map_values(|o: AskOrder| (o.price, o.current_quantity))
}

/// Each bid seen as a lot of (price, open quantity).
pub open spec fn bid_lots(s: Seq<BidOrder>) -> Seq<(u32, u32)> {
    s.map_values(|o: BidOrder| (o.price, o.current_quantity))
}

/// Asks by falling price: the cheapest is last.
pub open spec fn asks_in_priority(s: Seq<AskOrder>) -> bool {
    forall|i: int, j: int| 0 <= i < j < s.len() ==> #[trigger] s[j].price <= #[trigger] s[i].price
}

/// Bids by rising price: the most generous is last.
pub open spec fn bids_in_priority(s: Seq<BidOrder>) -> bool {
    forall|i: int, j: int| 0 <= i < j < s.len() ==> #[trigger] s[i].price <= #[trigger] s[j].price
}

/// Every resting ask has open quantity, and no more than it was submitted with.
pub open spec fn asks_open(s: Seq<AskOrder>) -> bool {
    forall|i: int| 0 <= i < s.len() ==> 0 < #[trigger] s[i].current_quantity && s[i].wf()
}

/// Every resting bid has open quantity, and no more than it was submitted with.
pub open spec fn bids_open(s: Seq<BidOrder>) -> bool {
    forall|i: int| 0 <= i < s.len() ==> 0 < #[trigger] s[i].current_quantity && s[i].wf()
}

/// `new` is `old` with `o` placed behind every ask that is cheaper than it or
/// at its price, and ahead of every dearer one.
pub open spec fn ask_queued(old: Seq<AskOrder>, new: Seq<AskOrder>, o: AskOrder) -> bool {
    exists|i: int|
        0 <= i <= old.len() && new == old.insert(i, o) && (forall|j: int|
            0 <= j < old.len() ==> (j < i <==> o.price < #[trigger] old[j].price))
}

/// `new` is `old` with `o` placed behind every bid that is dearer than it or
/// at its price, and ahead of every cheaper one.
pub open spec fn bid_queued(old: Seq<BidOrder>, new: Seq<BidOrder>, o: BidOrder) -> bool {
    exists|i: int|
        0 <= i <= old.len() && new == old.insert(i, o) && (forall|j: int|
            0 <= j < old.len() ==> (j < i <==> #[trigger] old[j].price < o.price))
}

impl OrderBook {
    /// The queues are in priority order, hold only open orders, and each index
    /// holds exactly the aggregate open quantity per price of its queue.
    pub open spec fn wf(&self) -> bool {
        &&& asks_in_priority(self.asks@)
        &&& bids_in_priority(self.bids@)
        &&& asks_open(self.asks@)
        &&& bids_open(self.bids@)
        &&& index_matches(ask_lots(self.asks@), self.asks_book@)
        &&& index_matches(bid_lots(self.bids@), self.bids_book@)
    }

    /// The aggregate open ask quantity at `price`.
    pub open spec fn ask_level(&self, price: u32) -> nat {
        level_sum(ask_lots(self.asks@), price)
    }

    /// The aggregate open bid quantity at `price`.
    pub open spec fn bid_level(&self, price: u32) -> nat {
        level_sum(bid_lots(self.bids@), price)
    }

    pub fn new() -> (r: Self)
        ensures
            r.wf(),
            r.asks@.len() == 0,
            r.bids@.len() == 0,
            r.asks_book@ == Map::<u32, u32>::empty(),
            r.bids_book@ == Map::<u32, u32>::empty(),
    {
        let r = OrderBook {
            asks_book: HashMap::new(),
            bids_book: HashMap::new(),
            asks: Vec::new(),
            bids: Vec::new(),
        };
        proof {
            assert(ask_lots(r.asks@) =~= Seq::<(u32, u32)>::empty());
            assert(bid_lots(r.bids@) =~= Seq::<(u32, u32)>::empty());
        }
        r
    }

    fn add_asks_book_quantity(&mut self, deal_quantity: u32, price: u32)
        requires
            old(self).asks_book@.contains_key(price) ==> old(self).asks_book@[price] + deal_quantity
                <= u32::MAX,
        ensures
            final(self).asks_book@ == old(self).asks_book@.insert(
                price,
                if old(self).asks_book@.contains_key(price) {
                    (old(self).asks_book@[price] + deal_quantity) as u32
                } else {
                    deal_quantity
                },
            ),
            final(self).bids_book@ == old(self).bids_book@,
            final(self).asks@ == old(self).asks@,
            final(self).bids@ == old(self).bids@,
    {
        let current: u32 = match self.asks_book.get(&price) {
            Some(q) => *q,
            None => 0,
        };
        self.asks_book.insert(price, current + deal_quantity);
    }

    fn subtract_asks_book_quantity(&mut self, deal_quantity: u32, price: u32)
        ensures
            final(self).asks_book@ == if !old(self).asks_book@.contains_key(price) {
                old(self).asks_book@
            } else if old(self).asks_book@[price] <= deal_quantity {
                old(self).asks_book@.remove(price)
            } else {
                old(self).asks_book@.insert(price, (old(self).asks_book@[price] - deal_quantity) as u32)
            },
            final(self).bids_book@ == old(self).bids_book@,
            final(self).asks@ == old(self).asks@,
            final(self).bids@ == old(self).bids@,
    {
        let current: Option<u32> = match self.asks_book.get(&price) {
            Some(q) => Some(*q),
            None => None,
        };
        if let Some(quantity) = current {
            if quantity <= deal_quantity {
                self.asks_book.remove(&price);
            } else {
                self.asks_book.insert(price, quantity - deal_quantity);
            }
        }
    }

    /// Rests an ask on the book, unless it has no open quantity, in which case
    /// the book is left as it is.
    pub fn asks_push(&mut self, ask_order: AskOrder)
        requires
            old(self).wf(),
            ask_order.wf(),
            old(self).ask_level(ask_order.price) + ask_order.current_quantity <= u32::MAX,
        ensures
            final(self).wf(),
            final(self).bids@ == old(self).bids@,
            final(self).bids_book@ == old(self).bids_book@,
            ask_order.current_quantity == 0 ==> final(self).asks@ == old(self).asks@
                && final(self).asks_book@ == old(self).asks_book@,
            ask_order.current_quantity > 0 ==> ask_queued(old(self).asks@, final(self).asks@, ask_order)
                && final(self).asks_book@ == old(self).asks_book@.insert(
                ask_order.price,
                (old(self).ask_level(ask_order.price) + ask_order.current_quantity) as u32,
            ),
    {
        if ask_order.current_quantity > 0 {
            let ghost s = self.asks@;
            let mut i: usize = 0;
            while i < self.asks.len() && ask_order.price < self.asks[i].price
                invariant
                    self.asks@ == s,
                    0 <= i <= s.len(),
                    forall|j: int| 0 <= j < i ==> ask_order.price < #[trigger] s[j].price,
                decreases s.len() - i,
            {
                i = i + 1;
            }
            proof {
                assert forall|j: int| 0 <= j < s.len() implies (j < i <==> ask_order.price
                    < #[trigger] s[j].price) by {
                    if j >= i {
                        assert(s[j].price <= s[i as int].price);
                    }
                }
            }
            self.add_asks_book_quantity(ask_order.current_quantity, ask_order.price);
            self.asks.insert(i, ask_order);
            proof {
                let ns = self.asks@;
                let lot = (ask_order.price, ask_order.current_quantity);
                assert(ns =~= s.insert(i as int, ask_order));
                assert(ask_queued(s, ns, ask_order));
                assert(ask_lots(ns) =~= ask_lots(s).insert(i as int, lot));
                assert forall|p: u32| #[trigger] level_sum(ask_lots(ns), p) == level_sum(ask_lots(s), p)
                    + if p == ask_order.price {
                    ask_order.current_quantity as nat
                } else {
                    0
                } by {
                    lemma_level_sum_insert(ask_lots(s), i as int, lot, p);
                }
                assert(asks_in_priority(ns)) by {
                    assert forall|a: int, b: int| 0 <= a < b < ns.len() implies #[trigger] ns[b].price
                        <= #[trigger] ns[a].price by {
                        if a < i && b > i {
                            assert(ns[a] == s[a]);
                            assert(ns[b] == s[b - 1]);
                        }
                    }
                }
            }
        }
    }

    /// Removes the best (lowest-priced) ask, which the incoming bid consumes in
    /// full: records the deal at the ask's price and returns the bid with the
    /// ask's quantity taken off. With no resting ask, nothing changes.
    pub fn asks_pop(&mut self, bid_order: BidOrder, dealbook: &mut DealBook) -> (r: BidOrder)
        requires
            old(self).wf(),
            old(self).asks@.len() > 0 ==> old(self).asks@.last().current_quantity
                <= bid_order.current_quantity,
        ensures
            final(self).wf(),
            final(self).bids@ == old(self).bids@,
            final(self).bids_book@ == old(self).bids_book@,
            old(self).asks@.len() == 0 ==> {
                &&& r == bid_order
                &&& final(self).asks@ == old(self).asks@
                &&& final(self).asks_book@ == old(self).asks_book@
                &&& final(dealbook).deals@ == old(dealbook).deals@
            },
            old(self).asks@.len() > 0 ==> {
                let a = old(self).asks@.last();
                let level = old(self).ask_level(a.price);
                &&& final(self).asks@ == old(self).asks@.drop_last()
                &&& final(self).asks_book@ == if level == a.current_quantity {
                    old(self).asks_book@.remove(a.price)
                } else {
                    old(self).asks_book@.insert(a.price, (level - a.current_quantity) as u32)
                }
                &&& final(dealbook).deals@.drop_last() == old(dealbook).deals@
                &&& final(dealbook).deals@.len() == old(dealbook).deals@.len() + 1
                &&& final(dealbook).deals@.last().records(
                    a.price,
                    a.current_quantity,
                    a.id,
                    bid_order.id,
                )
                &&& r.id == bid_order.id
                &&& r.quantity == bid_order.quantity
                &&& r.price == bid_order.price
                &&& r.current_quantity == bid_order.current_quantity - a.current_quantity
            },
    {
        let ghost s = self.asks@;
        if let Some(ask_order) = self.asks.pop() {
            proof {
                let ls = ask_lots(s);
                assert(ask_lots(self.asks@) =~= ls.drop_last());
                assert(ls.last() == (ask_order.price, ask_order.current_quantity));
                assert(self.asks@ =~= s.drop_last());
            }
            self.subtract_asks_book_quantity(ask_order.current_quantity, ask_order.price);
            dealbook.push(ask_order.price, ask_order.current_quantity, ask_order.id, bid_order.id);
            proof {
                let ls = ask_lots(s);
                let ns = ask_lots(self.asks@);
                assert forall|p: u32| #[trigger] level_sum(ns, p) == level_sum(ls, p)
                    - if p == ask_order.price {
                    ask_order.current_quantity as nat
                } else {
                    0
                } by {}
                assert(index_matches(ns, self.asks_book@));
            }
            return BidOrder::new(
                bid_order.id,
                bid_order.quantity,
                bid_order.current_quantity - ask_order.current_quantity,
                bid_order.price,
            );
        }
        bid_order
    }

    /// Takes the incoming bid's whole open quantity off the best ask, which
    /// stays on top with the rest: records the deal at the ask's price and
    /// returns the bid filled. With no resting ask, nothing changes.
    pub fn asks_peek_mut(&mut self, bid_order: BidOrder, dealbook: &mut DealBook) -> (r: BidOrder)
        requires
            old(self).wf(),
            old(self).asks@.len() > 0 ==> bid_order.current_quantity < old(
                self,
            ).asks@.last().current_quantity,
        ensures
            final(self).wf(),
            final(self).bids@ == old(self).bids@,
            final(self).bids_book@ == old(self).bids_book@,
            old(self).asks@.len() == 0 ==> {
                &&& r == bid_order
                &&& final(self).asks@ == old(self).asks@
                &&& final(self).asks_book@ == old(self).asks_book@
                &&& final(dealbook).deals@ == old(dealbook).deals@
            },
            old(self).asks@.len() > 0 ==> {
                let a = old(self).asks@.last();
                let rest = final(self).asks@.last();
                &&& final(self).asks@.len() == old(self).asks@.len()
                &&& final(self).asks@.drop_last() == old(self).asks@.drop_last()
                &&& rest.id == a.id
                &&& rest.quantity == a.quantity
                &&& rest.price == a.price
                &&& rest.current_quantity == a.current_quantity - bid_order.current_quantity
                &&& final(self).asks_book@ == old(self).asks_book@.insert(
                    a.price,
                    (old(self).ask_level(a.price) - bid_order.current_quantity) as u32,
                )
                &&& final(dealbook).deals@.drop_last() == old(dealbook).deals@
                &&& final(dealbook).deals@.len() == old(dealbook).deals@.len() + 1
                &&& final(dealbook).deals@.last().records(
                    a.price,
                    bid_order.current_quantity,
                    a.id,
                    bid_order.id,
                )
                &&& r.id == bid_order.id
                &&& r.quantity == bid_order.quantity
                &&& r.price == bid_order.price
                &&& r.current_quantity == 0
            },
    {
        let ghost s = self.asks@;
        let n = self.asks.len();
        if n > 0 {
            let mut ask_order = self.asks[n - 1];
            ask_order.current_quantity = ask_order.current_quantity - bid_order.current_quantity;
            self.asks.set(n - 1, ask_order);
            proof {
                let ls = ask_lots(s);
                assert(ls.last() == (s.last().price, s.last().current_quantity));
                assert(ask_lots(self.asks@) =~= ls.update(
                    ls.len() - 1,
                    (ls.last().0, ask_order.current_quantity),
                ));
                assert(self.asks@.drop_last() =~= s.drop_last());
                lemma_level_sum_bounds(ls, ls.len() - 1);
            }
            let current: Option<u32> = match self.asks_book.get(&ask_order.price) {
                Some(q) => Some(*q),
                None => None,
            };
            if let Some(quantity) = current {
                self.asks_book.insert(ask_order.price, quantity - bid_order.current_quantity);
            }
            dealbook.push(ask_order.price, bid_order.current_quantity, ask_order.id, bid_order.id);
            proof {
                let ls = ask_lots(s);
                let ns = ask_lots(self.asks@);
                assert forall|p: u32| #[trigger] level_sum(ns, p) + (if p == ask_order.price {
                    bid_order.current_quantity as nat
                } else {
                    0
                }) == level_sum(ls, p) by {
                    lemma_level_sum_update_last(ls, ask_order.current_quantity, p);
                }
                assert(index_matches(ns, self.asks_book@));
                assert(asks_in_priority(self.asks@)) by {
                    assert forall|a: int, b: int|
                        0 <= a < b < self.asks@.len() implies #[trigger] self.asks@[b].price
                        <= #[trigger] self.asks@[a].price by {
                        assert(s[a].price >= s[b].price);
                    }
                }
            }
            return BidOrder::new(bid_order.id, bid_order.quantity, 0, bid_order.price);
        }
        bid_order
    }

    fn add_bids_book_quantity(&mut self, deal_quantity: u32, price: u32)
        requires
            old(self).bids_book@.contains_key(price) ==> old(self).bids_book@[price] + deal_quantity
                <= u32::MAX,
        ensures
            final(self).bids_book@ == old(self).bids_book@.insert(
                price,
                if old(self).bids_book@.contains_key(price) {
                    (old(self).bids_book@[price] + deal_quantity) as u32
                } else {
                    deal_quantity
                },
            ),
            final(self).asks_book@ == old(self).asks_book@,
            final(self).bids@ == old(self).bids@,
            final(self).asks@ == old(self).asks@,
    {
        let current: u32 = match self.bids_book.get(&price) {
            Some(q) => *q,
            None => 0,
        };
        self.bids_book.insert(price, current + deal_quantity);
    }

    fn subtract_bids_book_quantity(&mut self, deal_quantity: u32, price: u32)
        ensures
            final(self).bids_book@ == if !old(self).bids_book@.contains_key(price) {
                old(self).bids_book@
            } else if old(self).bids_book@[price] <= deal_quantity {
                old(self).bids_book@.remove(price)
            } else {
                old(self).bids_book@.insert(price, (old(self).bids_book@[price] - deal_quantity) as u32)
            },
            final(self).asks_book@ == old(self).asks_book@,
            final(self).bids@ == old(self).bids@,
            final(self).asks@ == old(self).asks@,
    {
        let current: Option<u32> = match self.bids_book.get(&price) {
            Some(q) => Some(*q),
            None => None,
        };
        if let Some(quantity) = current {
            if quantity <= deal_quantity {
                self.bids_book.remove(&price);
            } else {
                self.bids_book.insert(price, quantity - deal_quantity);
            }
        }
    }

    /// Rests an bid on the book, unless it has no open quantity, in which case
    /// the book is left as it is.
    pub fn bids_push(&mut self, bid_order: BidOrder)
        requires
            old(self).wf(),
            bid_order.wf(),
            old(self).bid_level(bid_order.price) + bid_order.current_quantity <= u32::MAX,
        ensures
            final(self).wf(),
            final(self).asks@ == old(self).asks@,
            final(self).asks_book@ == old(self).asks_book@,
            bid_order.current_quantity == 0 ==> final(self).bids@ == old(self).bids@
                && final(self).bids_book@ == old(self).bids_book@,
            bid_order.current_quantity > 0 ==> bid_queued(old(self).bids@, final(self).bids@, bid_order)
                && final(self).bids_book@ == old(self).bids_book@.insert(
                bid_order.price,
                (old(self).bid_level(bid_order.price) + bid_order.current_quantity) as u32,
            ),
    {
        if bid_order.current_quantity > 0 {
            let ghost s = self.bids@;
            let mut i: usize = 0;
            while i < self.bids.len() && self.bids[i].price < bid_order.price
                invariant
                    self.bids@ == s,
                    0 <= i <= s.len(),
                    forall|j: int| 0 <= j < i ==> #[trigger] s[j].price < bid_order.price,
                decreases s.len() - i,
            {
                i = i + 1;
            }
            proof {
                assert forall|j: int| 0 <= j < s.len() implies (j < i <==> #[trigger] s[j].price
                    < bid_order.price) by {
                    if j >= i {
                        assert(s[i as int].price <= s[j].price);
                    }
                }
            }
            self.add_bids_book_quantity(bid_order.current_quantity, bid_order.price);
            self.bids.insert(i, bid_order);
            proof {
                let ns = self.bids@;
                let lot = (bid_order.price, bid_order.current_quantity);
                assert(ns =~= s.insert(i as int, bid_order));
                assert(bid_queued(s, ns, bid_order));
                assert(bid_lots(ns) =~= bid_lots(s).insert(i as int, lot));
                assert forall|p: u32| #[trigger] level_sum(bid_lots(ns), p) == level_sum(bid_lots(s), p)
                    + if p == bid_order.price {
                    bid_order.current_quantity as nat
                } else {
                    0
                } by {
                    lemma_level_sum_insert(bid_lots(s), i as int, lot, p);
                }
                assert(bids_in_priority(ns)) by {
                    assert forall|a: int, b: int| 0 <= a < b < ns.len() implies #[trigger] ns[a].price
                        <= #[trigger] ns[b].price by {
                        if a < i && b > i {
                            assert(ns[a] == s[a]);
                            assert(ns[b] == s[b - 1]);
                        }
                    }
                }
            }
        }
    }

    /// Removes the best (highest-priced) bid, which the incoming ask consumes in
    /// full: records the deal at the bid's price and returns the ask with the
    /// bid's quantity taken off. With no resting bid, nothing changes.
    pub fn bids_pop(&mut self, ask_order: AskOrder, dealbook: &mut DealBook) -> (r: AskOrder)
        requires
            old(self).wf(),
            old(self).bids@.len() > 0 ==> old(self).bids@.last().current_quantity
                <= ask_order.current_quantity,
        ensures
            final(self).wf(),
            final(self).asks@ == old(self).asks@,
            final(self).asks_book@ == old(self).asks_book@,
            old(self).bids@.len() == 0 ==> {
                &&& r == ask_order
                &&& final(self).bids@ == old(self).bids@
                &&& final(self).bids_book@ == old(self).bids_book@
                &&& final(dealbook).deals@ == old(dealbook).deals@
            },
            old(self).bids@.len() > 0 ==> {
                let a = old(self).bids@.last();
                let level = old(self).bid_level(a.price);
                &&& final(self).bids@ == old(self).bids@.drop_last()
                &&& final(self).bids_book@ == if level == a.current_quantity {
                    old(self).bids_book@.remove(a.price)
                } else {
                    old(self).bids_book@.insert(a.price, (level - a.current_quantity) as u32)
                }
                &&& final(dealbook).deals@.drop_last() == old(dealbook).deals@
                &&& final(dealbook).deals@.len() == old(dealbook).deals@.len() + 1
                &&& final(dealbook).deals@.last().records(
                    a.price,
                    a.current_quantity,
                    ask_order.id,
                    a.id,
                )
                &&& r.id == ask_order.id
                &&& r.quantity == ask_order.quantity
                &&& r.price == ask_order.price
                &&& r.current_quantity == ask_order.current_quantity - a.current_quantity
            },
    {
        let ghost s = self.bids@;
        if let Some(bid_order) = self.bids.pop() {
            proof {
                let ls = bid_lots(s);
                assert(bid_lots(self.bids@) =~= ls.drop_last());
                assert(ls.last() == (bid_order.price, bid_order.current_quantity));
                assert(self.bids@ =~= s.drop_last());
            }
            self.subtract_bids_book_quantity(bid_order.current_quantity, bid_order.price);
            dealbook.push(bid_order.price, bid_order.current_quantity, ask_order.id, bid_order.id);
            proof {
                let ls = bid_lots(s);
                let ns = bid_lots(self.bids@);
                assert forall|p: u32| #[trigger] level_sum(ns, p) == level_sum(ls, p)
                    - if p == bid_order.price {
                    bid_order.current_quantity as nat
                } else {
                    0
                } by {}
                assert(index_matches(ns, self.bids_book@));
            }
            return AskOrder::new(
                ask_order.id,
                ask_order.quantity,
                ask_order.current_quantity - bid_order.current_quantity,
                ask_order.price,
            );
        }
        ask_order
    }

    /// Takes the incoming ask's whole open quantity off the best bid, which
    /// stays on top with the rest: records the deal at the bid's price and
    /// returns the ask filled. With no resting bid, nothing changes.
    pub fn bids_peek_mut(&mut self, ask_order: AskOrder, dealbook: &mut DealBook) -> (r: AskOrder)
        requires
            old(self).wf(),
            old(self).bids@.len() > 0 ==> ask_order.current_quantity < old(
                self,
            ).bids@.last().current_quantity,
        ensures
            final(self).wf(),
            final(self).asks@ == old(self).asks@,
            final(self).asks_book@ == old(self).asks_book@,
            old(self).bids@.len() == 0 ==> {
                &&& r == ask_order
                &&& final(self).bids@ == old(self).bids@
                &&& final(self).bids_book@ == old(self).bids_book@
                &&& final(dealbook).deals@ == old(dealbook).deals@
            },
            old(self).bids@.len() > 0 ==> {
                let a = old(self).bids@.last();
                let rest = final(self).bids@.last();
                &&& final(self).bids@.len() == old(self).bids@.len()
                &&& final(self).bids@.drop_last() == old(self).bids@.drop_last()
                &&& rest.id == a.id
                &&& rest.quantity == a.quantity
                &&& rest.price == a.price
                &&& rest.current_quantity == a.current_quantity - ask_order.current_quantity
                &&& final(self).bids_book@ == old(self).bids_book@.insert(
                    a.price,
                    (old(self).bid_level(a.price) - ask_order.current_quantity) as u32,
                )
                &&& final(dealbook).deals@.drop_last() == old(dealbook).deals@
                &&& final(dealbook).deals@.len() == old(dealbook).deals@.len() + 1
                &&& final(dealbook).deals@.last().records(
                    a.price,
                    ask_order.current_quantity,
                    ask_order.id,
                    a.id,
                )
                &&& r.id == ask_order.id
                &&& r.quantity == ask_order.quantity
                &&& r.price == ask_order.price
                &&& r.current_quantity == 0
            },
    {
        let ghost s = self.bids@;
        let n = self.bids.len();
        if n > 0 {
            let mut bid_order = self.bids[n - 1];
            bid_order.current_quantity = bid_order.current_quantity - ask_order.current_quantity;
            self.bids.set(n - 1, bid_order);
            proof {
                let ls = bid_lots(s);
                assert(ls.last() == (s.last().price, s.last().current_quantity));
                assert(bid_lots(self.bids@) =~= ls.update(
                    ls.len() - 1,
                    (ls.last().0, bid_order.current_quantity),
                ));
                assert(self.bids@.drop_last() =~= s.drop_last());
                lemma_level_sum_bounds(ls, ls.len() - 1);
            }
            let current: Option<u32> = match self.bids_book.get(&bid_order.price) {
                Some(q) => Some(*q),
                None => None,
            };
            if let Some(quantity) = current {
                self.bids_book.insert(bid_order.price, quantity - ask_order.current_quantity);
            }
            dealbook.push(bid_order.price, ask_order.current_quantity, ask_order.id, bid_order.id);
            proof {
                let ls = bid_lots(s);
                let ns = bid_lots(self.bids@);
                assert forall|p: u32| #[trigger] level_sum(ns, p) + (if p == bid_order.price {
                    ask_order.current_quantity as nat
                } else {
                    0
                }) == level_sum(ls, p) by {
                    lemma_level_sum_update_last(ls, bid_order.current_quantity, p);
                }
                assert(index_matches(ns, self.bids_book@));
                assert(bids_in_priority(self.bids@)) by {
                    assert forall|a: int, b: int|
                        0 <= a < b < self.bids@.len() implies #[trigger] self.bids@[a].price
                        <= #[trigger] self.bids@[b].price by {
                        assert(s[a].price <= s[b].price);
                    }
                }
            }
            return AskOrder::new(ask_order.id, ask_order.quantity, 0, ask_order.price);
        }
        ask_order
    }
    /// A snapshot of both depth indices: one entry per price with open
    /// quantity, with that price's aggregate.
    pub fn get_dom(&self) -> (r: DepthOfMarket)
        ensures
            lists_index(r.ask@, self.asks_book@),
            lists_index(r.bid@, self.bids_book@),
    {
        let ask = depth_entries(&self.asks_book);
        let bid = depth_entries(&self.bids_book);
        DepthOfMarket { ask, bid }
    }
}

/// Copies every (price, quantity) pair of a depth index, in the map's own order.
fn depth_entries(index: &HashMap<u32, u32>) -> (r: Vec<DepthEntry>)
    ensures
        lists_index(r@, index@),
{
    let mut entries: Vec<DepthEntry> = Vec::new();
    for pair in it: index.iter()
        invariant
            entries@.len() == it.index(),
            forall|i: int|
                0 <= i < entries@.len() ==> #[trigger] entries@[i] == (DepthEntry {
                    price: *it.seq()[i].0,
                    quantity: *it.seq()[i].1,
                }),
    {
        let (price, quantity) = pair;
        entries.push(DepthEntry { price: *price, quantity: *quantity });
    }
    proof {
        let v = index.iter().remaining();
        assert(v.no_duplicates());
        assert(entries@.len() == v.len());
        assert forall|i: int| 0 <= i < entries@.len() implies #[trigger] index@.contains_key(
            entries@[i].price,
        ) && index@[entries@[i].price] == entries@[i].quantity by {
            assert(index@.contains_key(*v[i].0));
        }
        assert forall|i: int, j: int| 0 <= i < j < entries@.len() implies #[trigger] entries@[i].price
            != #[trigger] entries@[j].price by {
            if entries@[i].price == entries@[j].price {
                assert(index@.contains_key(*v[i].0));
                assert(index@.contains_key(*v[j].0));
                assert(v[i] == v[j]);
            }
        }
        assert forall|p: u32| #[trigger] index@.contains_key(p) implies exists|i: int|
            0 <= i < entries@.len() && #[trigger] entries@[i].price == p by {
            assert(v.contains((&p, &index@[p])));
            let i = choose|i: int| 0 <= i < v.len() && v[i] == (&p, &index@[p]);
            assert(entries@[i].price == p);
        }
    }
    entries
}

} // verus!
