use crate::ask_order::AskOrder;
use crate::bid_order::BidOrder;
use crate::deal::{added, traded, Deal};
use crate::dealbook::DealBook;
use crate::depth_of_market::{lists_index, DepthOfMarket};
use crate::order_message::OrderMessage;
use crate::order_side::OrderSide;
use crate::orderbook::{ask_queued, bid_queued, OrderBook};
use vstd::prelude::*;

verus! {

/// `deal` records the incoming ask `taker` trading with the resting bid
/// `maker`: at the bid's price, which is at or above the ask's, for part or
/// (unless `last`) all of the bid's open quantity.
pub open spec fn ask_trade(maker: BidOrder, taker: AskOrder, deal: Deal, last: bool) -> bool {
    &&& deal.price == maker.price
    &&& deal.bid_order == maker.id
    &&& deal.ask_order == taker.id
    &&& taker.price <= maker.price
    &&& 0 < deal.quantity <= maker.current_quantity
    &&& !last ==> deal.quantity == maker.current_quantity
}

/// `taken` records the incoming ask `taker` trading with the best bids of
/// `bids` in priority order: the k-th deal is with the k-th best bid, and every
/// bid but the last one traded with is taken in full.
pub open spec fn ask_fills(bids: Seq<BidOrder>, taker: AskOrder, taken: Seq<Deal>) -> bool {
    &&& taken.len() <= bids.len()
    &&& forall|k: int|
        #![trigger taken[k]]
        0 <= k < taken.len() ==> ask_trade(
            bids[bids.len() - 1 - k],
            taker,
            taken[k],
            k == taken.len() - 1,
        )
}

/// The bids that remain of `bids` after the trades `taken`: those taken in
/// full are gone, and one taken in part stays on top with the rest.
pub open spec fn bids_left(bids: Seq<BidOrder>, taken: Seq<Deal>) -> Seq<BidOrder> {
    let n = bids.len();
    let m = taken.len();
    if m > 0 && taken.last().quantity < bids[n - m].current_quantity {
        let maker = bids[n - m];
        bids.take(n - m + 1).update(
            n - m,
            BidOrder {
                current_quantity: (maker.current_quantity - taken.last().quantity) as u32,
                ..maker
            },
        )
    } else {
        bids.take(n - m)
    }
}

/// Matches an incoming ask against the resting bids, best first, while they
/// cross its price and it has open quantity. Each trade is at the bid's
/// price. Returns the ask with what is left open; the ask itself is not
/// rested.
pub fn asks_match_bids(
    ask_order: AskOrder,
    orderbook: &mut OrderBook,
    dealbook: &mut DealBook,
) -> (r: AskOrder)
    requires
        old(orderbook).wf(),
    ensures
        final(orderbook).wf(),
        final(orderbook).asks@ == old(orderbook).asks@,
        final(orderbook).asks_book@ == old(orderbook).asks_book@,
        old(dealbook).deals@.len() <= final(dealbook).deals@.len(),
        final(dealbook).deals@.take(old(dealbook).deals@.len() as int) == old(dealbook).deals@,
        ask_fills(
            old(orderbook).bids@,
            ask_order,
            added(old(dealbook).deals@, final(dealbook).deals@),
        ),
        final(orderbook).bids@ == bids_left(
            old(orderbook).bids@,
            added(old(dealbook).deals@, final(dealbook).deals@),
        ),
        r.id == ask_order.id,
        r.quantity == ask_order.quantity,
        r.price == ask_order.price,
        r.current_quantity <= ask_order.current_quantity,
        traded(added(old(dealbook).deals@, final(dealbook).deals@)) + r.current_quantity
            == ask_order.current_quantity,
        r.current_quantity == 0 || final(orderbook).bids@.len() == 0
            || final(orderbook).bids@.last().price < ask_order.price,
{
    let ghost s = orderbook.bids@;
    let ghost d0 = dealbook.deals@;
    let ghost b0 = ask_order;
    let mut taker = ask_order;
    proof {
        assert(dealbook.deals@.skip(d0.len() as int) =~= Seq::<Deal>::empty());
        assert(s.take(s.len() as int) =~= s);
        assert(dealbook.deals@.take(d0.len() as int) =~= d0);
    }
    loop
        invariant
            orderbook.wf(),
            orderbook.asks@ == old(orderbook).asks@,
            orderbook.asks_book@ == old(orderbook).asks_book@,
            s == old(orderbook).bids@,
            d0 == old(dealbook).deals@,
            b0 == ask_order,
            d0.len() <= dealbook.deals@.len(),
            dealbook.deals@.take(d0.len() as int) == d0,
            ask_fills(s, b0, dealbook.deals@.skip(d0.len() as int)),
            dealbook.deals@.len() > d0.len() ==> dealbook.deals@.last().quantity == s[s.len()
                - (dealbook.deals@.len() - d0.len())].current_quantity,
            orderbook.bids@ == s.take(s.len() - (dealbook.deals@.len() - d0.len())),
            taker.id == b0.id,
            taker.quantity == b0.quantity,
            taker.price == b0.price,
            traded(dealbook.deals@.skip(d0.len() as int)) + taker.current_quantity
                == b0.current_quantity,
        ensures
            taker.current_quantity == 0 || orderbook.bids@.len() == 0
                || orderbook.bids@.last().price < taker.price,
        decreases orderbook.bids@.len(),
    {
        let n = orderbook.bids.len();
        if n == 0 {
            break;
        }
        let best_price = orderbook.bids[n - 1].price;
        let best_quantity = orderbook.bids[n - 1].current_quantity;
        if best_price < taker.price || taker.current_quantity == 0 {
            break;
        }
        let ghost taken = dealbook.deals@.skip(d0.len() as int);
        let ghost maker = orderbook.bids@.last();
        assert(maker == s[s.len() - 1 - taken.len()]);
        if best_quantity <= taker.current_quantity {
            taker = orderbook.bids_pop(taker, dealbook);
            proof {
                let now = dealbook.deals@.skip(d0.len() as int);
                assert(now =~= taken.push(dealbook.deals@.last()));
                assert(now.drop_last() =~= taken);
                assert(dealbook.deals@.take(d0.len() as int) =~= d0);
                assert(orderbook.bids@ =~= s.take(s.len() - now.len()));
                assert forall|k: int| #![trigger now[k]] 0 <= k < now.len() implies ask_trade(
                    s[s.len() - 1 - k],
                    b0,
                    now[k],
                    k == now.len() - 1,
                ) by {
                    if k < taken.len() {
                        assert(now[k] == taken[k]);
                    }
                }
            }
        } else {
            taker = orderbook.bids_peek_mut(taker, dealbook);
            proof {
                let now = dealbook.deals@.skip(d0.len() as int);
                assert(now =~= taken.push(dealbook.deals@.last()));
                assert(now.drop_last() =~= taken);
                assert(dealbook.deals@.take(d0.len() as int) =~= d0);
                let left = bids_left(s, now);
                assert(now.last() == dealbook.deals@.last());
                assert(left.len() == orderbook.bids@.len());
                assert(left.last() == orderbook.bids@.last());
                assert(left.drop_last() =~= orderbook.bids@.drop_last());
                assert forall|k: int| 0 <= k < left.len() implies left[k] == orderbook.bids@[k] by {
                    if k < left.len() - 1 {
                        assert(left[k] == left.drop_last()[k]);
                        assert(orderbook.bids@[k] == orderbook.bids@.drop_last()[k]);
                    }
                }
                assert(orderbook.bids@ =~= left);
                assert forall|k: int| #![trigger now[k]] 0 <= k < now.len() implies ask_trade(
                    s[s.len() - 1 - k],
                    b0,
                    now[k],
                    k == now.len() - 1,
                ) by {
                    if k < taken.len() {
                        assert(now[k] == taken[k]);
                    }
                }
            }
            return AskOrder::new(taker.id, taker.quantity, taker.current_quantity, taker.price);
        }
    }
    proof {
        let now = dealbook.deals@.skip(d0.len() as int);
        assert(orderbook.bids@ =~= bids_left(s, now));
    }
    AskOrder::new(taker.id, taker.quantity, taker.current_quantity, taker.price)
}

/// `deal` records the incoming bid `taker` trading with the resting ask
/// `maker`: at the ask's price, which is at or below the bid's, for part or
/// (unless `last`) all of the ask's open quantity.
pub open spec fn bid_trade(maker: AskOrder, taker: BidOrder, deal: Deal, last: bool) -> bool {
    &&& deal.price == maker.price
    &&& deal.ask_order == maker.id
    &&& deal.bid_order == taker.id
    &&& maker.price <= taker.price
    &&& 0 < deal.quantity <= maker.current_quantity
    &&& !last ==> deal.quantity == maker.current_quantity
}

/// `taken` records the incoming bid `taker` trading with the best asks of
/// `asks` in priority order: the k-th deal is with the k-th best ask, and every
/// ask but the last one traded with is taken in full.
pub open spec fn bid_fills(asks: Seq<AskOrder>, taker: BidOrder, taken: Seq<Deal>) -> bool {
    &&& taken.len() <= asks.len()
    &&& forall|k: int|
        #![trigger taken[k]]
        0 <= k < taken.len() ==> bid_trade(
            asks[asks.len() - 1 - k],
            taker,
            taken[k],
            k == taken.len() - 1,
        )
}

/// The asks that remain of `asks` after the trades `taken`: those taken in
/// full are gone, and one taken in part stays on top with the rest.
pub open spec fn asks_left(asks: Seq<AskOrder>, taken: Seq<Deal>) -> Seq<AskOrder> {
    let n = asks.len();
    let m = taken.len();
    if m > 0 && taken.last().quantity < asks[n - m].current_quantity {
        let maker = asks[n - m];
        asks.take(n - m + 1).update(
            n - m,
            AskOrder {
                current_quantity: (maker.current_quantity - taken.last().quantity) as u32,
                ..maker
            },
        )
    } else {
        asks.take(n - m)
    }
}

/// Matches an incoming bid against the resting asks, best first, while they
/// cross its price and it has open quantity. Each trade is at the ask's
/// price. Returns the bid with what is left open; the bid itself is not
/// rested.
pub fn bids_match_asks(
    bid_order: BidOrder,
    orderbook: &mut OrderBook,
    dealbook: &mut DealBook,
) -> (r: BidOrder)
    requires
        old(orderbook).wf(),
    ensures
        final(orderbook).wf(),
        final(orderbook).bids@ == old(orderbook).bids@,
        final(orderbook).bids_book@ == old(orderbook).bids_book@,
        old(dealbook).deals@.len() <= final(dealbook).deals@.len(),
        final(dealbook).deals@.take(old(dealbook).deals@.len() as int) == old(dealbook).deals@,
        bid_fills(
            old(orderbook).asks@,
            bid_order,
            added(old(dealbook).deals@, final(dealbook).deals@),
        ),
        final(orderbook).asks@ == asks_left(
            old(orderbook).asks@,
            added(old(dealbook).deals@, final(dealbook).deals@),
        ),
        r.id == bid_order.id,
        r.quantity == bid_order.quantity,
        r.price == bid_order.price,
        r.current_quantity <= bid_order.current_quantity,
        traded(added(old(dealbook).deals@, final(dealbook).deals@)) + r.current_quantity
            == bid_order.current_quantity,
        r.current_quantity == 0 || final(orderbook).asks@.len() == 0 || bid_order.price
            < final(orderbook).asks@.last().price,
{
    let ghost s = orderbook.asks@;
    let ghost d0 = dealbook.deals@;
    let ghost b0 = bid_order;
    let mut taker = bid_order;
    proof {
        assert(dealbook.deals@.skip(d0.len() as int) =~= Seq::<Deal>::empty());
        assert(s.take(s.len() as int) =~= s);
        assert(dealbook.deals@.take(d0.len() as int) =~= d0);
    }
    loop
        invariant
            orderbook.wf(),
            orderbook.bids@ == old(orderbook).bids@,
            orderbook.bids_book@ == old(orderbook).bids_book@,
            s == old(orderbook).asks@,
            d0 == old(dealbook).deals@,
            b0 == bid_order,
            d0.len() <= dealbook.deals@.len(),
            dealbook.deals@.take(d0.len() as int) == d0,
            bid_fills(s, b0, dealbook.deals@.skip(d0.len() as int)),
            dealbook.deals@.len() > d0.len() ==> dealbook.deals@.last().quantity == s[s.len()
                - (dealbook.deals@.len() - d0.len())].current_quantity,
            orderbook.asks@ == s.take(s.len() - (dealbook.deals@.len() - d0.len())),
            taker.id == b0.id,
            taker.quantity == b0.quantity,
            taker.price == b0.price,
            traded(dealbook.deals@.skip(d0.len() as int)) + taker.current_quantity
                == b0.current_quantity,
        ensures
            taker.current_quantity == 0 || orderbook.asks@.len() == 0 || taker.price
                < orderbook.asks@.last().price,
        decreases orderbook.asks@.len(),
    {
        let n = orderbook.asks.len();
        if n == 0 {
            break;
        }
        let best_price = orderbook.asks[n - 1].price;
        let best_quantity = orderbook.asks[n - 1].current_quantity;
        if best_price > taker.price || taker.current_quantity == 0 {
            break;
        }
        let ghost taken = dealbook.deals@.skip(d0.len() as int);
        let ghost maker = orderbook.asks@.last();
        assert(maker == s[s.len() - 1 - taken.len()]);
        if best_quantity <= taker.current_quantity {
            taker = orderbook.asks_pop(taker, dealbook);
            proof {
                let now = dealbook.deals@.skip(d0.len() as int);
                assert(now =~= taken.push(dealbook.deals@.last()));
                assert(now.drop_last() =~= taken);
                assert(dealbook.deals@.take(d0.len() as int) =~= d0);
                assert(orderbook.asks@ =~= s.take(s.len() - now.len()));
                assert forall|k: int| #![trigger now[k]] 0 <= k < now.len() implies bid_trade(
                    s[s.len() - 1 - k],
                    b0,
                    now[k],
                    k == now.len() - 1,
                ) by {
                    if k < taken.len() {
                        assert(now[k] == taken[k]);
                    }
                }
            }
        } else {
            taker = orderbook.asks_peek_mut(taker, dealbook);
            proof {
                let now = dealbook.deals@.skip(d0.len() as int);
                assert(now =~= taken.push(dealbook.deals@.last()));
                assert(now.drop_last() =~= taken);
                assert(dealbook.deals@.take(d0.len() as int) =~= d0);
                let left = asks_left(s, now);
                assert(now.last() == dealbook.deals@.last());
                assert(left.len() == orderbook.asks@.len());
                assert(left.last() == orderbook.asks@.last());
                assert(left.drop_last() =~= orderbook.asks@.drop_last());
                assert forall|k: int| 0 <= k < left.len() implies left[k] == orderbook.asks@[k] by {
                    if k < left.len() - 1 {
                        assert(left[k] == left.drop_last()[k]);
                        assert(orderbook.asks@[k] == orderbook.asks@.drop_last()[k]);
                    }
                }
                assert(orderbook.asks@ =~= left);
                assert forall|k: int| #![trigger now[k]] 0 <= k < now.len() implies bid_trade(
                    s[s.len() - 1 - k],
                    b0,
                    now[k],
                    k == now.len() - 1,
                ) by {
                    if k < taken.len() {
                        assert(now[k] == taken[k]);
                    }
                }
            }
            return BidOrder::new(taker.id, taker.quantity, taker.current_quantity, taker.price);
        }
    }
    proof {
        let now = dealbook.deals@.skip(d0.len() as int);
        assert(orderbook.asks@ =~= asks_left(s, now));
    }
    BidOrder::new(taker.id, taker.quantity, taker.current_quantity, taker.price)
}

/// The resting ask an incoming ask message starts out as.
pub open spec fn incoming_ask(m: OrderMessage) -> AskOrder {
    AskOrder { id: m.id, quantity: m.quantity, current_quantity: m.quantity, price: m.price }
}

/// The resting bid an incoming bid message starts out as.
pub open spec fn incoming_bid(m: OrderMessage) -> BidOrder {
    BidOrder { id: m.id, quantity: m.quantity, current_quantity: m.quantity, price: m.price }
}

/// The book can take whatever part of `m` is left to rest without the
/// aggregate at its price leaving `u32`.
pub open spec fn has_room(book: OrderBook, m: OrderMessage) -> bool {
    match m.side {
        OrderSide::Ask => book.ask_level(m.price) + m.quantity <= u32::MAX,
        OrderSide::Bid => book.bid_level(m.price) + m.quantity <= u32::MAX,
    }
}

/// Processing the incoming ask `ask` took `before` to `after` with the trades
/// `taken`: it traded with the best bids while they crossed its price and it
/// had quantity open, and what was left of it, if anything, now rests.
pub open spec fn ask_processed(
    before: OrderBook,
    after: OrderBook,
    ask: AskOrder,
    taken: Seq<Deal>,
) -> bool {
    let rest = AskOrder { current_quantity: (ask.current_quantity - traded(taken)) as u32, ..ask };
    &&& ask_fills(before.bids@, ask, taken)
    &&& traded(taken) <= ask.current_quantity
    &&& after.bids@ == bids_left(before.bids@, taken)
    &&& rest.current_quantity == 0 || after.bids@.len() == 0 || after.bids@.last().price < ask.price
    &&& rest.current_quantity == 0 ==> after.asks@ == before.asks@ && after.asks_book@
        == before.asks_book@
    &&& rest.current_quantity > 0 ==> ask_queued(before.asks@, after.asks@, rest)
        && after.asks_book@ == before.asks_book@.insert(
        ask.price,
        (before.ask_level(ask.price) + rest.current_quantity) as u32,
    )
}

/// Processing the incoming bid `bid` took `before` to `after` with the trades
/// `taken`: it traded with the best asks while they crossed its price and it
/// had quantity open, and what was left of it, if anything, now rests.
pub open spec fn bid_processed(
    before: OrderBook,
    after: OrderBook,
    bid: BidOrder,
    taken: Seq<Deal>,
) -> bool {
    let rest = BidOrder { current_quantity: (bid.current_quantity - traded(taken)) as u32, ..bid };
    &&& bid_fills(before.asks@, bid, taken)
    &&& traded(taken) <= bid.current_quantity
    &&& after.asks@ == asks_left(before.asks@, taken)
    &&& rest.current_quantity == 0 || after.asks@.len() == 0 || bid.price < after.asks@.last().price
    &&& rest.current_quantity == 0 ==> after.bids@ == before.bids@ && after.bids_book@
        == before.bids_book@
    &&& rest.current_quantity > 0 ==> bid_queued(before.bids@, after.bids@, rest)
        && after.bids_book@ == before.bids_book@.insert(
        bid.price,
        (before.bid_level(bid.price) + rest.current_quantity) as u32,
    )
}

/// Whether the book has room for what may be left of `order_message` to rest.
pub fn has_room_for(orderbook: &OrderBook, order_message: &OrderMessage) -> (r: bool)
    requires
        orderbook.wf(),
    ensures
        r == has_room(*orderbook, *order_message),
{
    let index = match order_message.side {
        OrderSide::Ask => &orderbook.asks_book,
        OrderSide::Bid => &orderbook.bids_book,
    };
    let level: u32 = match index.get(&order_message.price) {
        Some(q) => *q,
        None => 0,
    };
    level as u64 + order_message.quantity as u64 <= u32::MAX as u64
}

/// Runs one incoming order against the book: it trades with the opposite
/// side, and whatever is left of it rests on its own side. The trades are
/// appended to `dealbook`.
pub fn matching_orders(
    order_message: &OrderMessage,
    orderbook: &mut OrderBook,
    dealbook: &mut DealBook,
)
    requires
        old(orderbook).wf(),
        has_room(*old(orderbook), *order_message),
    ensures
        final(orderbook).wf(),
        old(dealbook).deals@.len() <= final(dealbook).deals@.len(),
        final(dealbook).deals@.take(old(dealbook).deals@.len() as int) == old(dealbook).deals@,
        order_message.side == OrderSide::Ask ==> ask_processed(
            *old(orderbook),
            *final(orderbook),
            incoming_ask(*order_message),
            added(old(dealbook).deals@, final(dealbook).deals@),
        ),
        order_message.side == OrderSide::Bid ==> bid_processed(
            *old(orderbook),
            *final(orderbook),
            incoming_bid(*order_message),
            added(old(dealbook).deals@, final(dealbook).deals@),
        ),
{
    match order_message.side {
        OrderSide::Ask => {
            let ask_order = AskOrder::new(
                order_message.id,
                order_message.quantity,
                order_message.quantity,
                order_message.price,
            );
            let updated_ask_order = asks_match_bids(ask_order, orderbook, dealbook);
            orderbook.asks_push(updated_ask_order);
        },
        OrderSide::Bid => {
            let bid_order = BidOrder::new(
                order_message.id,
                order_message.quantity,
                order_message.quantity,
                order_message.price,
            );
            let updated_bid_order = bids_match_asks(bid_order, orderbook, dealbook);
            orderbook.bids_push(updated_bid_order);
        },
    }
}

/// What processing one incoming order hands on to subscribers: the batch of
/// deals, only when it is not empty, and a fresh depth snapshot.
pub struct Outcome {
    pub deals: Option<DealBook>,
    pub depth: DepthOfMarket,
}

/// One step of the engine: runs `order_message` against the book and returns
/// what is to be published. An order whose remainder could not rest without
/// the aggregate at its price leaving `u32` is refused: the book is left as it
/// is and nothing is published.
pub fn process_order(
    orderbook: &mut OrderBook,
    order_message: &OrderMessage,
) -> (r: Option<Outcome>)
    requires
        old(orderbook).wf(),
    ensures
        final(orderbook).wf(),
        r is None <==> !has_room(*old(orderbook), *order_message),
        r is None ==> *final(orderbook) == *old(orderbook),
        r matches Some(out) ==> {
            let taken = match out.deals {
                Some(db) => db.deals@,
                None => Seq::empty(),
            };
            &&& (out.deals matches Some(db) ==> db.deals@.len() > 0)
            &&& order_message.side == OrderSide::Ask ==> ask_processed(
                *old(orderbook),
                *final(orderbook),
                incoming_ask(*order_message),
                taken,
            )
            &&& order_message.side == OrderSide::Bid ==> bid_processed(
                *old(orderbook),
                *final(orderbook),
                incoming_bid(*order_message),
                taken,
            )
            &&& lists_index(out.depth.ask@, final(orderbook).asks_book@)
            &&& lists_index(out.depth.bid@, final(orderbook).bids_book@)
        },
{
    if !has_room_for(orderbook, order_message) {
        return None;
    }
    let mut dealbook = DealBook::new();
    matching_orders(order_message, orderbook, &mut dealbook);
    proof {
        assert(dealbook.deals@.skip(0) =~= dealbook.deals@);
    }
    let depth = orderbook.get_dom();
    let deals = if dealbook.deals.len() > 0 {
        Some(dealbook)
    } else {
        proof {
            assert(dealbook.deals@ =~= Seq::<Deal>::empty());
        }
        None
    };
    Some(Outcome { deals, depth })
}

} // verus!
