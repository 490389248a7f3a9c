//! Incoming orders, resting orders and the events that matching leaves behind.

use vstd::prelude::*;
use crate::types::{AccountKey, OrderId, OrderType, SelfTradePolicy, Side};

verus! {

/// An incoming request, as its sender wrote it.
#[derive(Clone, Copy, Debug, PartialEq, Eq, Structural)]
pub struct Order {
    pub side: Side,
    /// Worst price, in quote lots for one base lot, the sender accepts.
    pub price_lots: i64,
    /// Most base lots to trade or rest.
    pub max_base_lots: i64,
    /// Most quote lots to spend or receive.
    pub max_quote_lots: i64,
    pub order_type: OrderType,
    pub self_trade: SelfTradePolicy,
    /// Time after which the order no longer stands; 0 for never.
    pub expiry: u64,
    /// The sender's own tag, carried through untouched.
    pub client_order_id: u64,
}

/// An order waiting on the book.
#[derive(Clone, Copy, Debug, PartialEq, Eq, Structural)]
pub struct RestingOrder {
    pub id: OrderId,
    pub owner: AccountKey,
    /// Base lots still open.
    pub quantity: i64,
    /// Time after which the order no longer stands; 0 for never.
    pub expiry: u64,
    pub client_order_id: u64,
    /// The self-trade policy of the order that left this one behind.
    pub self_trade: SelfTradePolicy,
}

/// Why an order left the book, or never reached it.
#[derive(Clone, Copy, Debug, PartialEq, Eq, Structural)]
pub enum OutReason {
    /// Every lot was matched.
    Filled,
    /// Its owner took it off, and its slot was counted off the owner's
    /// position at once.
    Cancelled,
    /// A bulk cancel for every owner took it off.
    Swept,
    /// A taker found it past its expiry.
    Expired,
    /// A taker of the same owner took it off.
    SelfTrade,
    /// A taker of the same owner took these lots off it; the order stays
    /// on the book with the rest.
    Decremented,
    /// The lots of an incoming order that were neither matched nor rested.
    Discarded,
}

/// One entry of the event queue.
#[derive(Clone, Copy, Debug, PartialEq, Eq, Structural)]
pub enum Event {
    /// `quantity` base lots changed hands at `price_lots`.
    Fill {
        taker: AccountKey,
        maker: AccountKey,
        maker_order: OrderId,
        taker_side: Side,
        price_lots: i64,
        quantity: i64,
    },
    /// An order left the book with `quantity` base lots unfilled.
    Out { owner: AccountKey, order: OrderId, quantity: i64, reason: OutReason },
}

/// Whether an order with this expiry no longer stands at `now_ts`.
pub open spec fn expired(expiry: u64, now_ts: u64) -> bool {
    expiry != 0 && expiry <= now_ts
}

/// Whether an order with this expiry no longer stands at `now_ts`.
pub fn is_expired(expiry: u64, now_ts: u64) -> (r: bool)
    ensures
        r == expired(expiry, now_ts),
{
    expiry != 0 && expiry <= now_ts
}

impl RestingOrder {
    /// What a free slot holds.
    pub open spec fn blank(side: Side) -> RestingOrder {
        RestingOrder {
            id: OrderId { side, price_lots: 0, seq_num: 0 },
            owner: AccountKey { hi: 0, lo: 0 },
            quantity: 0,
            expiry: 0,
            client_order_id: 0,
            self_trade: SelfTradePolicy::DecrementTake,
        }
    }

    /// What a free slot holds.
    pub fn new_blank(side: Side) -> (r: RestingOrder)
        ensures
            r == RestingOrder::blank(side),
    {
        RestingOrder {
            id: OrderId { side, price_lots: 0, seq_num: 0 },
            owner: AccountKey { hi: 0, lo: 0 },
            quantity: 0,
            expiry: 0,
            client_order_id: 0,
            self_trade: SelfTradePolicy::DecrementTake,
        }
    }

    /// Whether the order may rest on `side`: it is of that side, and its
    /// price and open quantity are positive.
    pub open spec fn rests_on(self, side: Side) -> bool {
        self.id.side == side && self.id.price_lots > 0 && self.quantity > 0
    }

    /// The same order with another open quantity.
    pub open spec fn with_quantity(self, quantity: i64) -> RestingOrder {
        RestingOrder { quantity, ..self }
    }
}

impl Event {
    /// What an unused entry of the queue holds.
    pub fn blank() -> (r: Event)
        ensures
            r == (Event::Out {
                owner: AccountKey { hi: 0, lo: 0 },
                order: OrderId { side: Side::Bid, price_lots: 0, seq_num: 0 },
                quantity: 0,
                reason: OutReason::Discarded,
            }),
    {
        Event::Out {
            owner: AccountKey { hi: 0, lo: 0 },
            order: OrderId { side: Side::Bid, price_lots: 0, seq_num: 0 },
            quantity: 0,
            reason: OutReason::Discarded,
        }
    }

    /// Base lots this event adds to the taker's position.
    pub open spec fn taker_base_delta(self) -> int {
        match self {
            Event::Fill { taker_side, quantity, .. } => match taker_side {
                Side::Bid => quantity as int,
                Side::Ask => -(quantity as int),
            },
            Event::Out { .. } => 0,
        }
    }

    /// Base lots this event adds to the maker's position.
    pub open spec fn maker_base_delta(self) -> int {
        -self.taker_base_delta()
    }

    /// Quote lots this event adds to the taker's position.
    pub open spec fn taker_quote_delta(self) -> int {
        match self {
            Event::Fill { taker_side, quantity, price_lots, .. } => match taker_side {
                Side::Bid => -(quantity * price_lots),
                Side::Ask => quantity * price_lots,
            },
            Event::Out { .. } => 0,
        }
    }

    /// Quote lots this event adds to the maker's position.
    pub open spec fn maker_quote_delta(self) -> int {
        -self.taker_quote_delta()
    }
}

} // verus!
