//! Plain values shared by every component: sides, order types, self-trade
//! policies, account keys, errors, and order identifiers with their sort
//! keys.

use vstd::prelude::*;

verus! {

/// Which side of the book an order sits on or comes from.
#[derive(Clone, Copy, Debug, PartialEq, Eq, Structural)]
pub enum Side {
    Bid,
    Ask,
}

impl Side {
    /// The other side.
    pub open spec fn opposite(self) -> Side {
        match self {
            Side::Bid => Side::Ask,
            Side::Ask => Side::Bid,
        }
    }

    /// The side a taker on this side matches against.
    pub fn invert(self) -> (r: Side)
        ensures
            r == self.opposite(),
    {
        match self {
            Side::Bid => Side::Ask,
            Side::Ask => Side::Bid,
        }
    }
}

/// What happens to the part of an order that does not match at once.
#[derive(Clone, Copy, Debug, PartialEq, Eq, Structural)]
pub enum OrderType {
    /// Match what crosses, rest the remainder.
    Limit,
    /// Match what crosses, discard the remainder.
    ImmediateOrCancel,
    /// Rest only; refused if it would match at once.
    PostOnly,
}

/// What a taker does on meeting a resting order of its own.
#[derive(Clone, Copy, Debug, PartialEq, Eq, Structural)]
pub enum SelfTradePolicy {
    /// Take off both orders the lots that both have open, without a trade.
    DecrementTake,
    /// Take the resting order off the book and go on matching.
    CancelMaker,
    /// Take the resting order off the book and stop matching.
    CancelProvide,
    /// Refuse the whole incoming order.
    Reject,
}

/// A 256-bit account address, held as two halves.
#[derive(Clone, Copy, Debug, PartialEq, Eq, Structural)]
pub struct AccountKey {
    pub hi: u128,
    pub lo: u128,
}

/// Every way an operation of the engine can fail.
#[derive(Clone, Copy, Debug, PartialEq, Eq, Structural)]
pub enum EngineError {
    /// The book side has no free slot for the order.
    BookFull,
    /// No resting order of that owner has the given identifier.
    OrderNotFound,
    /// The order would have matched a resting order of its own owner.
    SelfTradeRejected,
    /// A size is negative, the price is not positive, the order has expired
    /// on arrival, or a post-only order would match at once.
    InvalidOrderParameters,
    /// The match budget ran out while the order could still match.
    ComputeLimitReached,
    /// The signer is neither owner nor delegate of the account.
    Unauthorized,
    /// An account handed in is not the one another account names.
    AccountMismatch,
    /// The group has switched the operation off.
    IxIsDisabled,
    /// The account is frozen.
    AccountIsFrozen,
    /// The account is being liquidated.
    BeingLiquidated,
    /// The account still holds an active token, spot or perp position.
    PositionStillActive,
    /// The account has no position for the market or token asked for.
    PositionNotFound,
    /// The account has no free slot for one more position.
    NoFreePosition,
    /// The sequence counter of the book or of the queue has no room left
    /// for what the operation may need.
    SequenceExhausted,
}

/// Identifier of an order: its side, its price and the market-wide sequence
/// number it was given on arrival.
#[derive(Clone, Copy, Debug, PartialEq, Eq, Structural)]
pub struct OrderId {
    pub side: Side,
    pub price_lots: i64,
    pub seq_num: u64,
}

/// Strict price-time priority on one side: `a` comes out of the book before
/// `b`. Bids go from the highest price down, asks from the lowest price up;
/// at one price the lower sequence number goes first.
pub open spec fn precedes(side: Side, a: OrderId, b: OrderId) -> bool {
    match side {
        Side::Bid => a.price_lots > b.price_lots || (a.price_lots == b.price_lots && a.seq_num
            < b.seq_num),
        Side::Ask => a.price_lots < b.price_lots || (a.price_lots == b.price_lots && a.seq_num
            < b.seq_num),
    }
}

/// Whether a taker on `taker_side` with limit `taker_price` may trade at
/// `maker_price`.
pub open spec fn marketable(taker_side: Side, taker_price: i64, maker_price: i64) -> bool {
    match taker_side {
        Side::Bid => maker_price <= taker_price,
        Side::Ask => maker_price >= taker_price,
    }
}

/// Whether a taker on `taker_side` with limit `taker_price` may trade at
/// `maker_price`.
pub fn is_marketable(taker_side: Side, taker_price: i64, maker_price: i64) -> (r: bool)
    ensures
        r == marketable(taker_side, taker_price, maker_price),
{
    match taker_side {
        Side::Bid => maker_price <= taker_price,
        Side::Ask => maker_price >= taker_price,
    }
}

/// Two to the power of 64: what one step of the price is worth in a key.
pub open spec fn pow64() -> int {
    0x1_0000_0000_0000_0000
}

impl OrderId {
    /// The price moved into `0 .. 2^64`, keeping its order.
    pub open spec fn price_bits(self) -> int {
        self.price_lots + 0x8000_0000_0000_0000
    }

    /// The sequence number as stored: reversed for bids, so that among bids a
    /// larger key is a better order.
    pub open spec fn seq_bits(self) -> int {
        match self.side {
            Side::Bid => u64::MAX - self.seq_num,
            Side::Ask => self.seq_num as int,
        }
    }

    /// The 128-bit sort key: price in the upper half, sequence in the lower.
    pub open spec fn key(self) -> int {
        self.price_bits() * pow64() + self.seq_bits()
    }

    /// The identifier that `key` stands for on `side`.
    pub open spec fn of_key(side: Side, key: u128) -> OrderId {
        let low = key as int % pow64();
        OrderId {
            side,
            price_lots: (key as int / pow64() - 0x8000_0000_0000_0000) as i64,
            seq_num: match side {
                Side::Bid => (u64::MAX - low) as u64,
                Side::Ask => low as u64,
            },
        }
    }

    /// The identifier of these three parts.
    pub fn new(side: Side, price_lots: i64, seq_num: u64) -> (id: OrderId)
        ensures
            id == (OrderId { side, price_lots, seq_num }),
    {
        OrderId { side, price_lots, seq_num }
    }

    /// Packs the identifier into its sort key.
    pub fn to_key(&self) -> (k: u128)
        ensures
            k == self.key(),
    {
        let price_bits: u128 = (self.price_lots as i128 + 0x8000_0000_0000_0000i128) as u128;
        let seq_bits: u64 = match self.side {
            Side::Bid => u64::MAX - self.seq_num,
            Side::Ask => self.seq_num,
        };
        price_bits * 0x1_0000_0000_0000_0000u128 + seq_bits as u128
    }

    /// Unpacks a sort key of the given side.
    pub fn from_key(side: Side, key: u128) -> (id: OrderId)
        ensures
            id == OrderId::of_key(side, key),
            id.key() == key,
    {
        let high: u128 = key / 0x1_0000_0000_0000_0000u128;
        let low: u64 = (key % 0x1_0000_0000_0000_0000u128) as u64;
        let price_lots: i64 = (high as i128 - 0x8000_0000_0000_0000i128) as i64;
        let seq_num: u64 = match side {
            Side::Bid => u64::MAX - low,
            Side::Ask => low,
        };
        OrderId { side, price_lots, seq_num }
    }

    /// Whether this order leaves the book before `other` on their side.
    pub fn goes_before(&self, other: &OrderId) -> (r: bool)
        ensures
            r == precedes(self.side, *self, *other),
    {
        match self.side {
            Side::Bid => self.price_lots > other.price_lots || (self.price_lots
                == other.price_lots && self.seq_num < other.seq_num),
            Side::Ask => self.price_lots < other.price_lots || (self.price_lots
                == other.price_lots && self.seq_num < other.seq_num),
        }
    }
}

/// Unpacking a packed identifier gives it back.
pub proof fn law_key_round_trip(id: OrderId)
    ensures
        0 <= id.key() <= u128::MAX,
        OrderId::of_key(id.side, id.key() as u128) == id,
{
}

/// The sort key orders asks as priority does, and bids the other way round.
pub proof fn law_key_orders_as_priority(a: OrderId, b: OrderId)
    requires
        a.side == b.side,
    ensures
        a.side == Side::Ask ==> (precedes(Side::Ask, a, b) <==> a.key() < b.key()),
        a.side == Side::Bid ==> (precedes(Side::Bid, a, b) <==> a.key() > b.key()),
        a.key() == b.key() <==> a == b,
{
}

} // verus!
