//! The requester's position: what the engine reads to cap an order and what
//! it updates when the order trades or rests.

use vstd::prelude::*;
use crate::order::{Event, OutReason};
use crate::types::{AccountKey, Side};

verus! {

/// Base and quote balances of one account in one market, the largest base
/// position its margin allows on either side of zero, and the number of its
/// orders that hold a slot of the book.
#[derive(Clone, Copy, Debug, PartialEq, Eq, Structural)]
pub struct Position {
    pub base_lots: i64,
    pub quote_lots: i64,
    pub limit_lots: i64,
    pub orders_in_use: u32,
}

/// Whether an out for this reason frees a slot when it is settled: it does
/// unless the slot was counted off when the order was cancelled, the lots
/// it reports never rested, or the order stays on the book.
pub open spec fn frees_slot(reason: OutReason) -> bool {
    reason != OutReason::Cancelled && reason != OutReason::Discarded && reason
        != OutReason::Decremented
}

pub fn reason_frees_slot(reason: OutReason) -> (r: bool)
    ensures
        r == frees_slot(reason),
{
    match reason {
        OutReason::Cancelled => false,
        OutReason::Discarded => false,
        OutReason::Decremented => false,
        _ => true,
    }
}

/// `x` brought into `0 ..= i64::MAX`.
pub open spec fn clip(x: int) -> int {
    if x < 0 {
        0
    } else if x > i64::MAX {
        i64::MAX as int
    } else {
        x
    }
}

fn clip_to_lots(x: i128) -> (r: i64)
    ensures
        r == clip(x as int),
{
    if x < 0 {
        0
    } else if x > i64::MAX as i128 {
        i64::MAX
    } else {
        x as i64
    }
}

impl Position {
    /// Base lots a taker on `side` may still trade: what brings the base
    /// position to the margin limit, and never less than nothing.
    pub open spec fn base_room(self, side: Side) -> int {
        match side {
            Side::Bid => clip(self.limit_lots - self.base_lots),
            Side::Ask => clip(self.limit_lots + self.base_lots),
        }
    }

    /// Quote lots a taker on `side` may still pay (bid) or receive (ask)
    /// before the quote balance leaves the range of its type.
    pub open spec fn quote_room(self, side: Side) -> int {
        match side {
            Side::Bid => clip(self.quote_lots - i64::MIN),
            Side::Ask => clip(i64::MAX - self.quote_lots),
        }
    }

    /// Whether a fill of this size is within both caps.
    pub open spec fn admits(self, side: Side, base_lots: i64, quote_lots: i64) -> bool {
        0 <= base_lots <= self.base_room(side) && 0 <= quote_lots <= self.quote_room(side)
    }

    /// The position after a taker on `side` traded `base_lots` for
    /// `quote_lots`.
    pub open spec fn filled(self, side: Side, base_lots: i64, quote_lots: i64) -> Position {
        match side {
            Side::Bid => Position {
                base_lots: (self.base_lots + base_lots) as i64,
                quote_lots: (self.quote_lots - quote_lots) as i64,
                ..self
            },
            Side::Ask => Position {
                base_lots: (self.base_lots - base_lots) as i64,
                quote_lots: (self.quote_lots + quote_lots) as i64,
                ..self
            },
        }
    }

    /// The position with one more order holding a slot; the count stops at
    /// the top of its type.
    pub open spec fn opened(self) -> Position {
        Position {
            orders_in_use: if self.orders_in_use < u32::MAX {
                (self.orders_in_use + 1) as u32
            } else {
                self.orders_in_use
            },
            ..self
        }
    }

    /// The position with `n` fewer orders holding a slot; the count stops
    /// at zero.
    pub open spec fn closed(self, n: nat) -> Position {
        Position {
            orders_in_use: if self.orders_in_use >= n {
                (self.orders_in_use - n) as u32
            } else {
                0
            },
            ..self
        }
    }

    /// The position after its owner's side of a queued event is settled. A
    /// fill in which it was the maker moves the balances the other way
    /// from the taker's. An out of one of its orders frees the order's
    /// slot, unless the slot was freed when the order was cancelled, or the
    /// lots reported never rested. Events of other accounts leave it as it
    /// is.
    pub open spec fn settled(self, key: AccountKey, event: Event) -> Position {
        match event {
            Event::Fill { maker, .. } => if maker == key {
                Position {
                    base_lots: (self.base_lots + event.maker_base_delta()) as i64,
                    quote_lots: (self.quote_lots + event.maker_quote_delta()) as i64,
                    ..self
                }
            } else {
                self
            },
            Event::Out { owner, reason, .. } => if owner == key && frees_slot(reason) {
                self.closed(1)
            } else {
                self
            },
        }
    }

    /// Whether settling the event keeps both balances in the range of
    /// their type.
    pub open spec fn can_settle(self, key: AccountKey, event: Event) -> bool {
        match event {
            Event::Fill { maker, .. } => maker == key ==> i64::MIN <= self.base_lots
                + event.maker_base_delta() <= i64::MAX && i64::MIN <= self.quote_lots
                + event.maker_quote_delta() <= i64::MAX,
            Event::Out { .. } => true,
        }
    }

    /// A flat position with the given margin limit.
    pub fn new(limit_lots: i64) -> (p: Position)
        ensures
            p == (Position { base_lots: 0, quote_lots: 0, limit_lots, orders_in_use: 0 }),
    {
        Position { base_lots: 0, quote_lots: 0, limit_lots, orders_in_use: 0 }
    }

    /// Base lots a taker on `side` may still trade.
    pub fn available_lots(&self, side: Side) -> (r: i64)
        ensures
            r == self.base_room(side),
    {
        match side {
            Side::Bid => clip_to_lots(self.limit_lots as i128 - self.base_lots as i128),
            Side::Ask => clip_to_lots(self.limit_lots as i128 + self.base_lots as i128),
        }
    }

    /// Quote lots a taker on `side` may still pay or receive.
    pub fn available_quote_lots(&self, side: Side) -> (r: i64)
        ensures
            r == self.quote_room(side),
    {
        match side {
            Side::Bid => clip_to_lots(self.quote_lots as i128 - i64::MIN as i128),
            Side::Ask => clip_to_lots(i64::MAX as i128 - self.quote_lots as i128),
        }
    }

    /// Books a taker fill if both caps admit it; says whether it did.
    pub fn apply_fill(&mut self, side: Side, base_lots: i64, quote_lots: i64) -> (applied: bool)
        ensures
            applied == old(self).admits(side, base_lots, quote_lots),
            *final(self) == if applied {
                old(self).filled(side, base_lots, quote_lots)
            } else {
                *old(self)
            },
            applied && side == Side::Bid ==> final(self).base_lots == old(self).base_lots
                + base_lots,
            applied && side == Side::Bid ==> final(self).quote_lots == old(self).quote_lots
                - quote_lots,
            applied && side == Side::Ask ==> final(self).base_lots == old(self).base_lots
                - base_lots,
            applied && side == Side::Ask ==> final(self).quote_lots == old(self).quote_lots
                + quote_lots,
    {
        if base_lots < 0 || quote_lots < 0 || base_lots > self.available_lots(side) || quote_lots
            > self.available_quote_lots(side) {
            return false;
        }
        match side {
            Side::Bid => {
                self.base_lots = self.base_lots + base_lots;
                self.quote_lots = self.quote_lots - quote_lots;
            },
            Side::Ask => {
                self.base_lots = self.base_lots - base_lots;
                self.quote_lots = self.quote_lots + quote_lots;
            },
        }
        true
    }

    /// Counts one more order that holds a slot.
    pub fn mark_order_opened(&mut self)
        ensures
            *final(self) == old(self).opened(),
    {
        self.orders_in_use = self.orders_in_use.saturating_add(1);
    }

    /// Counts one order fewer that holds a slot.
    pub fn mark_order_closed(&mut self)
        ensures
            *final(self) == old(self).closed(1),
    {
        self.orders_in_use = self.orders_in_use.saturating_sub(1);
    }

    /// Counts `n` orders fewer that hold a slot.
    pub fn mark_orders_closed(&mut self, n: u32)
        ensures
            *final(self) == old(self).closed(n as nat),
    {
        self.orders_in_use = self.orders_in_use.saturating_sub(n);
    }

    /// Settles the owner's side of a queued event, if the balances can take
    /// it; says whether they could.
    pub fn settle(&mut self, key: AccountKey, event: Event) -> (done: bool)
        ensures
            done == old(self).can_settle(key, event),
            *final(self) == if done {
                old(self).settled(key, event)
            } else {
                *old(self)
            },
    {
        match event {
            Event::Fill { taker, maker, maker_order, taker_side, price_lots, quantity } => {
                if !(maker == key) {
                    return true;
                }
                assert(-0x4000_0000_0000_0000_0000_0000_0000_0000 <= quantity * price_lots
                    <= 0x4000_0000_0000_0000_0000_0000_0000_0000) by (nonlinear_arith)
                    requires
                        -0x8000_0000_0000_0000 <= quantity <= 0x8000_0000_0000_0000,
                        -0x8000_0000_0000_0000 <= price_lots <= 0x8000_0000_0000_0000,
                ;
                let worth: i128 = quantity as i128 * price_lots as i128;
                let (base, quote): (i128, i128) = match taker_side {
                    Side::Bid => (self.base_lots as i128 - quantity as i128, self.quote_lots as i128
                        + worth),
                    Side::Ask => (self.base_lots as i128 + quantity as i128, self.quote_lots as i128
                        - worth),
                };
                if base < i64::MIN as i128 || base > i64::MAX as i128 || quote < i64::MIN as i128
                    || quote > i64::MAX as i128 {
                    return false;
                }
                self.base_lots = base as i64;
                self.quote_lots = quote as i64;
                true
            },
            Event::Out { owner, order, quantity, reason } => {
                if owner == key && reason_frees_slot(reason) {
                    self.mark_order_closed();
                }
                true
            },
        }
    }
}

} // verus!
