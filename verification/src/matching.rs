//! The walk of an incoming order down the opposite side of the book.
//!
//! The walk only reads the book. It yields a plan: how many of the best
//! resting orders leave the book, what is left of the one after them, what
//! the taker has left, and the events to queue. The order book carries the
//! plan out once it knows that the whole order goes through.

use vstd::prelude::*;
use crate::book_side::BookSide;
use crate::order::{expired, is_expired, Event, OutReason, RestingOrder};
use crate::types::{is_marketable, marketable, AccountKey, SelfTradePolicy, Side};

verus! {

/// What the walk needs to know of the incoming order.
#[derive(Clone, Copy, Debug, PartialEq, Eq, Structural)]
pub struct Taker {
    pub owner: AccountKey,
    pub side: Side,
    pub price_lots: i64,
    pub policy: SelfTradePolicy,
    pub now_ts: u64,
}

/// Why the walk stopped.
#[derive(Clone, Copy, Debug, PartialEq, Eq, Structural)]
pub enum Halt {
    /// The taker has no base lots left.
    Done,
    /// The opposite side has no order left.
    BookEmpty,
    /// The best order left is outside the taker's price.
    NotMarketable,
    /// The match budget is spent and the best order left is within the
    /// taker's price.
    OutOfSteps,
    /// The taker's quote lots do not pay for one more base lot.
    OutOfQuote,
    /// The best order left was matched in part.
    MakerPartial,
    /// The taker met an order of its own and its policy is to stop there.
    SelfTradeStop,
    /// The taker met an order of its own and its policy is to be refused.
    SelfTradeReject,
}

/// The state of a walk, and at its end the plan.
pub struct Walk {
    /// How many of the best resting orders leave the book.
    pub taken: nat,
    /// The open quantity left to the order after those, if it was matched.
    pub front_quantity: Option<i64>,
    /// Base lots the taker has left.
    pub base_left: i64,
    /// Quote lots the taker has left.
    pub quote_left: i64,
    /// Base lots the taker has traded.
    pub base_filled: i64,
    /// The events so far, in order.
    pub events: Seq<Event>,
    pub halt: Halt,
}

/// Base lots a taker and a resting order trade: what both have open and the
/// taker's quote lots pay for at the resting order's price.
pub open spec fn match_quantity(base_left: i64, maker_quantity: i64, quote_left: i64, price: i64) -> int {
    let both = if base_left <= maker_quantity {
        base_left as int
    } else {
        maker_quantity as int
    };
    if both <= quote_left as int / price as int {
        both
    } else {
        quote_left as int / price as int
    }
}

impl Walk {
    /// A walk that has not met any order yet.
    pub open spec fn start(base_lots: i64, quote_lots: i64) -> Walk {
        Walk {
            taken: 0,
            front_quantity: None,
            base_left: base_lots,
            quote_left: quote_lots,
            base_filled: 0,
            events: Seq::empty(),
            halt: Halt::Done,
        }
    }

    /// The walk, ended for the given reason.
    pub open spec fn halted(self, halt: Halt) -> Walk {
        Walk { halt, ..self }
    }

    /// The walk after the order it stands at leaves the book with
    /// `quantity` lots unfilled.
    pub open spec fn passed(self, maker: RestingOrder, quantity: i64, reason: OutReason) -> Walk {
        Walk {
            taken: self.taken + 1,
            events: self.events.push(
                Event::Out { owner: maker.owner, order: maker.id, quantity, reason },
            ),
            ..self
        }
    }

    /// The walk after `quantity` lots of the order it stands at were taken
    /// off that order, which stays on the book with the rest.
    pub open spec fn reported(self, maker: RestingOrder, quantity: i64, reason: OutReason) -> Walk {
        Walk {
            events: self.events.push(
                Event::Out { owner: maker.owner, order: maker.id, quantity, reason },
            ),
            ..self
        }
    }

    /// The walk after the taker gave up `quantity` lots without a trade.
    pub open spec fn decremented(self, quantity: i64) -> Walk {
        Walk { base_left: (self.base_left - quantity) as i64, ..self }
    }

    /// The walk after the taker traded `quantity` lots with `maker`.
    pub open spec fn traded(self, taker: Taker, maker: RestingOrder, quantity: i64) -> Walk {
        Walk {
            base_left: (self.base_left - quantity) as i64,
            quote_left: (self.quote_left - quantity * maker.id.price_lots) as i64,
            base_filled: (self.base_filled + quantity) as i64,
            events: self.events.push(
                Event::Fill {
                    taker: taker.owner,
                    maker: maker.owner,
                    maker_order: maker.id,
                    taker_side: taker.side,
                    price_lots: maker.id.price_lots,
                    quantity,
                },
            ),
            ..self
        }
    }
}

/// The walk of `taker` down `makers` (best first) from the state `w`, with
/// `steps` resting orders still allowed to be touched.
///
/// At each resting order, in this order of precedence: the walk ends if the
/// taker has nothing left, if the side is used up, if the order is outside
/// the taker's price, or if no step is left. An expired order leaves the
/// book. An order of the taker's own owner is handled by the taker's
/// self-trade policy; under the policy to decrement, the taker and the
/// resting order both give up the lots that both have open, without a
/// trade: no fill is made and no quote lots are spent. Else the two trade
/// at the resting order's price. A resting order left without lots leaves
/// the book and the walk goes on; one left with lots ends it.
pub open spec fn walk(makers: Seq<RestingOrder>, taker: Taker, steps: nat, w: Walk) -> Walk
    decreases steps,
{
    if w.base_left <= 0 {
        w.halted(Halt::Done)
    } else if w.taken >= makers.len() {
        w.halted(Halt::BookEmpty)
    } else {
        let maker = makers[w.taken as int];
        let own = maker.owner == taker.owner;
        if !marketable(taker.side, taker.price_lots, maker.id.price_lots) {
            w.halted(Halt::NotMarketable)
        } else if steps == 0 {
            w.halted(Halt::OutOfSteps)
        } else if expired(maker.expiry, taker.now_ts) {
            walk(
                makers,
                taker,
                (steps - 1) as nat,
                w.passed(maker, maker.quantity, OutReason::Expired),
            )
        } else if own && taker.policy == SelfTradePolicy::Reject {
            w.halted(Halt::SelfTradeReject)
        } else if own && taker.policy == SelfTradePolicy::CancelMaker {
            walk(
                makers,
                taker,
                (steps - 1) as nat,
                w.passed(maker, maker.quantity, OutReason::SelfTrade),
            )
        } else if own && taker.policy == SelfTradePolicy::CancelProvide {
            w.passed(maker, maker.quantity, OutReason::SelfTrade).halted(Halt::SelfTradeStop)
        } else if own {
            if w.base_left >= maker.quantity {
                walk(
                    makers,
                    taker,
                    (steps - 1) as nat,
                    w.decremented(maker.quantity).passed(
                        maker,
                        maker.quantity,
                        OutReason::SelfTrade,
                    ),
                )
            } else {
                Walk {
                    front_quantity: Some((maker.quantity - w.base_left) as i64),
                    halt: Halt::MakerPartial,
                    ..w.decremented(w.base_left).reported(
                        maker,
                        w.base_left,
                        OutReason::Decremented,
                    )
                }
            }
        } else {
            let quantity = match_quantity(
                w.base_left,
                maker.quantity,
                w.quote_left,
                maker.id.price_lots,
            );
            if quantity <= 0 {
                w.halted(Halt::OutOfQuote)
            } else if quantity >= maker.quantity {
                walk(
                    makers,
                    taker,
                    (steps - 1) as nat,
                    w.traded(taker, maker, quantity as i64).passed(maker, 0, OutReason::Filled),
                )
            } else {
                Walk {
                    front_quantity: Some((maker.quantity - quantity) as i64),
                    halt: Halt::MakerPartial,
                    ..w.traded(taker, maker, quantity as i64)
                }
            }
        }
    }
}

/// The outcome of a walk, ready to be carried out.
pub struct Plan {
    pub taken: usize,
    pub front_quantity: Option<i64>,
    pub base_left: i64,
    pub quote_left: i64,
    pub base_filled: i64,
    pub events: Vec<Event>,
    pub halt: Halt,
}

impl View for Plan {
    type V = Walk;

    open spec fn view(&self) -> Walk {
        Walk {
            taken: self.taken as nat,
            front_quantity: self.front_quantity,
            base_left: self.base_left,
            quote_left: self.quote_left,
            base_filled: self.base_filled,
            events: self.events@,
            halt: self.halt,
        }
    }
}

/// The base lots to trade with a resting order, and what they cost.
pub fn match_size(base_left: i64, maker_quantity: i64, quote_left: i64, price: i64) -> (r: (
    i64,
    i64,
))
    requires
        base_left >= 0,
        maker_quantity >= 0,
        quote_left >= 0,
        price > 0,
    ensures
        r.0 == match_quantity(base_left, maker_quantity, quote_left, price),
        r.1 == r.0 * price,
        0 <= r.0 <= base_left,
        r.0 <= maker_quantity,
        0 <= r.1 <= quote_left,
{
    let both: i64 = if base_left <= maker_quantity {
        base_left
    } else {
        maker_quantity
    };
    let paid_for: i64 = quote_left / price;
    let quantity: i64 = if both <= paid_for {
        both
    } else {
        paid_for
    };
    assert(0 <= quantity * price <= quote_left) by (nonlinear_arith)
        requires
            0 <= quantity <= quote_left / price,
            price > 0,
            quote_left >= 0,
    ;
    (quantity, quantity * price)
}

/// Walks `taker` down the `makers` side with `base_lots` and `quote_lots`
/// to spend and at most `limit` resting orders to touch, changing nothing.
pub fn plan(makers: &BookSide, taker: &Taker, base_lots: i64, quote_lots: i64, limit: u8) -> (p:
    Plan)
    requires
        makers.wf(),
        base_lots >= 0,
        quote_lots >= 0,
    ensures
        p@ == walk(makers@.orders(), *taker, limit as nat, Walk::start(base_lots, quote_lots)),
        p.taken <= makers@.orders().len(),
        0 <= p.base_left <= base_lots,
        0 <= p.quote_left <= quote_lots,
        0 <= p.base_filled <= base_lots - p.base_left,
        p.events@.len() <= 2 * limit,
        p.halt == Halt::MakerPartial <==> p.front_quantity is Some,
        p.front_quantity matches Some(q) ==> p.taken < makers@.orders().len() && 0 < q
            < makers@.orders()[p.taken as int].quantity,
{
    let ghost os = makers@.orders();
    let ghost goal = walk(os, *taker, limit as nat, Walk::start(base_lots, quote_lots));
    let mut p = Plan {
        taken: 0,
        front_quantity: None,
        base_left: base_lots,
        quote_left: quote_lots,
        base_filled: 0,
        events: Vec::new(),
        halt: Halt::Done,
    };
    let mut steps: u8 = limit;
    let count: usize = makers.len();
    loop
        invariant
            makers.wf(),
            os == makers@.orders(),
            count == os.len(),
            goal == walk(os, *taker, limit as nat, Walk::start(base_lots, quote_lots)),
            goal == walk(os, *taker, steps as nat, p@),
            steps <= limit,
            p.taken <= os.len(),
            0 <= p.base_left <= base_lots,
            0 <= p.quote_left <= quote_lots,
            0 <= p.base_filled <= base_lots - p.base_left,
            p.events@.len() <= 2 * (limit - steps),
            p.front_quantity is None,
            p.halt == Halt::Done,
        decreases steps,
    {
        if p.base_left <= 0 {
            return p;
        }
        let maker: RestingOrder = match makers.get(p.taken) {
            None => {
                p.halt = Halt::BookEmpty;
                return p;
            },
            Some(m) => m,
        };
        if !is_marketable(taker.side, taker.price_lots, maker.id.price_lots) {
            p.halt = Halt::NotMarketable;
            return p;
        }
        if steps == 0 {
            p.halt = Halt::OutOfSteps;
            return p;
        }
        let own: bool = maker.owner == taker.owner;
        if is_expired(maker.expiry, taker.now_ts) {
            p.events.push(
                Event::Out {
                    owner: maker.owner,
                    order: maker.id,
                    quantity: maker.quantity,
                    reason: OutReason::Expired,
                },
            );
            p.taken = p.taken + 1;
            steps = steps - 1;
            continue ;
        }
        if own && taker.policy == SelfTradePolicy::Reject {
            p.halt = Halt::SelfTradeReject;
            return p;
        }
        if own && (taker.policy == SelfTradePolicy::CancelMaker || taker.policy
            == SelfTradePolicy::CancelProvide) {
            p.events.push(
                Event::Out {
                    owner: maker.owner,
                    order: maker.id,
                    quantity: maker.quantity,
                    reason: OutReason::SelfTrade,
                },
            );
            p.taken = p.taken + 1;
            if taker.policy == SelfTradePolicy::CancelProvide {
                p.halt = Halt::SelfTradeStop;
                return p;
            }
            steps = steps - 1;
            continue ;
        }
        if own {
            if p.base_left >= maker.quantity {
                p.base_left = p.base_left - maker.quantity;
                p.events.push(
                    Event::Out {
                        owner: maker.owner,
                        order: maker.id,
                        quantity: maker.quantity,
                        reason: OutReason::SelfTrade,
                    },
                );
                p.taken = p.taken + 1;
                steps = steps - 1;
                continue ;
            }
            p.events.push(
                Event::Out {
                    owner: maker.owner,
                    order: maker.id,
                    quantity: p.base_left,
                    reason: OutReason::Decremented,
                },
            );
            p.front_quantity = Some(maker.quantity - p.base_left);
            p.base_left = 0;
            p.halt = Halt::MakerPartial;
            return p;
        }
        let (quantity, cost): (i64, i64) = match_size(
            p.base_left,
            maker.quantity,
            p.quote_left,
            maker.id.price_lots,
        );
        if quantity <= 0 {
            p.halt = Halt::OutOfQuote;
            return p;
        }
        p.base_left = p.base_left - quantity;
        p.quote_left = p.quote_left - cost;
        p.base_filled = p.base_filled + quantity;
        p.events.push(
            Event::Fill {
                taker: taker.owner,
                maker: maker.owner,
                maker_order: maker.id,
                taker_side: taker.side,
                price_lots: maker.id.price_lots,
                quantity,
            },
        );
        if quantity >= maker.quantity {
            p.events.push(
                Event::Out {
                    owner: maker.owner,
                    order: maker.id,
                    quantity: 0,
                    reason: OutReason::Filled,
                },
            );
            p.taken = p.taken + 1;
            steps = steps - 1;
        } else {
            p.front_quantity = Some(maker.quantity - quantity);
            p.halt = Halt::MakerPartial;
            return p;
        }
    }
}

/// Base lots the fills among `events` trade.
pub open spec fn lots_filled(events: Seq<Event>) -> int
    decreases events.len(),
{
    if events.len() == 0 {
        0
    } else {
        lots_filled(events.drop_last()) + match events.last() {
            Event::Fill { quantity, .. } => quantity as int,
            Event::Out { .. } => 0,
        }
    }
}

/// Quote lots the fills among `events` are worth.
pub open spec fn quote_filled(events: Seq<Event>) -> int
    decreases events.len(),
{
    if events.len() == 0 {
        0
    } else {
        quote_filled(events.drop_last()) + match events.last() {
            Event::Fill { quantity, price_lots, .. } => quantity * price_lots,
            Event::Out { .. } => 0,
        }
    }
}

/// One more event adds its own fill, if it is one, to both sums.
pub proof fn lemma_filled_push(events: Seq<Event>, event: Event)
    ensures
        lots_filled(events.push(event)) == lots_filled(events) + match event {
            Event::Fill { quantity, .. } => quantity as int,
            Event::Out { .. } => 0,
        },
        quote_filled(events.push(event)) == quote_filled(events) + match event {
            Event::Fill { quantity, price_lots, .. } => quantity * price_lots,
            Event::Out { .. } => 0,
        },
{
    assert(events.push(event).drop_last() =~= events);
}

/// Every resting order has a positive price and a positive open quantity.
pub open spec fn all_live(makers: Seq<RestingOrder>) -> bool {
    forall|i: int|
        0 <= i < makers.len() ==> (#[trigger] makers[i]).quantity > 0 && makers[i].id.price_lots > 0
}

/// What holds of every walk from a state that is in range. The walk takes
/// orders off the head of the side only, no more than it has steps; the
/// taker's lots only go down, and never below zero; the events so far stay
/// and at most two are added a step; the fills added trade exactly the
/// base lots that the walk counts as traded, and no more than the taker
/// has fewer; they are worth exactly the quote lots that the taker has
/// fewer; and an order is left with part of its lots exactly if the walk
/// ended on it.
pub proof fn lemma_walk(makers: Seq<RestingOrder>, taker: Taker, steps: nat, w: Walk)
    requires
        all_live(makers),
        w.taken <= makers.len(),
        0 <= w.base_left,
        0 <= w.quote_left,
        0 <= w.base_filled,
        w.base_filled + w.base_left <= i64::MAX,
        w.front_quantity is None,
    ensures
        ({
            let r = walk(makers, taker, steps, w);
            &&& w.taken <= r.taken <= makers.len()
            &&& r.taken <= w.taken + steps
            &&& 0 <= r.base_left <= w.base_left
            &&& 0 <= r.quote_left <= w.quote_left
            &&& w.events.len() <= r.events.len() <= w.events.len() + 2 * steps
            &&& r.events.take(w.events.len() as int) == w.events
            &&& lots_filled(r.events) - lots_filled(w.events) == r.base_filled - w.base_filled
            &&& 0 <= r.base_filled - w.base_filled <= w.base_left - r.base_left
            &&& quote_filled(r.events) - quote_filled(w.events) == w.quote_left - r.quote_left
            &&& r.halt == Halt::MakerPartial <==> r.front_quantity is Some
            &&& r.front_quantity matches Some(q) ==> r.taken < makers.len() && 0 < q
                < makers[r.taken as int].quantity
        }),
    decreases steps,
{
    let r = walk(makers, taker, steps, w);
    assert(w.events.take(w.events.len() as int) =~= w.events);
    if w.base_left <= 0 || w.taken >= makers.len() {
    } else {
        let maker = makers[w.taken as int];
        let own = maker.owner == taker.owner;
        let price = maker.id.price_lots;
        if !marketable(taker.side, taker.price_lots, price) || steps == 0 {
        } else if expired(maker.expiry, taker.now_ts) || (own && taker.policy
            == SelfTradePolicy::CancelMaker) {
            let reason = if expired(maker.expiry, taker.now_ts) {
                OutReason::Expired
            } else {
                OutReason::SelfTrade
            };
            let next = w.passed(maker, maker.quantity, reason);
            lemma_filled_push(w.events, next.events.last());
            lemma_walk(makers, taker, (steps - 1) as nat, next);
            assert(r.events.take(w.events.len() as int) =~= r.events.take(
                next.events.len() as int,
            ).take(w.events.len() as int));
        } else if own && taker.policy == SelfTradePolicy::Reject {
        } else if own && taker.policy == SelfTradePolicy::CancelProvide {
            let next = w.passed(maker, maker.quantity, OutReason::SelfTrade);
            lemma_filled_push(w.events, next.events.last());
            assert(next.events.take(w.events.len() as int) =~= w.events);
        } else if own {
            if w.base_left >= maker.quantity {
                let next = w.decremented(maker.quantity).passed(
                    maker,
                    maker.quantity,
                    OutReason::SelfTrade,
                );
                lemma_filled_push(w.events, next.events.last());
                lemma_walk(makers, taker, (steps - 1) as nat, next);
                assert(r.events.take(w.events.len() as int) =~= r.events.take(
                    next.events.len() as int,
                ).take(w.events.len() as int));
            } else {
                let next = w.decremented(w.base_left).reported(
                    maker,
                    w.base_left,
                    OutReason::Decremented,
                );
                lemma_filled_push(w.events, next.events.last());
                assert(next.events.take(w.events.len() as int) =~= w.events);
            }
        } else {
            let quantity = match_quantity(w.base_left, maker.quantity, w.quote_left, price);
            if quantity <= 0 {
            } else {
                assert(0 <= quantity * price <= w.quote_left) by (nonlinear_arith)
                    requires
                        0 < quantity <= w.quote_left as int / price as int,
                        price > 0,
                        w.quote_left >= 0,
                ;
                let paid = w.traded(taker, maker, quantity as i64);
                lemma_filled_push(w.events, paid.events.last());
                assert(paid.events.take(w.events.len() as int) =~= w.events);
                if quantity >= maker.quantity {
                    let next = paid.passed(maker, 0, OutReason::Filled);
                    lemma_filled_push(paid.events, next.events.last());
                    lemma_walk(makers, taker, (steps - 1) as nat, next);
                    assert(r.events.take(w.events.len() as int) =~= r.events.take(
                        next.events.len() as int,
                    ).take(w.events.len() as int));
                    assert(next.events.take(w.events.len() as int) =~= w.events);
                }
            }
        }
    }
}

} // verus!
