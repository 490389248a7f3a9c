//! The order book of one market: both sides and the sequence counter, with
//! the operations that place and cancel orders.
//!
//! Every operation either goes through whole or changes nothing: all that
//! can refuse an order is decided on a plan before the book, the queue or
//! the position is touched.

use vstd::prelude::*;
use crate::book_side::{
    lemma_cancel, lemma_drop_best, lemma_holds, lemma_rank_splits, Arena, BookSide,
};
use crate::event_queue::{lemma_push_all_twice, EventQueue, QueueView};
use crate::matching::{plan, walk, Halt, Plan, Taker, Walk};
use crate::order::{expired, is_expired, Event, Order, OutReason, RestingOrder};
use crate::position::Position;
use crate::types::{
    is_marketable, marketable, AccountKey, EngineError, OrderId, OrderType, Side,
};

verus! {

/// Every order has a sequence number below `bound`.
pub open spec fn seqs_below(orders: Seq<RestingOrder>, bound: int) -> bool {
    forall|i: int| 0 <= i < orders.len() ==> (#[trigger] orders[i]).id.seq_num < bound
}

/// The state of the book as contracts see it.
pub struct BookView {
    pub bids: Arena,
    pub asks: Arena,
    /// The sequence number the next order gets.
    pub next_seq: u64,
}

impl BookView {
    /// The invariant of the book: both sides are well formed, each is of
    /// its own side, and every resting order has a sequence number below
    /// the next one, so the next order's identifier is new.
    pub open spec fn wf(self) -> bool {
        &&& self.bids.wf()
        &&& self.asks.wf()
        &&& self.bids.side == Side::Bid
        &&& self.asks.side == Side::Ask
        &&& seqs_below(self.bids.orders(), self.next_seq as int)
        &&& seqs_below(self.asks.orders(), self.next_seq as int)
    }

    /// The bids or the asks.
    pub open spec fn side(self, side: Side) -> Arena {
        match side {
            Side::Bid => self.bids,
            Side::Ask => self.asks,
        }
    }

    /// The book with the bids or the asks replaced.
    pub open spec fn with_side(self, side: Side, arena: Arena) -> BookView {
        match side {
            Side::Bid => BookView { bids: arena, ..self },
            Side::Ask => BookView { asks: arena, ..self },
        }
    }

    /// A book with nothing resting, of `capacity` slots a side.
    pub open spec fn empty(capacity: nat) -> BookView {
        BookView {
            bids: Arena::empty(Side::Bid, capacity),
            asks: Arena::empty(Side::Ask, capacity),
            next_seq: 0,
        }
    }
}

/// Whether the order is refused whatever the book holds: a negative size,
/// a price that is not positive, or an expiry that has passed.
pub open spec fn invalid(order: Order, now_ts: u64) -> bool {
    order.max_base_lots < 0 || order.max_quote_lots < 0 || order.price_lots <= 0 || expired(
        order.expiry,
        now_ts,
    )
}

/// Whether the best order of the opposite side is within the order's
/// price, live or expired.
pub open spec fn would_cross(order: Order, makers: Seq<RestingOrder>) -> bool {
    makers.len() > 0 && marketable(order.side, order.price_lots, makers[0].id.price_lots)
}

/// The order's base size, shrunk to what the position allows.
pub open spec fn capped_base(order: Order, position: Position) -> i64 {
    if order.max_base_lots <= position.base_room(order.side) {
        order.max_base_lots
    } else {
        position.base_room(order.side) as i64
    }
}

/// The order's quote size, shrunk to what the position allows.
pub open spec fn capped_quote(order: Order, position: Position) -> i64 {
    if order.max_quote_lots <= position.quote_room(order.side) {
        order.max_quote_lots
    } else {
        position.quote_room(order.side) as i64
    }
}

/// What the walk needs to know of the order.
pub open spec fn taker_of(order: Order, owner: AccountKey, now_ts: u64) -> Taker {
    Taker {
        owner,
        side: order.side,
        price_lots: order.price_lots,
        policy: order.self_trade,
        now_ts,
    }
}

/// Base lots of the order that go to rest after a walk: none of an
/// immediate-or-cancel order, else what the taker has left and its quote
/// lots pay for at its own price.
pub open spec fn rest_quantity(order: Order, w: Walk) -> int {
    if order.order_type == OrderType::ImmediateOrCancel {
        0
    } else if w.base_left as int <= w.quote_left as int / order.price_lots as int {
        w.base_left as int
    } else {
        w.quote_left as int / order.price_lots as int
    }
}

/// The opposite side after a plan is carried out.
pub open spec fn carried_out(opposite: Arena, w: Walk) -> Arena {
    match w.front_quantity {
        Some(quantity) => opposite.drop_best(w.taken).set_quantity(0, quantity),
        None => opposite.drop_best(w.taken),
    }
}

/// The order as it rests.
pub open spec fn resting(order: Order, owner: AccountKey, id: OrderId, quantity: i64) -> RestingOrder {
    RestingOrder {
        id,
        owner,
        quantity,
        expiry: order.expiry,
        client_order_id: order.client_order_id,
        self_trade: order.self_trade,
    }
}

/// The event for the lots of an incoming order that were neither matched
/// nor rested, if there are any.
pub open spec fn discarded(owner: AccountKey, id: OrderId, quantity: int) -> Seq<Event> {
    if quantity > 0 {
        seq![
            Event::Out { owner, order: id, quantity: quantity as i64, reason: OutReason::Discarded },
        ]
    } else {
        Seq::empty()
    }
}

/// The event for an order that left the book with its lots open.
pub open spec fn out_event(order: RestingOrder, reason: OutReason) -> Event {
    Event::Out { owner: order.owner, order: order.id, quantity: order.quantity, reason }
}

/// The events for orders that a cancel took off the book, in their order.
pub open spec fn cancel_events(orders: Seq<RestingOrder>, reason: OutReason) -> Seq<Event> {
    Seq::new(orders.len(), |i: int| out_event(orders[i], reason))
}

/// The reason a bulk cancel gives: orders of a named owner are cancelled
/// and counted off the position at once, orders of every owner are swept.
pub open spec fn sweep_reason(owner: Option<AccountKey>) -> OutReason {
    if owner is Some {
        OutReason::Cancelled
    } else {
        OutReason::Swept
    }
}

/// What placing an order comes to, seen from the order's own side.
pub struct Outcome {
    pub result: Result<Option<OrderId>, EngineError>,
    pub own: Arena,
    pub opposite: Arena,
    pub queue: QueueView,
    pub position: Position,
}

/// What placing an order comes to.
pub struct Placed {
    pub result: Result<Option<OrderId>, EngineError>,
    pub book: BookView,
    pub queue: QueueView,
    pub position: Position,
}

/// What cancelling one order comes to.
pub struct Cancelled {
    pub result: Result<(), EngineError>,
    pub book: BookView,
    pub queue: QueueView,
    pub position: Position,
}

/// What a bulk cancel comes to.
pub struct Swept {
    /// The orders taken off, in the order they went: bids before asks, and
    /// on each side the best first.
    pub removed: Seq<RestingOrder>,
    pub book: BookView,
    pub queue: QueueView,
    pub position: Position,
}

/// The outcome of an order that is refused: the error, and everything as
/// it was.
pub open spec fn refused(
    error: EngineError,
    own: Arena,
    opposite: Arena,
    queue: QueueView,
    position: Position,
) -> Outcome {
    Outcome { result: Err(error), own, opposite, queue, position }
}

/// Placing `order` for `owner` with sequence number `seq`.
///
/// Refused, with nothing changed: an invalid order, or a post-only order
/// that would match, with `InvalidOrderParameters`; an order that meets a
/// resting order of its owner under the policy to be refused, with
/// `SelfTradeRejected`; an order with lots to rest whose walk ran out of
/// steps, with `ComputeLimitReached`; an order with lots to rest on a full
/// side, with `BookFull`.
///
/// Else the sizes are shrunk to what the position allows, the walk is
/// carried out on the opposite side, what trades is booked on the position,
/// the lots to rest go to the order's own side, lots neither matched nor
/// rested are reported by an out event, and the events are queued.
pub open spec fn place_on(
    own: Arena,
    opposite: Arena,
    queue: QueueView,
    position: Position,
    owner: AccountKey,
    order: Order,
    seq: u64,
    now_ts: u64,
    limit: u8,
) -> Outcome {
    let base = capped_base(order, position);
    let quote = capped_quote(order, position);
    let w = walk(
        opposite.orders(),
        taker_of(order, owner, now_ts),
        limit as nat,
        Walk::start(base, quote),
    );
    let rest = rest_quantity(order, w);
    let id = OrderId { side: order.side, price_lots: order.price_lots, seq_num: seq };
    let traded = position.filled(order.side, w.base_filled, (quote - w.quote_left) as i64);
    if invalid(order, now_ts) || (order.order_type == OrderType::PostOnly && would_cross(
        order,
        opposite.orders(),
    )) {
        refused(EngineError::InvalidOrderParameters, own, opposite, queue, position)
    } else if w.halt == Halt::SelfTradeReject {
        refused(EngineError::SelfTradeRejected, own, opposite, queue, position)
    } else if rest > 0 && w.halt == Halt::OutOfSteps {
        refused(EngineError::ComputeLimitReached, own, opposite, queue, position)
    } else if rest > 0 && own.is_full() {
        refused(EngineError::BookFull, own, opposite, queue, position)
    } else {
        Outcome {
            result: Ok(
                if rest > 0 {
                    Some(id)
                } else {
                    None
                },
            ),
            own: if rest > 0 {
                own.insert_at(own.rank(id), resting(order, owner, id, rest as i64))
            } else {
                own
            },
            opposite: carried_out(opposite, w),
            queue: queue.push_all(w.events + discarded(owner, id, w.base_left - rest)),
            position: if rest > 0 {
                traded.opened()
            } else {
                traded
            },
        }
    }
}

/// Placing `order` for `owner` on the book. An order that is not refused
/// takes the next sequence number, whether it rests or not.
pub open spec fn place(
    book: BookView,
    queue: QueueView,
    position: Position,
    owner: AccountKey,
    order: Order,
    now_ts: u64,
    limit: u8,
) -> Placed {
    let o = place_on(
        book.side(order.side),
        book.side(order.side.opposite()),
        queue,
        position,
        owner,
        order,
        book.next_seq,
        now_ts,
        limit,
    );
    Placed {
        result: o.result,
        book: if o.result is Ok {
            BookView {
                next_seq: (book.next_seq + 1) as u64,
                ..book.with_side(order.side, o.own).with_side(order.side.opposite(), o.opposite)
            }
        } else {
            book
        },
        queue: o.queue,
        position: o.position,
    }
}

/// Cancelling the order `id` of `owner`: it leaves its side, its slot is
/// counted off the owner's position, and an out event is queued. If no
/// order of that owner has the identifier, nothing changes and the result
/// is `OrderNotFound`.
pub open spec fn cancel_one(
    book: BookView,
    queue: QueueView,
    position: Position,
    owner: AccountKey,
    id: OrderId,
) -> Cancelled {
    let side = book.side(id.side);
    let at = side.rank(id);
    if side.holds(id) && side.orders()[at].owner == owner {
        Cancelled {
            result: Ok(()),
            book: book.with_side(id.side, side.remove_at(at)),
            queue: queue.push(out_event(side.orders()[at], OutReason::Cancelled)),
            position: position.closed(1),
        }
    } else {
        Cancelled { result: Err(EngineError::OrderNotFound), book, queue, position }
    }
}

/// Whether a side filter lets a bulk cancel touch `side`.
pub open spec fn lets(side_filter: Option<Side>, side: Side) -> bool {
    match side_filter {
        Some(only) => only == side,
        None => true,
    }
}

/// A bulk cancel of at most `limit` orders of `owner` (of every owner if
/// none is named) on the sides the filter lets through. Bids go before
/// asks, and on each side the best order first. Every order taken off is
/// reported by an out event, in the order they went. The orders of a named
/// owner are counted off the position at once; the orders of every owner
/// are left to be counted off when their events are settled.
pub open spec fn sweep(
    book: BookView,
    queue: QueueView,
    position: Position,
    owner: Option<AccountKey>,
    side_filter: Option<Side>,
    limit: nat,
) -> Swept {
    let bid_limit: nat = if lets(side_filter, Side::Bid) {
        limit
    } else {
        0
    };
    let from_bids = book.bids.cancelled(owner, bid_limit);
    let ask_limit: nat = if lets(side_filter, Side::Ask) {
        (limit - from_bids.len()) as nat
    } else {
        0
    };
    let from_asks = book.asks.cancelled(owner, ask_limit);
    Swept {
        removed: from_bids + from_asks,
        book: BookView {
            bids: book.bids.cancel(owner, bid_limit),
            asks: book.asks.cancel(owner, ask_limit),
            next_seq: book.next_seq,
        },
        queue: queue.push_all(cancel_events(from_bids + from_asks, sweep_reason(owner))),
        position: if owner is Some {
            position.closed((from_bids + from_asks).len())
        } else {
            position
        },
    }
}

/// Whether a refusal only means that the order is not placed: the batch
/// goes on after it. So it is with a full side and with a spent match
/// budget; any other refusal fails the batch.
pub open spec fn skipped(error: EngineError) -> bool {
    error == EngineError::BookFull || error == EngineError::ComputeLimitReached
}

/// What placing a batch of orders comes to.
pub struct Batch {
    /// The refusal that failed the batch, if one did. What follows is then
    /// as the orders before the refused one left it.
    pub failed: Option<EngineError>,
    /// For each order of the batch, the identifier it rests under, if it
    /// was placed and left an order on the book.
    pub ids: Seq<Option<OrderId>>,
    pub book: BookView,
    pub queue: QueueView,
    pub position: Position,
}

/// What replacing an owner's orders comes to.
pub struct Replaced {
    pub result: Result<Seq<Option<OrderId>>, EngineError>,
    pub book: BookView,
    pub queue: QueueView,
    pub position: Position,
}

/// The identifier an order rests under after it was placed, if any.
pub open spec fn posted(result: Result<Option<OrderId>, EngineError>) -> Option<OrderId> {
    match result {
        Ok(Some(id)) => Some(id),
        _ => None,
    }
}

/// Placing `orders` one after the other, each on the book, queue and
/// position the one before left. An order refused for a full side or a
/// spent match budget is not placed, and the batch goes on with the next.
/// Any other refusal fails the batch there, and no later order is tried.
pub open spec fn place_each(
    book: BookView,
    queue: QueueView,
    position: Position,
    owner: AccountKey,
    orders: Seq<Order>,
    now_ts: u64,
    limit: u8,
) -> Batch
    decreases orders.len(),
{
    if orders.len() == 0 {
        Batch { failed: None, ids: Seq::empty(), book, queue, position }
    } else {
        let before = place_each(book, queue, position, owner, orders.drop_last(), now_ts, limit);
        let p = place(
            before.book,
            before.queue,
            before.position,
            owner,
            orders.last(),
            now_ts,
            limit,
        );
        if before.failed is Some {
            before
        } else if p.result matches Err(e) && !skipped(e) {
            Batch { failed: Some(p.result->Err_0), ..before }
        } else {
            Batch {
                failed: None,
                ids: before.ids.push(posted(p.result)),
                book: p.book,
                queue: p.queue,
                position: p.position,
            }
        }
    }
}

/// Replacing the resting orders of `owner`: a bulk cancel of up to `limit`
/// of them on both sides, counted off the position, and the new orders
/// placed one after the other. If the batch fails, the refusal is the
/// result and nothing changes: not the book, not the queue, not the
/// position, and no order of the owner is cancelled.
pub open spec fn replace(
    book: BookView,
    queue: QueueView,
    position: Position,
    owner: AccountKey,
    orders: Seq<Order>,
    now_ts: u64,
    limit: u8,
) -> Replaced {
    let s = sweep(book, queue, position, Some(owner), None, limit as nat);
    let b = place_each(s.book, s.queue, s.position, owner, orders, now_ts, limit);
    match b.failed {
        Some(error) => Replaced { result: Err(error), book, queue, position },
        None => Replaced { result: Ok(b.ids), book: b.book, queue: b.queue, position: b.position },
    }
}

/// Whether a book can be made of these orders: each side takes each of its
/// orders in turn, and every sequence number is below the next one.
pub open spec fn restorable(
    capacity: nat,
    bids: Seq<RestingOrder>,
    asks: Seq<RestingOrder>,
    next_seq: u64,
) -> bool {
    &&& seqs_below(bids, next_seq as int)
    &&& seqs_below(asks, next_seq as int)
    &&& Arena::empty(Side::Bid, capacity).takes_all(bids)
    &&& Arena::empty(Side::Ask, capacity).takes_all(asks)
}

fn all_below(orders: &Vec<RestingOrder>, bound: u64) -> (r: bool)
    ensures
        r == seqs_below(orders@, bound as int),
{
    let mut i: usize = 0;
    while i < orders.len()
        invariant
            i <= orders@.len(),
            forall|k: int| 0 <= k < i ==> (#[trigger] orders@[k]).id.seq_num < bound,
        decreases orders@.len() - i,
    {
        if orders[i].id.seq_num >= bound {
            return false;
        }
        i = i + 1;
    }
    true
}

/// The order book of one market.
pub struct Orderbook {
    bids: BookSide,
    asks: BookSide,
    next_seq: u64,
}

impl View for Orderbook {
    type V = BookView;

    closed spec fn view(&self) -> BookView {
        BookView { bids: self.bids@, asks: self.asks@, next_seq: self.next_seq }
    }
}

fn lesser(a: i64, b: i64) -> (r: i64)
    ensures
        r == if a <= b {
            a
        } else {
            b
        },
{
    if a <= b {
        a
    } else {
        b
    }
}

/// The out events for orders a cancel took off, in their order.
fn report_cancelled(events: &mut EventQueue, orders: &Vec<RestingOrder>, reason: OutReason)
    requires
        old(events).wf(),
        old(events)@.seq_num + orders@.len() <= u64::MAX,
    ensures
        final(events).wf(),
        final(events)@ == old(events)@.push_all(cancel_events(orders@, reason)),
{
    let mut i: usize = 0;
    proof {
        events.lemma_wf();
    }
    while i < orders.len()
        invariant
            events.wf(),
            i <= orders@.len(),
            old(events)@.seq_num + orders@.len() <= u64::MAX,
            events@ == old(events)@.push_all(cancel_events(orders@.take(i as int), reason)),
        decreases orders@.len() - i,
    {
        let order: RestingOrder = orders[i];
        let ghost before = events@;
        events.push(
            Event::Out {
                owner: order.owner,
                order: order.id,
                quantity: order.quantity,
                reason,
            },
        );
        proof {
            let sofar = cancel_events(orders@.take(i as int), reason);
            lemma_push_all_twice(old(events)@, sofar, seq![out_event(order, reason)]);
            lemma_push_all_twice(before, seq![], seq![]);
            assert(sofar + seq![out_event(order, reason)] =~= cancel_events(
                orders@.take(i + 1),
                reason,
            ));
        }
        i = i + 1;
    }
    assert(orders@.take(orders@.len() as int) =~= orders@);
}

/// Places `order` with its own side and the opposite side in hand.
fn place_between(
    own: &mut BookSide,
    opposite: &mut BookSide,
    events: &mut EventQueue,
    position: &mut Position,
    owner: AccountKey,
    order: Order,
    seq: u64,
    now_ts: u64,
    limit: u8,
) -> (r: Result<Option<OrderId>, EngineError>)
    requires
        old(own).wf(),
        old(opposite).wf(),
        old(events).wf(),
        old(own)@.side == order.side,
        old(opposite)@.side == order.side.opposite(),
        seqs_below(old(own)@.orders(), seq as int),
        seqs_below(old(opposite)@.orders(), seq as int),
        old(events)@.seq_num + 2 * limit + 1 <= u64::MAX,
    ensures
        final(own).wf(),
        final(opposite).wf(),
        final(events).wf(),
        final(own)@.side == order.side,
        final(opposite)@.side == order.side.opposite(),
        seqs_below(final(own)@.orders(), seq + 1),
        seqs_below(final(opposite)@.orders(), seq + 1),
        final(events)@.seq_num <= old(events)@.seq_num + 2 * limit + 1,
        ({
            let o = place_on(
                old(own)@,
                old(opposite)@,
                old(events)@,
                *old(position),
                owner,
                order,
                seq,
                now_ts,
                limit,
            );
            &&& r == o.result
            &&& final(own)@ == o.own
            &&& final(opposite)@ == o.opposite
            &&& final(events)@ == o.queue
            &&& *final(position) == o.position
        }),
{
    if order.max_base_lots < 0 || order.max_quote_lots < 0 || order.price_lots <= 0 || is_expired(
        order.expiry,
        now_ts,
    ) {
        return Err(EngineError::InvalidOrderParameters);
    }
    if order.order_type == OrderType::PostOnly {
        match opposite.best() {
            Some(maker) => {
                if is_marketable(order.side, order.price_lots, maker.id.price_lots) {
                    return Err(EngineError::InvalidOrderParameters);
                }
            },
            None => {},
        }
    }
    let base: i64 = lesser(order.max_base_lots, position.available_lots(order.side));
    let quote: i64 = lesser(order.max_quote_lots, position.available_quote_lots(order.side));
    let taker = Taker {
        owner,
        side: order.side,
        price_lots: order.price_lots,
        policy: order.self_trade,
        now_ts,
    };
    let p: Plan = plan(opposite, &taker, base, quote, limit);
    let ghost w = p@;
    let Plan { taken, front_quantity, base_left, quote_left, base_filled, events: mut queued, halt } =
        p;
    if halt == Halt::SelfTradeReject {
        return Err(EngineError::SelfTradeRejected);
    }
    let rest: i64 = if order.order_type == OrderType::ImmediateOrCancel {
        0
    } else {
        lesser(base_left, quote_left / order.price_lots)
    };
    if rest > 0 && halt == Halt::OutOfSteps {
        return Err(EngineError::ComputeLimitReached);
    }
    if rest > 0 && own.is_full() {
        return Err(EngineError::BookFull);
    }
    let id = OrderId { side: order.side, price_lots: order.price_lots, seq_num: seq };
    proof {
        lemma_drop_best(opposite@, taken as nat);
    }
    opposite.drop_best(taken);
    match front_quantity {
        Some(quantity) => {
            opposite.set_best_quantity(quantity);
        },
        None => {},
    }
    if base_left > rest {
        queued.push(
            Event::Out {
                owner,
                order: id,
                quantity: base_left - rest,
                reason: OutReason::Discarded,
            },
        );
    }
    assert(queued@ =~= w.events + discarded(owner, id, base_left - rest));
    events.push_all(&queued);
    let applied: bool = position.apply_fill(order.side, base_filled, quote - quote_left);
    assert(applied);
    if rest > 0 {
        proof {
            lemma_holds(own@, id);
        }
        let placed = own.insert(
            RestingOrder {
                id,
                owner,
                quantity: rest,
                expiry: order.expiry,
                client_order_id: order.client_order_id,
                self_trade: order.self_trade,
            },
        );
        assert(placed is Ok);
        position.mark_order_opened();
        proof {
            lemma_rank_splits(order.side, old(own)@.orders(), id);
        }
        Ok(Some(id))
    } else {
        Ok(None)
    }
}

impl Orderbook {
    /// The invariant every operation keeps: both sides are well formed and
    /// every resting order has a sequence number below the next one.
    pub open spec fn wf(&self) -> bool {
        self@.wf()
    }

    /// An empty book with `capacity` slots on each side.
    pub fn new(capacity: usize) -> (book: Orderbook)
        ensures
            book.wf(),
            book@ == BookView::empty(capacity as nat),
    {
        let book = Orderbook {
            bids: BookSide::new(Side::Bid, capacity),
            asks: BookSide::new(Side::Ask, capacity),
            next_seq: 0,
        };
        book
    }

    /// A book of `capacity` slots a side with the given orders resting,
    /// each rested in turn, and the given next sequence number; or nothing,
    /// if an order is not taken by its side or has a sequence number that
    /// is not below the next one.
    pub fn restore(
        capacity: usize,
        bids: &Vec<RestingOrder>,
        asks: &Vec<RestingOrder>,
        next_seq: u64,
    ) -> (r: Option<Orderbook>)
        ensures
            match r {
                Some(book) => book.wf() && restorable(capacity as nat, bids@, asks@, next_seq)
                    && book@ == (BookView {
                    bids: Arena::empty(Side::Bid, capacity as nat).inserted_all(bids@),
                    asks: Arena::empty(Side::Ask, capacity as nat).inserted_all(asks@),
                    next_seq,
                }),
                None => !restorable(capacity as nat, bids@, asks@, next_seq),
            },
    {
        if !all_below(bids, next_seq) || !all_below(asks, next_seq) {
            return None;
        }
        let bid_side = match BookSide::from_orders(Side::Bid, capacity, bids) {
            Some(side) => side,
            None => {
                return None;
            },
        };
        let ask_side = match BookSide::from_orders(Side::Ask, capacity, asks) {
            Some(side) => side,
            None => {
                return None;
            },
        };
        Some(Orderbook { bids: bid_side, asks: ask_side, next_seq })
    }

    /// The sequence number the next order gets.
    pub fn next_seq(&self) -> (r: u64)
        ensures
            r == self@.next_seq,
    {
        self.next_seq
    }

    /// The bid side.
    pub fn bids(&self) -> (r: &BookSide)
        ensures
            r@ == self@.bids,
    {
        &self.bids
    }

    /// The ask side.
    pub fn asks(&self) -> (r: &BookSide)
        ensures
            r@ == self@.asks,
    {
        &self.asks
    }

    /// The bid or the ask side.
    pub fn side(&self, side: Side) -> (r: &BookSide)
        ensures
            r@ == self@.side(side),
    {
        match side {
            Side::Bid => &self.bids,
            Side::Ask => &self.asks,
        }
    }

    /// Matches `order` against the opposite side under price-time priority,
    /// touching at most `limit` resting orders, and rests what is left if
    /// the order's type allows. Returns the identifier of the resting order
    /// if one was left.
    pub fn new_order(
        &mut self,
        order: Order,
        events: &mut EventQueue,
        position: &mut Position,
        owner: &AccountKey,
        now_ts: u64,
        limit: u8,
    ) -> (r: Result<Option<OrderId>, EngineError>)
        requires
            old(self).wf(),
            old(events).wf(),
            old(self)@.next_seq < u64::MAX,
            old(events)@.seq_num + 2 * limit + 1 <= u64::MAX,
        ensures
            final(self).wf(),
            final(events).wf(),
            final(events)@.seq_num <= old(events)@.seq_num + 2 * limit + 1,
            final(self)@.next_seq <= old(self)@.next_seq + 1,
            ({
                let placed = place(
                    old(self)@,
                    old(events)@,
                    *old(position),
                    *owner,
                    order,
                    now_ts,
                    limit,
                );
                &&& r == placed.result
                &&& final(self)@ == placed.book
                &&& final(events)@ == placed.queue
                &&& *final(position) == placed.position
            }),
    {
        let seq: u64 = self.next_seq;
        let r = match order.side {
            Side::Bid => place_between(
                &mut self.bids,
                &mut self.asks,
                events,
                position,
                *owner,
                order,
                seq,
                now_ts,
                limit,
            ),
            Side::Ask => place_between(
                &mut self.asks,
                &mut self.bids,
                events,
                position,
                *owner,
                order,
                seq,
                now_ts,
                limit,
            ),
        };
        if r.is_ok() {
            self.next_seq = seq + 1;
        }
        r
    }

    /// Takes the order `id` of `owner` off the book, counts its slot off the
    /// owner's position and queues an out event for it.
    pub fn cancel_order(
        &mut self,
        events: &mut EventQueue,
        position: &mut Position,
        owner: &AccountKey,
        id: OrderId,
    ) -> (r: Result<(), EngineError>)
        requires
            old(self).wf(),
            old(events).wf(),
            old(events)@.seq_num < u64::MAX,
        ensures
            final(self).wf(),
            final(events).wf(),
            ({
                let c = cancel_one(old(self)@, old(events)@, *old(position), *owner, id);
                &&& r == c.result
                &&& final(self)@ == c.book
                &&& final(events)@ == c.queue
                &&& *final(position) == c.position
            }),
    {
        let removed: Option<RestingOrder> = match id.side {
            Side::Bid => take_owned(&mut self.bids, owner, id, Ghost(self.next_seq as int)),
            Side::Ask => take_owned(&mut self.asks, owner, id, Ghost(self.next_seq as int)),
        };
        match removed {
            Some(order) => {
                events.push(
                    Event::Out {
                        owner: order.owner,
                        order: order.id,
                        quantity: order.quantity,
                        reason: OutReason::Cancelled,
                    },
                );
                position.mark_order_closed();
                Ok(())
            },
            None => Err(EngineError::OrderNotFound),
        }
    }

    /// Takes up to `limit` resting orders of `owner` (of every owner if
    /// none is named) off the sides the filter lets through, bids before
    /// asks and on each side the best first, queues an out event for each,
    /// counts the orders of a named owner off `position`, and returns how
    /// many went.
    pub fn cancel_all_orders(
        &mut self,
        events: &mut EventQueue,
        position: &mut Position,
        owner: Option<AccountKey>,
        side_filter: Option<Side>,
        limit: u8,
    ) -> (count: u32)
        requires
            old(self).wf(),
            old(events).wf(),
            old(events)@.seq_num + limit <= u64::MAX,
        ensures
            final(self).wf(),
            final(events).wf(),
            ({
                let s = sweep(
                    old(self)@,
                    old(events)@,
                    *old(position),
                    owner,
                    side_filter,
                    limit as nat,
                );
                &&& count == s.removed.len()
                &&& final(self)@ == s.book
                &&& final(events)@ == s.queue
                &&& *final(position) == s.position
            }),
            count <= limit,
    {
        proof {
            let bid_limit: nat = if lets(side_filter, Side::Bid) { limit as nat } else { 0 };
            lemma_cancel(self@.bids, owner, bid_limit);
        }
        let from_bids: Vec<RestingOrder> = self.bids.cancel_all(owner, side_filter, limit as u32);
        let left: u32 = limit as u32 - from_bids.len() as u32;
        proof {
            let ask_limit: nat = if lets(side_filter, Side::Ask) { left as nat } else { 0 };
            lemma_cancel(self@.asks, owner, ask_limit);
        }
        let from_asks: Vec<RestingOrder> = self.asks.cancel_all(owner, side_filter, left);
        let ghost before = events@;
        let reason: OutReason = match owner {
            Some(_) => OutReason::Cancelled,
            None => OutReason::Swept,
        };
        report_cancelled(events, &from_bids, reason);
        report_cancelled(events, &from_asks, reason);
        proof {
            lemma_push_all_twice(
                before,
                cancel_events(from_bids@, reason),
                cancel_events(from_asks@, reason),
            );
            assert(cancel_events(from_bids@, reason) + cancel_events(from_asks@, reason)
                =~= cancel_events(from_bids@ + from_asks@, reason));
        }
        let count: u32 = (from_bids.len() + from_asks.len()) as u32;
        if owner.is_some() {
            position.mark_orders_closed(count);
        }
        count
    }
}

impl Orderbook {
    /// A copy of the book: the same sides, slot for slot, and the same next
    /// sequence number.
    pub fn duplicate(&self) -> (r: Orderbook)
        ensures
            r@ == self@,
    {
        Orderbook {
            bids: self.bids.duplicate(),
            asks: self.asks.duplicate(),
            next_seq: self.next_seq,
        }
    }

    /// Takes up to `limit` resting orders of `owner` off the book, then
    /// places `orders` in turn, each with `limit` as its match budget.
    /// Returns, for each order, the identifier it rests under. An order
    /// refused for a full side or a spent match budget, or one that left
    /// nothing to rest, gives `None` and does not stop the ones after it.
    /// Any other refusal is returned as the error, and then nothing has
    /// changed.
    pub fn replace_all_orders(
        &mut self,
        events: &mut EventQueue,
        position: &mut Position,
        owner: &AccountKey,
        orders: &Vec<Order>,
        now_ts: u64,
        limit: u8,
    ) -> (r: Result<Vec<Option<OrderId>>, EngineError>)
        requires
            old(self).wf(),
            old(events).wf(),
            old(self)@.next_seq + orders@.len() <= u64::MAX,
            old(events)@.seq_num + limit + orders@.len() * (2 * limit + 1) <= u64::MAX,
        ensures
            final(self).wf(),
            final(events).wf(),
            ({
                let done = replace(
                    old(self)@,
                    old(events)@,
                    *old(position),
                    *owner,
                    orders@,
                    now_ts,
                    limit,
                );
                &&& match r {
                    Ok(ids) => done.result == Ok::<Seq<Option<OrderId>>, EngineError>(ids@),
                    Err(e) => done.result == Err::<Seq<Option<OrderId>>, EngineError>(e),
                }
                &&& final(self)@ == done.book
                &&& final(events)@ == done.queue
                &&& *final(position) == done.position
            }),
            r matches Ok(ids) ==> ids@.len() == orders@.len(),
    {
        let ghost room = 2 * limit + 1;
        let mut book = self.duplicate();
        let mut queue = events.duplicate();
        let mut held: Position = *position;
        book.cancel_all_orders(&mut queue, &mut held, Some(*owner), None, limit);
        let ghost book0 = book@;
        let ghost queue0 = queue@;
        let ghost position0 = held;
        let mut ids: Vec<Option<OrderId>> = Vec::new();
        let mut i: usize = 0;
        assert(orders@.take(0) =~= Seq::<Order>::empty());
        assert(0 * room == 0) by (nonlinear_arith);
        while i < orders.len()
            invariant
                self.wf(),
                events.wf(),
                *self == *old(self),
                *events == *old(events),
                *position == *old(position),
                ({
                    let s = sweep(
                        old(self)@,
                        old(events)@,
                        *old(position),
                        Some(*owner),
                        None,
                        limit as nat,
                    );
                    book0 == s.book && queue0 == s.queue && position0 == s.position
                }),
                book.wf(),
                queue.wf(),
                i <= orders@.len(),
                room == 2 * limit + 1,
                book@.next_seq <= book0.next_seq + i,
                book0.next_seq + orders@.len() <= u64::MAX,
                queue@.seq_num <= queue0.seq_num + i * room,
                queue0.seq_num + orders@.len() * room <= u64::MAX,
                ({
                    let b = place_each(
                        book0,
                        queue0,
                        position0,
                        *owner,
                        orders@.take(i as int),
                        now_ts,
                        limit,
                    );
                    &&& b.failed is None
                    &&& ids@ == b.ids
                    &&& book@ == b.book
                    &&& queue@ == b.queue
                    &&& held == b.position
                }),
                ids@.len() == i,
            decreases orders@.len() - i,
        {
            proof {
                assert((i + 1) * room == i * room + room) by (nonlinear_arith);
                assert((i + 1) * room <= orders@.len() * room) by (nonlinear_arith)
                    requires
                        i + 1 <= orders@.len(),
                        room >= 0,
                ;
                assert(orders@.take(i + 1).drop_last() =~= orders@.take(i as int));
            }
            match book.new_order(orders[i], &mut queue, &mut held, owner, now_ts, limit) {
                Ok(id) => {
                    ids.push(id);
                },
                Err(EngineError::BookFull) => {
                    ids.push(None);
                },
                Err(EngineError::ComputeLimitReached) => {
                    ids.push(None);
                },
                Err(e) => {
                    proof {
                        lemma_failed_stays(
                            book0,
                            queue0,
                            position0,
                            *owner,
                            orders@,
                            now_ts,
                            limit,
                            i + 1,
                        );
                    }
                    return Err(e);
                },
            }
            i = i + 1;
        }
        assert(orders@.take(orders@.len() as int) =~= orders@);
        *self = book;
        *events = queue;
        *position = held;
        Ok(ids)
    }
}

/// A batch that has failed after some of its orders stays failed, with the
/// same refusal, whatever orders follow.
pub proof fn lemma_failed_stays(
    book: BookView,
    queue: QueueView,
    position: Position,
    owner: AccountKey,
    orders: Seq<Order>,
    now_ts: u64,
    limit: u8,
    n: int,
)
    requires
        0 <= n <= orders.len(),
        place_each(book, queue, position, owner, orders.take(n), now_ts, limit).failed is Some,
    ensures
        place_each(book, queue, position, owner, orders, now_ts, limit).failed == place_each(
            book,
            queue,
            position,
            owner,
            orders.take(n),
            now_ts,
            limit,
        ).failed,
    decreases orders.len(),
{
    if n == orders.len() {
        assert(orders.take(n) =~= orders);
    } else {
        assert(orders.drop_last().take(n) =~= orders.take(n));
        lemma_failed_stays(book, queue, position, owner, orders.drop_last(), now_ts, limit, n);
    }
}

/// Takes the order `id` off `side` if `owner` owns it.
fn take_owned(side: &mut BookSide, owner: &AccountKey, id: OrderId, Ghost(bound): Ghost<int>) -> (r:
    Option<RestingOrder>)
    requires
        old(side).wf(),
        seqs_below(old(side)@.orders(), bound),
    ensures
        final(side).wf(),
        seqs_below(final(side)@.orders(), bound),
        ({
            let at = old(side)@.rank(id);
            if old(side)@.holds(id) && old(side)@.orders()[at].owner == *owner {
                r == Some(old(side)@.orders()[at]) && final(side)@ == old(side)@.remove_at(at)
            } else {
                r is None && final(side)@ == old(side)@
            }
        }),
{
    let at: usize = side.rank(&id);
    match side.get(at) {
        Some(order) => {
            if order.id == id && order.owner == *owner {
                let taken: RestingOrder = side.take_at(at);
                Some(taken)
            } else {
                None
            }
        },
        None => None,
    }
}

} // verus!
