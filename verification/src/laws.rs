//! What holds of the engine whatever the book, the queue and the orders
//! are. Each law is proved from the definitions the operations are held to.

use vstd::prelude::*;
use crate::book_side::{
    lemma_cancel, lemma_cancel_in_two, lemma_drop_best, lemma_first_selected_is, lemma_holds,
    lemma_insert_at, selected,
    lemma_rank_is, lemma_rank_splits, lemma_set_quantity, sorted, Arena,
};
use crate::event_queue::{lemma_push_all_twice, QueueView};
use crate::matching::{all_live, lemma_walk, lots_filled, quote_filled, walk, Halt, Walk};
use crate::order::{expired, Event, Order, OutReason, RestingOrder};
use crate::orderbook::{
    cancel_events, cancel_one, capped_base, capped_quote, carried_out, invalid, lemma_failed_stays,
    lets, place, place_each, place_on, replace, rest_quantity, resting, seqs_below, skipped, sweep,
    sweep_reason, taker_of, BookView,
};
use crate::account::lemma_first_index;
use crate::instructions::{cancelled_all, CancelAllView};
use crate::position::Position;
use crate::types::{
    marketable, precedes, AccountKey, EngineError, OrderId, OrderType, SelfTradePolicy, Side,
};

verus! {

/// A side reads out in strict price-time order: of two resting orders the
/// earlier one has the better price, or the same price and the lower
/// sequence number. So bids read from the highest price down and asks from
/// the lowest price up.
pub proof fn law_iteration_order(a: Arena, i: int, j: int)
    requires
        a.wf(),
        0 <= i < j < a.orders().len(),
    ensures
        precedes(a.side, a.orders()[i].id, a.orders()[j].id),
        a.side == Side::Bid ==> a.orders()[i].id.price_lots >= a.orders()[j].id.price_lots,
        a.side == Side::Ask ==> a.orders()[i].id.price_lots <= a.orders()[j].id.price_lots,
        a.orders()[i].id.price_lots == a.orders()[j].id.price_lots ==> a.orders()[i].id.seq_num
            < a.orders()[j].id.seq_num,
{
}

/// Whatever orders are handed to an empty side, in whatever order, the side
/// stays well formed, so its orders stay in strict price-time order.
pub proof fn law_inserts_keep_order(side: Side, capacity: nat, orders: Seq<RestingOrder>)
    requires
        capacity <= usize::MAX,
    ensures
        Arena::empty(side, capacity).inserted_all(orders).wf(),
        Arena::empty(side, capacity).inserted_all(orders).side == side,
        sorted(side, Arena::empty(side, capacity).inserted_all(orders).orders()),
    decreases orders.len(),
{
    let e = Arena::empty(side, capacity);
    if orders.len() == 0 {
    } else {
        law_inserts_keep_order(side, capacity, orders.drop_last());
        let before = e.inserted_all(orders.drop_last());
        if before.insert_result(orders.last()) is Ok {
            lemma_insert_at(before, orders.last());
        }
    }
}

/// An order that was rested and is taken off again leaves the side exactly
/// as it was: the same orders in the same slots, and the same slots free in
/// the same order.
pub proof fn law_insert_then_remove(a: Arena, order: RestingOrder)
    requires
        a.wf(),
        a.insert_result(order) is Ok,
    ensures
        a.inserted(order).remove_result(order.id) == Ok::<RestingOrder, EngineError>(order),
        a.inserted(order).removed(order.id) == a,
{
    let at = a.rank(order.id);
    let b = a.inserted(order);
    lemma_insert_at(a, order);
    lemma_rank_splits(a.side, a.orders(), order.id);
    let os = a.orders();
    let bs = b.orders();
    lemma_rank_is(b.side, bs, order.id, at);
    let c = b.remove_at(at);
    let slot = a.free.last();
    assert(c.handles =~= a.handles);
    assert(c.free =~= a.free);
    assert(c.slots =~= a.slots);
}

/// A refused order changes nothing: not the book, not the queue, not the
/// position.
pub proof fn law_refusal_changes_nothing(
    book: BookView,
    queue: QueueView,
    position: Position,
    owner: AccountKey,
    order: Order,
    now_ts: u64,
    limit: u8,
)
    requires
        place(book, queue, position, owner, order, now_ts, limit).result is Err,
    ensures
        place(book, queue, position, owner, order, now_ts, limit).book == book,
        place(book, queue, position, owner, order, now_ts, limit).queue == queue,
        place(book, queue, position, owner, order, now_ts, limit).position == position,
{
}

/// An order under the policy to be refused on a self trade, whose best
/// match is a live resting order of its own owner, is refused with
/// `SelfTradeRejected`, and nothing changes.
pub proof fn law_self_trade_reject(
    book: BookView,
    queue: QueueView,
    position: Position,
    owner: AccountKey,
    order: Order,
    now_ts: u64,
    limit: u8,
)
    requires
        !invalid(order, now_ts),
        order.order_type != OrderType::PostOnly,
        order.self_trade == SelfTradePolicy::Reject,
        capped_base(order, position) > 0,
        limit > 0,
        book.side(order.side.opposite()).orders().len() > 0,
        book.side(order.side.opposite()).orders()[0].owner == owner,
        !expired(book.side(order.side.opposite()).orders()[0].expiry, now_ts),
        marketable(
            order.side,
            order.price_lots,
            book.side(order.side.opposite()).orders()[0].id.price_lots,
        ),
    ensures
        place(book, queue, position, owner, order, now_ts, limit).result == Err::<
            Option<OrderId>,
            EngineError,
        >(EngineError::SelfTradeRejected),
        place(book, queue, position, owner, order, now_ts, limit).book == book,
        place(book, queue, position, owner, order, now_ts, limit).queue == queue,
        place(book, queue, position, owner, order, now_ts, limit).position == position,
{
}

/// An order that meets a live resting order of another owner at the same
/// price and for the same size, with quote lots to pay for it, trades it
/// whole: nothing rests, the resting order is gone from its side, the
/// order's own side is as it was, and the queue gets one fill, which moves
/// as many base lots to one party as it takes from the other, and one out
/// for the resting order.
pub proof fn law_full_overlap(
    book: BookView,
    queue: QueueView,
    position: Position,
    owner: AccountKey,
    order: Order,
    now_ts: u64,
    limit: u8,
)
    requires
        book.wf(),
        !invalid(order, now_ts),
        order.order_type != OrderType::PostOnly,
        limit > 0,
        book.side(order.side.opposite()).orders().len() > 0,
        book.side(order.side.opposite()).orders()[0].owner != owner,
        !expired(book.side(order.side.opposite()).orders()[0].expiry, now_ts),
        book.side(order.side.opposite()).orders()[0].id.price_lots == order.price_lots,
        book.side(order.side.opposite()).orders()[0].quantity == order.max_base_lots,
        capped_base(order, position) == order.max_base_lots,
        capped_quote(order, position) >= order.max_base_lots * order.price_lots,
    ensures
        ({
            let maker = book.side(order.side.opposite()).orders()[0];
            let placed = place(book, queue, position, owner, order, now_ts, limit);
            let fill = Event::Fill {
                taker: owner,
                maker: maker.owner,
                maker_order: maker.id,
                taker_side: order.side,
                price_lots: order.price_lots,
                quantity: order.max_base_lots,
            };
            let out = Event::Out {
                owner: maker.owner,
                order: maker.id,
                quantity: 0,
                reason: OutReason::Filled,
            };
            &&& placed.result == Ok::<Option<OrderId>, EngineError>(None)
            &&& placed.book.side(order.side) == book.side(order.side)
            &&& placed.book.side(order.side.opposite()).orders() == book.side(
                order.side.opposite(),
            ).orders().skip(1)
            &&& placed.queue == queue.push_all(seq![fill, out])
            &&& fill.taker_base_delta() + fill.maker_base_delta() == 0
            &&& fill.taker_quote_delta() + fill.maker_quote_delta() == 0
            &&& placed.position == position.filled(
                order.side,
                order.max_base_lots,
                (order.max_base_lots * order.price_lots) as i64,
            )
        }),
{
    let opposite = book.side(order.side.opposite());
    let makers = opposite.orders();
    let maker = makers[0];
    let taker = taker_of(order, owner, now_ts);
    let base = capped_base(order, position);
    let quote = capped_quote(order, position);
    let price = order.price_lots;
    let size = order.max_base_lots;
    assert(quote as int / price as int >= size) by (nonlinear_arith)
        requires
            quote >= size * price,
            price > 0,
            size > 0,
    ;
    let start = Walk::start(base, quote);
    let after = start.traded(taker, maker, size).passed(maker, 0, OutReason::Filled);
    assert(walk(makers, taker, (limit - 1) as nat, after) == after.halted(Halt::Done));
    let w = walk(makers, taker, limit as nat, start);
    assert(w.events =~= seq![
        Event::Fill {
            taker: owner,
            maker: maker.owner,
            maker_order: maker.id,
            taker_side: order.side,
            price_lots: price,
            quantity: size,
        },
        Event::Out { owner: maker.owner, order: maker.id, quantity: 0, reason: OutReason::Filled },
    ]);
    lemma_drop_best(opposite, 1);
}

/// An order that meets a live resting order of another owner within its
/// price, for fewer lots than rest there and with quote lots to pay for
/// them, trades all its lots at the resting order's price: nothing rests,
/// the resting order stays at the head of its side with that many lots
/// fewer, no other order is touched, the order's own side is as it was, and
/// the queue gets one fill and nothing else.
pub proof fn law_partial_fill(
    book: BookView,
    queue: QueueView,
    position: Position,
    owner: AccountKey,
    order: Order,
    now_ts: u64,
    limit: u8,
)
    requires
        book.wf(),
        !invalid(order, now_ts),
        order.order_type != OrderType::PostOnly,
        limit > 0,
        book.side(order.side.opposite()).orders().len() > 0,
        book.side(order.side.opposite()).orders()[0].owner != owner,
        !expired(book.side(order.side.opposite()).orders()[0].expiry, now_ts),
        marketable(
            order.side,
            order.price_lots,
            book.side(order.side.opposite()).orders()[0].id.price_lots,
        ),
        0 < order.max_base_lots < book.side(order.side.opposite()).orders()[0].quantity,
        capped_base(order, position) == order.max_base_lots,
        capped_quote(order, position) >= order.max_base_lots * book.side(
            order.side.opposite(),
        ).orders()[0].id.price_lots,
    ensures
        ({
            let makers = book.side(order.side.opposite()).orders();
            let maker = makers[0];
            let placed = place(book, queue, position, owner, order, now_ts, limit);
            let fill = Event::Fill {
                taker: owner,
                maker: maker.owner,
                maker_order: maker.id,
                taker_side: order.side,
                price_lots: maker.id.price_lots,
                quantity: order.max_base_lots,
            };
            &&& placed.result == Ok::<Option<OrderId>, EngineError>(None)
            &&& placed.book.side(order.side) == book.side(order.side)
            &&& placed.book.side(order.side.opposite()).orders() == makers.update(
                0,
                maker.with_quantity((maker.quantity - order.max_base_lots) as i64),
            )
            &&& placed.queue == queue.push_all(seq![fill])
            &&& placed.position == position.filled(
                order.side,
                order.max_base_lots,
                (order.max_base_lots * maker.id.price_lots) as i64,
            )
        }),
{
    let opposite = book.side(order.side.opposite());
    let makers = opposite.orders();
    let maker = makers[0];
    let taker = taker_of(order, owner, now_ts);
    let base = capped_base(order, position);
    let quote = capped_quote(order, position);
    let price = maker.id.price_lots;
    let size = order.max_base_lots;
    assert(quote as int / price as int >= size) by (nonlinear_arith)
        requires
            quote >= size * price,
            price > 0,
            size > 0,
    ;
    let start = Walk::start(base, quote);
    let w = walk(makers, taker, limit as nat, start);
    lemma_set_quantity(opposite, 0, (maker.quantity - size) as i64);
}

/// A placed order that rests and is cancelled at once by its owner leaves
/// its side of the book exactly as it was before the order came, slot by
/// slot, and leaves the other side as the placing left it.
pub proof fn law_place_then_cancel(
    book: BookView,
    queue: QueueView,
    position: Position,
    owner: AccountKey,
    order: Order,
    now_ts: u64,
    limit: u8,
)
    requires
        book.wf(),
        place(book, queue, position, owner, order, now_ts, limit).result matches Ok(Some(_)),
    ensures
        ({
            let placed = place(book, queue, position, owner, order, now_ts, limit);
            let id = placed.result->Ok_0->Some_0;
            let undone = cancel_one(placed.book, placed.queue, placed.position, owner, id);
            &&& id == OrderId { side: order.side, price_lots: order.price_lots, seq_num: book.next_seq }
            &&& undone.result == Ok::<(), EngineError>(())
            &&& undone.book.side(order.side) == book.side(order.side)
            &&& undone.book.side(order.side.opposite()) == placed.book.side(order.side.opposite())
        }),
{
    let own = book.side(order.side);
    let placed = place(book, queue, position, owner, order, now_ts, limit);
    let id = OrderId { side: order.side, price_lots: order.price_lots, seq_num: book.next_seq };
    let o = place_on(
        own,
        book.side(order.side.opposite()),
        queue,
        position,
        owner,
        order,
        book.next_seq,
        now_ts,
        limit,
    );
    let rested = placed.book.side(order.side).orders()[placed.book.side(order.side).rank(id)];
    let at = own.rank(id);
    lemma_holds(own, id);
    let new_order = choose|r: RestingOrder| o.own == own.insert_at(at, r) && r.id == id && r.owner == owner
        && r.quantity > 0;
    law_insert_then_remove(own, new_order);
}

/// Two bulk cancels, one after the other, come to one bulk cancel of their
/// joint limit: the same orders go, in the same order, the same events are
/// queued and the same book is left. So a limit of one, twice, takes what a
/// limit of two takes.
pub proof fn law_sweep_in_two(
    book: BookView,
    queue: QueueView,
    position: Position,
    owner: Option<AccountKey>,
    side_filter: Option<Side>,
    m: nat,
    n: nat,
)
    requires
        book.wf(),
    ensures
        ({
            let first = sweep(book, queue, position, owner, side_filter, m);
            let second = sweep(first.book, first.queue, first.position, owner, side_filter, n);
            let both = sweep(book, queue, position, owner, side_filter, m + n);
            &&& first.removed + second.removed == both.removed
            &&& second.book == both.book
            &&& second.queue == both.queue
            &&& second.position == both.position
        }),
{
    let first = sweep(book, queue, position, owner, side_filter, m);
    let second = sweep(first.book, first.queue, first.position, owner, side_filter, n);
    let both = sweep(book, queue, position, owner, side_filter, m + n);
    let bid1: nat = if lets(side_filter, Side::Bid) { m } else { 0 };
    let bid2: nat = if lets(side_filter, Side::Bid) { n } else { 0 };
    let from_bids1 = book.bids.cancelled(owner, bid1);
    let from_bids2 = first.book.bids.cancelled(owner, bid2);
    let ask1: nat = if lets(side_filter, Side::Ask) { (m - from_bids1.len()) as nat } else { 0 };
    let ask2: nat = if lets(side_filter, Side::Ask) { (n - from_bids2.len()) as nat } else { 0 };
    let from_asks1 = book.asks.cancelled(owner, ask1);
    let from_asks2 = first.book.asks.cancelled(owner, ask2);
    lemma_cancel(book.bids, owner, bid1);
    lemma_cancel_in_two(book.bids, owner, bid1, bid2);
    lemma_cancel_in_two(book.asks, owner, ask1, ask2);
    assert((from_bids1 + from_asks1) + (from_bids2 + from_asks2) =~= (from_bids1 + from_bids2) + (
    from_asks1 + from_asks2));
    let reason = sweep_reason(owner);
    lemma_push_all_twice(
        queue,
        cancel_events(first.removed, reason),
        cancel_events(second.removed, reason),
    );
    assert(cancel_events(first.removed, reason) + cancel_events(second.removed, reason)
        =~= cancel_events(first.removed + second.removed, reason));
}

/// The walk an order makes when it is placed on the book.
pub open spec fn walk_of(
    book: BookView,
    position: Position,
    owner: AccountKey,
    order: Order,
    now_ts: u64,
    limit: u8,
) -> Walk {
    walk(
        book.side(order.side.opposite()).orders(),
        taker_of(order, owner, now_ts),
        limit as nat,
        Walk::start(capped_base(order, position), capped_quote(order, position)),
    )
}

/// The resting orders of a well-formed side are live.
pub proof fn lemma_side_live(a: Arena)
    requires
        a.wf(),
    ensures
        all_live(a.orders()),
{
    assert forall|i: int| 0 <= i < a.orders().len() implies (#[trigger] a.orders()[i]).quantity > 0
        && a.orders()[i].id.price_lots > 0 by {
    }
}

/// Matching keeps price-time priority: an order that goes through takes
/// resting orders off the head of the opposite side only. What is left of
/// that side is what was there from some place on, in the same order, the
/// first of them with fewer lots if it was matched in part.
pub proof fn law_matching_takes_from_the_head(
    book: BookView,
    queue: QueueView,
    position: Position,
    owner: AccountKey,
    order: Order,
    now_ts: u64,
    limit: u8,
)
    requires
        book.wf(),
        place(book, queue, position, owner, order, now_ts, limit).result is Ok,
    ensures
        ({
            let makers = book.side(order.side.opposite()).orders();
            let w = walk_of(book, position, owner, order, now_ts, limit);
            let left = place(book, queue, position, owner, order, now_ts, limit).book.side(
                order.side.opposite(),
            ).orders();
            &&& w.taken <= makers.len()
            &&& w.taken <= limit
            &&& left == match w.front_quantity {
                Some(quantity) => makers.skip(w.taken as int).update(
                    0,
                    makers[w.taken as int].with_quantity(quantity),
                ),
                None => makers.skip(w.taken as int),
            }
        }),
{
    let opposite = book.side(order.side.opposite());
    let makers = opposite.orders();
    let w = walk_of(book, position, owner, order, now_ts, limit);
    lemma_walk(
        makers,
        taker_of(order, owner, now_ts),
        limit as nat,
        Walk::start(capped_base(order, position), capped_quote(order, position)),
    );
    lemma_drop_best(opposite, w.taken);
    let dropped = opposite.drop_best(w.taken);
    if w.front_quantity is Some {
        assert(dropped.orders().len() == dropped.handles.len());
        lemma_set_quantity(dropped, 0, w.front_quantity->Some_0);
    }
}

/// An order that goes through moves its owner's position by exactly what
/// the fills it queued say: the base lots they trade come to a buyer and
/// leave a seller, and the quote lots they are worth go the other way. The
/// fills never trade more than the order's sizes, shrunk to what the
/// position allows.
pub proof fn law_fills_move_the_position(
    book: BookView,
    queue: QueueView,
    position: Position,
    owner: AccountKey,
    order: Order,
    now_ts: u64,
    limit: u8,
)
    requires
        book.wf(),
        place(book, queue, position, owner, order, now_ts, limit).result is Ok,
    ensures
        ({
            let w = walk_of(book, position, owner, order, now_ts, limit);
            let after = place(book, queue, position, owner, order, now_ts, limit).position;
            let lots = lots_filled(w.events);
            let worth = quote_filled(w.events);
            &&& 0 <= lots <= capped_base(order, position) <= order.max_base_lots
            &&& 0 <= worth <= capped_quote(order, position) <= order.max_quote_lots
            &&& order.side == Side::Bid ==> after.base_lots == position.base_lots + lots
                && after.quote_lots == position.quote_lots - worth
            &&& order.side == Side::Ask ==> after.base_lots == position.base_lots - lots
                && after.quote_lots == position.quote_lots + worth
            &&& after.limit_lots == position.limit_lots
        }),
{
    let opposite = book.side(order.side.opposite());
    lemma_walk(
        opposite.orders(),
        taker_of(order, owner, now_ts),
        limit as nat,
        Walk::start(capped_base(order, position), capped_quote(order, position)),
    );
}

/// Placing an order keeps the book and the queue well formed, whether the
/// order goes through or not.
pub proof fn law_place_keeps_well_formed(
    book: BookView,
    queue: QueueView,
    position: Position,
    owner: AccountKey,
    order: Order,
    now_ts: u64,
    limit: u8,
)
    requires
        book.wf(),
        queue.wf(),
        book.next_seq < u64::MAX,
    ensures
        place(book, queue, position, owner, order, now_ts, limit).book.wf(),
        place(book, queue, position, owner, order, now_ts, limit).queue.wf(),
{
    let placed = place(book, queue, position, owner, order, now_ts, limit);
    if placed.result is Ok {
        let own = book.side(order.side);
        let opposite = book.side(order.side.opposite());
        let makers = opposite.orders();
        let w = walk_of(book, position, owner, order, now_ts, limit);
        let id = OrderId { side: order.side, price_lots: order.price_lots, seq_num: book.next_seq };
        law_matching_takes_from_the_head(book, queue, position, owner, order, now_ts, limit);
        lemma_side_live(opposite);
        lemma_walk(
            makers,
            taker_of(order, owner, now_ts),
            limit as nat,
            Walk::start(capped_base(order, position), capped_quote(order, position)),
        );
        lemma_drop_best(opposite, w.taken);
        let dropped = opposite.drop_best(w.taken);
        if w.front_quantity is Some {
            assert(dropped.orders().len() == dropped.handles.len());
            lemma_set_quantity(dropped, 0, w.front_quantity->Some_0);
        }
        let left = carried_out(opposite, w);
        assert(seqs_below(left.orders(), book.next_seq + 1)) by {
            assert forall|i: int| 0 <= i < left.orders().len() implies (#[trigger] left.orders()[i]).id.seq_num
                < book.next_seq + 1 by {
                assert(left.orders()[i].id == makers[w.taken + i].id);
            }
        }
        let rest = rest_quantity(order, w);
        if rest > 0 {
            let new_order = resting(order, owner, id, rest as i64);
            lemma_holds(own, id);
            lemma_insert_at(own, new_order);
            lemma_rank_splits(own.side, own.orders(), id);
            let at = own.rank(id);
            let now = own.insert_at(at, new_order).orders();
            assert forall|i: int| 0 <= i < now.len() implies (#[trigger] now[i]).id.seq_num
                < book.next_seq + 1 by {
                if i < at {
                    assert(now[i] == own.orders()[i]);
                } else if i > at {
                    assert(now[i] == own.orders()[i - 1]);
                }
            }
        }
    }
}

/// A reader of the queue is never left with a silent gap: of the events
/// from its own number up to the newest, each is either handed to it or
/// counted as missed, and the ones handed to it are the newest of them, in
/// the order they were pushed.
pub proof fn law_no_silent_gap(queue: QueueView, next: nat)
    requires
        queue.wf(),
        next <= queue.seq_num,
    ensures
        queue.since(next).missed + queue.since(next).events.len() == queue.seq_num - next,
        queue.since(next).events == queue.events.skip(
            queue.events.len() - queue.since(next).events.len(),
        ),
        queue.since(next).missed > 0 ==> queue.since(next).events == queue.events,
{
}

/// A push is never lost to a reader that keeps up: the event pushed is the
/// newest one held, unless the queue holds nothing at all, and it has the
/// sequence number the queue showed before the push.
pub proof fn law_push_is_seen(queue: QueueView, event: Event)
    requires
        queue.wf(),
        queue.capacity > 0,
    ensures
        queue.push(event).wf(),
        queue.push(event).seq_num == queue.seq_num + 1,
        queue.push(event).events.last() == event,
        queue.push(event).since(queue.seq_num).events == seq![event],
        queue.push(event).since(queue.seq_num).missed == 0,
{
}

/// Whether `owner` has no order among these.
pub open spec fn none_of(orders: Seq<RestingOrder>, owner: AccountKey) -> bool {
    forall|i: int| 0 <= i < orders.len() ==> (#[trigger] orders[i]).owner != owner
}

/// A bulk cancel for an owner with no order on a side leaves the side as it
/// is and takes nothing.
pub proof fn lemma_nothing_to_cancel(a: Arena, owner: AccountKey, n: nat)
    requires
        none_of(a.orders(), owner),
    ensures
        a.cancel(Some(owner), n) == a,
        a.cancelled(Some(owner), n) == Seq::<RestingOrder>::empty(),
{
    lemma_first_selected_is(a.orders(), Some(owner), a.orders().len() as int);
}

/// A placed order that rests, of an owner with no other order on the book,
/// and a bulk cancel for that owner right after it: the cancel takes that
/// order and no other, and leaves the order's side of the book exactly as
/// it was before the order came, slot by slot, and the other side as the
/// placing left it.
pub proof fn law_place_then_cancel_all(
    book: BookView,
    queue: QueueView,
    position: Position,
    owner: AccountKey,
    order: Order,
    now_ts: u64,
    limit: u8,
    cancel_limit: nat,
)
    requires
        book.wf(),
        none_of(book.bids.orders(), owner),
        none_of(book.asks.orders(), owner),
        place(book, queue, position, owner, order, now_ts, limit).result matches Ok(Some(_)),
        cancel_limit >= 1,
    ensures
        ({
            let placed = place(book, queue, position, owner, order, now_ts, limit);
            let id = placed.result->Ok_0->Some_0;
            let swept = sweep(
                placed.book,
                placed.queue,
                placed.position,
                Some(owner),
                None,
                cancel_limit,
            );
            &&& swept.removed.len() == 1
            &&& swept.removed[0].id == id
            &&& swept.book.side(order.side) == book.side(order.side)
            &&& swept.book.side(order.side.opposite()) == placed.book.side(order.side.opposite())
            &&& swept.position == placed.position.closed(1)
        }),
{
    let own = book.side(order.side);
    let opposite = book.side(order.side.opposite());
    let placed = place(book, queue, position, owner, order, now_ts, limit);
    let id = OrderId { side: order.side, price_lots: order.price_lots, seq_num: book.next_seq };
    let w = walk_of(book, position, owner, order, now_ts, limit);
    let rest = rest_quantity(order, w);
    let new_order = resting(order, owner, id, rest as i64);
    let at = own.rank(id);
    let own_after = placed.book.side(order.side);
    let opposite_after = placed.book.side(order.side.opposite());
    // the order's own side: the new order is the only one of the owner
    lemma_holds(own, id);
    lemma_insert_at(own, new_order);
    law_insert_then_remove(own, new_order);
    assert(own_after == own.insert_at(at, new_order));
    let now = own_after.orders();
    assert forall|i: int| 0 <= i < at implies !selected(#[trigger] now[i], Some(owner)) by {
        assert(now[i] == own.orders()[i]);
    }
    assert(now[at] == new_order);
    lemma_first_selected_is(now, Some(owner), at);
    lemma_rank_splits(own.side, own.orders(), id);
    assert forall|i: int| 0 <= i < at implies precedes(own.side, (#[trigger] now[i]).id, id) by {
        assert(now[i] == own.orders()[i]);
    }
    assert forall|i: int| at <= i < now.len() implies !precedes(
        own.side,
        (#[trigger] now[i]).id,
        id,
    ) by {
        if i > at {
            assert(now[i] == own.orders()[i - 1]);
        }
    }
    lemma_rank_is(own.side, now, id, at);
    assert(own_after.holds(id));
    assert(own_after.removed(id) == own);
    assert(own_after.remove_at(at) == own);
    lemma_nothing_to_cancel(own, owner, (cancel_limit - 1) as nat);
    assert(own_after.cancel(Some(owner), cancel_limit) == own);
    assert(own_after.cancelled(Some(owner), cancel_limit) =~= seq![new_order]);
    // the other side: what is left of it has no order of the owner
    law_matching_takes_from_the_head(book, queue, position, owner, order, now_ts, limit);
    let left = opposite_after.orders();
    let makers = opposite.orders();
    let skipped = makers.skip(w.taken as int);
    lemma_side_live(opposite);
    lemma_walk(
        makers,
        taker_of(order, owner, now_ts),
        limit as nat,
        Walk::start(capped_base(order, position), capped_quote(order, position)),
    );
    assert(left == placed.book.side(order.side.opposite()).orders());
    if w.front_quantity is Some {
        assert(left == skipped.update(
            0,
            makers[w.taken as int].with_quantity(w.front_quantity->Some_0),
        ));
    } else {
        assert(left == skipped);
    }
    assert(left.len() == skipped.len());
    assert forall|i: int| 0 <= i < left.len() implies (#[trigger] left[i]).owner != owner by {
        assert(skipped[i] == makers[w.taken + i]);
        assert(left[i].owner == skipped[i].owner);
    }
    lemma_nothing_to_cancel(opposite_after, owner, cancel_limit);
    lemma_nothing_to_cancel(opposite_after, owner, (cancel_limit - 1) as nat);
}

/// A batch never fails for want of room or of match budget: an order
/// refused for a full side or a spent budget is only not placed.
pub proof fn law_batch_never_fails_for_room(
    book: BookView,
    queue: QueueView,
    position: Position,
    owner: AccountKey,
    orders: Seq<Order>,
    now_ts: u64,
    limit: u8,
)
    ensures
        place_each(book, queue, position, owner, orders, now_ts, limit).failed matches Some(e)
            ==> !skipped(e),
        place_each(book, queue, position, owner, orders, now_ts, limit).failed is None
            ==> place_each(book, queue, position, owner, orders, now_ts, limit).ids.len()
            == orders.len(),
        replace(book, queue, position, owner, orders, now_ts, limit).result matches Err(e)
            ==> !skipped(e),
    decreases orders.len(),
{
    if orders.len() > 0 {
        law_batch_never_fails_for_room(
            book,
            queue,
            position,
            owner,
            orders.drop_last(),
            now_ts,
            limit,
        );
    }
    let s = sweep(book, queue, position, Some(owner), None, limit as nat);
    lemma_batch_room(s.book, s.queue, s.position, owner, orders, now_ts, limit);
}

/// The refusal that fails a batch is never one for a full side or a spent
/// match budget.
pub proof fn lemma_batch_room(
    book: BookView,
    queue: QueueView,
    position: Position,
    owner: AccountKey,
    orders: Seq<Order>,
    now_ts: u64,
    limit: u8,
)
    ensures
        place_each(book, queue, position, owner, orders, now_ts, limit).failed matches Some(e)
            ==> !skipped(e),
    decreases orders.len(),
{
    if orders.len() > 0 {
        lemma_batch_room(book, queue, position, owner, orders.drop_last(), now_ts, limit);
    }
}

/// The first order of a batch that is refused for another reason than a
/// full side or a spent match budget fails the whole replacement with that
/// refusal, whatever orders follow it, and then nothing has changed: the
/// orders placed before it are not on the book, and no order of the owner
/// was cancelled. So an order that would trade with an order of its own
/// owner, under the policy to be refused, gives `SelfTradeRejected`.
pub proof fn law_batch_fails_whole(
    book: BookView,
    queue: QueueView,
    position: Position,
    owner: AccountKey,
    orders: Seq<Order>,
    now_ts: u64,
    limit: u8,
    n: int,
)
    requires
        0 <= n < orders.len(),
        ({
            let s = sweep(book, queue, position, Some(owner), None, limit as nat);
            let before = place_each(
                s.book,
                s.queue,
                s.position,
                owner,
                orders.take(n),
                now_ts,
                limit,
            );
            let p = place(before.book, before.queue, before.position, owner, orders[n], now_ts, limit);
            &&& before.failed is None
            &&& p.result matches Err(e)
            &&& !skipped(e)
        }),
    ensures
        ({
            let s = sweep(book, queue, position, Some(owner), None, limit as nat);
            let before = place_each(
                s.book,
                s.queue,
                s.position,
                owner,
                orders.take(n),
                now_ts,
                limit,
            );
            let p = place(before.book, before.queue, before.position, owner, orders[n], now_ts, limit);
            let done = replace(book, queue, position, owner, orders, now_ts, limit);
            &&& done.result == Err::<Seq<Option<OrderId>>, EngineError>(p.result->Err_0)
            &&& done.book == book
            &&& done.queue == queue
            &&& done.position == position
        }),
{
    let s = sweep(book, queue, position, Some(owner), None, limit as nat);
    assert(orders.take(n + 1).drop_last() =~= orders.take(n));
    assert(orders.take(n + 1).last() == orders[n]);
    lemma_failed_stays(s.book, s.queue, s.position, owner, orders, now_ts, limit, n + 1);
}

/// Two calls of the bulk cancel of an account, one after the other, come
/// to one call with their joint limit, where that call has room in the
/// queue's counter: both calls go through, the counts they return add up
/// to the count of the one call, and the accounts, the book and the queue
/// end up the same. So a limit of one, twice, takes the two orders that a
/// limit of two takes.
pub proof fn law_cancel_all_in_two(c: CancelAllView, m: u8, n: u8)
    requires
        c.book.wf(),
        m + n <= u8::MAX,
        cancelled_all(c, (m + n) as u8).0 is Ok,
    ensures
        ({
            let first = cancelled_all(c, m);
            let second = cancelled_all(first.1, n);
            let both = cancelled_all(c, (m + n) as u8);
            &&& first.0 is Ok
            &&& second.0 is Ok
            &&& first.0->Ok_0 <= m
            &&& second.0->Ok_0 <= n
            &&& first.0->Ok_0 + second.0->Ok_0 == both.0->Ok_0
            &&& second.1 == both.1
        }),
{
    let market_index = c.perp_market.perp_market_index;
    let row = c.account.perp_row(market_index);
    let held = if row < c.account.perps.len() {
        c.account.perps[row].position
    } else {
        Position { base_lots: 0, quote_lots: 0, limit_lots: 0, orders_in_use: 0 }
    };
    let owner = Some(c.account.fixed.key);
    let s1 = sweep(c.book, c.queue, held, owner, None, m as nat);
    let first = cancelled_all(c, m);
    lemma_cancel(c.book.bids, owner, m as nat);
    lemma_cancel(c.book.asks, owner, (m - c.book.bids.cancelled(owner, m as nat).len()) as nat);
    lemma_cancel(s1.book.bids, owner, n as nat);
    lemma_cancel(s1.book.asks, owner, (n - s1.book.bids.cancelled(owner, n as nat).len()) as nat);
    law_sweep_in_two(c.book, c.queue, held, owner, None, m as nat, n as nat);
    lemma_first_index(c.account.perp_indices(), market_index);
    if row < c.account.perps.len() {
        assert(c.account.perp_indices()[row] == c.account.perps[row].market_index);
        assert(first.1.account.perp_indices() =~= c.account.perp_indices());
        let second = cancelled_all(first.1, n);
        let both = cancelled_all(c, (m + n) as u8);
        assert(second.1.account.perps =~= both.1.account.perps);
    } else {
        assert(first.1.account == c.account);
    }
}

} // verus!
