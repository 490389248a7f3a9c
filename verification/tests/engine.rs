use mango_v4::book_side::BookSide;
use mango_v4::event_queue::EventQueue;
use mango_v4::order::{Event, Order, OutReason, RestingOrder};
use mango_v4::orderbook::Orderbook;
use mango_v4::position::Position;
use mango_v4::types::{AccountKey, EngineError, OrderId, OrderType, SelfTradePolicy, Side};

fn key(n: u128) -> AccountKey {
    AccountKey { hi: 0, lo: n }
}

fn order(side: Side, price: i64, size: i64, order_type: OrderType) -> Order {
    Order {
        side,
        price_lots: price,
        max_base_lots: size,
        max_quote_lots: i64::MAX,
        order_type,
        self_trade: SelfTradePolicy::DecrementTake,
        expiry: 0,
        client_order_id: 7,
    }
}

fn resting(side: Side, price: i64, seq: u64, owner: u128, quantity: i64) -> RestingOrder {
    RestingOrder {
        id: OrderId { side, price_lots: price, seq_num: seq },
        owner: key(owner),
        quantity,
        expiry: 0,
        client_order_id: 0,
        self_trade: SelfTradePolicy::DecrementTake,
    }
}

fn drain(queue: &mut EventQueue) -> Vec<Event> {
    let mut out = Vec::new();
    while let Some(e) = queue.pop_front() {
        out.push(e);
    }
    out
}

#[test]
fn ioc_ask_takes_part_of_resting_bid() {
    let mut book = Orderbook::new(8);
    let mut queue = EventQueue::new(16);
    let mut maker = Position::new(1000);
    let mut taker = Position::new(1000);
    let posted = book
        .new_order(order(Side::Bid, 100, 5, OrderType::Limit), &mut queue, &mut maker, &key(1), 0, 10)
        .unwrap();
    let bid = OrderId { side: Side::Bid, price_lots: 100, seq_num: 0 };
    assert_eq!(posted, Some(bid));
    assert_eq!(queue.len(), 0);

    let r = book.new_order(
        order(Side::Ask, 100, 3, OrderType::ImmediateOrCancel),
        &mut queue,
        &mut taker,
        &key(2),
        0,
        10,
    );
    assert_eq!(r, Ok(None));
    assert_eq!(
        drain(&mut queue),
        vec![Event::Fill {
            taker: key(2),
            maker: key(1),
            maker_order: bid,
            taker_side: Side::Ask,
            price_lots: 100,
            quantity: 3,
        }]
    );
    assert_eq!(book.asks().len(), 0);
    assert_eq!(book.bids().len(), 1);
    assert_eq!(book.bids().best().unwrap().quantity, 2);
    assert_eq!(book.bids().best().unwrap().id, bid);
    assert_eq!(taker.base_lots, -3);
    assert_eq!(taker.quote_lots, 300);
    assert_eq!(maker.orders_in_use, 1);
    assert_eq!(taker.orders_in_use, 0);
}

#[test]
fn full_side_refuses_one_more_order() {
    let mut side = BookSide::new(Side::Ask, 3);
    assert_eq!(side.insert(resting(Side::Ask, 10, 0, 1, 1)), Ok(OrderId { side: Side::Ask, price_lots: 10, seq_num: 0 }));
    side.insert(resting(Side::Ask, 12, 1, 1, 2)).unwrap();
    side.insert(resting(Side::Ask, 11, 2, 2, 3)).unwrap();
    assert!(side.is_full());
    let before = side.iter_best_to_worst();
    assert_eq!(side.insert(resting(Side::Ask, 13, 3, 1, 4)), Err(EngineError::BookFull));
    assert_eq!(side.iter_best_to_worst(), before);
    assert_eq!(side.len(), 3);
    assert_eq!(side.free_slots(), 0);
}

#[test]
fn full_book_refuses_resting_order_and_changes_nothing() {
    let mut book = Orderbook::new(1);
    let mut queue = EventQueue::new(16);
    let mut a = Position::new(1000);
    book.new_order(order(Side::Bid, 100, 5, OrderType::Limit), &mut queue, &mut a, &key(1), 0, 10).unwrap();
    let before = a;
    let r = book.new_order(order(Side::Bid, 99, 5, OrderType::Limit), &mut queue, &mut a, &key(1), 0, 10);
    assert_eq!(r, Err(EngineError::BookFull));
    assert_eq!(a, before);
    assert_eq!(book.bids().len(), 1);
    assert_eq!(book.next_seq(), 1);
    assert_eq!(queue.len(), 0);
}

#[test]
fn iteration_is_in_price_time_order() {
    let mut bids = BookSide::new(Side::Bid, 8);
    let mut asks = BookSide::new(Side::Ask, 8);
    let prices = [5i64, 9, 7, 9, 1, 7];
    for (seq, p) in prices.iter().enumerate() {
        bids.insert(resting(Side::Bid, *p, seq as u64, 1, 1)).unwrap();
        asks.insert(resting(Side::Ask, *p, seq as u64, 1, 1)).unwrap();
    }
    let b: Vec<(i64, u64)> = bids.iter_best_to_worst().iter().map(|o| (o.id.price_lots, o.id.seq_num)).collect();
    let a: Vec<(i64, u64)> = asks.iter_best_to_worst().iter().map(|o| (o.id.price_lots, o.id.seq_num)).collect();
    assert_eq!(b, vec![(9, 1), (9, 3), (7, 2), (7, 5), (5, 0), (1, 4)]);
    assert_eq!(a, vec![(1, 4), (5, 0), (7, 2), (7, 5), (9, 1), (9, 3)]);
    assert_eq!(bids.best().unwrap().id.price_lots, 9);
    assert_eq!(asks.best().unwrap().id.price_lots, 1);
    assert_eq!(bids.get(2).unwrap().id.seq_num, 2);
    assert_eq!(bids.get(6), None);
}

#[test]
fn full_overlap_empties_both_sides() {
    let mut book = Orderbook::new(4);
    let mut queue = EventQueue::new(16);
    let mut a = Position::new(1000);
    let mut b = Position::new(1000);
    book.new_order(order(Side::Ask, 50, 4, OrderType::Limit), &mut queue, &mut a, &key(1), 0, 10).unwrap();
    let r = book.new_order(order(Side::Bid, 50, 4, OrderType::Limit), &mut queue, &mut b, &key(2), 0, 10);
    assert_eq!(r, Ok(None));
    assert_eq!(book.bids().len(), 0);
    assert_eq!(book.asks().len(), 0);
    let ask = OrderId { side: Side::Ask, price_lots: 50, seq_num: 0 };
    let events = drain(&mut queue);
    assert_eq!(
        events,
        vec![
            Event::Fill { taker: key(2), maker: key(1), maker_order: ask, taker_side: Side::Bid, price_lots: 50, quantity: 4 },
            Event::Out { owner: key(1), order: ask, quantity: 0, reason: OutReason::Filled },
        ]
    );
    assert_eq!(b.base_lots, 4);
    assert_eq!(b.quote_lots, -200);
    assert!(a.settle(key(1), events[0]));
    assert!(a.settle(key(1), events[1]));
    assert_eq!(a.base_lots + b.base_lots, 0);
    assert_eq!(a.quote_lots + b.quote_lots, 0);
    assert_eq!(a.orders_in_use, 0);
}

#[test]
fn self_trade_reject_leaves_everything_as_it_was() {
    let mut book = Orderbook::new(4);
    let mut queue = EventQueue::new(16);
    let mut a = Position::new(1000);
    book.new_order(order(Side::Ask, 50, 4, OrderType::Limit), &mut queue, &mut a, &key(1), 0, 10).unwrap();
    let before_asks = book.asks().iter_best_to_worst();
    let before = a;
    let mut crossing = order(Side::Bid, 60, 2, OrderType::Limit);
    crossing.self_trade = SelfTradePolicy::Reject;
    let r = book.new_order(crossing, &mut queue, &mut a, &key(1), 0, 10);
    assert_eq!(r, Err(EngineError::SelfTradeRejected));
    assert_eq!(book.asks().iter_best_to_worst(), before_asks);
    assert_eq!(book.bids().len(), 0);
    assert_eq!(book.next_seq(), 1);
    assert_eq!(queue.seq_num(), 0);
    assert_eq!(a, before);
}

#[test]
fn self_trade_cancel_maker_goes_on_matching() {
    let mut book = Orderbook::new(4);
    let mut queue = EventQueue::new(16);
    let mut a = Position::new(1000);
    let mut b = Position::new(1000);
    book.new_order(order(Side::Ask, 50, 4, OrderType::Limit), &mut queue, &mut a, &key(1), 0, 10).unwrap();
    book.new_order(order(Side::Ask, 51, 4, OrderType::Limit), &mut queue, &mut b, &key(2), 0, 10).unwrap();
    let mut crossing = order(Side::Bid, 60, 3, OrderType::Limit);
    crossing.self_trade = SelfTradePolicy::CancelMaker;
    let r = book.new_order(crossing, &mut queue, &mut a, &key(1), 0, 10);
    assert_eq!(r, Ok(None));
    let own = OrderId { side: Side::Ask, price_lots: 50, seq_num: 0 };
    let other = OrderId { side: Side::Ask, price_lots: 51, seq_num: 1 };
    assert_eq!(
        drain(&mut queue),
        vec![
            Event::Out { owner: key(1), order: own, quantity: 4, reason: OutReason::SelfTrade },
            Event::Fill { taker: key(1), maker: key(2), maker_order: other, taker_side: Side::Bid, price_lots: 51, quantity: 3 },
        ]
    );
    assert_eq!(book.asks().len(), 1);
    assert_eq!(book.asks().best().unwrap().quantity, 1);
}

#[test]
fn self_trade_cancel_provide_stops_and_rests() {
    let mut book = Orderbook::new(4);
    let mut queue = EventQueue::new(16);
    let mut a = Position::new(1000);
    let mut b = Position::new(1000);
    book.new_order(order(Side::Ask, 50, 4, OrderType::Limit), &mut queue, &mut a, &key(1), 0, 10).unwrap();
    book.new_order(order(Side::Ask, 51, 4, OrderType::Limit), &mut queue, &mut b, &key(2), 0, 10).unwrap();
    let mut crossing = order(Side::Bid, 60, 3, OrderType::Limit);
    crossing.self_trade = SelfTradePolicy::CancelProvide;
    let r = book.new_order(crossing, &mut queue, &mut a, &key(1), 0, 10);
    assert_eq!(r, Ok(Some(OrderId { side: Side::Bid, price_lots: 60, seq_num: 2 })));
    assert_eq!(queue.len(), 1);
    assert_eq!(book.asks().len(), 1);
    assert_eq!(book.asks().best().unwrap().quantity, 4);
    assert_eq!(book.bids().best().unwrap().quantity, 3);
}

#[test]
fn self_trade_decrement_take_reduces_both_without_a_trade() {
    let mut book = Orderbook::new(4);
    let mut queue = EventQueue::new(16);
    let mut a = Position::new(1000);
    book.new_order(order(Side::Ask, 50, 4, OrderType::Limit), &mut queue, &mut a, &key(1), 0, 10).unwrap();
    let own = OrderId { side: Side::Ask, price_lots: 50, seq_num: 0 };
    let before = a;
    let r = book.new_order(order(Side::Bid, 50, 1, OrderType::Limit), &mut queue, &mut a, &key(1), 0, 10);
    assert_eq!(r, Ok(None));
    assert_eq!(
        drain(&mut queue),
        vec![Event::Out { owner: key(1), order: own, quantity: 1, reason: OutReason::Decremented }]
    );
    assert_eq!(book.asks().best().unwrap().quantity, 3);
    assert_eq!(book.bids().len(), 0);
    assert_eq!(a, before);
    // a taker with more lots than its own order takes it off and goes on
    let r = book.new_order(order(Side::Bid, 50, 5, OrderType::Limit), &mut queue, &mut a, &key(1), 0, 10);
    assert_eq!(r, Ok(Some(OrderId { side: Side::Bid, price_lots: 50, seq_num: 2 })));
    assert_eq!(
        drain(&mut queue),
        vec![Event::Out { owner: key(1), order: own, quantity: 3, reason: OutReason::SelfTrade }]
    );
    assert_eq!(book.asks().len(), 0);
    assert_eq!(book.bids().best().unwrap().quantity, 2);
    assert_eq!((a.base_lots, a.quote_lots), (0, 0));
    assert_eq!(a.orders_in_use, 2);
    assert!(a.settle(key(1), Event::Out { owner: key(1), order: own, quantity: 1, reason: OutReason::Decremented }));
    assert_eq!(a.orders_in_use, 2);
    assert!(a.settle(key(1), Event::Out { owner: key(1), order: own, quantity: 3, reason: OutReason::SelfTrade }));
    assert_eq!(a.orders_in_use, 1);
}

#[test]
fn cancel_all_one_by_one_is_cancel_all_of_two() {
    let build = || {
        let mut book = Orderbook::new(8);
        let mut queue = EventQueue::new(32);
        let mut a = Position::new(1000);
        let mut b = Position::new(1000);
        book.new_order(order(Side::Bid, 10, 1, OrderType::Limit), &mut queue, &mut a, &key(1), 0, 10).unwrap();
        book.new_order(order(Side::Bid, 12, 1, OrderType::Limit), &mut queue, &mut b, &key(2), 0, 10).unwrap();
        book.new_order(order(Side::Ask, 20, 1, OrderType::Limit), &mut queue, &mut a, &key(1), 0, 10).unwrap();
        book.new_order(order(Side::Ask, 19, 1, OrderType::Limit), &mut queue, &mut a, &key(1), 0, 10).unwrap();
        (book, queue, a)
    };
    let (mut once, mut once_q, mut once_p) = build();
    let (mut twice, mut twice_q, mut twice_p) = build();
    assert_eq!(once_p.orders_in_use, 3);
    assert_eq!(once.cancel_all_orders(&mut once_q, &mut once_p, Some(key(1)), None, 2), 2);
    assert_eq!(twice.cancel_all_orders(&mut twice_q, &mut twice_p, Some(key(1)), None, 1), 1);
    assert_eq!(twice_p.orders_in_use, 2);
    assert_eq!(twice.cancel_all_orders(&mut twice_q, &mut twice_p, Some(key(1)), None, 1), 1);
    assert_eq!(once_p, twice_p);
    assert_eq!(once_p.orders_in_use, 1);
    assert_eq!(once.bids().iter_best_to_worst(), twice.bids().iter_best_to_worst());
    assert_eq!(once.asks().iter_best_to_worst(), twice.asks().iter_best_to_worst());
    let events = drain(&mut once_q);
    assert_eq!(events, drain(&mut twice_q));
    // the owner's bid goes first, then the owner's best ask
    assert_eq!(
        events,
        vec![
            Event::Out { owner: key(1), order: OrderId { side: Side::Bid, price_lots: 10, seq_num: 0 }, quantity: 1, reason: OutReason::Cancelled },
            Event::Out { owner: key(1), order: OrderId { side: Side::Ask, price_lots: 19, seq_num: 3 }, quantity: 1, reason: OutReason::Cancelled },
        ]
    );
    assert_eq!(once.bids().len(), 1);
    assert_eq!(once.asks().len(), 1);
    assert_eq!(once.asks().best().unwrap().id.price_lots, 20);
}

#[test]
fn cancel_all_side_filter_and_every_owner() {
    let mut book = Orderbook::new(8);
    let mut queue = EventQueue::new(32);
    let mut a = Position::new(1000);
    let mut b = Position::new(1000);
    book.new_order(order(Side::Bid, 10, 1, OrderType::Limit), &mut queue, &mut a, &key(1), 0, 10).unwrap();
    book.new_order(order(Side::Bid, 12, 1, OrderType::Limit), &mut queue, &mut b, &key(2), 0, 10).unwrap();
    book.new_order(order(Side::Ask, 20, 1, OrderType::Limit), &mut queue, &mut a, &key(1), 0, 10).unwrap();
    assert_eq!(book.cancel_all_orders(&mut queue, &mut a, Some(key(1)), Some(Side::Ask), 5), 1);
    assert_eq!(book.asks().len(), 0);
    assert_eq!(book.bids().len(), 2);
    assert_eq!(a.orders_in_use, 1);
    assert_eq!(drain(&mut queue).len(), 1);
    assert_eq!(book.cancel_all_orders(&mut queue, &mut a, None, None, 0), 0);
    assert_eq!(book.cancel_all_orders(&mut queue, &mut a, None, None, 5), 2);
    assert_eq!(book.bids().len(), 0);
    assert_eq!(book.cancel_all_orders(&mut queue, &mut a, None, None, 5), 0);
    // orders swept for every owner are counted off when their events are settled
    assert_eq!((a.orders_in_use, b.orders_in_use), (1, 1));
    let swept = drain(&mut queue);
    assert_eq!(
        swept,
        vec![
            Event::Out { owner: key(2), order: OrderId { side: Side::Bid, price_lots: 12, seq_num: 1 }, quantity: 1, reason: OutReason::Swept },
            Event::Out { owner: key(1), order: OrderId { side: Side::Bid, price_lots: 10, seq_num: 0 }, quantity: 1, reason: OutReason::Swept },
        ]
    );
    for e in swept {
        assert!(a.settle(key(1), e));
        assert!(b.settle(key(2), e));
    }
    assert_eq!((a.orders_in_use, b.orders_in_use), (0, 0));
}

#[test]
fn place_then_cancel_restores_the_side() {
    let mut book = Orderbook::new(4);
    let mut queue = EventQueue::new(16);
    let mut a = Position::new(1000);
    book.new_order(order(Side::Bid, 10, 1, OrderType::Limit), &mut queue, &mut a, &key(1), 0, 10).unwrap();
    book.new_order(order(Side::Bid, 12, 1, OrderType::Limit), &mut queue, &mut a, &key(1), 0, 10).unwrap();
    let before = book.bids().iter_best_to_worst();
    let free = book.bids().free_slots();
    let id = book
        .new_order(order(Side::Bid, 11, 1, OrderType::Limit), &mut queue, &mut a, &key(1), 0, 10)
        .unwrap()
        .unwrap();
    assert_eq!(book.bids().len(), 3);
    assert_eq!(book.bids().get(1).unwrap().id, id);
    assert_eq!(a.orders_in_use, 3);
    assert_eq!(book.cancel_order(&mut queue, &mut a, &key(1), id), Ok(()));
    assert_eq!(a.orders_in_use, 2);
    assert_eq!(book.bids().iter_best_to_worst(), before);
    assert_eq!(book.bids().free_slots(), free);
    assert_eq!(
        drain(&mut queue),
        vec![Event::Out { owner: key(1), order: id, quantity: 1, reason: OutReason::Cancelled }]
    );
    assert_eq!(book.cancel_order(&mut queue, &mut a, &key(1), id), Err(EngineError::OrderNotFound));
    // an order of another owner is not found either
    let other = book.bids().best().unwrap().id;
    let mut stranger = Position::new(0);
    assert_eq!(book.cancel_order(&mut queue, &mut stranger, &key(9), other), Err(EngineError::OrderNotFound));
    assert_eq!(book.bids().len(), 2);
    assert_eq!(a.orders_in_use, 2);
    assert_eq!(queue.len(), 0);
}

#[test]
fn side_insert_then_remove_gives_back_the_slot() {
    let mut side = BookSide::new(Side::Bid, 2);
    let first = resting(Side::Bid, 10, 0, 1, 1);
    side.insert(first).unwrap();
    let second = resting(Side::Bid, 11, 1, 1, 5);
    let id = side.insert(second).unwrap();
    assert!(side.contains(&id));
    assert_eq!(side.rank(&id), 0);
    assert_eq!(side.remove(id), Ok(second));
    assert!(!side.contains(&id));
    assert_eq!(side.remove(id), Err(EngineError::OrderNotFound));
    assert_eq!(side.iter_best_to_worst(), vec![first]);
    assert_eq!(side.free_slots(), 1);
    assert_eq!(side.capacity(), 2);
}

#[test]
fn side_refuses_orders_that_cannot_rest() {
    let mut side = BookSide::new(Side::Bid, 4);
    let e = Err(EngineError::InvalidOrderParameters);
    assert_eq!(side.insert(resting(Side::Ask, 10, 0, 1, 1)), e);
    assert_eq!(side.insert(resting(Side::Bid, 0, 0, 1, 1)), e);
    assert_eq!(side.insert(resting(Side::Bid, 10, 0, 1, 0)), e);
    side.insert(resting(Side::Bid, 10, 0, 1, 1)).unwrap();
    assert_eq!(side.insert(resting(Side::Bid, 10, 0, 2, 3)), e);
    assert_eq!(side.len(), 1);
}

#[test]
fn post_only_is_refused_if_it_would_cross() {
    let mut book = Orderbook::new(4);
    let mut queue = EventQueue::new(16);
    let mut a = Position::new(1000);
    let mut b = Position::new(1000);
    book.new_order(order(Side::Ask, 50, 4, OrderType::Limit), &mut queue, &mut a, &key(1), 0, 10).unwrap();
    let r = book.new_order(order(Side::Bid, 50, 1, OrderType::PostOnly), &mut queue, &mut b, &key(2), 0, 10);
    assert_eq!(r, Err(EngineError::InvalidOrderParameters));
    let r = book.new_order(order(Side::Bid, 49, 1, OrderType::PostOnly), &mut queue, &mut b, &key(2), 0, 10);
    assert_eq!(r, Ok(Some(OrderId { side: Side::Bid, price_lots: 49, seq_num: 1 })));
    assert_eq!(book.asks().best().unwrap().quantity, 4);
}

#[test]
fn invalid_orders_are_refused() {
    let mut book = Orderbook::new(4);
    let mut queue = EventQueue::new(16);
    let mut a = Position::new(1000);
    let e = Err(EngineError::InvalidOrderParameters);
    assert_eq!(book.new_order(order(Side::Bid, 50, -1, OrderType::Limit), &mut queue, &mut a, &key(1), 0, 10), e);
    assert_eq!(book.new_order(order(Side::Bid, 0, 1, OrderType::Limit), &mut queue, &mut a, &key(1), 0, 10), e);
    let mut neg_quote = order(Side::Bid, 50, 1, OrderType::Limit);
    neg_quote.max_quote_lots = -1;
    assert_eq!(book.new_order(neg_quote, &mut queue, &mut a, &key(1), 0, 10), e);
    let mut late = order(Side::Bid, 50, 1, OrderType::Limit);
    late.expiry = 5;
    assert_eq!(book.new_order(late, &mut queue, &mut a, &key(1), 5, 10), e);
    assert_eq!(book.new_order(late, &mut queue, &mut a, &key(1), 4, 10).unwrap().is_some(), true);
    // a size of zero is taken and does nothing
    assert_eq!(book.new_order(order(Side::Bid, 50, 0, OrderType::Limit), &mut queue, &mut a, &key(1), 0, 10), Ok(None));
    assert_eq!(book.next_seq(), 2);
}

#[test]
fn ioc_remainder_is_discarded_with_an_out_event() {
    let mut book = Orderbook::new(4);
    let mut queue = EventQueue::new(16);
    let mut a = Position::new(1000);
    let mut b = Position::new(1000);
    book.new_order(order(Side::Ask, 50, 2, OrderType::Limit), &mut queue, &mut a, &key(1), 0, 10).unwrap();
    let r = book.new_order(order(Side::Bid, 50, 5, OrderType::ImmediateOrCancel), &mut queue, &mut b, &key(2), 0, 10);
    assert_eq!(r, Ok(None));
    let events = drain(&mut queue);
    assert_eq!(events.len(), 3);
    assert_eq!(
        events[2],
        Event::Out {
            owner: key(2),
            order: OrderId { side: Side::Bid, price_lots: 50, seq_num: 1 },
            quantity: 3,
            reason: OutReason::Discarded,
        }
    );
    assert_eq!(book.bids().len(), 0);
    assert_eq!(b.base_lots, 2);
}

#[test]
fn match_budget_spent_on_a_limit_order_is_an_error() {
    let mut book = Orderbook::new(4);
    let mut queue = EventQueue::new(16);
    let mut a = Position::new(1000);
    let mut b = Position::new(1000);
    book.new_order(order(Side::Ask, 50, 1, OrderType::Limit), &mut queue, &mut a, &key(1), 0, 10).unwrap();
    book.new_order(order(Side::Ask, 51, 1, OrderType::Limit), &mut queue, &mut a, &key(1), 0, 10).unwrap();
    let r = book.new_order(order(Side::Bid, 60, 5, OrderType::Limit), &mut queue, &mut b, &key(2), 0, 1);
    assert_eq!(r, Err(EngineError::ComputeLimitReached));
    assert_eq!(book.asks().len(), 2);
    assert_eq!(b, Position::new(1000));
    assert_eq!(queue.len(), 0);
    // an immediate-or-cancel order takes what the budget allows
    let r = book.new_order(order(Side::Bid, 60, 5, OrderType::ImmediateOrCancel), &mut queue, &mut b, &key(2), 0, 1);
    assert_eq!(r, Ok(None));
    assert_eq!(book.asks().len(), 1);
    assert_eq!(b.base_lots, 1);
    // with budget to spare the limit order goes through and rests
    let r = book.new_order(order(Side::Bid, 60, 5, OrderType::Limit), &mut queue, &mut b, &key(2), 0, 2);
    assert_eq!(r, Ok(Some(OrderId { side: Side::Bid, price_lots: 60, seq_num: 3 })));
    assert_eq!(book.bids().best().unwrap().quantity, 4);
}

#[test]
fn position_cap_shrinks_the_order() {
    let mut book = Orderbook::new(4);
    let mut queue = EventQueue::new(16);
    let mut a = Position::new(1000);
    let mut b = Position::new(3);
    book.new_order(order(Side::Ask, 50, 10, OrderType::Limit), &mut queue, &mut a, &key(1), 0, 10).unwrap();
    let r = book.new_order(order(Side::Bid, 50, 5, OrderType::Limit), &mut queue, &mut b, &key(2), 0, 10);
    assert_eq!(r, Ok(None));
    assert_eq!(b.base_lots, 3);
    assert_eq!(b.available_lots(Side::Bid), 0);
    assert_eq!(b.available_lots(Side::Ask), 6);
    assert_eq!(book.asks().best().unwrap().quantity, 7);
}

#[test]
fn quote_limit_bounds_the_fill() {
    let mut book = Orderbook::new(4);
    let mut queue = EventQueue::new(16);
    let mut a = Position::new(1000);
    let mut b = Position::new(1000);
    book.new_order(order(Side::Ask, 50, 10, OrderType::Limit), &mut queue, &mut a, &key(1), 0, 10).unwrap();
    let mut o = order(Side::Bid, 50, 5, OrderType::Limit);
    o.max_quote_lots = 120;
    let r = book.new_order(o, &mut queue, &mut b, &key(2), 0, 10);
    assert_eq!(r, Ok(None));
    assert_eq!(b.base_lots, 2);
    assert_eq!(b.quote_lots, -100);
    let events = drain(&mut queue);
    assert_eq!(events.len(), 2);
    assert_eq!(
        events[1],
        Event::Out {
            owner: key(2),
            order: OrderId { side: Side::Bid, price_lots: 50, seq_num: 1 },
            quantity: 3,
            reason: OutReason::Discarded,
        }
    );
}

#[test]
fn expired_maker_leaves_the_book_unmatched() {
    let mut book = Orderbook::new(4);
    let mut queue = EventQueue::new(16);
    let mut a = Position::new(1000);
    let mut b = Position::new(1000);
    let mut short = order(Side::Ask, 50, 2, OrderType::Limit);
    short.expiry = 10;
    book.new_order(short, &mut queue, &mut a, &key(1), 0, 10).unwrap();
    book.new_order(order(Side::Ask, 52, 2, OrderType::Limit), &mut queue, &mut a, &key(1), 0, 10).unwrap();
    let r = book.new_order(order(Side::Bid, 55, 1, OrderType::Limit), &mut queue, &mut b, &key(2), 10, 10);
    assert_eq!(r, Ok(None));
    let events = drain(&mut queue);
    assert_eq!(
        events[0],
        Event::Out {
            owner: key(1),
            order: OrderId { side: Side::Ask, price_lots: 50, seq_num: 0 },
            quantity: 2,
            reason: OutReason::Expired,
        }
    );
    assert_eq!(b.quote_lots, -52);
    assert_eq!(book.asks().len(), 1);
}

#[test]
fn replace_all_orders_cancels_then_places() {
    let mut book = Orderbook::new(2);
    let mut queue = EventQueue::new(32);
    let mut a = Position::new(1000);
    book.new_order(order(Side::Bid, 10, 1, OrderType::Limit), &mut queue, &mut a, &key(1), 0, 10).unwrap();
    book.new_order(order(Side::Ask, 20, 1, OrderType::Limit), &mut queue, &mut a, &key(1), 0, 10).unwrap();
    assert_eq!(a.orders_in_use, 2);
    let batch = vec![
        order(Side::Bid, 11, 1, OrderType::Limit),
        order(Side::Bid, 12, 1, OrderType::Limit),
        order(Side::Bid, 13, 1, OrderType::Limit),
        order(Side::Ask, 21, 1, OrderType::Limit),
    ];
    let ids = book.replace_all_orders(&mut queue, &mut a, &key(1), &batch, 0, 10).unwrap();
    assert_eq!(
        ids,
        vec![
            Some(OrderId { side: Side::Bid, price_lots: 11, seq_num: 2 }),
            Some(OrderId { side: Side::Bid, price_lots: 12, seq_num: 3 }),
            None,
            Some(OrderId { side: Side::Ask, price_lots: 21, seq_num: 4 }),
        ]
    );
    assert_eq!(a.orders_in_use, 3);
    assert_eq!(book.bids().len(), 2);
    assert_eq!(book.asks().len(), 1);
    assert_eq!(book.side(Side::Bid).best().unwrap().id.price_lots, 12);
}

#[test]
fn fills_account_for_the_position_change() {
    let mut book = Orderbook::new(8);
    let mut queue = EventQueue::new(64);
    let mut a = Position::new(1000);
    let mut b = Position::new(1000);
    for (price, size) in [(50, 2), (51, 3), (53, 4)] {
        book.new_order(order(Side::Ask, price, size, OrderType::Limit), &mut queue, &mut a, &key(1), 0, 10).unwrap();
    }
    let r = book.new_order(order(Side::Bid, 52, 10, OrderType::Limit), &mut queue, &mut b, &key(2), 0, 10);
    assert_eq!(r, Ok(Some(OrderId { side: Side::Bid, price_lots: 52, seq_num: 3 })));
    let mut lots = 0;
    let mut worth = 0;
    for e in drain(&mut queue) {
        if let Event::Fill { quantity, price_lots, .. } = e {
            lots += quantity;
            worth += quantity * price_lots;
        }
    }
    assert_eq!((lots, worth), (5, 2 * 50 + 3 * 51));
    assert_eq!((b.base_lots, b.quote_lots), (5, -253));
    // the asks above the limit price stay, the rest of the bid rests
    assert_eq!(book.asks().iter_best_to_worst().len(), 1);
    assert_eq!(book.asks().best().unwrap().id.price_lots, 53);
    assert_eq!(book.bids().best().unwrap().quantity, 5);
}

#[test]
fn matching_stops_at_the_price_limit_and_keeps_time_priority() {
    let mut book = Orderbook::new(8);
    let mut queue = EventQueue::new(64);
    let mut a = Position::new(1000);
    let mut b = Position::new(1000);
    book.new_order(order(Side::Bid, 50, 2, OrderType::Limit), &mut queue, &mut a, &key(1), 0, 10).unwrap();
    book.new_order(order(Side::Bid, 50, 2, OrderType::Limit), &mut queue, &mut a, &key(3), 0, 10).unwrap();
    book.new_order(order(Side::Bid, 49, 2, OrderType::Limit), &mut queue, &mut a, &key(4), 0, 10).unwrap();
    let r = book.new_order(order(Side::Ask, 50, 3, OrderType::ImmediateOrCancel), &mut queue, &mut b, &key(2), 0, 10);
    assert_eq!(r, Ok(None));
    let left = book.bids().iter_best_to_worst();
    assert_eq!(left.len(), 2);
    assert_eq!((left[0].owner, left[0].quantity), (key(3), 1));
    assert_eq!((left[1].owner, left[1].quantity), (key(4), 2));
    assert_eq!(b.base_lots, -3);
}

#[test]
fn a_match_budget_of_zero_matches_nothing() {
    let mut book = Orderbook::new(4);
    let mut queue = EventQueue::new(16);
    let mut a = Position::new(1000);
    let mut b = Position::new(1000);
    book.new_order(order(Side::Ask, 50, 1, OrderType::Limit), &mut queue, &mut a, &key(1), 0, 0).unwrap();
    let r = book.new_order(order(Side::Bid, 50, 1, OrderType::Limit), &mut queue, &mut b, &key(2), 0, 0);
    assert_eq!(r, Err(EngineError::ComputeLimitReached));
    let r = book.new_order(order(Side::Bid, 50, 1, OrderType::ImmediateOrCancel), &mut queue, &mut b, &key(2), 0, 0);
    assert_eq!(r, Ok(None));
    assert_eq!(b, Position::new(1000));
    assert_eq!(book.asks().len(), 1);
    assert_eq!(
        drain(&mut queue),
        vec![Event::Out {
            owner: key(2),
            order: OrderId { side: Side::Bid, price_lots: 50, seq_num: 1 },
            quantity: 1,
            reason: OutReason::Discarded,
        }]
    );
    // an order that does not cross needs no budget
    let r = book.new_order(order(Side::Bid, 49, 1, OrderType::Limit), &mut queue, &mut b, &key(2), 0, 0);
    assert_eq!(r, Ok(Some(OrderId { side: Side::Bid, price_lots: 49, seq_num: 2 })));
}

#[test]
fn a_book_without_slots_rests_nothing() {
    let mut book = Orderbook::new(0);
    let mut queue = EventQueue::new(0);
    let mut a = Position::new(1000);
    let r = book.new_order(order(Side::Bid, 50, 1, OrderType::Limit), &mut queue, &mut a, &key(1), 0, 5);
    assert_eq!(r, Err(EngineError::BookFull));
    let r = book.new_order(order(Side::Bid, 50, 1, OrderType::ImmediateOrCancel), &mut queue, &mut a, &key(1), 0, 5);
    assert_eq!(r, Ok(None));
    assert_eq!(queue.seq_num(), 1);
    assert_eq!(queue.len(), 0);
    assert_eq!(book.next_seq(), 1);
}

#[test]
fn an_expired_maker_uses_up_a_step() {
    let mut book = Orderbook::new(4);
    let mut queue = EventQueue::new(16);
    let mut a = Position::new(1000);
    let mut b = Position::new(1000);
    let mut short = order(Side::Ask, 50, 2, OrderType::Limit);
    short.expiry = 10;
    book.new_order(short, &mut queue, &mut a, &key(1), 0, 10).unwrap();
    book.new_order(order(Side::Ask, 52, 2, OrderType::Limit), &mut queue, &mut a, &key(1), 0, 10).unwrap();
    let r = book.new_order(order(Side::Bid, 55, 1, OrderType::Limit), &mut queue, &mut b, &key(2), 10, 1);
    assert_eq!(r, Err(EngineError::ComputeLimitReached));
    assert_eq!(book.asks().len(), 2);
    let r = book.new_order(order(Side::Bid, 55, 1, OrderType::Limit), &mut queue, &mut b, &key(2), 10, 2);
    assert_eq!(r, Ok(None));
    assert_eq!(book.asks().len(), 1);
}

#[test]
fn replace_all_orders_fails_whole_on_a_self_trade_reject() {
    let mut book = Orderbook::new(4);
    let mut queue = EventQueue::new(32);
    let mut a = Position::new(1000);
    book.new_order(order(Side::Ask, 30, 1, OrderType::Limit), &mut queue, &mut a, &key(1), 0, 10).unwrap();
    let before = a;
    let mut crossing = order(Side::Ask, 100, 5, OrderType::Limit);
    crossing.self_trade = SelfTradePolicy::Reject;
    let batch = vec![order(Side::Bid, 100, 5, OrderType::Limit), crossing, order(Side::Bid, 90, 1, OrderType::Limit)];
    let r = book.replace_all_orders(&mut queue, &mut a, &key(1), &batch, 0, 10);
    assert_eq!(r, Err(EngineError::SelfTradeRejected));
    // the order that rested before the call still rests, and nothing of the batch does
    assert_eq!(book.asks().len(), 1);
    assert_eq!(book.asks().best().unwrap().id, OrderId { side: Side::Ask, price_lots: 30, seq_num: 0 });
    assert_eq!(book.bids().len(), 0);
    assert_eq!(book.next_seq(), 1);
    assert_eq!(queue.seq_num(), 0);
    assert_eq!(a, before);
}
