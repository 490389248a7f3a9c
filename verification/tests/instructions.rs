use mango_v4::account::{
    Group, IxGate, MangoAccount, MangoAccountFixed, PerpPosition, Serum3Orders, TokenPosition,
    FREE_SLOT,
};
use mango_v4::accounts_ix::{
    Bank, OpenbookV2Market, OpenbookV2PlaceOrder, TriggerCheckAndExecute, TriggerCreate, Triggers,
};
use mango_v4::event_queue::EventQueue;
use mango_v4::instructions::{
    account_close, perp_cancel_all_orders, perp_cancel_replace_all_orders,
    serum3_close_open_orders, AccountClose, PerpCancelAllOrders, PerpMarket, PerpPlaceOrder,
    Serum3CloseOpenOrders, Serum3Market,
};
use mango_v4::order::{Event, Order, OutReason, RestingOrder};
use mango_v4::orderbook::Orderbook;
use mango_v4::position::Position;
use mango_v4::types::{AccountKey, EngineError, OrderId, OrderType, SelfTradePolicy, Side};

fn key(n: u128) -> AccountKey {
    AccountKey { hi: 0, lo: n }
}

const GROUP: u128 = 100;
const OWNER: u128 = 1;
const DELEGATE: u128 = 2;
const ACCOUNT: u128 = 3;

fn group() -> Group {
    Group { key: key(GROUP), testing: false, ix_gate: 0 }
}

fn fixed() -> MangoAccountFixed {
    MangoAccountFixed {
        key: key(ACCOUNT),
        group: key(GROUP),
        owner: key(OWNER),
        delegate: key(DELEGATE),
        being_liquidated: false,
        frozen: false,
    }
}

fn free_perp() -> PerpPosition {
    PerpPosition { market_index: FREE_SLOT, position: Position::new(0) }
}

fn account() -> MangoAccount {
    MangoAccount {
        fixed: fixed(),
        tokens: vec![TokenPosition { token_index: FREE_SLOT, in_use_count: 0 }; 3],
        serum3: vec![Serum3Orders { market_index: FREE_SLOT, open_orders: key(0) }; 2],
        perps: vec![free_perp(); 2],
    }
}

fn market() -> PerpMarket {
    PerpMarket {
        group: key(GROUP),
        bids: key(10),
        asks: key(11),
        event_queue: key(12),
        perp_market_index: 4,
        settle_token_index: 0,
    }
}

fn order(side: Side, price: i64, size: i64) -> Order {
    Order {
        side,
        price_lots: price,
        max_base_lots: size,
        max_quote_lots: i64::MAX,
        order_type: OrderType::Limit,
        self_trade: SelfTradePolicy::DecrementTake,
        expiry: 0,
        client_order_id: 0,
    }
}

fn close_ctx() -> AccountClose {
    AccountClose { group: group(), account: account(), owner: key(OWNER), sol_destination: key(50), token_program: key(51) }
}

#[test]
fn account_close_passes_an_idle_account() {
    assert_eq!(account_close(&close_ctx()), Ok(()));
}

#[test]
fn account_close_refuses_each_in_turn() {
    let mut ctx = close_ctx();
    ctx.owner = key(DELEGATE);
    assert_eq!(account_close(&ctx), Err(EngineError::AccountMismatch));
    let mut ctx = close_ctx();
    ctx.account.fixed.group = key(7);
    assert_eq!(account_close(&ctx), Err(EngineError::AccountMismatch));
    let mut ctx = close_ctx();
    ctx.account.fixed.being_liquidated = true;
    ctx.account.tokens[0].token_index = 1;
    assert_eq!(account_close(&ctx), Err(EngineError::BeingLiquidated));
    let mut ctx = close_ctx();
    ctx.account.tokens[2].token_index = 1;
    assert_eq!(account_close(&ctx), Err(EngineError::PositionStillActive));
    let mut ctx = close_ctx();
    ctx.account.serum3[1].market_index = 0;
    assert_eq!(account_close(&ctx), Err(EngineError::PositionStillActive));
    let mut ctx = close_ctx();
    ctx.account.perps[0].market_index = 9;
    assert_eq!(account_close(&ctx), Err(EngineError::PositionStillActive));
}

#[test]
fn account_close_in_a_testing_group_skips_the_checks() {
    let mut ctx = close_ctx();
    ctx.group.testing = true;
    ctx.account.fixed.being_liquidated = true;
    ctx.account.perps[0].market_index = 9;
    assert_eq!(account_close(&ctx), Ok(()));
    ctx.owner = key(9);
    assert_eq!(account_close(&ctx), Err(EngineError::AccountMismatch));
}

fn place_ctx(capacity: usize) -> PerpPlaceOrder {
    PerpPlaceOrder {
        group: group(),
        account: account(),
        owner: key(OWNER),
        perp_market: market(),
        asks: key(11),
        bids: key(10),
        event_queue_key: key(12),
        book: Orderbook::new(capacity),
        event_queue: EventQueue::new(64),
        margin_limit_lots: 100,
    }
}

#[test]
fn replace_all_places_orders_and_returns_their_keys() {
    let mut ctx = place_ctx(4);
    let batch = vec![order(Side::Bid, 10, 2), order(Side::Ask, 20, 3), order(Side::Bid, 9, 0)];
    let keys = perp_cancel_replace_all_orders(&mut ctx, batch, 8, 0).unwrap();
    assert_eq!(
        keys,
        vec![
            Some(OrderId::new(Side::Bid, 10, 0).to_key()),
            Some(OrderId::new(Side::Ask, 20, 1).to_key()),
            None,
        ]
    );
    assert_eq!(keys[0], Some((((1u128 << 63) + 10) << 64) | u64::MAX as u128));
    assert_eq!(ctx.book.next_seq(), 3);
    assert_eq!(ctx.account.perps[0].market_index, 4);
    assert_eq!(
        ctx.account.perps[0].position,
        Position { base_lots: 0, quote_lots: 0, limit_lots: 100, orders_in_use: 2 }
    );
    assert_eq!(ctx.account.perps[1], free_perp());

    // a second batch takes the first off the book and goes on the same position
    let keys = perp_cancel_replace_all_orders(&mut ctx, vec![order(Side::Bid, 11, 1)], 8, 0).unwrap();
    assert_eq!(keys, vec![Some(OrderId::new(Side::Bid, 11, 3).to_key())]);
    assert_eq!(ctx.book.bids().iter_best_to_worst().len(), 1);
    assert_eq!(ctx.book.asks().len(), 0);
    assert_eq!(ctx.account.perps[0].position.orders_in_use, 1);
    assert_eq!(ctx.event_queue.len(), 2);
    assert_eq!(
        ctx.event_queue.get(0),
        Some(Event::Out {
            owner: key(ACCOUNT),
            order: OrderId::new(Side::Bid, 10, 0),
            quantity: 2,
            reason: OutReason::Cancelled,
        })
    );
}

#[test]
fn replace_all_goes_on_after_an_order_that_finds_no_room() {
    let mut ctx = place_ctx(1);
    let batch = vec![order(Side::Bid, 10, 2), order(Side::Bid, 9, 2), order(Side::Ask, 20, 1)];
    let keys = perp_cancel_replace_all_orders(&mut ctx, batch, 8, 0).unwrap();
    // the second finds its side full
    assert_eq!(
        keys,
        vec![
            Some(OrderId::new(Side::Bid, 10, 0).to_key()),
            None,
            Some(OrderId::new(Side::Ask, 20, 1).to_key()),
        ]
    );
}

#[test]
fn replace_all_goes_on_after_an_order_that_spends_the_match_budget() {
    let mut ctx = place_ctx(4);
    let mut other = Position::new(50);
    for price in [20, 21] {
        ctx.book.new_order(order(Side::Ask, price, 1), &mut ctx.event_queue, &mut other, &key(500), 0, 8).unwrap();
    }
    let batch = vec![order(Side::Bid, 30, 5), order(Side::Bid, 10, 1)];
    let keys = perp_cancel_replace_all_orders(&mut ctx, batch, 1, 0).unwrap();
    assert_eq!(keys, vec![None, Some(OrderId::new(Side::Bid, 10, 2).to_key())]);
    assert_eq!(ctx.book.asks().len(), 2);
}

#[test]
fn replace_all_hands_on_a_self_trade_reject_and_changes_nothing() {
    let mut ctx = place_ctx(4);
    let mut crossing = order(Side::Ask, 100, 5);
    crossing.self_trade = SelfTradePolicy::Reject;
    let batch = vec![order(Side::Bid, 100, 5), crossing];
    assert_eq!(perp_cancel_replace_all_orders(&mut ctx, batch, 10, 0), Err(EngineError::SelfTradeRejected));
    assert_eq!(ctx.book.bids().len(), 0);
    assert_eq!(ctx.book.asks().len(), 0);
    assert_eq!(ctx.book.next_seq(), 0);
    assert_eq!(ctx.event_queue.seq_num(), 0);
    assert_eq!(ctx.account.perps[0], free_perp());
}

#[test]
fn replace_all_hands_on_the_first_refusal_of_another_kind() {
    let mut ctx = place_ctx(4);
    perp_cancel_replace_all_orders(&mut ctx, vec![order(Side::Bid, 10, 2)], 8, 0).unwrap();
    let held = ctx.account.perps[0];
    let mut post_only = order(Side::Ask, 5, 1);
    post_only.order_type = OrderType::PostOnly;
    let mut crossing = order(Side::Ask, 5, 1);
    crossing.self_trade = SelfTradePolicy::Reject;
    // the post-only ask would cross the bid placed just before it
    let batch = vec![order(Side::Bid, 11, 2), post_only, crossing];
    assert_eq!(perp_cancel_replace_all_orders(&mut ctx, batch, 8, 0), Err(EngineError::InvalidOrderParameters));
    // the bid of the first call still rests: not even the cancel took place
    assert_eq!(ctx.book.bids().len(), 1);
    assert_eq!(ctx.book.bids().best().unwrap().id, OrderId::new(Side::Bid, 10, 0));
    assert_eq!(ctx.book.next_seq(), 1);
    assert_eq!(ctx.event_queue.len(), 0);
    assert_eq!(ctx.account.perps[0], held);
    let mut late = order(Side::Bid, 9, 1);
    late.expiry = 5;
    assert_eq!(
        perp_cancel_replace_all_orders(&mut ctx, vec![late], 8, 5),
        Err(EngineError::InvalidOrderParameters)
    );
    assert_eq!(
        perp_cancel_replace_all_orders(&mut ctx, vec![order(Side::Bid, 0, 1)], 8, 0),
        Err(EngineError::InvalidOrderParameters)
    );
}

#[test]
fn counters_without_room_refuse_the_operation() {
    let mut ctx = place_ctx(4);
    ctx.event_queue = EventQueue::restore(64, u64::MAX - 20, &vec![]).unwrap();
    // a cancel of up to 8 and one order with a budget of 8 may queue 8 + 17 events
    assert_eq!(
        perp_cancel_replace_all_orders(&mut ctx, vec![order(Side::Bid, 10, 2)], 8, 0),
        Err(EngineError::SequenceExhausted)
    );
    assert_eq!(ctx.account.perps[0], free_perp());
    assert!(perp_cancel_replace_all_orders(&mut ctx, vec![order(Side::Bid, 10, 2)], 5, 0).is_ok());
    let mut ctx = PerpCancelAllOrders {
        group: ctx.group,
        account: ctx.account,
        owner: ctx.owner,
        perp_market: ctx.perp_market,
        asks: ctx.asks,
        bids: ctx.bids,
        event_queue_key: ctx.event_queue_key,
        book: ctx.book,
        event_queue: EventQueue::restore(64, u64::MAX - 2, &vec![]).unwrap(),
    };
    assert_eq!(perp_cancel_all_orders(&mut ctx, 3), Err(EngineError::SequenceExhausted));
    assert_eq!(ctx.book.bids().len(), 1);
    assert_eq!(perp_cancel_all_orders(&mut ctx, 2), Ok(1));
    assert_eq!(ctx.event_queue.seq_num(), u64::MAX - 1);
}

#[test]
fn replace_all_is_refused_before_anything_changes() {
    let mut ctx = place_ctx(4);
    ctx.owner = key(77);
    assert_eq!(
        perp_cancel_replace_all_orders(&mut ctx, vec![order(Side::Bid, 10, 2)], 8, 0),
        Err(EngineError::Unauthorized)
    );
    let mut ctx = place_ctx(4);
    ctx.bids = key(99);
    assert_eq!(
        perp_cancel_replace_all_orders(&mut ctx, vec![order(Side::Bid, 10, 2)], 8, 0),
        Err(EngineError::AccountMismatch)
    );
    let mut ctx = place_ctx(4);
    ctx.owner = key(DELEGATE);
    assert_eq!(
        perp_cancel_replace_all_orders(&mut ctx, vec![order(Side::Bid, 10, 2), order(Side::Bid, 10, -2)], 8, 0),
        Err(EngineError::InvalidOrderParameters)
    );
    assert_eq!(ctx.book.next_seq(), 0);
    assert_eq!(ctx.account.perps[0], free_perp());
    let mut ctx = place_ctx(4);
    ctx.account.perps[0].market_index = 1;
    ctx.account.perps[1].market_index = 2;
    assert_eq!(
        perp_cancel_replace_all_orders(&mut ctx, vec![order(Side::Bid, 10, 2)], 8, 0),
        Err(EngineError::NoFreePosition)
    );
    assert_eq!(ctx.book.bids().len(), 0);
}

#[test]
fn cancel_all_takes_the_accounts_orders_only() {
    let mut place = place_ctx(4);
    perp_cancel_replace_all_orders(&mut place, vec![order(Side::Bid, 10, 2), order(Side::Ask, 20, 3)], 8, 0).unwrap();
    let mut other = Position::new(50);
    place
        .book
        .new_order(order(Side::Bid, 9, 1), &mut place.event_queue, &mut other, &key(500), 0, 8)
        .unwrap();
    let mut ctx = PerpCancelAllOrders {
        group: place.group,
        account: place.account,
        owner: key(DELEGATE),
        perp_market: place.perp_market,
        asks: place.asks,
        bids: place.bids,
        event_queue_key: place.event_queue_key,
        book: place.book,
        event_queue: place.event_queue,
    };
    ctx.owner = key(8);
    assert_eq!(perp_cancel_all_orders(&mut ctx, 1), Err(EngineError::Unauthorized));
    ctx.owner = key(DELEGATE);
    ctx.asks = key(1);
    assert_eq!(perp_cancel_all_orders(&mut ctx, 1), Err(EngineError::AccountMismatch));
    ctx.asks = key(11);
    assert_eq!(ctx.book.bids().len(), 2);
    assert_eq!(perp_cancel_all_orders(&mut ctx, 1), Ok(1));
    assert_eq!(ctx.book.bids().len(), 1);
    assert_eq!(ctx.book.asks().len(), 1);
    assert_eq!(ctx.account.perps[0].position.orders_in_use, 1);
    // fewer than the limit went, so no order of the account is left
    assert_eq!(perp_cancel_all_orders(&mut ctx, 5), Ok(1));
    assert_eq!(perp_cancel_all_orders(&mut ctx, 5), Ok(0));
    assert_eq!(ctx.book.asks().len(), 0);
    assert_eq!(ctx.book.bids().best().unwrap().owner, key(500));
    assert_eq!(ctx.account.perps[0].position.orders_in_use, 0);
    assert_eq!(ctx.event_queue.len(), 2);
}

fn serum_ctx() -> Serum3CloseOpenOrders {
    let mut account = account();
    account.tokens[0] = TokenPosition { token_index: 5, in_use_count: 2 };
    account.tokens[2] = TokenPosition { token_index: 6, in_use_count: 0 };
    account.serum3[1] = Serum3Orders { market_index: 3, open_orders: key(40) };
    Serum3CloseOpenOrders {
        group: group(),
        account,
        owner: key(OWNER),
        serum_market: Serum3Market {
            group: key(GROUP),
            serum_program: key(30),
            serum_market_external: key(31),
            market_index: 3,
            base_token_index: 5,
            quote_token_index: 6,
        },
        serum_program: key(30),
        serum_market_external: key(31),
        open_orders: key(40),
        sol_destination: key(41),
    }
}

#[test]
fn serum3_close_frees_the_row_and_releases_both_tokens() {
    let mut ctx = serum_ctx();
    assert_eq!(serum3_close_open_orders(&mut ctx), Ok(()));
    assert_eq!(ctx.account.tokens[0], TokenPosition { token_index: 5, in_use_count: 1 });
    assert_eq!(ctx.account.tokens[2], TokenPosition { token_index: 6, in_use_count: 0 });
    assert_eq!(ctx.account.serum3[1], Serum3Orders { market_index: FREE_SLOT, open_orders: key(0) });
    assert_eq!(serum3_close_open_orders(&mut ctx), Err(EngineError::PositionNotFound));
}

#[test]
fn serum3_close_with_one_token_on_both_sides_releases_it_twice() {
    let mut ctx = serum_ctx();
    ctx.serum_market.quote_token_index = 5;
    assert_eq!(serum3_close_open_orders(&mut ctx), Ok(()));
    assert_eq!(ctx.account.tokens[0].in_use_count, 0);
}

#[test]
fn serum3_close_refuses_each_in_turn() {
    let mut ctx = serum_ctx();
    ctx.serum_program = key(1);
    assert_eq!(serum3_close_open_orders(&mut ctx), Err(EngineError::AccountMismatch));
    let mut ctx = serum_ctx();
    ctx.owner = key(9);
    assert_eq!(serum3_close_open_orders(&mut ctx), Err(EngineError::Unauthorized));
    let mut ctx = serum_ctx();
    ctx.open_orders = key(9);
    assert_eq!(serum3_close_open_orders(&mut ctx), Err(EngineError::AccountMismatch));
    let mut ctx = serum_ctx();
    ctx.serum_market.base_token_index = 8;
    assert_eq!(serum3_close_open_orders(&mut ctx), Err(EngineError::PositionNotFound));
    assert_eq!(ctx.account.tokens[2].in_use_count, 0);
    assert_eq!(ctx.account.serum3[1].market_index, 3);
    let mut ctx = serum_ctx();
    ctx.serum_market.market_index = FREE_SLOT;
    assert_eq!(serum3_close_open_orders(&mut ctx), Err(EngineError::PositionNotFound));
}

#[test]
fn account_rows_are_found_by_index() {
    let mut a = account();
    a.tokens[1].token_index = 7;
    a.tokens[2].token_index = 7;
    a.perps[1].market_index = 3;
    assert_eq!(a.token_position_row(7), Some(1));
    assert_eq!(a.token_position_row(8), None);
    assert_eq!(a.token_position_row(FREE_SLOT), None);
    assert_eq!(a.perp_position_row(3), Some(1));
    assert_eq!(a.perp_row_to_use(3), Some(1));
    assert_eq!(a.perp_row_to_use(4), Some(0));
    assert_eq!(a.perp_row_to_use(FREE_SLOT), None);
    assert_eq!(a.serum3_orders_row(0), None);
    assert!(a.has_active_position());
    assert!(!account().has_active_position());
    assert!(a.fixed.is_owner_or_delegate(key(DELEGATE)));
    assert!(!a.fixed.is_owner_or_delegate(key(ACCOUNT)));
}

#[test]
fn group_gate_switches_operations_off() {
    let mut g = group();
    assert!(g.is_ix_enabled(IxGate::OpenbookV2PlaceOrder));
    g.ix_gate = 0b10;
    assert!(!g.is_ix_enabled(IxGate::OpenbookV2PlaceOrder));
    assert!(g.is_ix_enabled(IxGate::AccountClose));
    assert!(g.is_ix_enabled(IxGate::TriggerCreate));
    g.ix_gate = 1 << 6;
    assert!(!g.is_ix_enabled(IxGate::TriggerCreate));
}

fn openbook_ctx() -> OpenbookV2PlaceOrder {
    OpenbookV2PlaceOrder {
        group: group(),
        account: fixed(),
        owner: key(OWNER),
        open_orders: key(20),
        openbook_v2_market: OpenbookV2Market {
            group: key(GROUP),
            openbook_v2_program: key(21),
            openbook_v2_market_external: key(22),
        },
        openbook_v2_program: key(21),
        openbook_v2_market_external: key(22),
        market_bids: key(23),
        market_asks: key(24),
        market_event_queue: key(25),
        market_base_vault: key(26),
        market_quote_vault: key(27),
        market_vault_signer: key(28),
        payer_bank: Bank { group: key(GROUP), vault: key(29), oracle: key(30) },
        payer_vault: key(29),
        payer_oracle: key(30),
        token_program: key(31),
    }
}

#[test]
fn openbook_place_order_accounts_are_checked_in_order() {
    assert_eq!(openbook_ctx().check(), Ok(()));
    let mut ctx = openbook_ctx();
    ctx.group.ix_gate = 2;
    ctx.account.frozen = true;
    assert_eq!(ctx.check(), Err(EngineError::IxIsDisabled));
    ctx.group.ix_gate = 0;
    assert_eq!(ctx.check(), Err(EngineError::AccountIsFrozen));
    ctx.account.group = key(1);
    assert_eq!(ctx.check(), Err(EngineError::AccountMismatch));
    let mut ctx = openbook_ctx();
    ctx.payer_oracle = key(1);
    assert_eq!(ctx.check(), Err(EngineError::AccountMismatch));
    let mut ctx = openbook_ctx();
    ctx.openbook_v2_market_external = key(1);
    assert_eq!(ctx.check(), Err(EngineError::AccountMismatch));
}

#[test]
fn trigger_accounts_are_checked() {
    let triggers = Triggers { group: key(GROUP), account: key(ACCOUNT) };
    let create = TriggerCreate {
        group: group(),
        account: fixed(),
        triggers,
        authority: key(OWNER),
        payer: key(60),
        system_program: key(61),
    };
    assert_eq!(create.check(), Ok(()));
    let mut bad = create;
    bad.triggers.account = key(1);
    assert_eq!(bad.check(), Err(EngineError::AccountMismatch));
    let run = TriggerCheckAndExecute { group: group(), triggers, triggerer: key(62), system_program: key(61) };
    assert_eq!(run.check(), Ok(()));
    let mut bad = run;
    bad.triggers.group = key(1);
    assert_eq!(bad.check(), Err(EngineError::AccountMismatch));
}

#[test]
fn book_and_queue_are_restored_from_what_they_hold() {
    let a = RestingOrder {
        id: OrderId::new(Side::Bid, 10, 0),
        owner: key(1),
        quantity: 1,
        expiry: 0,
        client_order_id: 0,
        self_trade: SelfTradePolicy::DecrementTake,
    };
    let mut b = a;
    b.id = OrderId::new(Side::Bid, 12, 1);
    let mut c = a;
    c.id = OrderId::new(Side::Ask, 20, 2);
    let book = Orderbook::restore(2, &vec![a, b], &vec![c], 3).unwrap();
    assert_eq!(book.bids().iter_best_to_worst(), vec![b, a]);
    assert_eq!(book.asks().iter_best_to_worst(), vec![c]);
    assert_eq!(book.next_seq(), 3);
    assert!(Orderbook::restore(2, &vec![a, b], &vec![c], 2).is_none());
    assert!(Orderbook::restore(1, &vec![a, b], &vec![c], 3).is_none());
    assert!(Orderbook::restore(2, &vec![a, a], &vec![c], 3).is_none());
    assert!(Orderbook::restore(2, &vec![c], &vec![], 3).is_none());

    let e = Event::Out { owner: key(1), order: a.id, quantity: 1, reason: OutReason::Cancelled };
    let q = EventQueue::restore(4, 9, &vec![e, e]).unwrap();
    assert_eq!((q.len(), q.seq_num(), q.first_seq(), q.capacity()), (2, 9, 7, 4));
    assert_eq!(q.get(1), Some(e));
    assert!(EventQueue::restore(1, 9, &vec![e, e]).is_none());
    assert!(EventQueue::restore(4, 1, &vec![e, e]).is_none());
}
