//! The operations a signer can ask for, each on the accounts it names.
//!
//! An operation first holds the accounts against each other, then checks
//! that the signer may act, then does its work. A refused operation leaves
//! every account as it was.

use vstd::prelude::*;
use crate::account::{
    AccountView, Group, MangoAccount, PerpPosition, Serum3Orders, TokenPosition, FREE_SLOT,
};
use crate::event_queue::{EventQueue, QueueView};
use crate::order::Order;
use crate::orderbook::{replace, sweep, BookView, Orderbook};
use crate::position::Position;
use crate::types::{AccountKey, EngineError, OrderId};

verus! {

/// A perp market: the group it belongs to and the accounts that hold its
/// book and queue.
#[derive(Clone, Copy, Debug, PartialEq, Eq, Structural)]
pub struct PerpMarket {
    pub group: AccountKey,
    pub bids: AccountKey,
    pub asks: AccountKey,
    pub event_queue: AccountKey,
    pub perp_market_index: u16,
    pub settle_token_index: u16,
}

/// A spot market listed in a group.
#[derive(Clone, Copy, Debug, PartialEq, Eq, Structural)]
pub struct Serum3Market {
    pub group: AccountKey,
    pub serum_program: AccountKey,
    pub serum_market_external: AccountKey,
    pub market_index: u16,
    pub base_token_index: u16,
    pub quote_token_index: u16,
}

/// The accounts for closing a margin account.
pub struct AccountClose {
    pub group: Group,
    pub account: MangoAccount,
    pub owner: AccountKey,
    pub sol_destination: AccountKey,
    pub token_program: AccountKey,
}

/// Whether the account may be closed: it must belong to the group and to
/// the signer; unless the group is for testing it must not be under
/// liquidation and must hold no active position.
pub open spec fn may_close(group: Group, account: AccountView, owner: AccountKey) -> Result<
    (),
    EngineError,
> {
    if account.fixed.group != group.key || account.fixed.owner != owner {
        Err(EngineError::AccountMismatch)
    } else if group.testing {
        Ok(())
    } else if account.fixed.being_liquidated {
        Err(EngineError::BeingLiquidated)
    } else if account.has_active() {
        Err(EngineError::PositionStillActive)
    } else {
        Ok(())
    }
}

/// Checks that the account may be closed.
pub fn account_close(ctx: &AccountClose) -> (r: Result<(), EngineError>)
    ensures
        r == may_close(ctx.group, ctx.account@, ctx.owner),
{
    if !(ctx.account.fixed.group == ctx.group.key) || !(ctx.account.fixed.owner == ctx.owner) {
        return Err(EngineError::AccountMismatch);
    }
    if !ctx.group.is_testing() {
        if ctx.account.fixed.being_liquidated() {
            return Err(EngineError::BeingLiquidated);
        }
        if ctx.account.has_active_position() {
            return Err(EngineError::PositionStillActive);
        }
    }
    Ok(())
}

impl AccountView {
    /// The row that holds the perp position for the market, or the first
    /// free row if there is none yet, or the number of rows if there is
    /// neither.
    pub open spec fn perp_row_or_free(self, market_index: u16) -> int {
        if market_index == FREE_SLOT {
            self.perps.len() as int
        } else if self.perp_row(market_index) < self.perps.len() {
            self.perp_row(market_index)
        } else {
            self.free_perp_row()
        }
    }

    /// The position to trade on in `row`: the one the row holds if it is
    /// the market's, else a flat one; either with the margin limit given.
    pub open spec fn position_to_trade(self, row: int, market_index: u16, limit_lots: i64) -> Position {
        if self.perps[row].market_index == market_index {
            Position { limit_lots, ..self.perps[row].position }
        } else {
            Position { base_lots: 0, quote_lots: 0, limit_lots, orders_in_use: 0 }
        }
    }

    /// The account with `row` holding this position for the market.
    pub open spec fn with_perp(self, row: int, market_index: u16, position: Position) -> AccountView {
        AccountView { perps: self.perps.update(row, PerpPosition { market_index, position }), ..self }
    }
}

impl MangoAccount {
    /// The row to hold the perp position for the market: its own, or the
    /// first free one.
    pub fn perp_row_to_use(&self, market_index: u16) -> (r: Option<usize>)
        ensures
            match r {
                Some(row) => row == self@.perp_row_or_free(market_index) && row < self@.perps.len(),
                None => self@.perp_row_or_free(market_index) >= self@.perps.len(),
            },
    {
        if market_index == FREE_SLOT {
            return None;
        }
        match self.perp_position_row(market_index) {
            Some(row) => Some(row),
            None => {
                let mut i: usize = 0;
                while i < self.perps.len()
                    invariant
                        i <= self.perps@.len(),
                        market_index != FREE_SLOT,
                        self@.perp_row(market_index) >= self@.perps.len(),
                        forall|k: int| 0 <= k < i ==> #[trigger] self@.perp_indices()[k] != FREE_SLOT,
                    decreases self.perps@.len() - i,
                {
                    if self.perps[i].market_index == FREE_SLOT {
                        proof {
                            crate::account::lemma_first_index_is(
                                self@.perp_indices(),
                                FREE_SLOT,
                                i as int,
                            );
                        }
                        return Some(i);
                    }
                    i = i + 1;
                }
                proof {
                    crate::account::lemma_first_index_is(self@.perp_indices(), FREE_SLOT, i as int);
                }
                None
            },
        }
    }
}

/// The accounts for cancelling the signer's orders in a perp market.
pub struct PerpCancelAllOrders {
    pub group: Group,
    pub account: MangoAccount,
    pub owner: AccountKey,
    pub perp_market: PerpMarket,
    pub asks: AccountKey,
    pub bids: AccountKey,
    pub event_queue_key: AccountKey,
    pub book: Orderbook,
    pub event_queue: EventQueue,
}

/// The accounts of `PerpCancelAllOrders` as contracts see them.
pub struct CancelAllView {
    pub group: Group,
    pub account: AccountView,
    pub owner: AccountKey,
    pub perp_market: PerpMarket,
    pub asks: AccountKey,
    pub bids: AccountKey,
    pub event_queue_key: AccountKey,
    pub book: BookView,
    pub queue: QueueView,
}

impl View for PerpCancelAllOrders {
    type V = CancelAllView;

    open spec fn view(&self) -> CancelAllView {
        CancelAllView {
            group: self.group,
            account: self.account@,
            owner: self.owner,
            perp_market: self.perp_market,
            asks: self.asks,
            bids: self.bids,
            event_queue_key: self.event_queue_key,
            book: self.book@,
            queue: self.event_queue@,
        }
    }
}

/// Whether the account and the market belong to the group and the book and
/// queue handed in are the market's.
pub open spec fn market_accounts_agree(
    group: Group,
    account: AccountView,
    market: PerpMarket,
    bids: AccountKey,
    asks: AccountKey,
    event_queue: AccountKey,
) -> bool {
    &&& account.fixed.group == group.key
    &&& market.group == group.key
    &&& market.bids == bids
    &&& market.asks == asks
    &&& market.event_queue == event_queue
}

fn check_market_accounts(
    group: &Group,
    account: &MangoAccount,
    market: &PerpMarket,
    bids: &AccountKey,
    asks: &AccountKey,
    event_queue: &AccountKey,
) -> (r: bool)
    ensures
        r == market_accounts_agree(*group, account@, *market, *bids, *asks, *event_queue),
{
    account.fixed.group == group.key && market.group == group.key && market.bids == *bids && market.asks
        == *asks && market.event_queue == *event_queue
}

/// What `perp_cancel_all_orders` comes to. Refused, with nothing changed:
/// accounts that do not agree, with `AccountMismatch`; a signer that may
/// not act for the account, with `Unauthorized`; a queue whose counter has
/// no room for `limit` more events, with `SequenceExhausted`. Else up to
/// `limit` of the account's orders leave the book, best bids first, and
/// are counted off its position for the market, if it has one; the result
/// is how many went.
pub open spec fn cancelled_all(c: CancelAllView, limit: u8) -> (Result<u32, EngineError>, CancelAllView) {
    let market_index = c.perp_market.perp_market_index;
    let row = c.account.perp_row(market_index);
    let held = if row < c.account.perps.len() {
        c.account.perps[row].position
    } else {
        Position { base_lots: 0, quote_lots: 0, limit_lots: 0, orders_in_use: 0 }
    };
    let s = sweep(c.book, c.queue, held, Some(c.account.fixed.key), None, limit as nat);
    if !market_accounts_agree(c.group, c.account, c.perp_market, c.bids, c.asks, c.event_queue_key) {
        (Err(EngineError::AccountMismatch), c)
    } else if !c.account.fixed.acts_for(c.owner) {
        (Err(EngineError::Unauthorized), c)
    } else if c.queue.seq_num + limit > u64::MAX {
        (Err(EngineError::SequenceExhausted), c)
    } else {
        (
            Ok(s.removed.len() as u32),
            CancelAllView {
                account: if row < c.account.perps.len() {
                    c.account.with_perp(row, market_index, s.position)
                } else {
                    c.account
                },
                book: s.book,
                queue: s.queue,
                ..c
            },
        )
    }
}

/// Takes up to `limit` resting orders of the account off the market's book
/// and returns how many went: fewer than `limit` only if none is left.
pub fn perp_cancel_all_orders(ctx: &mut PerpCancelAllOrders, limit: u8) -> (r: Result<
    u32,
    EngineError,
>)
    requires
        old(ctx).book.wf(),
        old(ctx).event_queue.wf(),
    ensures
        final(ctx).book.wf(),
        final(ctx).event_queue.wf(),
        r == cancelled_all(old(ctx)@, limit).0,
        final(ctx)@ == cancelled_all(old(ctx)@, limit).1,
        r matches Ok(count) ==> count <= limit,
{
    if !check_market_accounts(
        &ctx.group,
        &ctx.account,
        &ctx.perp_market,
        &ctx.bids,
        &ctx.asks,
        &ctx.event_queue_key,
    ) {
        return Err(EngineError::AccountMismatch);
    }
    if !ctx.account.fixed.is_owner_or_delegate(ctx.owner) {
        return Err(EngineError::Unauthorized);
    }
    if ctx.event_queue.seq_num() > u64::MAX - limit as u64 {
        return Err(EngineError::SequenceExhausted);
    }
    let market_index: u16 = ctx.perp_market.perp_market_index;
    let owner: AccountKey = ctx.account.fixed.key;
    match ctx.account.perp_position_row(market_index) {
        Some(row) => {
            let mut position: Position = ctx.account.perps[row].position;
            let count: u32 = ctx.book.cancel_all_orders(
                &mut ctx.event_queue,
                &mut position,
                Some(owner),
                None,
                limit,
            );
            ctx.account.perps.set(row, PerpPosition { market_index, position });
            Ok(count)
        },
        None => {
            let mut none = Position::new(0);
            let count: u32 = ctx.book.cancel_all_orders(
                &mut ctx.event_queue,
                &mut none,
                Some(owner),
                None,
                limit,
            );
            Ok(count)
        },
    }
}

/// The accounts for placing orders in a perp market, with the largest base
/// position the account's margin was found to carry.
pub struct PerpPlaceOrder {
    pub group: Group,
    pub account: MangoAccount,
    pub owner: AccountKey,
    pub perp_market: PerpMarket,
    pub asks: AccountKey,
    pub bids: AccountKey,
    pub event_queue_key: AccountKey,
    pub book: Orderbook,
    pub event_queue: EventQueue,
    pub margin_limit_lots: i64,
}

/// The accounts of `PerpPlaceOrder` as contracts see them.
pub struct PlaceView {
    pub group: Group,
    pub account: AccountView,
    pub owner: AccountKey,
    pub perp_market: PerpMarket,
    pub asks: AccountKey,
    pub bids: AccountKey,
    pub event_queue_key: AccountKey,
    pub book: BookView,
    pub queue: QueueView,
    pub margin_limit_lots: i64,
}

impl View for PerpPlaceOrder {
    type V = PlaceView;

    open spec fn view(&self) -> PlaceView {
        PlaceView {
            group: self.group,
            account: self.account@,
            owner: self.owner,
            perp_market: self.perp_market,
            asks: self.asks,
            bids: self.bids,
            event_queue_key: self.event_queue_key,
            book: self.book@,
            queue: self.event_queue@,
            margin_limit_lots: self.margin_limit_lots,
        }
    }
}

/// The sort keys of the identifiers, entry by entry.
pub open spec fn keys_of(ids: Seq<Option<OrderId>>) -> Seq<Option<u128>> {
    Seq::new(
        ids.len(),
        |i: int|
            match ids[i] {
                Some(id) => Some(id.key() as u128),
                None => None,
            },
    )
}

/// Whether the counters of the book and of the queue have room for a
/// bulk cancel of `limit` orders and a batch of `orders` orders, each with
/// `limit` as its match budget.
pub open spec fn counters_have_room(book: BookView, queue: QueueView, orders: nat, limit: u8) -> bool {
    book.next_seq + orders <= u64::MAX && queue.seq_num + limit + orders * (2 * limit + 1)
        <= u64::MAX
}

/// What `perp_cancel_replace_all_orders` comes to.
///
/// Refused, with nothing changed: accounts that do not agree, with
/// `AccountMismatch`; a signer that may not act for the account, with
/// `Unauthorized`; an account with no position for the market and no free
/// row for one, with `NoFreePosition`; counters without room for the
/// batch, with `SequenceExhausted`; and a batch of which an order is
/// refused for another reason than a full side or a spent match budget,
/// with the refusal of the first such order.
///
/// Else the account's position for the market, made if need be, takes the
/// margin limit; the account's resting orders are replaced by the batch;
/// and the result holds, for each order of the batch, the sort key it rests
/// under, if it rests.
pub open spec fn replaced_all(c: PlaceView, orders: Seq<Order>, limit: u8, now_ts: u64) -> (
    Result<Seq<Option<u128>>, EngineError>,
    PlaceView,
) {
    let market_index = c.perp_market.perp_market_index;
    let row = c.account.perp_row_or_free(market_index);
    let done = replace(
        c.book,
        c.queue,
        c.account.position_to_trade(row, market_index, c.margin_limit_lots),
        c.account.fixed.key,
        orders,
        now_ts,
        limit,
    );
    if !market_accounts_agree(c.group, c.account, c.perp_market, c.bids, c.asks, c.event_queue_key) {
        (Err(EngineError::AccountMismatch), c)
    } else if !c.account.fixed.acts_for(c.owner) {
        (Err(EngineError::Unauthorized), c)
    } else if row >= c.account.perps.len() {
        (Err(EngineError::NoFreePosition), c)
    } else if !counters_have_room(c.book, c.queue, orders.len(), limit) {
        (Err(EngineError::SequenceExhausted), c)
    } else {
        match done.result {
            Err(error) => (Err(error), c),
            Ok(ids) => (
                Ok(keys_of(ids)),
                PlaceView {
                    account: c.account.with_perp(row, market_index, done.position),
                    book: done.book,
                    queue: done.queue,
                    ..c
                },
            ),
        }
    }
}

fn have_room(book: &Orderbook, queue: &EventQueue, orders: usize, limit: u8) -> (r: bool)
    ensures
        r == counters_have_room(book@, queue@, orders as nat, limit),
{
    let count: u128 = orders as u128;
    let room: u128 = 2 * (limit as u128) + 1;
    assert(count * room <= 0xffff_ffff_ffff_ffff * 511) by (nonlinear_arith)
        requires
            0 <= count <= 0xffff_ffff_ffff_ffff,
            0 <= room <= 511,
    ;
    book.next_seq() as u128 + count <= u64::MAX as u128 && queue.seq_num() as u128 + limit as u128
        + count * room <= u64::MAX as u128
}

fn sort_keys(ids: &Vec<Option<OrderId>>) -> (keys: Vec<Option<u128>>)
    ensures
        keys@ == keys_of(ids@),
{
    let mut keys: Vec<Option<u128>> = Vec::new();
    let mut i: usize = 0;
    while i < ids.len()
        invariant
            i <= ids@.len(),
            keys@.len() == i,
            forall|k: int| 0 <= k < i ==> #[trigger] keys@[k] == keys_of(ids@)[k],
        decreases ids@.len() - i,
    {
        let key: Option<u128> = match ids[i] {
            Some(id) => Some(id.to_key()),
            None => None,
        };
        keys.push(key);
        i = i + 1;
    }
    keys
}

/// Replaces the account's resting orders in the market by `orders`.
pub fn perp_cancel_replace_all_orders(
    ctx: &mut PerpPlaceOrder,
    orders: Vec<Order>,
    limit: u8,
    now_ts: u64,
) -> (r: Result<Vec<Option<u128>>, EngineError>)
    requires
        old(ctx).book.wf(),
        old(ctx).event_queue.wf(),
    ensures
        final(ctx).book.wf(),
        final(ctx).event_queue.wf(),
        match r {
            Ok(keys) => replaced_all(old(ctx)@, orders@, limit, now_ts).0 == Ok::<
                Seq<Option<u128>>,
                EngineError,
            >(keys@),
            Err(e) => replaced_all(old(ctx)@, orders@, limit, now_ts).0 == Err::<
                Seq<Option<u128>>,
                EngineError,
            >(e),
        },
        final(ctx)@ == replaced_all(old(ctx)@, orders@, limit, now_ts).1,
{
    if !check_market_accounts(
        &ctx.group,
        &ctx.account,
        &ctx.perp_market,
        &ctx.bids,
        &ctx.asks,
        &ctx.event_queue_key,
    ) {
        return Err(EngineError::AccountMismatch);
    }
    if !ctx.account.fixed.is_owner_or_delegate(ctx.owner) {
        return Err(EngineError::Unauthorized);
    }
    let market_index: u16 = ctx.perp_market.perp_market_index;
    let row: usize = match ctx.account.perp_row_to_use(market_index) {
        Some(row) => row,
        None => {
            return Err(EngineError::NoFreePosition);
        },
    };
    if !have_room(&ctx.book, &ctx.event_queue, orders.len(), limit) {
        return Err(EngineError::SequenceExhausted);
    }
    let held: PerpPosition = ctx.account.perps[row];
    let mut position: Position = if held.market_index == market_index {
        Position {
            base_lots: held.position.base_lots,
            quote_lots: held.position.quote_lots,
            limit_lots: ctx.margin_limit_lots,
            orders_in_use: held.position.orders_in_use,
        }
    } else {
        Position::new(ctx.margin_limit_lots)
    };
    let owner: AccountKey = ctx.account.fixed.key;
    match ctx.book.replace_all_orders(
        &mut ctx.event_queue,
        &mut position,
        &owner,
        &orders,
        now_ts,
        limit,
    ) {
        Ok(ids) => {
            ctx.account.perps.set(row, PerpPosition { market_index, position });
            Ok(sort_keys(&ids))
        },
        Err(e) => Err(e),
    }
}

/// The accounts for closing a spot open-orders account.
pub struct Serum3CloseOpenOrders {
    pub group: Group,
    pub account: MangoAccount,
    pub owner: AccountKey,
    pub serum_market: Serum3Market,
    pub serum_program: AccountKey,
    pub serum_market_external: AccountKey,
    pub open_orders: AccountKey,
    pub sol_destination: AccountKey,
}

/// The accounts of `Serum3CloseOpenOrders` as contracts see them.
pub struct CloseOpenOrdersView {
    pub group: Group,
    pub account: AccountView,
    pub owner: AccountKey,
    pub serum_market: Serum3Market,
    pub serum_program: AccountKey,
    pub serum_market_external: AccountKey,
    pub open_orders: AccountKey,
    pub sol_destination: AccountKey,
}

impl View for Serum3CloseOpenOrders {
    type V = CloseOpenOrdersView;

    open spec fn view(&self) -> CloseOpenOrdersView {
        CloseOpenOrdersView {
            group: self.group,
            account: self.account@,
            owner: self.owner,
            serum_market: self.serum_market,
            serum_program: self.serum_program,
            serum_market_external: self.serum_market_external,
            open_orders: self.open_orders,
            sol_destination: self.sol_destination,
        }
    }
}

/// The token rows with one use fewer counted on `row`, never below zero.
pub open spec fn released(tokens: Seq<TokenPosition>, row: int) -> Seq<TokenPosition> {
    tokens.update(
        row,
        TokenPosition {
            token_index: tokens[row].token_index,
            in_use_count: if tokens[row].in_use_count > 0 {
                (tokens[row].in_use_count - 1) as u16
            } else {
                0
            },
        },
    )
}

/// What a spot row holds once it is given up.
pub open spec fn vacant_serum3() -> Serum3Orders {
    Serum3Orders { market_index: FREE_SLOT, open_orders: AccountKey { hi: 0, lo: 0 } }
}

/// What `serum3_close_open_orders` comes to.
///
/// Refused, with nothing changed: accounts that do not agree, or an
/// open-orders account that is not the one the margin account holds for the
/// market, with `AccountMismatch`; a signer that may not act for the
/// account, with `Unauthorized`; an account without a row for the market,
/// or without a token position for its base or its quote token, with
/// `PositionNotFound`.
///
/// Else the base and the quote token position each count one use fewer,
/// and the row for the market is given up.
pub open spec fn closed_open_orders(c: CloseOpenOrdersView) -> (
    Result<(), EngineError>,
    CloseOpenOrdersView,
) {
    let a = c.account;
    let m = c.serum_market;
    let row = a.serum3_row(m.market_index);
    let base = a.token_row(m.base_token_index);
    let quote = a.token_row(m.quote_token_index);
    if a.fixed.group != c.group.key || m.group != c.group.key || m.serum_program != c.serum_program
        || m.serum_market_external != c.serum_market_external {
        (Err(EngineError::AccountMismatch), c)
    } else if !a.fixed.acts_for(c.owner) {
        (Err(EngineError::Unauthorized), c)
    } else if row >= a.serum3.len() {
        (Err(EngineError::PositionNotFound), c)
    } else if a.serum3[row].open_orders != c.open_orders {
        (Err(EngineError::AccountMismatch), c)
    } else if base >= a.tokens.len() || quote >= a.tokens.len() {
        (Err(EngineError::PositionNotFound), c)
    } else {
        (
            Ok(()),
            CloseOpenOrdersView {
                account: AccountView {
                    tokens: released(released(a.tokens, base), quote),
                    serum3: a.serum3.update(row, vacant_serum3()),
                    ..a
                },
                ..c
            },
        )
    }
}

fn release(tokens: &mut Vec<TokenPosition>, row: usize)
    requires
        row < old(tokens)@.len(),
    ensures
        final(tokens)@ == released(old(tokens)@, row as int),
{
    let held: TokenPosition = tokens[row];
    tokens.set(
        row,
        TokenPosition {
            token_index: held.token_index,
            in_use_count: held.in_use_count.saturating_sub(1),
        },
    );
}

/// Gives up the account's open-orders account for a spot market, once the
/// market's program has closed it.
pub fn serum3_close_open_orders(ctx: &mut Serum3CloseOpenOrders) -> (r: Result<(), EngineError>)
    ensures
        r == closed_open_orders(old(ctx)@).0,
        final(ctx)@ == closed_open_orders(old(ctx)@).1,
{
    let market: Serum3Market = ctx.serum_market;
    if !(ctx.account.fixed.group == ctx.group.key) || !(market.group == ctx.group.key) || !(
    market.serum_program == ctx.serum_program) || !(market.serum_market_external
        == ctx.serum_market_external) {
        return Err(EngineError::AccountMismatch);
    }
    if !ctx.account.fixed.is_owner_or_delegate(ctx.owner) {
        return Err(EngineError::Unauthorized);
    }
    let row: usize = match ctx.account.serum3_orders_row(market.market_index) {
        Some(row) => row,
        None => {
            return Err(EngineError::PositionNotFound);
        },
    };
    if !(ctx.account.serum3[row].open_orders == ctx.open_orders) {
        return Err(EngineError::AccountMismatch);
    }
    let base: usize = match ctx.account.token_position_row(market.base_token_index) {
        Some(row) => row,
        None => {
            return Err(EngineError::PositionNotFound);
        },
    };
    let quote: usize = match ctx.account.token_position_row(market.quote_token_index) {
        Some(row) => row,
        None => {
            return Err(EngineError::PositionNotFound);
        },
    };
    release(&mut ctx.account.tokens, base);
    release(&mut ctx.account.tokens, quote);
    ctx.account.serum3.set(
        row,
        Serum3Orders { market_index: FREE_SLOT, open_orders: AccountKey { hi: 0, lo: 0 } },
    );
    Ok(())
}

} // verus!
