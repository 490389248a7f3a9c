//! The margin account as the engine reads it: who may act for it, and its
//! fixed rows of token, spot and perp positions.

use vstd::prelude::*;
use crate::position::Position;
use crate::types::AccountKey;

verus! {

/// The index that marks a row as free.
pub const FREE_SLOT: u16 = 0xffff;

/// An operation a group can switch off.
#[derive(Clone, Copy, Debug, PartialEq, Eq, Structural)]
pub enum IxGate {
    AccountClose,
    OpenbookV2PlaceOrder,
    PerpCancelAllOrders,
    PerpPlaceOrder,
    Serum3CloseOpenOrders,
    TriggerCheckAndExecute,
    TriggerCreate,
}

impl IxGate {
    /// The bit of the group's gate that stands for the operation.
    pub open spec fn bit(self) -> u32 {
        match self {
            IxGate::AccountClose => 0,
            IxGate::OpenbookV2PlaceOrder => 1,
            IxGate::PerpCancelAllOrders => 2,
            IxGate::PerpPlaceOrder => 3,
            IxGate::Serum3CloseOpenOrders => 4,
            IxGate::TriggerCheckAndExecute => 5,
            IxGate::TriggerCreate => 6,
        }
    }

    /// The bit of the group's gate that stands for the operation.
    pub fn bit_index(self) -> (r: u32)
        ensures
            r == self.bit(),
            r < 128,
    {
        match self {
            IxGate::AccountClose => 0,
            IxGate::OpenbookV2PlaceOrder => 1,
            IxGate::PerpCancelAllOrders => 2,
            IxGate::PerpPlaceOrder => 3,
            IxGate::Serum3CloseOpenOrders => 4,
            IxGate::TriggerCheckAndExecute => 5,
            IxGate::TriggerCreate => 6,
        }
    }
}

/// A group of markets and accounts.
#[derive(Clone, Copy, Debug, PartialEq, Eq, Structural)]
pub struct Group {
    pub key: AccountKey,
    /// A group set up for testing skips the checks on closing an account.
    pub testing: bool,
    /// One bit for each operation; a set bit switches the operation off.
    pub ix_gate: u128,
}

impl Group {
    /// Whether the group has the operation switched on.
    pub open spec fn enabled(self, ix: IxGate) -> bool {
        (self.ix_gate >> (ix.bit() as u128)) & 1 == 0
    }

    /// Whether the group is set up for testing.
    pub fn is_testing(&self) -> (r: bool)
        ensures
            r == self.testing,
    {
        self.testing
    }

    /// Whether the group has the operation switched on.
    pub fn is_ix_enabled(&self, ix: IxGate) -> (r: bool)
        ensures
            r == self.enabled(ix),
    {
        let bit: u32 = ix.bit_index();
        (self.ix_gate >> (bit as u128)) & 1 == 0
    }
}

/// The head of a margin account: where it lives, what it belongs to and
/// who may act for it.
#[derive(Clone, Copy, Debug, PartialEq, Eq, Structural)]
pub struct MangoAccountFixed {
    pub key: AccountKey,
    pub group: AccountKey,
    pub owner: AccountKey,
    pub delegate: AccountKey,
    pub being_liquidated: bool,
    pub frozen: bool,
}

impl MangoAccountFixed {
    /// Whether `key` may act for the account.
    pub open spec fn acts_for(self, key: AccountKey) -> bool {
        self.owner == key || self.delegate == key
    }

    /// Whether `key` may act for the account.
    pub fn is_owner_or_delegate(&self, key: AccountKey) -> (r: bool)
        ensures
            r == self.acts_for(key),
    {
        self.owner == key || self.delegate == key
    }

    /// Whether the account is under liquidation.
    pub fn being_liquidated(&self) -> (r: bool)
        ensures
            r == self.being_liquidated,
    {
        self.being_liquidated
    }

    /// Whether the account may be used at all.
    pub fn is_operational(&self) -> (r: bool)
        ensures
            r == !self.frozen,
    {
        !self.frozen
    }
}

/// A row of the account's token positions.
#[derive(Clone, Copy, Debug, PartialEq, Eq, Structural)]
pub struct TokenPosition {
    pub token_index: u16,
    /// How many open-orders accounts and perp orders keep the row open.
    pub in_use_count: u16,
}

/// A row of the account's spot open-orders accounts.
#[derive(Clone, Copy, Debug, PartialEq, Eq, Structural)]
pub struct Serum3Orders {
    pub market_index: u16,
    pub open_orders: AccountKey,
}

/// A row of the account's perp positions.
#[derive(Clone, Copy, Debug, PartialEq, Eq, Structural)]
pub struct PerpPosition {
    pub market_index: u16,
    pub position: Position,
}

impl TokenPosition {
    /// Whether the row is in use.
    pub open spec fn active(self) -> bool {
        self.token_index != FREE_SLOT
    }

    /// Whether the row is in use.
    pub fn is_active(&self) -> (r: bool)
        ensures
            r == self.active(),
    {
        self.token_index != FREE_SLOT
    }
}

impl Serum3Orders {
    /// Whether the row is in use.
    pub open spec fn active(self) -> bool {
        self.market_index != FREE_SLOT
    }

    /// Whether the row is in use.
    pub fn is_active(&self) -> (r: bool)
        ensures
            r == self.active(),
    {
        self.market_index != FREE_SLOT
    }
}

impl PerpPosition {
    /// Whether the row is in use.
    pub open spec fn active(self) -> bool {
        self.market_index != FREE_SLOT
    }

    /// Whether the row is in use.
    pub fn is_active(&self) -> (r: bool)
        ensures
            r == self.active(),
    {
        self.market_index != FREE_SLOT
    }
}

/// A margin account.
pub struct MangoAccount {
    pub fixed: MangoAccountFixed,
    pub tokens: Vec<TokenPosition>,
    pub serum3: Vec<Serum3Orders>,
    pub perps: Vec<PerpPosition>,
}

/// The account as contracts see it.
pub struct AccountView {
    pub fixed: MangoAccountFixed,
    pub tokens: Seq<TokenPosition>,
    pub serum3: Seq<Serum3Orders>,
    pub perps: Seq<PerpPosition>,
}

impl View for MangoAccount {
    type V = AccountView;

    open spec fn view(&self) -> AccountView {
        AccountView {
            fixed: self.fixed,
            tokens: self.tokens@,
            serum3: self.serum3@,
            perps: self.perps@,
        }
    }
}

/// The first place in `indices` that holds `index`, or the length if none
/// does.
pub open spec fn first_index(indices: Seq<u16>, index: u16) -> int
    decreases indices.len(),
{
    if indices.len() == 0 || indices[0] == index {
        0
    } else {
        1 + first_index(indices.skip(1), index)
    }
}

/// A place that holds the index, with none before it that does, is the
/// first such place.
pub proof fn lemma_first_index_is(indices: Seq<u16>, index: u16, at: int)
    requires
        0 <= at <= indices.len(),
        forall|i: int| 0 <= i < at ==> #[trigger] indices[i] != index,
        at < indices.len() ==> indices[at] == index,
    ensures
        first_index(indices, index) == at,
    decreases indices.len(),
{
    if at > 0 {
        let rest = indices.skip(1);
        lemma_first_index_is(rest, index, at - 1);
    }
}

/// The first place holding the index is a place or the length; if a place,
/// it holds the index; no place before it does.
pub proof fn lemma_first_index(indices: Seq<u16>, index: u16)
    ensures
        0 <= first_index(indices, index) <= indices.len(),
        first_index(indices, index) < indices.len() ==> indices[first_index(indices, index)]
            == index,
        forall|i: int| 0 <= i < first_index(indices, index) ==> #[trigger] indices[i] != index,
    decreases indices.len(),
{
    if indices.len() == 0 || indices[0] == index {
    } else {
        let rest = indices.skip(1);
        lemma_first_index(rest, index);
        let at = first_index(rest, index);
        assert forall|i: int| 0 <= i < at + 1 implies #[trigger] indices[i] != index by {
            if i > 0 {
                assert(rest[i - 1] == indices[i]);
            }
        }
    }
}

impl AccountView {
    /// The token index of each token row.
    pub open spec fn token_indices(self) -> Seq<u16> {
        Seq::new(self.tokens.len(), |i: int| self.tokens[i].token_index)
    }

    /// The market index of each spot row.
    pub open spec fn serum3_indices(self) -> Seq<u16> {
        Seq::new(self.serum3.len(), |i: int| self.serum3[i].market_index)
    }

    /// The market index of each perp row.
    pub open spec fn perp_indices(self) -> Seq<u16> {
        Seq::new(self.perps.len(), |i: int| self.perps[i].market_index)
    }

    /// Whether any row of any kind is in use.
    pub open spec fn has_active(self) -> bool {
        ||| exists|i: int| 0 <= i < self.tokens.len() && (#[trigger] self.tokens[i]).active()
        ||| exists|i: int| 0 <= i < self.serum3.len() && (#[trigger] self.serum3[i]).active()
        ||| exists|i: int| 0 <= i < self.perps.len() && (#[trigger] self.perps[i]).active()
    }

    /// The row of the active token position with this index, or the number
    /// of rows if there is none.
    pub open spec fn token_row(self, token_index: u16) -> int {
        if token_index == FREE_SLOT {
            self.tokens.len() as int
        } else {
            first_index(self.token_indices(), token_index)
        }
    }

    /// The row of the spot open-orders account for this market, or the
    /// number of rows if there is none.
    pub open spec fn serum3_row(self, market_index: u16) -> int {
        if market_index == FREE_SLOT {
            self.serum3.len() as int
        } else {
            first_index(self.serum3_indices(), market_index)
        }
    }

    /// The row of the perp position for this market, or the number of rows
    /// if there is none.
    pub open spec fn perp_row(self, market_index: u16) -> int {
        if market_index == FREE_SLOT {
            self.perps.len() as int
        } else {
            first_index(self.perp_indices(), market_index)
        }
    }

    /// The first free perp row, or the number of rows if all are in use.
    pub open spec fn free_perp_row(self) -> int {
        first_index(self.perp_indices(), FREE_SLOT)
    }
}

impl MangoAccount {
    /// Whether any token, spot or perp row is in use.
    pub fn has_active_position(&self) -> (r: bool)
        ensures
            r == self@.has_active(),
    {
        let mut i: usize = 0;
        while i < self.tokens.len()
            invariant
                i <= self.tokens@.len(),
                forall|k: int| 0 <= k < i ==> !(#[trigger] self.tokens@[k]).active(),
            decreases self.tokens@.len() - i,
        {
            if self.tokens[i].is_active() {
                assert(self@.tokens[i as int].active());
                return true;
            }
            i = i + 1;
        }
        let mut j: usize = 0;
        while j < self.serum3.len()
            invariant
                j <= self.serum3@.len(),
                forall|k: int| 0 <= k < self.tokens@.len() ==> !(#[trigger] self.tokens@[k]).active(),
                forall|k: int| 0 <= k < j ==> !(#[trigger] self.serum3@[k]).active(),
            decreases self.serum3@.len() - j,
        {
            if self.serum3[j].is_active() {
                assert(self@.serum3[j as int].active());
                return true;
            }
            j = j + 1;
        }
        let mut n: usize = 0;
        while n < self.perps.len()
            invariant
                n <= self.perps@.len(),
                forall|k: int| 0 <= k < self.tokens@.len() ==> !(#[trigger] self.tokens@[k]).active(),
                forall|k: int| 0 <= k < self.serum3@.len() ==> !(#[trigger] self.serum3@[k]).active(),
                forall|k: int| 0 <= k < n ==> !(#[trigger] self.perps@[k]).active(),
            decreases self.perps@.len() - n,
        {
            if self.perps[n].is_active() {
                assert(self@.perps[n as int].active());
                return true;
            }
            n = n + 1;
        }
        false
    }

    /// The row of the active token position with this index.
    pub fn token_position_row(&self, token_index: u16) -> (r: Option<usize>)
        ensures
            match r {
                Some(row) => row == self@.token_row(token_index) && row < self@.tokens.len(),
                None => self@.token_row(token_index) >= self@.tokens.len(),
            },
    {
        if token_index == FREE_SLOT {
            return None;
        }
        let mut i: usize = 0;
        while i < self.tokens.len()
            invariant
                i <= self.tokens@.len(),
                token_index != FREE_SLOT,
                forall|k: int| 0 <= k < i ==> #[trigger] self@.token_indices()[k] != token_index,
            decreases self.tokens@.len() - i,
        {
            if self.tokens[i].token_index == token_index {
                proof {
                    lemma_first_index_is(self@.token_indices(), token_index, i as int);
                }
                return Some(i);
            }
            i = i + 1;
        }
        proof {
            lemma_first_index_is(self@.token_indices(), token_index, i as int);
        }
        None
    }

    /// The row of the spot open-orders account for this market.
    pub fn serum3_orders_row(&self, market_index: u16) -> (r: Option<usize>)
        ensures
            match r {
                Some(row) => row == self@.serum3_row(market_index) && row < self@.serum3.len(),
                None => self@.serum3_row(market_index) >= self@.serum3.len(),
            },
    {
        if market_index == FREE_SLOT {
            return None;
        }
        let mut i: usize = 0;
        while i < self.serum3.len()
            invariant
                i <= self.serum3@.len(),
                market_index != FREE_SLOT,
                forall|k: int| 0 <= k < i ==> #[trigger] self@.serum3_indices()[k] != market_index,
            decreases self.serum3@.len() - i,
        {
            if self.serum3[i].market_index == market_index {
                proof {
                    lemma_first_index_is(self@.serum3_indices(), market_index, i as int);
                }
                return Some(i);
            }
            i = i + 1;
        }
        proof {
            lemma_first_index_is(self@.serum3_indices(), market_index, i as int);
        }
        None
    }

    fn perp_row_holding(&self, index: u16) -> (r: Option<usize>)
        ensures
            match r {
                Some(row) => row == first_index(self@.perp_indices(), index) && row < self@.perps.len(),
                None => first_index(self@.perp_indices(), index) >= self@.perps.len(),
            },
    {
        let mut i: usize = 0;
        while i < self.perps.len()
            invariant
                i <= self.perps@.len(),
                forall|k: int| 0 <= k < i ==> #[trigger] self@.perp_indices()[k] != index,
            decreases self.perps@.len() - i,
        {
            if self.perps[i].market_index == index {
                proof {
                    lemma_first_index_is(self@.perp_indices(), index, i as int);
                }
                return Some(i);
            }
            i = i + 1;
        }
        proof {
            lemma_first_index_is(self@.perp_indices(), index, i as int);
        }
        None
    }

    /// The row of the perp position for this market.
    pub fn perp_position_row(&self, market_index: u16) -> (r: Option<usize>)
        ensures
            match r {
                Some(row) => row == self@.perp_row(market_index) && row < self@.perps.len(),
                None => self@.perp_row(market_index) >= self@.perps.len(),
            },
    {
        if market_index == FREE_SLOT {
            return None;
        }
        self.perp_row_holding(market_index)
    }
}

} // verus!
