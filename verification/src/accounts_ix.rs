//! The accounts of operations whose work is done elsewhere: what each must
//! be handed, and how the accounts must agree before anything is done.

use vstd::prelude::*;
use crate::account::{Group, IxGate, MangoAccountFixed};
use crate::types::{AccountKey, EngineError};

verus! {

/// A spot market of the external order book program, as listed in a group.
#[derive(Clone, Copy, Debug, PartialEq, Eq, Structural)]
pub struct OpenbookV2Market {
    pub group: AccountKey,
    pub openbook_v2_program: AccountKey,
    pub openbook_v2_market_external: AccountKey,
}

/// A token bank of a group.
#[derive(Clone, Copy, Debug, PartialEq, Eq, Structural)]
pub struct Bank {
    pub group: AccountKey,
    pub vault: AccountKey,
    pub oracle: AccountKey,
}

/// The list of triggers of a margin account.
#[derive(Clone, Copy, Debug, PartialEq, Eq, Structural)]
pub struct Triggers {
    pub group: AccountKey,
    pub account: AccountKey,
}

/// The accounts for placing an order on the external order book.
#[derive(Clone, Copy, Debug, PartialEq, Eq, Structural)]
pub struct OpenbookV2PlaceOrder {
    pub group: Group,
    pub account: MangoAccountFixed,
    pub owner: AccountKey,
    pub open_orders: AccountKey,
    pub openbook_v2_market: OpenbookV2Market,
    pub openbook_v2_program: AccountKey,
    pub openbook_v2_market_external: AccountKey,
    pub market_bids: AccountKey,
    pub market_asks: AccountKey,
    pub market_event_queue: AccountKey,
    pub market_base_vault: AccountKey,
    pub market_quote_vault: AccountKey,
    pub market_vault_signer: AccountKey,
    pub payer_bank: Bank,
    pub payer_vault: AccountKey,
    pub payer_oracle: AccountKey,
    pub token_program: AccountKey,
}

impl OpenbookV2PlaceOrder {
    /// What holding the accounts against each other gives. In this order:
    /// `IxIsDisabled` if the group has the operation switched off;
    /// `AccountMismatch` if the margin account is of another group;
    /// `AccountIsFrozen` if it is frozen; `AccountMismatch` if the market
    /// is of another group, or the program or the external market handed
    /// in is not the market's, or the bank is of another group, or the
    /// oracle handed in is not the bank's.
    pub open spec fn checked(self) -> Result<(), EngineError> {
        if !self.group.enabled(IxGate::OpenbookV2PlaceOrder) {
            Err(EngineError::IxIsDisabled)
        } else if self.account.group != self.group.key {
            Err(EngineError::AccountMismatch)
        } else if self.account.frozen {
            Err(EngineError::AccountIsFrozen)
        } else if self.openbook_v2_market.group != self.group.key
            || self.openbook_v2_market.openbook_v2_program != self.openbook_v2_program
            || self.openbook_v2_market.openbook_v2_market_external
            != self.openbook_v2_market_external || self.payer_bank.group != self.group.key
            || self.payer_bank.oracle != self.payer_oracle {
            Err(EngineError::AccountMismatch)
        } else {
            Ok(())
        }
    }

    /// Holds the accounts against each other.
    pub fn check(&self) -> (r: Result<(), EngineError>)
        ensures
            r == self.checked(),
    {
        if !self.group.is_ix_enabled(IxGate::OpenbookV2PlaceOrder) {
            return Err(EngineError::IxIsDisabled);
        }
        if !(self.account.group == self.group.key) {
            return Err(EngineError::AccountMismatch);
        }
        if !self.account.is_operational() {
            return Err(EngineError::AccountIsFrozen);
        }
        let market: OpenbookV2Market = self.openbook_v2_market;
        if !(market.group == self.group.key) || !(market.openbook_v2_program
            == self.openbook_v2_program) || !(market.openbook_v2_market_external
            == self.openbook_v2_market_external) || !(self.payer_bank.group == self.group.key) || !(
        self.payer_bank.oracle == self.payer_oracle) {
            return Err(EngineError::AccountMismatch);
        }
        Ok(())
    }
}

/// The accounts for making a trigger.
#[derive(Clone, Copy, Debug, PartialEq, Eq, Structural)]
pub struct TriggerCreate {
    pub group: Group,
    pub account: MangoAccountFixed,
    pub triggers: Triggers,
    pub authority: AccountKey,
    pub payer: AccountKey,
    pub system_program: AccountKey,
}

impl TriggerCreate {
    /// What holding the accounts against each other gives:
    /// `AccountMismatch` unless the margin account and the trigger list are
    /// of the group and the list is the margin account's.
    pub open spec fn checked(self) -> Result<(), EngineError> {
        if self.account.group != self.group.key || self.triggers.group != self.group.key
            || self.triggers.account != self.account.key {
            Err(EngineError::AccountMismatch)
        } else {
            Ok(())
        }
    }

    /// Holds the accounts against each other.
    pub fn check(&self) -> (r: Result<(), EngineError>)
        ensures
            r == self.checked(),
    {
        if !(self.account.group == self.group.key) || !(self.triggers.group == self.group.key) || !(
        self.triggers.account == self.account.key) {
            return Err(EngineError::AccountMismatch);
        }
        Ok(())
    }
}

/// The accounts for checking a trigger and carrying it out.
#[derive(Clone, Copy, Debug, PartialEq, Eq, Structural)]
pub struct TriggerCheckAndExecute {
    pub group: Group,
    pub triggers: Triggers,
    pub triggerer: AccountKey,
    pub system_program: AccountKey,
}

impl TriggerCheckAndExecute {
    /// What holding the accounts against each other gives:
    /// `AccountMismatch` unless the trigger list is of the group.
    pub open spec fn checked(self) -> Result<(), EngineError> {
        if self.triggers.group != self.group.key {
            Err(EngineError::AccountMismatch)
        } else {
            Ok(())
        }
    }

    /// Holds the accounts against each other.
    pub fn check(&self) -> (r: Result<(), EngineError>)
        ensures
            r == self.checked(),
    {
        if !(self.triggers.group == self.group.key) {
            return Err(EngineError::AccountMismatch);
        }
        Ok(())
    }
}

} // verus!
