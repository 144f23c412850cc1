//! Per-client account state: available and held balances and the
//! dispute-lifecycle status.

use vstd::prelude::*;

verus! {

/// Dispute-lifecycle status of an account.  `Locked` and `UnderDispute` are
/// mutually exclusive: a chargeback moves an account straight to `Locked`.
#[derive(Clone, Copy, Debug, PartialEq, Eq, Structural)]
pub enum AccountStatus {
    Active,
    UnderDispute,
    Locked,
}

/// One client's ledger.  Balances are fixed-point: a count of
/// ten-thousandths of the currency unit.
#[derive(Clone, Copy, Debug, PartialEq, Eq, Structural)]
pub struct ClientAccount {
    /// Funds usable for withdrawal.
    pub available: i64,
    /// Funds frozen pending dispute resolution.
    pub held: i64,
    /// Where the account stands in the dispute lifecycle.
    pub status: AccountStatus,
}

impl ClientAccount {
    /// The state every account starts in: zero balances, active.
    pub open spec fn initial() -> ClientAccount {
        ClientAccount { available: 0, held: 0, status: AccountStatus::Active }
    }

    /// Total funds, available or held.  Exact: no overflow is possible in
    /// the 128-bit sum of two 64-bit balances.
    pub open spec fn total_spec(self) -> int {
        self.available + self.held
    }

    /// Create a fresh account.
    pub fn new() -> (r: ClientAccount)
        ensures
            r == ClientAccount::initial(),
    {
        ClientAccount { available: 0, held: 0, status: AccountStatus::Active }
    }

    /// Total funds, available or held.
    pub fn total(&self) -> (r: i128)
        ensures
            r == self.total_spec(),
    {
        self.available as i128 + self.held as i128
    }
}

} // verus!
