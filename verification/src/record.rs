//! Transaction records: the five kinds of input the engine consumes.

use vstd::prelude::*;

verus! {

/// One input record.  Deposits and withdrawals carry the moved amount (in
/// fixed-point units); the three dispute-lifecycle records carry none and
/// instead name an earlier deposit or withdrawal by its transaction id.
#[derive(Clone, Copy, Debug, PartialEq, Eq, Structural)]
pub enum TransactionRecord {
    Deposit { client: u16, tx: u32, amount: i64 },
    Withdrawal { client: u16, tx: u32, amount: i64 },
    Dispute { client: u16, tx: u32 },
    Resolve { client: u16, tx: u32 },
    Chargeback { client: u16, tx: u32 },
}

impl TransactionRecord {
    /// The client the record addresses.
    pub open spec fn client_spec(self) -> u16 {
        match self {
            TransactionRecord::Deposit { client, .. } => client,
            TransactionRecord::Withdrawal { client, .. } => client,
            TransactionRecord::Dispute { client, .. } => client,
            TransactionRecord::Resolve { client, .. } => client,
            TransactionRecord::Chargeback { client, .. } => client,
        }
    }

    /// The transaction id the record carries or refers to.
    pub open spec fn tx_spec(self) -> u32 {
        match self {
            TransactionRecord::Deposit { tx, .. } => tx,
            TransactionRecord::Withdrawal { tx, .. } => tx,
            TransactionRecord::Dispute { tx, .. } => tx,
            TransactionRecord::Resolve { tx, .. } => tx,
            TransactionRecord::Chargeback { tx, .. } => tx,
        }
    }

    /// A well-formed record never carries a negative amount: input amounts
    /// are monetary values written without a sign.
    pub open spec fn wf(self) -> bool {
        match self {
            TransactionRecord::Deposit { amount, .. } => amount >= 0,
            TransactionRecord::Withdrawal { amount, .. } => amount >= 0,
            _ => true,
        }
    }

    /// The client the record addresses.
    pub fn client_id(&self) -> (r: u16)
        ensures
            r == self.client_spec(),
    {
        match self {
            TransactionRecord::Deposit { client, .. } => *client,
            TransactionRecord::Withdrawal { client, .. } => *client,
            TransactionRecord::Dispute { client, .. } => *client,
            TransactionRecord::Resolve { client, .. } => *client,
            TransactionRecord::Chargeback { client, .. } => *client,
        }
    }

    /// The transaction id the record carries or refers to.
    pub fn tx_id(&self) -> (r: u32)
        ensures
            r == self.tx_spec(),
    {
        match self {
            TransactionRecord::Deposit { tx, .. } => *tx,
            TransactionRecord::Withdrawal { tx, .. } => *tx,
            TransactionRecord::Dispute { tx, .. } => *tx,
            TransactionRecord::Resolve { tx, .. } => *tx,
            TransactionRecord::Chargeback { tx, .. } => *tx,
        }
    }
}

} // verus!
