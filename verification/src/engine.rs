//! The transaction processor: applies records one at a time to per-client
//! accounts, consulting and growing the transaction-history store.
//!
//! The whole behaviour is pinned down by the specification functions
//! [`spec_rejection`] (which records are refused, and why) and [`spec_step`]
//! (the exact state after one record).  [`spec_run`] folds a whole input
//! sequence, in either policy mode.

use crate::account::{AccountStatus, ClientAccount};
use crate::record::TransactionRecord;
use std::collections::HashMap;
use vstd::prelude::*;

verus! {

broadcast use vstd::std_specs::hash::group_hash_axioms;

/// Why a record was not applied.  Every one of these is a recoverable
/// condition: skipped in default mode, fatal in strict mode.
#[derive(Clone, Copy, Debug, PartialEq, Eq, Structural)]
pub enum Rejection {
    /// The addressed account is locked and honours no further records.
    AccountLocked,
    /// A withdrawal asked for more than the available balance.
    InsufficientFunds,
    /// A dispute, resolve or chargeback named a transaction id that no
    /// deposit or withdrawal ever recorded.
    UnknownTransaction,
    /// A resolve or chargeback arrived while the account was not under
    /// dispute.
    InvalidTransition,
    /// Applying the record would take a balance outside the fixed-point
    /// range.
    BalanceOverflow,
}

/// The processor's abstract state: the clients in first-seen order, each
/// client's account, and the history store mapping transaction ids to the
/// fixed-point amount of the deposit or withdrawal that carried them.
#[verifier::ext_equal]
pub struct ProcView {
    pub clients: Seq<u16>,
    pub accounts: Map<u16, ClientAccount>,
    pub history: Map<u32, i64>,
}

impl ProcView {
    /// The state before any record: no clients, no accounts, no history.
    pub open spec fn initial() -> ProcView {
        ProcView {
            clients: Seq::empty(),
            accounts: Map::empty(),
            history: Map::empty(),
        }
    }
}

/// The account a client holds in `accounts`, or a fresh one if the client
/// has not been seen yet.
pub open spec fn account_at(accounts: Map<u16, ClientAccount>, c: u16) -> ClientAccount {
    if accounts.contains_key(c) {
        accounts[c]
    } else {
        ClientAccount::initial()
    }
}

/// Internal consistency of a processor state: the client list holds each
/// account key exactly once, and every historical amount is non-negative
/// (history is only ever written from well-formed deposits and withdrawals).
pub open spec fn inv(s: ProcView) -> bool {
    &&& s.clients.no_duplicates()
    &&& forall|c: u16| #[trigger] s.accounts.contains_key(c) ==> s.clients.contains(c)
    &&& forall|i: int| 0 <= i < s.clients.len() ==> s.accounts.contains_key(#[trigger] s.clients[i])
    &&& forall|t: u32| #[trigger] s.history.contains_key(t) ==> s.history[t] >= 0
}

/// Whether `r`, arriving in state `s`, is refused, and why.  `None` means
/// the record is applied.
pub open spec fn spec_rejection(s: ProcView, r: TransactionRecord) -> Option<Rejection> {
    let a = account_at(s.accounts, r.client_spec());
    if a.status is Locked {
        Some(Rejection::AccountLocked)
    } else {
        match r {
            TransactionRecord::Deposit { amount, .. } => if a.available + amount
                <= i64::MAX {
                None
            } else {
                Some(Rejection::BalanceOverflow)
            },
            TransactionRecord::Withdrawal { amount, .. } => if amount <= a.available {
                None
            } else {
                Some(Rejection::InsufficientFunds)
            },
            TransactionRecord::Dispute { tx, .. } => if !s.history.contains_key(tx) {
                Some(Rejection::UnknownTransaction)
            } else {
                let amt = s.history[tx];
                if a.available - amt >= i64::MIN && a.held + amt <= i64::MAX {
                    None
                } else {
                    Some(Rejection::BalanceOverflow)
                }
            },
            TransactionRecord::Resolve { tx, .. } => if !(a.status is UnderDispute) {
                Some(Rejection::InvalidTransition)
            } else if !s.history.contains_key(tx) {
                Some(Rejection::UnknownTransaction)
            } else {
                let amt = s.history[tx];
                if a.held - amt >= i64::MIN && a.available + amt <= i64::MAX {
                    None
                } else {
                    Some(Rejection::BalanceOverflow)
                }
            },
            TransactionRecord::Chargeback { tx, .. } => if !(a.status is UnderDispute) {
                Some(Rejection::InvalidTransition)
            } else if !s.history.contains_key(tx) {
                Some(Rejection::UnknownTransaction)
            } else {
                let amt = s.history[tx];
                if a.held - amt >= i64::MIN {
                    None
                } else {
                    Some(Rejection::BalanceOverflow)
                }
            },
        }
    }
}

/// The exact state after one record.  The addressed account is created (with
/// zero balances, active) the first time its client id appears, whether or
/// not the record is then applied; a refused record changes nothing else.
pub open spec fn spec_step(s: ProcView, r: TransactionRecord) -> ProcView {
    let c = r.client_spec();
    let a = account_at(s.accounts, c);
    let created = ProcView {
        clients: if s.accounts.contains_key(c) {
            s.clients
        } else {
            s.clients.push(c)
        },
        accounts: s.accounts.insert(c, a),
        history: s.history,
    };
    if spec_rejection(s, r) is Some {
        created
    } else {
        match r {
            TransactionRecord::Deposit { tx, amount, .. } => ProcView {
                clients: created.clients,
                accounts: created.accounts.insert(
                    c,
                    ClientAccount {
                        available: (a.available + amount) as i64,
                        held: a.held,
                        status: a.status,
                    },
                ),
                history: s.history.insert(tx, amount),
            },
            TransactionRecord::Withdrawal { tx, amount, .. } => ProcView {
                clients: created.clients,
                accounts: created.accounts.insert(
                    c,
                    ClientAccount {
                        available: (a.available - amount) as i64,
                        held: a.held,
                        status: a.status,
                    },
                ),
                history: s.history.insert(tx, amount),
            },
            TransactionRecord::Dispute { tx, .. } => ProcView {
                clients: created.clients,
                accounts: created.accounts.insert(
                    c,
                    ClientAccount {
                        available: (a.available - s.history[tx]) as i64,
                        held: (a.held + s.history[tx]) as i64,
                        status: AccountStatus::UnderDispute,
                    },
                ),
                history: s.history,
            },
            TransactionRecord::Resolve { tx, .. } => ProcView {
                clients: created.clients,
                accounts: created.accounts.insert(
                    c,
                    ClientAccount {
                        available: (a.available + s.history[tx]) as i64,
                        held: (a.held - s.history[tx]) as i64,
                        status: AccountStatus::Active,
                    },
                ),
                history: s.history,
            },
            TransactionRecord::Chargeback { tx, .. } => ProcView {
                clients: created.clients,
                accounts: created.accounts.insert(
                    c,
                    ClientAccount {
                        available: a.available,
                        held: (a.held - s.history[tx]) as i64,
                        status: AccountStatus::Locked,
                    },
                ),
                history: s.history,
            },
        }
    }
}

/// Folds a whole record sequence.  Returns the final state and, in strict
/// mode, the first rejection (processing stops there); in default mode every
/// rejected record is skipped and the second component is `None`.
pub open spec fn spec_run(s: ProcView, rs: Seq<TransactionRecord>, strict: bool) -> (
    ProcView,
    Option<Rejection>,
)
    decreases rs.len(),
{
    if rs.len() == 0 {
        (s, None)
    } else {
        let rej = spec_rejection(s, rs[0]);
        let s1 = spec_step(s, rs[0]);
        if strict && rej is Some {
            (s1, rej)
        } else {
            spec_run(s1, rs.drop_first(), strict)
        }
    }
}

/// One row of the final balance snapshot.
#[derive(Clone, Copy, Debug, PartialEq, Eq, Structural)]
pub struct BalanceRow {
    pub client: u16,
    /// Fixed-point units available for withdrawal.
    pub available: i64,
    /// Fixed-point units frozen pending dispute resolution.
    pub held: i64,
    /// Exact sum of available and held.
    pub total: i128,
    pub locked: bool,
}

/// The snapshot row a state yields for one client.
pub open spec fn row_for(s: ProcView, c: u16) -> BalanceRow {
    let a = account_at(s.accounts, c);
    BalanceRow {
        client: c,
        available: a.available,
        held: a.held,
        total: (a.available + a.held) as i128,
        locked: a.status is Locked,
    }
}

/// The transaction processor: account table, first-seen client order, and
/// transaction-history store.
pub struct Processor {
    accounts: HashMap<u16, ClientAccount>,
    clients: Vec<u16>,
    history: HashMap<u32, i64>,
}

impl View for Processor {
    type V = ProcView;

    closed spec fn view(&self) -> ProcView {
        ProcView { clients: self.clients@, accounts: self.accounts@, history: self.history@ }
    }
}

impl Processor {
    /// A processor that has seen no records yet.
    pub fn new() -> (r: Processor)
        ensures
            r@ == ProcView::initial(),
            inv(r@),
    {
        let p = Processor {
            accounts: HashMap::new(),
            clients: Vec::new(),
            history: HashMap::new(),
        };
        proof {
            assert(p@ =~~= ProcView::initial());
        }
        p
    }

    /// What the history store holds for a transaction id: the amount of
    /// the deposit or withdrawal that recorded it, if one was applied.
    pub fn lookup(&self, tx: u32) -> (r: Option<i64>)
        ensures
            r == if self@.history.contains_key(tx) {
                Some(self@.history[tx])
            } else {
                None::<i64>
            },
    {
        match self.history.get(&tx) {
            Some(a) => Some(*a),
            None => None,
        }
    }

    /// Apply one record.  Returns why the record was refused, or `None` if
    /// it took effect; the new state is exactly `spec_step` of the old.
    pub fn process(&mut self, r: &TransactionRecord) -> (rej: Option<Rejection>)
        requires
            inv(old(self)@),
            r.wf(),
        ensures
            inv(final(self)@),
            final(self)@ == spec_step(old(self)@, *r),
            rej == spec_rejection(old(self)@, *r),
    {
        let ghost s0 = self@;
        let c = r.client_id();
        if !self.accounts.contains_key(&c) {
            self.accounts.insert(c, ClientAccount::new());
            self.clients.push(c);
        }
        proof {
            assert(self@.accounts =~= s0.accounts.insert(c, account_at(s0.accounts, c)));
            if s0.accounts.contains_key(c) {
                assert(self@.clients == s0.clients);
            } else {
                assert(self@.clients == s0.clients.push(c));
                assert(!s0.clients.contains(c)) by {
                    if s0.clients.contains(c) {
                        let i = choose|i: int|
                            0 <= i < s0.clients.len() && s0.clients[i] == c;
                        assert(s0.accounts.contains_key(s0.clients[i]));
                    }
                };
                assert(self@.clients.no_duplicates()) by {
                    let cl2 = s0.clients.push(c);
                    assert forall|i: int, j: int|
                        0 <= i < cl2.len() && 0 <= j < cl2.len() && i != j implies cl2[i]
                        != cl2[j] by {
                        if i < s0.clients.len() && j < s0.clients.len() {
                            assert(s0.clients[i] == cl2[i] && s0.clients[j] == cl2[j]);
                        } else if j == s0.clients.len() {
                            assert(cl2[i] == s0.clients[i]);
                            assert(!s0.clients.contains(c));
                        } else {
                            assert(cl2[j] == s0.clients[j]);
                            assert(!s0.clients.contains(c));
                        }
                    }
                };
                assert forall|x: u16| #[trigger] self@.accounts.contains_key(x) implies self@.clients.contains(
                    x,
                ) by {
                    let cl2 = s0.clients.push(c);
                    if x == c {
                        assert(cl2[s0.clients.len() as int] == c);
                    } else {
                        assert(s0.accounts.contains_key(x));
                        let i = choose|i: int|
                            0 <= i < s0.clients.len() && s0.clients[i] == x;
                        assert(cl2[i] == x);
                    }
                }
            }
            assert forall|t: u32| #[trigger] self@.history.contains_key(t) implies self@.history[t]
                >= 0 by {
                assert(self@.history == s0.history);
                assert(s0.history.contains_key(t) ==> s0.history[t] >= 0);
            }
            assert(inv(self@));
        }
        let acct = *self.accounts.get(&c).unwrap();
        proof {
            assert(acct == account_at(s0.accounts, c));
        }
        if acct.status == AccountStatus::Locked {
            proof {
                assert(self@ =~~= spec_step(s0, *r));
            }
            return Some(Rejection::AccountLocked);
        }
        match *r {
            TransactionRecord::Deposit { tx, amount, .. } => {
                if acct.available <= i64::MAX - amount {
                    let updated = ClientAccount {
                        available: acct.available + amount,
                        held: acct.held,
                        status: acct.status,
                    };
                    self.accounts.insert(c, updated);
                    self.history.insert(tx, amount);
                    proof {
                        assert(self@ =~~= spec_step(s0, *r));
                    }
                    None
                } else {
                    proof {
                        assert(self@ =~~= spec_step(s0, *r));
                    }
                    Some(Rejection::BalanceOverflow)
                }
            },
            TransactionRecord::Withdrawal { tx, amount, .. } => {
                if amount <= acct.available {
                    let updated = ClientAccount {
                        available: acct.available - amount,
                        held: acct.held,
                        status: acct.status,
                    };
                    self.accounts.insert(c, updated);
                    self.history.insert(tx, amount);
                    proof {
                        assert(self@ =~~= spec_step(s0, *r));
                    }
                    None
                } else {
                    proof {
                        assert(self@ =~~= spec_step(s0, *r));
                    }
                    Some(Rejection::InsufficientFunds)
                }
            },
            TransactionRecord::Dispute { tx, .. } => {
                let amt_opt: Option<i64> = match self.history.get(&tx) {
                    Some(a) => Some(*a),
                    None => None,
                };
                match amt_opt {
                    None => {
                        proof {
                            assert(self@ =~~= spec_step(s0, *r));
                        }
                        Some(Rejection::UnknownTransaction)
                    },
                    Some(amt) => {
                        if acct.available >= i64::MIN + amt && acct.held <= i64::MAX - amt {
                            let updated = ClientAccount {
                                available: acct.available - amt,
                                held: acct.held + amt,
                                status: AccountStatus::UnderDispute,
                            };
                            self.accounts.insert(c, updated);
                            proof {
                                assert(self@ =~~= spec_step(s0, *r));
                            }
                            None
                        } else {
                            proof {
                                assert(self@ =~~= spec_step(s0, *r));
                            }
                            Some(Rejection::BalanceOverflow)
                        }
                    },
                }
            },
            TransactionRecord::Resolve { tx, .. } => {
                if acct.status != AccountStatus::UnderDispute {
                    proof {
                        assert(self@ =~~= spec_step(s0, *r));
                    }
                    return Some(Rejection::InvalidTransition);
                }
                let amt_opt: Option<i64> = match self.history.get(&tx) {
                    Some(a) => Some(*a),
                    None => None,
                };
                match amt_opt {
                    None => {
                        proof {
                            assert(self@ =~~= spec_step(s0, *r));
                        }
                        Some(Rejection::UnknownTransaction)
                    },
                    Some(amt) => {
                        if acct.held >= i64::MIN + amt && acct.available <= i64::MAX - amt {
                            let updated = ClientAccount {
                                available: acct.available + amt,
                                held: acct.held - amt,
                                status: AccountStatus::Active,
                            };
                            self.accounts.insert(c, updated);
                            proof {
                                assert(self@ =~~= spec_step(s0, *r));
                            }
                            None
                        } else {
                            proof {
                                assert(self@ =~~= spec_step(s0, *r));
                            }
                            Some(Rejection::BalanceOverflow)
                        }
                    },
                }
            },
            TransactionRecord::Chargeback { tx, .. } => {
                if acct.status != AccountStatus::UnderDispute {
                    proof {
                        assert(self@ =~~= spec_step(s0, *r));
                    }
                    return Some(Rejection::InvalidTransition);
                }
                let amt_opt: Option<i64> = match self.history.get(&tx) {
                    Some(a) => Some(*a),
                    None => None,
                };
                match amt_opt {
                    None => {
                        proof {
                            assert(self@ =~~= spec_step(s0, *r));
                        }
                        Some(Rejection::UnknownTransaction)
                    },
                    Some(amt) => {
                        if acct.held >= i64::MIN + amt {
                            let updated = ClientAccount {
                                available: acct.available,
                                held: acct.held - amt,
                                status: AccountStatus::Locked,
                            };
                            self.accounts.insert(c, updated);
                            proof {
                                assert(self@ =~~= spec_step(s0, *r));
                            }
                            None
                        } else {
                            proof {
                                assert(self@ =~~= spec_step(s0, *r));
                            }
                            Some(Rejection::BalanceOverflow)
                        }
                    },
                }
            },
        }
    }

    /// Apply one record under the configured policy: a rejection is an
    /// error in strict mode and silently skipped otherwise.  The state moves
    /// by `spec_step` either way.
    pub fn apply(&mut self, r: &TransactionRecord, strict: bool) -> (res: Result<(), Rejection>)
        requires
            inv(old(self)@),
            r.wf(),
        ensures
            inv(final(self)@),
            final(self)@ == spec_step(old(self)@, *r),
            match spec_rejection(old(self)@, *r) {
                Some(x) => res == if strict {
                    Err::<(), Rejection>(x)
                } else {
                    Ok::<(), Rejection>(())
                },
                None => res == Ok::<(), Rejection>(()),
            },
    {
        match self.process(r) {
            Some(x) => if strict {
                Err(x)
            } else {
                Ok(())
            },
            None => Ok(()),
        }
    }

    /// Apply a whole record sequence in order.  In strict mode the run stops
    /// at the first rejection and reports it; in default mode every record
    /// is offered and the result is always `Ok`.
    pub fn run(&mut self, records: &Vec<TransactionRecord>, strict: bool) -> (res: Result<
        (),
        Rejection,
    >)
        requires
            inv(old(self)@),
            forall|i: int| 0 <= i < records@.len() ==> (#[trigger] records@[i]).wf(),
        ensures
            inv(final(self)@),
            final(self)@ == spec_run(old(self)@, records@, strict).0,
            match spec_run(old(self)@, records@, strict).1 {
                Some(x) => res == Err::<(), Rejection>(x),
                None => res == Ok::<(), Rejection>(()),
            },
    {
        proof {
            assert(records@.skip(0) =~= records@);
        }
        let mut i: usize = 0;
        while i < records.len()
            invariant
                inv(self@),
                i <= records@.len(),
                forall|j: int| 0 <= j < records@.len() ==> (#[trigger] records@[j]).wf(),
                spec_run(old(self)@, records@, strict) == spec_run(
                    self@,
                    records@.skip(i as int),
                    strict,
                ),
            decreases records@.len() - i,
        {
            let ghost pre = self@;
            proof {
                assert(records@.skip(i as int)[0] == records@[i as int]);
                assert(records@.skip(i as int).drop_first() =~= records@.skip(i as int + 1));
            }
            let r = records[i];
            let step_res = self.apply(&r, strict);
            if let Err(e) = step_res {
                proof {
                    assert(spec_run(pre, records@.skip(i as int), strict) == (
                        spec_step(pre, records@[i as int]),
                        spec_rejection(pre, records@[i as int]),
                    ));
                }
                return Err(e);
            }
            i += 1;
        }
        proof {
            assert(records@.skip(records@.len() as int) =~= Seq::<TransactionRecord>::empty());
        }
        Ok(())
    }

    /// The final balance snapshot: one row per client ever seen, in
    /// first-seen order, each carrying that client's exact balances.
    pub fn snapshot(&self) -> (rows: Vec<BalanceRow>)
        requires
            inv(self@),
        ensures
            rows@.len() == self@.clients.len(),
            forall|i: int|
                0 <= i < rows@.len() ==> rows@[i] == row_for(self@, self@.clients[i]),
    {
        let mut rows: Vec<BalanceRow> = Vec::new();
        let mut i: usize = 0;
        while i < self.clients.len()
            invariant
                inv(self@),
                rows@.len() == i,
                i <= self@.clients.len(),
                forall|j: int|
                    0 <= j < i as int ==> rows@[j] == row_for(self@, self@.clients[j]),
            decreases self@.clients.len() - i,
        {
            let c = self.clients[i];
            let acct = *self.accounts.get(&c).unwrap();
            let row = BalanceRow {
                client: c,
                available: acct.available,
                held: acct.held,
                total: acct.available as i128 + acct.held as i128,
                locked: acct.status == AccountStatus::Locked,
            };
            rows.push(row);
            i += 1;
        }
        rows
    }
}

} // verus!
