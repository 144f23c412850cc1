//! Proved laws of the transaction processor, stated over the specification
//! functions that pin down its behaviour.

use crate::engine::{account_at, inv, spec_rejection, spec_run, spec_step, ProcView, Rejection};
use crate::record::TransactionRecord;
use vstd::prelude::*;

verus! {

/// How one record moves money.  A refused record leaves the addressed
/// account exactly as it was.  An applied deposit raises the account's total
/// by its amount, an applied withdrawal lowers it by its amount, a dispute
/// or resolve shifts funds between available and held with the total
/// conserved exactly, and a chargeback removes exactly the disputed amount.
pub proof fn lemma_step_totals(s: ProcView, r: TransactionRecord)
    requires
        inv(s),
        r.wf(),
    ensures
        ({
            let c = r.client_spec();
            let pre = account_at(s.accounts, c);
            let post = account_at(spec_step(s, r).accounts, c);
            &&& spec_rejection(s, r) is Some ==> post == pre
            &&& spec_rejection(s, r) is None ==> match r {
                TransactionRecord::Deposit { amount, .. } => post.total_spec()
                    == pre.total_spec() + amount,
                TransactionRecord::Withdrawal { amount, .. } => post.total_spec()
                    == pre.total_spec() - amount,
                TransactionRecord::Dispute { .. } => post.total_spec() == pre.total_spec(),
                TransactionRecord::Resolve { .. } => post.total_spec() == pre.total_spec(),
                TransactionRecord::Chargeback { tx, .. } => post.total_spec()
                    == pre.total_spec() - s.history[tx],
            }
        }),
{
}

/// A record never moves another client's account: whatever one record does,
/// every account except the addressed one is exactly what it was.
pub proof fn lemma_step_other_clients(s: ProcView, r: TransactionRecord)
    ensures
        forall|x: u16|
            x != r.client_spec() ==> #[trigger] account_at(spec_step(s, r).accounts, x)
                == account_at(s.accounts, x),
{
}

/// A withdrawal is applied only when it asks for no more than the available
/// balance, so an applied withdrawal never drives a non-negative available
/// balance negative; a refused one changes nothing.
pub proof fn lemma_withdrawal_guard(s: ProcView, c: u16, tx: u32, amount: i64)
    requires
        amount >= 0,
    ensures
        ({
            let r = TransactionRecord::Withdrawal { client: c, tx, amount };
            let pre = account_at(s.accounts, c);
            let post = account_at(spec_step(s, r).accounts, c);
            &&& spec_rejection(s, r) is None ==> amount <= pre.available
            &&& spec_rejection(s, r) is None ==> post.available == pre.available - amount
            &&& spec_rejection(s, r) is None && pre.available >= 0 ==> post.available >= 0
            &&& spec_rejection(s, r) is Some ==> post == pre
        }),
{
}

/// The held balance never sinks below zero, provided a resolve or
/// chargeback releases no more than is actually held.  Deposits and
/// withdrawals leave `held` alone; a dispute adds a historical amount, which
/// is never negative; a resolve or chargeback subtracts one.  The proviso is
/// needed because the processor matches a resolve or chargeback against the
/// account's single dispute status, not against the cited transaction: a
/// record citing a larger deposit than the one disputed may release more
/// than is held.
pub proof fn lemma_held_nonnegative(s: ProcView, r: TransactionRecord)
    requires
        inv(s),
        account_at(s.accounts, r.client_spec()).held >= 0,
        match r {
            TransactionRecord::Resolve { tx, .. } => s.history.contains_key(tx)
                ==> s.history[tx] <= account_at(s.accounts, r.client_spec()).held,
            TransactionRecord::Chargeback { tx, .. } => s.history.contains_key(tx)
                ==> s.history[tx] <= account_at(s.accounts, r.client_spec()).held,
            _ => true,
        },
    ensures
        account_at(spec_step(s, r).accounts, r.client_spec()).held >= 0,
{
}

/// A locked account honours nothing: any record addressed to it is refused
/// as `AccountLocked`, and the whole state — every account, the client
/// list, the history — is left exactly as it was.
pub proof fn lemma_locked_step(s: ProcView, r: TransactionRecord)
    requires
        account_at(s.accounts, r.client_spec()).status is Locked,
    ensures
        spec_rejection(s, r) == Some(Rejection::AccountLocked),
        spec_step(s, r) == s,
{
    let c = r.client_spec();
    assert(s.accounts.contains_key(c));
    assert(s.accounts.insert(c, account_at(s.accounts, c)) =~= s.accounts);
    assert(spec_step(s, r) =~~= s);
}

/// Once locked, an account stays locked and untouched for the remainder of
/// the run: whatever records follow, for this client or others, and in
/// either policy mode, its account is exactly what it was when locked.
pub proof fn lemma_locked_stays_locked(
    s: ProcView,
    rs: Seq<TransactionRecord>,
    strict: bool,
    c: u16,
)
    requires
        account_at(s.accounts, c).status is Locked,
    ensures
        account_at(spec_run(s, rs, strict).0.accounts, c) == account_at(s.accounts, c),
    decreases rs.len(),
{
    if rs.len() > 0 {
        let r = rs[0];
        let s1 = spec_step(s, r);
        if r.client_spec() == c {
            lemma_locked_step(s, r);
        } else {
            lemma_step_other_clients(s, r);
        }
        if !(strict && spec_rejection(s, r) is Some) {
            lemma_locked_stays_locked(s1, rs.drop_first(), strict, c);
        }
    }
}

/// A dispute followed by a resolve of the same transaction is a lossless
/// round trip: both records are accepted, the account returns to exactly its
/// pre-dispute available and held balances with status back to `Active`, and
/// the history is untouched — for any recorded amount within range.
pub proof fn lemma_dispute_resolve_roundtrip(s: ProcView, c: u16, tx: u32)
    requires
        inv(s),
        s.history.contains_key(tx),
        account_at(s.accounts, c).status is Active,
        account_at(s.accounts, c).available - s.history[tx] >= i64::MIN,
        account_at(s.accounts, c).held + s.history[tx] <= i64::MAX,
    ensures
        ({
            let s1 = spec_step(s, TransactionRecord::Dispute { client: c, tx });
            let s2 = spec_step(s1, TransactionRecord::Resolve { client: c, tx });
            &&& spec_rejection(s, TransactionRecord::Dispute { client: c, tx }) is None
            &&& spec_rejection(s1, TransactionRecord::Resolve { client: c, tx }) is None
            &&& account_at(s2.accounts, c) == account_at(s.accounts, c)
            &&& s2.history == s.history
        }),
{
}

/// A dispute followed by a chargeback of the same transaction: both records
/// are accepted, the account's total drops by exactly the disputed amount,
/// the held balance returns to its pre-dispute value, and the account is
/// locked — after which every further record addressed to it, a second
/// chargeback or resolve included, is refused and changes nothing.
pub proof fn lemma_dispute_chargeback(s: ProcView, c: u16, tx: u32)
    requires
        inv(s),
        s.history.contains_key(tx),
        account_at(s.accounts, c).status is Active,
        account_at(s.accounts, c).available - s.history[tx] >= i64::MIN,
        account_at(s.accounts, c).held + s.history[tx] <= i64::MAX,
    ensures
        ({
            let s1 = spec_step(s, TransactionRecord::Dispute { client: c, tx });
            let s2 = spec_step(s1, TransactionRecord::Chargeback { client: c, tx });
            &&& spec_rejection(s, TransactionRecord::Dispute { client: c, tx }) is None
            &&& spec_rejection(s1, TransactionRecord::Chargeback { client: c, tx }) is None
            &&& account_at(s2.accounts, c).total_spec() == account_at(s.accounts, c).total_spec()
                - s.history[tx]
            &&& account_at(s2.accounts, c).held == account_at(s.accounts, c).held
            &&& account_at(s2.accounts, c).status is Locked
            &&& forall|r2: TransactionRecord|
                r2.client_spec() == c ==> #[trigger] spec_rejection(s2, r2) == Some(
                    Rejection::AccountLocked,
                ) && spec_step(s2, r2) == s2
        }),
{
    let s1 = spec_step(s, TransactionRecord::Dispute { client: c, tx });
    let s2 = spec_step(s1, TransactionRecord::Chargeback { client: c, tx });
    assert forall|r2: TransactionRecord| r2.client_spec() == c implies #[trigger] spec_rejection(
        s2,
        r2,
    ) == Some(Rejection::AccountLocked) && spec_step(s2, r2) == s2 by {
        lemma_locked_step(s2, r2);
    }
}

/// Every step keeps the processor state internally consistent: the client
/// list still matches the account table and historical amounts stay
/// non-negative, whatever well-formed record arrives.
pub proof fn lemma_step_preserves_inv(s: ProcView, r: TransactionRecord)
    requires
        inv(s),
        r.wf(),
    ensures
        inv(spec_step(s, r)),
{
    let c = r.client_spec();
    let s2 = spec_step(s, r);
    if !s.accounts.contains_key(c) {
        assert(s2.clients == s.clients.push(c));
        assert(!s.clients.contains(c)) by {
            if s.clients.contains(c) {
                let i = choose|i: int| 0 <= i < s.clients.len() && s.clients[i] == c;
                assert(s.accounts.contains_key(s.clients[i]));
            }
        };
        assert(s2.clients.no_duplicates()) by {
            assert forall|i: int, j: int|
                0 <= i < s2.clients.len() && 0 <= j < s2.clients.len() && i != j implies s2.clients[i]
                != s2.clients[j] by {
                if i < s.clients.len() && j < s.clients.len() {
                    assert(s.clients[i] == s2.clients[i] && s.clients[j] == s2.clients[j]);
                } else if j == s.clients.len() {
                    assert(s2.clients[i] == s.clients[i]);
                } else {
                    assert(s2.clients[j] == s.clients[j]);
                }
            }
        };
    }
    assert forall|x: u16| #[trigger] s2.accounts.contains_key(x) implies s2.clients.contains(
        x,
    ) by {
        if x == c {
            if s.accounts.contains_key(c) {
                assert(s.clients.contains(c));
            } else {
                assert(s2.clients[s.clients.len() as int] == c);
            }
        } else {
            assert(s.accounts.contains_key(x));
            let i = choose|i: int| 0 <= i < s.clients.len() && s.clients[i] == x;
            assert(s2.clients[i] == x);
        }
    }
    assert forall|i: int| 0 <= i < s2.clients.len() implies s2.accounts.contains_key(
        #[trigger] s2.clients[i],
    ) by {
        if i < s.clients.len() {
            assert(s.accounts.contains_key(s.clients[i]));
            assert(s2.clients[i] == s.clients[i]);
        } else {
            assert(s2.clients[i] == c);
        }
    }
    assert forall|t: u32| #[trigger] s2.history.contains_key(t) implies s2.history[t] >= 0 by {
        if spec_rejection(s, r) is Some {
            assert(s2.history == s.history);
        } else {
            match r {
                TransactionRecord::Deposit { tx, .. } => {
                    if t != tx {
                        assert(s.history.contains_key(t));
                    }
                },
                TransactionRecord::Withdrawal { tx, .. } => {
                    if t != tx {
                        assert(s.history.contains_key(t));
                    }
                },
                _ => {
                    assert(s2.history == s.history);
                },
            }
        }
    }
}

/// A whole run keeps the processor state internally consistent, in either
/// policy mode, as long as every record is well-formed.
pub proof fn lemma_run_preserves_inv(s: ProcView, rs: Seq<TransactionRecord>, strict: bool)
    requires
        inv(s),
        forall|i: int| 0 <= i < rs.len() ==> (#[trigger] rs[i]).wf(),
    ensures
        inv(spec_run(s, rs, strict).0),
    decreases rs.len(),
{
    if rs.len() > 0 {
        lemma_step_preserves_inv(s, rs[0]);
        if !(strict && spec_rejection(s, rs[0]) is Some) {
            assert(forall|i: int|
                0 <= i < rs.drop_first().len() ==> (#[trigger] rs.drop_first()[i]).wf());
            lemma_run_preserves_inv(spec_step(s, rs[0]), rs.drop_first(), strict);
        }
    }
}

} // verus!
