use vstd::prelude::*;
use crate::client::{
    execute_result, execute_state, is_monetary, step_client, ClientState, ExecuteError,
    ExecuteOutcome, LockedAccountError,
};
use crate::transaction::Transaction;

verus! {

/// The account state after presenting a sequence of `(id, transaction)`
/// records to an unlocked account, in order.
pub open spec fn run_client(c: ClientState, ops: Seq<(u32, Transaction)>) -> ClientState
    decreases ops.len(),
{
    if ops.len() == 0 {
        c
    } else {
        run_client(step_client(c, ops[0].0, ops[0].1), ops.skip(1))
    }
}

/// The sum of the amounts deposited by a sequence of records.
pub open spec fn deposits_sum(ops: Seq<(u32, Transaction)>) -> int
    decreases ops.len(),
{
    if ops.len() == 0 {
        0
    } else {
        (match ops[0].1 {
            Transaction::Deposit(amount) => amount as int,
            _ => 0,
        }) + deposits_sum(ops.skip(1))
    }
}

/// The sum of the amounts withdrawn by a sequence of records.
pub open spec fn withdrawals_sum(ops: Seq<(u32, Transaction)>) -> int
    decreases ops.len(),
{
    if ops.len() == 0 {
        0
    } else {
        (match ops[0].1 {
            Transaction::Withdrawal(amount) => amount as int,
            _ => 0,
        }) + withdrawals_sum(ops.skip(1))
    }
}

/// For any sequence of only deposits and withdrawals, presented under fresh,
/// pairwise distinct transaction ids, the available balance ends at its
/// start plus the sum of the deposited amounts minus the sum of the
/// withdrawn ones, and the held balance, the lock flag and the disputed set
/// are untouched. An account that starts fresh therefore ends with
/// `available` equal to deposits minus withdrawals and `held` zero.
pub proof fn lemma_monetary_run(c: ClientState, ops: Seq<(u32, Transaction)>)
    requires
        forall|i: int| 0 <= i < ops.len() ==> is_monetary((#[trigger] ops[i]).1),
        forall|i: int, j: int| 0 <= i < j < ops.len() ==> ops[i].0 != ops[j].0,
        forall|i: int| 0 <= i < ops.len() ==> !c.history.contains_key((#[trigger] ops[i]).0),
    ensures
        run_client(c, ops).available == c.available + deposits_sum(ops) - withdrawals_sum(ops),
        run_client(c, ops).held == c.held,
        run_client(c, ops).locked == c.locked,
        run_client(c, ops).disputed == c.disputed,
    decreases ops.len(),
{
    if ops.len() > 0 {
        let c1 = step_client(c, ops[0].0, ops[0].1);
        let rest = ops.skip(1);
        assert(forall|i: int| 0 <= i < rest.len() ==> rest[i] == ops[i + 1]);
        assert forall|i: int| 0 <= i < rest.len() implies !c1.history.contains_key(
            (#[trigger] rest[i]).0,
        ) by {
            assert(rest[i].0 != ops[0].0);
            assert(!c.history.contains_key(ops[i + 1].0));
        }
        lemma_monetary_run(c1, rest);
    }
}

/// The account states after executing a sequence of `(id, transaction)`
/// records, all addressed to the account of `cid`, in order.
pub open spec fn run_ledger(
    m: Map<u16, ClientState>,
    cid: u16,
    ops: Seq<(u32, Transaction)>,
) -> Map<u16, ClientState>
    decreases ops.len(),
{
    if ops.len() == 0 {
        m
    } else {
        run_ledger(execute_state(m, cid, ops[0].0, ops[0].1), cid, ops.skip(1))
    }
}

/// Executing a sequence of only deposits and withdrawals against one
/// existing, unlocked account touches exactly that account, and moves it as
/// [`run_client`] says; with [`lemma_monetary_run`], its available balance
/// ends at its start plus deposits minus withdrawals and its held balance is
/// untouched.
pub proof fn lemma_monetary_run_ledger(
    m: Map<u16, ClientState>,
    cid: u16,
    ops: Seq<(u32, Transaction)>,
)
    requires
        m.contains_key(cid),
        !m[cid].locked,
        forall|i: int| 0 <= i < ops.len() ==> is_monetary((#[trigger] ops[i]).1),
        forall|i: int, j: int| 0 <= i < j < ops.len() ==> ops[i].0 != ops[j].0,
        forall|i: int| 0 <= i < ops.len() ==> !m[cid].history.contains_key((#[trigger] ops[i]).0),
    ensures
        run_ledger(m, cid, ops) == m.insert(cid, run_client(m[cid], ops)),
    decreases ops.len(),
{
    if ops.len() == 0 {
        assert(m.insert(cid, m[cid]) =~= m);
    } else {
        let m1 = execute_state(m, cid, ops[0].0, ops[0].1);
        let c1 = step_client(m[cid], ops[0].0, ops[0].1);
        let rest = ops.skip(1);
        assert(m1 == m.insert(cid, c1));
        assert(forall|i: int| 0 <= i < rest.len() ==> rest[i] == ops[i + 1]);
        assert forall|i: int| 0 <= i < rest.len() implies !c1.history.contains_key(
            (#[trigger] rest[i]).0,
        ) by {
            assert(rest[i].0 != ops[0].0);
            assert(!m[cid].history.contains_key(ops[i + 1].0));
        }
        lemma_monetary_run_ledger(m1, cid, rest);
        assert(m1.insert(cid, run_client(c1, rest)) =~= m.insert(cid, run_client(m[cid], ops)));
    }
}

/// Accounts are never removed: execution keeps every existing account, and
/// accounts other than the addressed one are left exactly as they were.
pub proof fn lemma_accounts_persist(m: Map<u16, ClientState>, cid: u16, tid: u32, t: Transaction)
    ensures
        forall|k: u16| m.contains_key(k) ==> #[trigger] execute_state(
            m,
            cid,
            tid,
            t,
        ).contains_key(k),
        forall|k: u16|
            m.contains_key(k) && k != cid ==> #[trigger] execute_state(m, cid, tid, t)[k] == m[k],
{
}

/// Once `locked` is true it never reverts, whatever is executed next.
pub proof fn lemma_lock_permanent(m: Map<u16, ClientState>, cid: u16, tid: u32, t: Transaction)
    ensures
        forall|k: u16|
            m.contains_key(k) && m[k].locked ==> (#[trigger] execute_state(m, cid, tid, t)[
                k
            ]).locked,
{
}

/// Disputing a recorded deposit moves exactly its amount from the available
/// funds to the held ones, so the derived total is unchanged, and only the
/// disputed set gains the id.
pub proof fn lemma_dispute_moves(c: ClientState, id: u32)
    requires
        c.dispute_applies(id),
    ensures
        c.after_dispute(id).available == c.available - c.history[id]->Deposit_0,
        c.after_dispute(id).held == c.held + c.history[id]->Deposit_0,
        c.after_dispute(id).total() == c.total(),
        c.after_dispute(id).locked == c.locked,
        c.after_dispute(id).history == c.history,
        c.after_dispute(id).disputed == c.disputed.insert(id),
{
}

/// Resolving a dispute right after raising it restores the account exactly.
pub proof fn lemma_dispute_resolve_round_trip(c: ClientState, id: u32)
    requires
        c.dispute_applies(id),
    ensures
        c.after_dispute(id).after_resolve(id) == c,
{
    assert(c.disputed.insert(id).remove(id) =~= c.disputed);
}

/// Charging back a dispute right after raising it removes the disputed
/// amount from the account for good and locks it; the held balance returns
/// to where it stood before the dispute.
pub proof fn lemma_dispute_chargeback(c: ClientState, id: u32)
    requires
        c.dispute_applies(id),
    ensures
        c.after_dispute(id).after_chargeback(id).available == c.available - c.history[
            id
        ]->Deposit_0,
        c.after_dispute(id).after_chargeback(id).held == c.held,
        c.after_dispute(id).after_chargeback(id).locked,
        c.after_dispute(id).after_chargeback(id).history == c.history,
        c.after_dispute(id).after_chargeback(id).disputed == c.disputed,
{
    assert(c.disputed.insert(id).remove(id) =~= c.disputed);
}

/// Disputing a withdrawal id, an unknown id, or an id already under dispute
/// leaves the account unchanged, the disputed set included.
pub proof fn lemma_dispute_no_op(c: ClientState, id: u32)
    requires
        !c.dispute_applies(id),
    ensures
        c.after_dispute(id) == c,
{
}

/// A resolve or chargeback of an id that is not currently disputed leaves
/// the account unchanged.
pub proof fn lemma_settle_no_op(c: ClientState, id: u32)
    requires
        !c.disputed.contains(id),
    ensures
        c.after_resolve(id) == c,
        c.after_chargeback(id) == c,
{
}

/// Once an account is locked, executing any further transaction against it
/// is refused as a hard error and leaves every account unchanged.
pub proof fn lemma_locked_account_unchanged(
    m: Map<u16, ClientState>,
    cid: u16,
    tid: u32,
    t: Transaction,
)
    requires
        m.contains_key(cid),
        m[cid].locked,
    ensures
        execute_state(m, cid, tid, t) == m,
        execute_result(m, cid, tid, t) == Err::<ExecuteOutcome, ExecuteError>(
            ExecuteError::LockedAccount(LockedAccountError {  }),
        ),
{
}

/// A deposit or withdrawal that reuses a transaction id its account has
/// already recorded is dropped: the execution reports success and every
/// account is unchanged.
pub proof fn lemma_duplicate_dropped(m: Map<u16, ClientState>, cid: u16, tid: u32, t: Transaction)
    requires
        m.contains_key(cid),
        !m[cid].locked,
        is_monetary(t),
        m[cid].history.contains_key(tid),
    ensures
        execute_state(m, cid, tid, t) == m,
        execute_result(m, cid, tid, t) == Ok::<ExecuteOutcome, ExecuteError>(
            ExecuteOutcome::DuplicateIgnored,
        ),
{
    assert(execute_state(m, cid, tid, t) =~= m);
}

} // verus!
