use vstd::prelude::*;
use vstd::string::StrSliceExecFns;
use crate::client::{
    clients_wf, execute_fits, execute_result, execute_state, ClientId, ClientMap, ClientState,
    ExecuteError, ExecuteOutcome,
};
use crate::parse::{parse_line, parse_line_spec, record_width, split_fields};
use crate::transaction::TransactionId;

verus! {

/// What became of one input line.
#[derive(Debug, Clone, Copy, PartialEq, Eq)]
pub enum ProcessOutcome {
    /// The line was blank and skipped.
    BlankLine,
    /// The line did not parse as a record and was skipped.
    InvalidLine,
    /// The record was applied to its account.
    Applied { extra_fields: bool },
    /// A deposit or withdrawal reused a transaction id its account had
    /// already recorded; the record was dropped.
    DuplicateIgnored { client: ClientId, transaction: TransactionId, extra_fields: bool },
    /// Applying the record would take a balance outside the range of `i64`;
    /// the record was dropped.
    AmountOutOfRange { extra_fields: bool },
}

/// The account states after making sure an account exists for `cid`.
pub open spec fn provisioned(m: Map<u16, ClientState>, cid: u16) -> Map<u16, ClientState> {
    if m.contains_key(cid) {
        m
    } else {
        m.insert(cid, ClientState::initial())
    }
}

/// Process one input line against the set of accounts.
///
/// A blank line and a line that does not parse are skipped. Otherwise the
/// addressed account is created on first sight, and the record is executed
/// against it: a locked account is a hard error, a record whose balances
/// would leave `i64` is dropped, and anything else lands in the account as
/// [`execute_state`] describes.
pub fn process_line(map: &mut ClientMap, line: &str) -> (r: Result<ProcessOutcome, ExecuteError>)
    ensures
        line@.len() == 0 ==> r == Ok::<ProcessOutcome, ExecuteError>(ProcessOutcome::BlankLine)
            && final(map)@ == old(map)@,
        line@.len() > 0 && parse_line_spec(line@) is None ==> r == Ok::<
            ProcessOutcome,
            ExecuteError,
        >(ProcessOutcome::InvalidLine) && final(map)@ == old(map)@,
        line@.len() > 0 ==> (parse_line_spec(line@) matches Some(p) ==> {
            let m1 = provisioned(old(map)@, p.1.0);
            let extra = split_fields(line@).len() > record_width(p.2);
            &&& (m1[p.1.0].locked ==> r == Err::<ProcessOutcome, ExecuteError>(
                execute_result(m1, p.1.0, p.0.0, p.2)->Err_0,
            ) && final(map)@ == m1)
            &&& (!m1[p.1.0].locked && !execute_fits(m1, p.1.0, p.0.0, p.2) ==> r == Ok::<
                ProcessOutcome,
                ExecuteError,
            >(ProcessOutcome::AmountOutOfRange { extra_fields: extra }) && final(map)@ == m1)
            &&& (!m1[p.1.0].locked && execute_fits(m1, p.1.0, p.0.0, p.2) ==> {
                &&& final(map)@ == execute_state(m1, p.1.0, p.0.0, p.2)
                &&& (execute_result(m1, p.1.0, p.0.0, p.2) == Ok::<ExecuteOutcome, ExecuteError>(
                    ExecuteOutcome::Applied,
                ) ==> r == Ok::<ProcessOutcome, ExecuteError>(
                    ProcessOutcome::Applied { extra_fields: extra },
                ))
                &&& (execute_result(m1, p.1.0, p.0.0, p.2) == Ok::<ExecuteOutcome, ExecuteError>(
                    ExecuteOutcome::DuplicateIgnored,
                ) ==> r == Ok::<ProcessOutcome, ExecuteError>(
                    ProcessOutcome::DuplicateIgnored {
                        client: p.1,
                        transaction: p.0,
                        extra_fields: extra,
                    },
                ))
            })
        }),
        r matches Err(e) ==> e is LockedAccount,
        clients_wf(old(map)@) ==> clients_wf(final(map)@),
{
    if line.unicode_len() == 0 {
        return Ok(ProcessOutcome::BlankLine);
    }
    match parse_line(line) {
        Err(_) => Ok(ProcessOutcome::InvalidLine),
        Ok((transaction_id, client_id, transaction, extra_fields)) => {
            map.lookup_or_create(client_id);
            if !map.can_execute(transaction_id, client_id, transaction) {
                return Ok(ProcessOutcome::AmountOutOfRange { extra_fields });
            }
            match map.execute_transaction(transaction_id, client_id, transaction) {
                Ok(ExecuteOutcome::Applied) => Ok(ProcessOutcome::Applied { extra_fields }),
                Ok(ExecuteOutcome::DuplicateIgnored) => Ok(
                    ProcessOutcome::DuplicateIgnored {
                        client: client_id,
                        transaction: transaction_id,
                        extra_fields,
                    },
                ),
                Err(e) => Err(e),
            }
        },
    }
}

} // verus!
