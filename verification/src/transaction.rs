use vstd::prelude::*;

verus! {

/// A transaction as it arrives from the input stream.
///
/// Monetary amounts are kept as signed 64-bit integers. Dispute, resolve and
/// chargeback records carry no transaction id of their own in the input
/// format; they are assigned the reserved id `0` (see [`TransactionId`]).
#[derive(Debug, Clone, Copy, PartialEq)]
pub enum Transaction {
    Deposit(i64),
    Withdrawal(i64),
    Dispute(TransactionId),
    Resolve(TransactionId),
    Chargeback(TransactionId),
}

/// A transaction ID.
///
/// The value `0` is the reserved default used for records that inherently
/// lack an id of their own (dispute, resolve and chargeback records).
#[derive(Debug, Clone, Copy, PartialEq, Eq, Hash)]
pub struct TransactionId(pub u32);

impl Default for TransactionId {
    fn default() -> (r: Self)
        ensures
            r.0 == 0,
    {
        TransactionId(0)
    }
}

} // verus!
