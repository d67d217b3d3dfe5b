use banking_exercise::client::ClientId;
use banking_exercise::parse::{parse_line, InvalidTransactionLineWarning};
use banking_exercise::transaction::{Transaction, TransactionId};

#[test]
fn parse_line_1() {
    let line = "deposit, 1, 2, 10000";
    let parsed_line = parse_line(line);
    assert_eq!(
        Ok((TransactionId(2), ClientId(1), Transaction::Deposit(10000), false)),
        parsed_line
    );
}

#[test]
fn parse_line_2() {
    let line = "withdrawal, 1, 2, 10000";
    let parsed_line = parse_line(line);
    assert_eq!(
        Ok((TransactionId(2), ClientId(1), Transaction::Withdrawal(10000), false)),
        parsed_line
    );
}

#[test]
fn parse_line_3() {
    let line = "dispute, 1, 2";
    let parsed_line = parse_line(line);
    assert_eq!(
        Ok((
            TransactionId::default(),
            ClientId(1),
            Transaction::Dispute(TransactionId(2)),
            false
        )),
        parsed_line
    );
}

#[test]
fn parse_line_4() {
    let line = "resolve, 1, 2";
    let parsed_line = parse_line(line);
    assert_eq!(
        Ok((
            TransactionId::default(),
            ClientId(1),
            Transaction::Resolve(TransactionId(2)),
            false
        )),
        parsed_line
    );
}

#[test]
fn parse_line_5() {
    let line = "chargeback, 1, 2";
    let parsed_line = parse_line(line);
    assert_eq!(
        Ok((
            TransactionId::default(),
            ClientId(1),
            Transaction::Chargeback(TransactionId(2)),
            false
        )),
        parsed_line
    );
}

#[test]
fn parse_line_unknown_keyword() {
    assert_eq!(Err(InvalidTransactionLineWarning {}), parse_line("transfer, 1, 2, 5"));
    assert_eq!(Err(InvalidTransactionLineWarning {}), parse_line(""));
    // the keyword field is not trimmed
    assert_eq!(Err(InvalidTransactionLineWarning {}), parse_line(" deposit, 1, 2, 5"));
}

#[test]
fn parse_line_missing_fields() {
    assert_eq!(Err(InvalidTransactionLineWarning {}), parse_line("deposit, 1, 2"));
    assert_eq!(Err(InvalidTransactionLineWarning {}), parse_line("dispute, 1"));
    assert_eq!(Err(InvalidTransactionLineWarning {}), parse_line("withdrawal"));
}

#[test]
fn parse_line_bad_numbers() {
    // an empty or non-numeric field
    assert_eq!(Err(InvalidTransactionLineWarning {}), parse_line("deposit, one, 2, 5"));
    assert_eq!(Err(InvalidTransactionLineWarning {}), parse_line("deposit, 1, , 5"));
    assert_eq!(Err(InvalidTransactionLineWarning {}), parse_line("deposit, 1, 2, "));
    // out of range for the field's type
    assert_eq!(Err(InvalidTransactionLineWarning {}), parse_line("deposit, 65536, 2, 5"));
    assert_eq!(Err(InvalidTransactionLineWarning {}), parse_line("deposit, 1, 4294967296, 5"));
    assert_eq!(
        Err(InvalidTransactionLineWarning {}),
        parse_line("deposit, 1, 2, 9223372036854775808")
    );
    // a client id may not be negative
    assert_eq!(Err(InvalidTransactionLineWarning {}), parse_line("deposit, -1, 2, 5"));
}

#[test]
fn parse_line_signs_and_extremes() {
    // a signed amount, and the extreme i64 values
    assert_eq!(
        Ok((TransactionId(2), ClientId(1), Transaction::Deposit(-5), false)),
        parse_line("deposit, 1, 2, -5")
    );
    assert_eq!(
        Ok((TransactionId(2), ClientId(1), Transaction::Deposit(5), false)),
        parse_line("deposit, +1, 2, +5")
    );
    assert_eq!(
        Ok((
            TransactionId(2),
            ClientId(1),
            Transaction::Deposit(-9223372036854775808),
            false
        )),
        parse_line("deposit, 1, 2, -9223372036854775808")
    );
    assert_eq!(
        Ok((
            TransactionId(2),
            ClientId(1),
            Transaction::Deposit(9223372036854775807),
            false
        )),
        parse_line("deposit, 1, 2, 9223372036854775807")
    );
}

#[test]
fn parse_line_extra_fields_flagged() {
    // extra trailing fields do not invalidate the record, they are flagged
    assert_eq!(
        Ok((TransactionId(2), ClientId(1), Transaction::Deposit(5), true)),
        parse_line("deposit, 1, 2, 5, note")
    );
    assert_eq!(
        Ok((
            TransactionId::default(),
            ClientId(1),
            Transaction::Dispute(TransactionId(2)),
            true
        )),
        parse_line("dispute, 1, 2,")
    );
}
