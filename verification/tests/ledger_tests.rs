use banking_exercise::client::{
    Client, ClientId, ClientMap, ExecuteError, ExecuteOutcome,
};
use banking_exercise::processing::{process_line, ProcessOutcome};
use banking_exercise::style::warning_style;
use banking_exercise::transaction::{Transaction, TransactionId};

fn row_of(map: &ClientMap, id: u16) -> String {
    map.get(&ClientId(id)).expect("client not found").render()
}

#[test]
// a second deposit under an id the account has already used is dropped
fn duplicate_deposit_ignored() {
    let mut clients_map = ClientMap::default();
    clients_map.insert(ClientId(1), Client::new(0, 0, false)).unwrap();

    let first = clients_map
        .execute_transaction(TransactionId(1), ClientId(1), Transaction::Deposit(2022))
        .unwrap();
    assert_eq!(ExecuteOutcome::Applied, first);

    // the same transaction id again, with another amount: dropped, no error
    let second = clients_map
        .execute_transaction(TransactionId(1), ClientId(1), Transaction::Deposit(999999))
        .unwrap();
    assert_eq!(ExecuteOutcome::DuplicateIgnored, second);

    assert_eq!("2022, 0, 2022, false".to_string(), row_of(&clients_map, 1));
}

#[test]
// a deposit and a withdrawal on an account nobody provisioned
fn unknown_client_is_an_error() {
    let mut clients_map = ClientMap::default();
    let result = clients_map.execute_transaction(
        TransactionId(1),
        ClientId(7),
        Transaction::Deposit(5),
    );
    match result {
        Err(ExecuteError::ClientNotFound(e)) => assert_eq!(ClientId(7), e.0),
        _ => panic!("expected a client-not-found error"),
    }
}

#[test]
// once locked, every further operation is refused and changes nothing
fn locked_account_rejects_everything() {
    let mut clients_map = ClientMap::default();
    clients_map.insert(ClientId(1), Client::new(0, 0, false)).unwrap();
    clients_map
        .execute_transaction(TransactionId(1), ClientId(1), Transaction::Deposit(10_000))
        .unwrap();
    clients_map
        .execute_transaction(TransactionId(2), ClientId(1), Transaction::Deposit(500))
        .unwrap();
    clients_map
        .execute_transaction(
            TransactionId::default(),
            ClientId(1),
            Transaction::Dispute(TransactionId(1)),
        )
        .unwrap();
    clients_map
        .execute_transaction(
            TransactionId::default(),
            ClientId(1),
            Transaction::Chargeback(TransactionId(1)),
        )
        .unwrap();
    assert_eq!("500, 0, 500, true".to_string(), row_of(&clients_map, 1));

    // deposits, withdrawals and disputes are now all hard errors
    for transaction in [
        Transaction::Deposit(1),
        Transaction::Withdrawal(1),
        Transaction::Dispute(TransactionId(2)),
        Transaction::Resolve(TransactionId(2)),
        Transaction::Chargeback(TransactionId(2)),
    ] {
        let result =
            clients_map.execute_transaction(TransactionId(9), ClientId(1), transaction);
        match result {
            Err(ExecuteError::LockedAccount(_)) => {}
            _ => panic!("expected a locked-account error"),
        }
    }
    assert_eq!("500, 0, 500, true".to_string(), row_of(&clients_map, 1));
}

#[test]
// disputing a withdrawal id moves nothing and marks nothing
fn dispute_of_withdrawal_is_a_no_op() {
    let mut clients_map = ClientMap::default();
    clients_map.insert(ClientId(1), Client::new(0, 0, false)).unwrap();
    clients_map
        .execute_transaction(TransactionId(1), ClientId(1), Transaction::Deposit(10_000))
        .unwrap();
    clients_map
        .execute_transaction(TransactionId(2), ClientId(1), Transaction::Withdrawal(4_000))
        .unwrap();
    clients_map
        .execute_transaction(
            TransactionId::default(),
            ClientId(1),
            Transaction::Dispute(TransactionId(2)),
        )
        .unwrap();
    assert_eq!("6000, 0, 6000, false".to_string(), row_of(&clients_map, 1));

    // and a chargeback of that never-disputed id changes nothing either
    clients_map
        .execute_transaction(
            TransactionId::default(),
            ClientId(1),
            Transaction::Chargeback(TransactionId(2)),
        )
        .unwrap();
    assert_eq!("6000, 0, 6000, false".to_string(), row_of(&clients_map, 1));
}

#[test]
// disputing an id twice moves its amount only once
fn dispute_twice_moves_once() {
    let mut clients_map = ClientMap::default();
    clients_map.insert(ClientId(1), Client::new(0, 0, false)).unwrap();
    clients_map
        .execute_transaction(TransactionId(1), ClientId(1), Transaction::Deposit(10_000))
        .unwrap();
    clients_map
        .execute_transaction(
            TransactionId::default(),
            ClientId(1),
            Transaction::Dispute(TransactionId(1)),
        )
        .unwrap();
    clients_map
        .execute_transaction(
            TransactionId::default(),
            ClientId(1),
            Transaction::Dispute(TransactionId(1)),
        )
        .unwrap();
    assert_eq!("0, 10000, 10000, false".to_string(), row_of(&clients_map, 1));
}

#[test]
// withdrawals apply unconditionally, with no floor at zero
fn withdrawal_may_go_negative() {
    let mut clients_map = ClientMap::default();
    clients_map.insert(ClientId(1), Client::new(0, 0, false)).unwrap();
    clients_map
        .execute_transaction(TransactionId(1), ClientId(1), Transaction::Withdrawal(250))
        .unwrap();
    assert_eq!("-250, 0, -250, false".to_string(), row_of(&clients_map, 1));
}

#[test]
// the report lists accounts in ascending id order whatever the input order
fn report_is_sorted_by_client_id() {
    let mut clients_map = ClientMap::default();
    clients_map.insert(ClientId(30000), Client::new(7, 0, false)).unwrap();
    clients_map.insert(ClientId(2), Client::new(-3, 0, false)).unwrap();
    clients_map.insert(ClientId(1), Client::new(5, 1, false)).unwrap();
    assert_eq!(
        "client, available, held, total, locked\n\
         1, 5, 1, 6, false\n\
         2, -3, 0, -3, false\n\
         30000, 7, 0, 7, false\n"
            .to_string(),
        clients_map.render()
    );
}

#[test]
fn report_of_empty_ledger_is_just_the_header() {
    let clients_map = ClientMap::default();
    assert_eq!("client, available, held, total, locked\n".to_string(), clients_map.render());
}

#[test]
// the full pipeline on a small batch of lines, fresh accounts included
fn process_lines_batch() {
    let mut clients_map = ClientMap::default();
    let lines = [
        "deposit, 1, 1, 10000",
        "",
        "deposit, 2, 2, 300",
        "not a record",
        "withdrawal, 1, 2, 4000",
        "dispute, 1, 1",
        "resolve, 1, 1",
    ];
    let mut outcomes = Vec::new();
    for line in lines {
        outcomes.push(process_line(&mut clients_map, line).unwrap());
    }
    assert_eq!(
        vec![
            ProcessOutcome::Applied { extra_fields: false },
            ProcessOutcome::BlankLine,
            ProcessOutcome::Applied { extra_fields: false },
            ProcessOutcome::InvalidLine,
            ProcessOutcome::Applied { extra_fields: false },
            ProcessOutcome::Applied { extra_fields: false },
            ProcessOutcome::Applied { extra_fields: false },
        ],
        outcomes
    );
    assert_eq!(
        "client, available, held, total, locked\n\
         1, 6000, 0, 6000, false\n\
         2, 300, 0, 300, false\n"
            .to_string(),
        clients_map.render()
    );
}

#[test]
// a duplicate id arriving through the processing loop is reported, not fatal
fn process_line_reports_duplicates() {
    let mut clients_map = ClientMap::default();
    process_line(&mut clients_map, "deposit, 1, 1, 2022").unwrap();
    let outcome = process_line(&mut clients_map, "deposit, 1, 1, 999999").unwrap();
    assert_eq!(
        ProcessOutcome::DuplicateIgnored {
            client: ClientId(1),
            transaction: TransactionId(1),
            extra_fields: false,
        },
        outcome
    );
    assert_eq!("2022, 0, 2022, false".to_string(), row_of(&clients_map, 1));
}

#[test]
// an operation on a locked account aborts the batch with a hard error
fn process_line_propagates_locked_error() {
    let mut clients_map = ClientMap::default();
    process_line(&mut clients_map, "deposit, 1, 1, 10000").unwrap();
    process_line(&mut clients_map, "dispute, 1, 1").unwrap();
    process_line(&mut clients_map, "chargeback, 1, 1").unwrap();
    let result = process_line(&mut clients_map, "deposit, 1, 2, 5");
    match result {
        Err(ExecuteError::LockedAccount(_)) => {}
        _ => panic!("expected a locked-account error"),
    }
    assert_eq!("0, 0, 0, true".to_string(), row_of(&clients_map, 1));
}

#[test]
// a record whose balances would leave i64 is dropped, not applied
fn process_line_drops_out_of_range_amounts() {
    let mut clients_map = ClientMap::default();
    process_line(&mut clients_map, "deposit, 1, 1, 9223372036854775807").unwrap();
    let outcome = process_line(&mut clients_map, "deposit, 1, 2, 1").unwrap();
    assert_eq!(ProcessOutcome::AmountOutOfRange { extra_fields: false }, outcome);
    assert_eq!(
        "9223372036854775807, 0, 9223372036854775807, false".to_string(),
        row_of(&clients_map, 1)
    );
}

#[test]
// locking is visible in the rendered row and holds whatever the balances
fn lock_shows_in_render() {
    let mut client = Client::new(5, 2, false);
    client.lock();
    assert_eq!("5, 2, 7, true".to_string(), client.render());
}

#[test]
fn warning_style_wraps_only_for_terminals() {
    assert_eq!("plain".to_string(), warning_style("plain".to_string(), false));
    assert_eq!(
        "\x1b[31;1mloud\x1b[0m".to_string(),
        warning_style("loud".to_string(), true)
    );
}
