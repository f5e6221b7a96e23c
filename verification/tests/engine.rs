use payments_engine::amount::Amount;
use payments_engine::client::ClientRecord;
use payments_engine::engine::{Engine, RowError};
use payments_engine::error::{Balance, Field, TxError};
use payments_engine::tx::{Record, Tx, TxKind, TxType};
use std::collections::HashMap;

const EXAMPLE: &str = "\
type, client, tx, amount
deposit, 1, 1, 1.0
deposit, 2, 2, 2.0
deposit, 1, 3, 2.0
withdrawal, 1, 4, 1.5
withdrawal, 2, 5, 3.0
";

const SPACELESS: &str = "\
type,client,tx,amount
deposit,1,1,1.0
deposit,2,2,2.0
deposit,1,3,2.0
withdrawal,1,4,1.5
withdrawal,2,5,3.0
";

const SPACEFULL: &str = "\
type ,   client ,  tx ,   amount
 deposit ,  1 ,  1 ,   1.0
deposit   ,2   ,2   ,2.0
  deposit,\t1,    3,  2.0
withdrawal ,    1,   4 ,  1.5
   withdrawal   ,   2   ,   5   ,   3.0
";

const WRONG: &str = "\
type, client, tx, amount
deposit, 1, 1, 1.0
deposit, 1
transfer, 1, 7, 5.0
deposit, one, 8, 5.0
deposit, 2, 2, 2.0
deposit, 2, -3, 5.0
deposit, 2, 9, five
deposit, 70000, 10, 5.0
withdrawal, 1, 11,
deposit, 1, 12, 1.0, extra
";

const NONEXISTENT: &str = "\
type, client, tx, amount
deposit, 1, 1, 0.49
withdrawal, 3, 2, 1.0
dispute, 4, 1,
deposit, 2, 3, 3.14
resolve, 5, 3,
deposit, 2, 4, 1.14
chargeback, 6, 3,
dispute, 2, 3,
dispute, 1, 3,
";

fn rows_of(text: &str) -> Vec<Result<Record, csv::Error>> {
    let mut rdr = csv::ReaderBuilder::new()
        .trim(csv::Trim::All)
        .from_reader(text.as_bytes());
    let headers = rdr.headers().unwrap().clone();
    let column = |name: &str| headers.iter().position(|h| h == name).unwrap();
    let (tx_type, client, tx, amount) =
        (column("type"), column("client"), column("tx"), column("amount"));
    let field = |row: &csv::StringRecord, i: usize| row.get(i).unwrap_or("").to_string();
    rdr.records()
        .map(|row| {
            row.map(|row| Record {
                tx_type: field(&row, tx_type),
                client: field(&row, client),
                tx: field(&row, tx),
                amount: field(&row, amount),
            })
        })
        .collect()
}

fn record(tx_type: &str, client: &str, tx: &str, amount: &str) -> Record {
    Record {
        tx_type: tx_type.to_string(),
        client: client.to_string(),
        tx: tx.to_string(),
        amount: amount.to_string(),
    }
}

fn row(tx_type: &str, client: &str, tx: &str, amount: &str) -> Result<Record, csv::Error> {
    Ok(record(tx_type, client, tx, amount))
}

fn unreadable_row() -> Result<Record, csv::Error> {
    let mut rows = rows_of("type,client,tx,amount\ndeposit,1\n");
    assert_eq!(rows.len(), 1);
    let row = rows.pop().unwrap();
    assert!(row.is_err());
    row
}

fn balances(engine: &Engine, id: u16) -> (u64, u64, u64, bool) {
    let client = engine.client(id).unwrap();
    (client.available(), client.held(), client.total(), client.locked())
}

fn assert_example_result(engine: &Engine) {
    let client = engine.client(1).unwrap();
    assert_eq!(client.available(), 15000);
    assert_eq!(client.held(), 0);
    assert_eq!(client.total(), 15000);
    let client = engine.client(2).unwrap();
    assert_eq!(client.available(), 20000);
    assert_eq!(client.held(), 0);
    assert_eq!(client.total(), 20000);
}

fn sorted(mut rows: Vec<ClientRecord>) -> Vec<(u16, String, String, String, bool)> {
    rows.sort_by_key(|r| r.client);
    rows.into_iter()
        .map(|r| (r.client, r.available, r.held, r.total, r.locked))
        .collect()
}

#[test]
fn should_handle_example() {
    let mut engine = Engine::default();
    engine.process_rows(&rows_of(EXAMPLE));
    assert_example_result(&engine);
}

#[test]
fn should_handle_spaceless_format() {
    let mut engine = Engine::default();
    engine.process_rows(&rows_of(SPACELESS));
    assert_example_result(&engine);
}

#[test]
fn should_handle_spacefull_format() {
    let mut engine = Engine::default();
    engine.process_rows(&rows_of(SPACEFULL));
    assert_example_result(&engine);
}

#[test]
fn should_skip_wrong_lines_in_csv_but_process_rest() {
    let mut engine = Engine::default();
    engine.process_rows(&rows_of(WRONG));
    let client = engine.client(1).unwrap();
    assert_eq!(client.available(), 10000);
    assert_eq!(client.held(), 0);
    assert_eq!(client.total(), 10000);
    let client = engine.client(2).unwrap();
    assert_eq!(client.available(), 20000);
    assert_eq!(client.held(), 0);
    assert_eq!(client.total(), 20000);
}

#[test]
fn should_skip_nonexistent_accounts() {
    let mut engine = Engine::default();
    engine.process_rows(&rows_of(NONEXISTENT));
    let client = engine.client(1).unwrap();
    assert_eq!(client.available(), 4900);
    assert_eq!(client.held(), 0);
    assert_eq!(client.total(), 4900);
    let client = engine.client(2).unwrap();
    assert_eq!(client.available(), 11400);
    assert_eq!(client.held(), 31400);
    assert_eq!(client.total(), 42800);
    for id in [3u16, 4, 5, 6] {
        assert!(engine.client(id).is_none());
    }
}

#[test]
fn blanks_around_fields_are_left_out_by_the_library_too() {
    let mut engine = Engine::default();
    let r = engine.process_row(&row("  deposit\t", " 1 ", "\t7  ", "  2.5\r\n"));
    assert_eq!(r, Ok(()));
    assert_eq!(balances(&engine, 1), (25000, 0, 25000, false));
    assert!(engine.client(1).unwrap().find_deposit(7).is_some());
}

#[test]
fn run_reports_every_account_once() {
    let report = Engine::default().run(rows_of(EXAMPLE));
    assert_eq!(
        sorted(report),
        vec![
            (1, "1.5000".to_string(), "0.0000".to_string(), "1.5000".to_string(), false),
            (2, "2.0000".to_string(), "0.0000".to_string(), "2.0000".to_string(), false),
        ]
    );
}

#[test]
fn run_reports_held_funds_and_locks() {
    let rows = vec![
        row("deposit", "9", "1", "10"),
        row("deposit", "9", "2", "0.125"),
        row("deposit", "4", "3", "7.77777"),
        row("dispute", "9", "2", ""),
        row("dispute", "4", "3", ""),
        row("chargeback", "4", "3", ""),
        row("deposit", "65535", "4294967295", "0.0001"),
    ];
    let report = Engine::default().run(rows);
    assert_eq!(
        sorted(report),
        vec![
            (4, "0.0000".to_string(), "0.0000".to_string(), "0.0000".to_string(), true),
            (9, "10.0000".to_string(), "0.1250".to_string(), "10.1250".to_string(), false),
            (65535, "0.0001".to_string(), "0.0000".to_string(), "0.0001".to_string(), false),
        ]
    );
}

#[test]
fn run_of_nothing_reports_nothing() {
    assert!(Engine::default().run(Vec::new()).is_empty());
    assert!(Engine::default().output().is_empty());
}

#[test]
fn scenario_of_two_clients() {
    let mut engine = Engine::default();
    assert_eq!(engine.process_row(&row("deposit", "1", "1", "1.0000")), Ok(()));
    assert_eq!(balances(&engine, 1), (10000, 0, 10000, false));
    assert_eq!(engine.process_row(&row("deposit", "2", "2", "2.0000")), Ok(()));
    assert_eq!(balances(&engine, 2), (20000, 0, 20000, false));
    assert_eq!(engine.process_row(&row("dispute", "1", "1", "")), Ok(()));
    assert_eq!(balances(&engine, 1), (0, 10000, 10000, false));
    assert_eq!(engine.process_row(&row("resolve", "1", "1", "")), Ok(()));
    assert_eq!(balances(&engine, 1), (10000, 0, 10000, false));
    assert_eq!(
        engine.process_row(&row("chargeback", "1", "1", "")),
        Err(RowError::Rejected {
            kind: TxKind::Chargeback,
            tx_id: 1,
            cause: TxError::InvalidDepositState {
                actual: payments_engine::client::DepositState::Normal,
                expected: payments_engine::client::DepositState::Disputed,
            },
        })
    );
    assert_eq!(balances(&engine, 1), (10000, 0, 10000, false));
    assert_eq!(engine.process_row(&row("dispute", "1", "1", "")), Ok(()));
    assert_eq!(engine.process_row(&row("chargeback", "1", "1", "")), Ok(()));
    assert_eq!(balances(&engine, 1), (0, 0, 0, true));
    assert_eq!(balances(&engine, 2), (20000, 0, 20000, false));
}

#[test]
fn unknown_ids_are_named_in_the_error() {
    let mut engine = Engine::default();
    assert_eq!(engine.process_row(&row("deposit", "1", "1", "5")), Ok(()));
    for kind in ["dispute", "resolve", "chargeback"] {
        let r = engine.process_row(&row(kind, "1", "2", ""));
        match r {
            Err(RowError::Rejected {
                tx_id: 2,
                cause: TxError::DepositNotFound { tx: 2 },
                ..
            }) => {}
            other => panic!("{:?}", other),
        }
    }
    for kind in ["withdrawal", "dispute", "resolve", "chargeback"] {
        let r = engine.process_row(&row(kind, "2", "1", "1"));
        match r {
            Err(RowError::Rejected {
                tx_id: 1,
                cause: TxError::AccountNotFound { client: 2 },
                ..
            }) => {}
            other => panic!("{:?}", other),
        }
        assert!(engine.client(2).is_none());
    }
    assert_eq!(balances(&engine, 1), (50000, 0, 50000, false));
}

#[test]
fn malformed_rows_change_nothing() {
    let mut engine = Engine::default();
    assert_eq!(engine.process_row(&row("deposit", "1", "1", "5")), Ok(()));
    let bad = [
        (row("transfer", "1", "2", "5"), TxError::ParseError(Field::Type)),
        (row("Deposit", "1", "2", "5"), TxError::ParseError(Field::Type)),
        (row("", "1", "2", "5"), TxError::ParseError(Field::Type)),
        (row("deposit", "", "2", "5"), TxError::ParseError(Field::Client)),
        (row("deposit", "65536", "2", "5"), TxError::ParseError(Field::Client)),
        (row("deposit", "-1", "2", "5"), TxError::ParseError(Field::Client)),
        (row("deposit", "1 1", "2", "5"), TxError::ParseError(Field::Client)),
        (row("deposit", "1", "4294967296", "5"), TxError::ParseError(Field::Tx)),
        (row("deposit", "1", "2.0", "5"), TxError::ParseError(Field::Tx)),
        (
            row("deposit", "1", "99999999999999999999999999", "5"),
            TxError::ParseError(Field::Tx),
        ),
        (row("deposit", "1", "2", ""), TxError::InvalidAmount),
        (row("deposit", "1", "2", "five"), TxError::InvalidAmount),
        (row("withdrawal", "1", "2", "1e0"), TxError::InvalidAmount),
        (unreadable_row(), TxError::ParseError(Field::Row)),
    ];
    for (row, cause) in bad.iter() {
        assert_eq!(engine.process_row(row), Err(RowError::Malformed(*cause)));
        assert_eq!(balances(&engine, 1), (50000, 0, 50000, false));
        assert!(engine.client(1).unwrap().find_deposit(2).is_none());
    }
    assert_eq!(engine.process_row(&row("deposit", "1", "3", "1")), Ok(()));
    assert_eq!(balances(&engine, 1), (60000, 0, 60000, false));
}

#[test]
fn ids_may_start_with_zeros() {
    let mut engine = Engine::default();
    assert_eq!(
        engine.process_row(&row("deposit", "007", "0000000000000000000042", "5")),
        Ok(())
    );
    assert_eq!(balances(&engine, 7), (50000, 0, 50000, false));
    assert!(engine.client(7).unwrap().find_deposit(42).is_some());
}

#[test]
fn a_refused_first_deposit_leaves_an_empty_account() {
    let mut engine = Engine::default();
    assert_eq!(
        engine.process_row(&row("deposit", "3", "1", "-5")),
        Err(RowError::Rejected { kind: TxKind::Deposit, tx_id: 1, cause: TxError::NegativeAmount })
    );
    assert_eq!(balances(&engine, 3), (0, 0, 0, false));
    assert!(engine.client(3).unwrap().find_deposit(1).is_none());
}

#[test]
fn amounts_of_disputes_are_not_read() {
    let mut engine = Engine::default();
    assert_eq!(engine.process_row(&row("deposit", "1", "1", "5")), Ok(()));
    assert_eq!(engine.process_row(&row("dispute", "1", "1", "not a number")), Ok(()));
    assert_eq!(engine.process_row(&row("resolve", "1", "1", "1e5")), Ok(()));
    assert_eq!(balances(&engine, 1), (50000, 0, 50000, false));
}

#[test]
fn decode_reads_each_kind() {
    let tx = Tx::decode(&record("deposit", "1", "2", "3.5")).unwrap();
    assert_eq!((tx.client_id, tx.tx_id, tx.tx_type.kind()), (1, 2, TxKind::Deposit));
    match tx.tx_type {
        TxType::Deposit { amount } => assert_eq!(amount.to_u64(), Ok(35000)),
        other => panic!("{:?}", other),
    }
    let tx = Tx::decode(&record("withdrawal", "65535", "4294967295", "0.00005")).unwrap();
    assert_eq!(
        (tx.client_id, tx.tx_id, tx.tx_type.kind()),
        (65535, 4294967295, TxKind::Withdrawal)
    );
    match tx.tx_type {
        TxType::Withdrawal { amount } => assert_eq!(amount.to_u64(), Ok(1)),
        other => panic!("{:?}", other),
    }
    for (word, kind) in [
        ("dispute", TxKind::Dispute),
        ("resolve", TxKind::Resolve),
        ("chargeback", TxKind::Chargeback),
    ] {
        let tx = Tx::decode(&record(word, "0", "0", "")).unwrap();
        assert_eq!((tx.client_id, tx.tx_id, tx.tx_type.kind()), (0, 0, kind));
    }
}

#[test]
fn process_works_on_a_map_of_accounts() {
    let mut clients = HashMap::new();
    let deposit = Tx {
        tx_type: TxType::Deposit { amount: Amount::from_u64(50000) },
        client_id: 8,
        tx_id: 1,
    };
    assert_eq!(deposit.process(&mut clients), Ok(()));
    assert_eq!(deposit.process(&mut clients), Ok(()));
    assert_eq!(clients.len(), 1);
    assert_eq!(clients[&8].client_id(), 8);
    assert_eq!(clients[&8].total(), 100000);
    let withdrawal = Tx {
        tx_type: TxType::Withdrawal { amount: Amount::from_u64(100001) },
        client_id: 8,
        tx_id: 2,
    };
    assert_eq!(
        withdrawal.process(&mut clients),
        Err(TxError::InsufficientFunds {
            client: 8,
            balance: Balance::Available,
            needed: 100001,
            present: 100000,
        })
    );
    let elsewhere = Tx { tx_type: TxType::Dispute, client_id: 9, tx_id: 1 };
    assert_eq!(elsewhere.process(&mut clients), Err(TxError::AccountNotFound { client: 9 }));
    assert_eq!(clients.len(), 1);
}

#[test]
fn row_errors_are_put_in_words() {
    let mut engine = Engine::default();
    assert_eq!(engine.process_row(&row("deposit", "12", "1", "5")), Ok(()));
    assert_eq!(
        engine.process_row(&row("withdrawal", "12", "77", "6.5")).unwrap_err().to_string(),
        "Cannot process Withdrawal(77); Account 12: Not enough funds available: 6.5000 > 5.0000"
    );
    assert_eq!(
        engine.process_row(&row("dispute", "13", "1", "")).unwrap_err().to_string(),
        "Cannot process Dispute(1); Account 13 not found"
    );
    assert_eq!(
        engine.process_row(&row("refund", "13", "1", "")).unwrap_err().to_string(),
        "Unknown transaction type"
    );
    assert_eq!(engine.process_row(&unreadable_row()).unwrap_err().to_string(), "Malformed row");
    assert_eq!(
        engine.process_row(&row("deposit", "x", "1", "1")).unwrap_err().to_string(),
        "Invalid client id"
    );
    assert_eq!(
        engine.process_row(&row("deposit", "1", "x", "1")).unwrap_err().to_string(),
        "Invalid transaction id"
    );
    assert_eq!(
        engine.process_row(&row("deposit", "1", "1", "x")).unwrap_err().to_string(),
        "Invalid amount"
    );
    assert_eq!(
        engine.process_row(&row("deposit", "1", "1", "-1")).unwrap_err().to_string(),
        "Cannot process Deposit(1); Negative amount"
    );
}

#[test]
fn copies_hold_what_was_copied() {
    let tx = Tx::decode(&record("deposit", "1", "2", "3.5").clone()).unwrap().clone();
    assert_eq!((tx.client_id, tx.tx_id, tx.tx_type.kind()), (1, 2, TxKind::Deposit));
    match tx.tx_type.clone() {
        TxType::Deposit { amount } => assert_eq!(amount.to_u64(), Ok(35000)),
        other => panic!("{:?}", other),
    }
    let mut engine = Engine::default();
    engine.process_rows(&vec![row("deposit", "1", "2", "3.5")]);
    let report = engine.output();
    let copy = report[0].clone();
    assert_eq!(
        (
            copy.client,
            copy.available.as_str(),
            copy.held.as_str(),
            copy.total.as_str(),
            copy.locked,
        ),
        (1, "3.5000", "0.0000", "3.5000", false)
    );
}

#[test]
fn rows_after_a_refused_row_still_count() {
    let rows = vec![
        row("deposit", "1", "1", "5"),
        row("withdrawal", "1", "2", "6"),
        row("withdrawal", "1", "3", "2"),
        unreadable_row(),
        row("deposit", "1", "4", "0.5"),
    ];
    let mut engine = Engine::default();
    engine.process_rows(&rows);
    assert_eq!(balances(&engine, 1), (35000, 0, 35000, false));
}
