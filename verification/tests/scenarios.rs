use payments_engine::engine::{Processor, Rejection};
use payments_engine::parse::parse_record;
use payments_engine::record::TransactionRecord;
use payments_engine::render::render_units;

fn money(v: i128) -> String {
    String::from_utf8(render_units(v)).unwrap()
}

#[test]
fn example() {
    // `transactions.csv`
    const INPUT: &str = r#"type,  client, tx, amount
deposit,    1,  1,    1.0
deposit,    2,  2,    2.0
deposit,    1,  3,    2.0
withdrawal, 1,  4,    1.5
withdrawal, 2,  5,    3.0
"#;
    // `accounts.csv`
    const OUTPUT: &str = r#"client,available,held,total,locked
1,1.5,0.0,1.5,false
2,2.0,0.0,2.0,false
"#;
    let mut rdr = csv::ReaderBuilder::new()
        .flexible(true)
        .trim(csv::Trim::All)
        .from_reader(INPUT.as_bytes());
    let mut proc = Processor::new();
    for row in rdr.records() {
        let row = row.unwrap();
        let rec = parse_record(
            row.get(0).unwrap_or("").as_bytes(),
            row.get(1).unwrap_or("").as_bytes(),
            row.get(2).unwrap_or("").as_bytes(),
            row.get(3).unwrap_or("").as_bytes(),
        )
        .unwrap();
        proc.apply(&rec, false).unwrap();
    }
    let mut out = String::from("client,available,held,total,locked\n");
    for row in proc.snapshot() {
        out.push_str(&format!(
            "{},{},{},{},{}\n",
            row.client,
            money(row.available as i128),
            money(row.held as i128),
            money(row.total),
            row.locked
        ));
    }
    assert_eq!(out, OUTPUT);
}

#[test]
fn scenario_a_insufficient_withdrawal() {
    let mut proc = Processor::new();
    let records = vec![
        TransactionRecord::Deposit { client: 1, tx: 1, amount: 10000 },
        TransactionRecord::Deposit { client: 2, tx: 2, amount: 20000 },
        TransactionRecord::Deposit { client: 1, tx: 3, amount: 20000 },
        TransactionRecord::Withdrawal { client: 1, tx: 4, amount: 15000 },
        TransactionRecord::Withdrawal { client: 2, tx: 5, amount: 30000 },
    ];
    assert_eq!(proc.run(&records, false), Ok(()));
    let rows = proc.snapshot();
    assert_eq!(rows.len(), 2);
    assert_eq!(rows[0].client, 1);
    assert_eq!(rows[0].available, 15000);
    assert_eq!(rows[0].held, 0);
    assert_eq!(rows[0].total, 15000);
    assert!(!rows[0].locked);
    assert_eq!(rows[1].client, 2);
    assert_eq!(rows[1].available, 20000);
    assert_eq!(rows[1].held, 0);
    assert_eq!(rows[1].total, 20000);
    assert!(!rows[1].locked);
}

#[test]
fn scenario_a_strict_aborts() {
    let mut proc = Processor::new();
    let records = vec![
        TransactionRecord::Deposit { client: 1, tx: 1, amount: 10000 },
        TransactionRecord::Deposit { client: 2, tx: 2, amount: 20000 },
        TransactionRecord::Deposit { client: 1, tx: 3, amount: 20000 },
        TransactionRecord::Withdrawal { client: 1, tx: 4, amount: 15000 },
        TransactionRecord::Withdrawal { client: 2, tx: 5, amount: 30000 },
    ];
    assert_eq!(proc.run(&records, true), Err(Rejection::InsufficientFunds));
}

#[test]
fn scenario_b_dispute_holds_funds() {
    let mut proc = Processor::new();
    assert_eq!(
        proc.process(&TransactionRecord::Deposit { client: 1, tx: 1, amount: 50000 }),
        None
    );
    assert_eq!(proc.process(&TransactionRecord::Dispute { client: 1, tx: 1 }), None);
    let rows = proc.snapshot();
    assert_eq!(rows.len(), 1);
    assert_eq!(rows[0].available, 0);
    assert_eq!(rows[0].held, 50000);
    assert_eq!(rows[0].total, 50000);
    assert!(!rows[0].locked);
}

#[test]
fn scenario_c_chargeback_locks() {
    let mut proc = Processor::new();
    proc.process(&TransactionRecord::Deposit { client: 1, tx: 1, amount: 50000 });
    proc.process(&TransactionRecord::Dispute { client: 1, tx: 1 });
    assert_eq!(proc.process(&TransactionRecord::Chargeback { client: 1, tx: 1 }), None);
    let rows = proc.snapshot();
    assert_eq!(rows[0].available, 0);
    assert_eq!(rows[0].held, 0);
    assert_eq!(rows[0].total, 0);
    assert!(rows[0].locked);
    // a later deposit leaves the locked account untouched
    assert_eq!(
        proc.process(&TransactionRecord::Deposit { client: 1, tx: 6, amount: 100000 }),
        Some(Rejection::AccountLocked)
    );
    let rows = proc.snapshot();
    assert_eq!(rows[0].available, 0);
    assert_eq!(rows[0].held, 0);
    assert_eq!(rows[0].total, 0);
    assert!(rows[0].locked);
}

#[test]
fn scenario_d_unknown_dispute() {
    let mut proc = Processor::new();
    proc.process(&TransactionRecord::Deposit { client: 1, tx: 1, amount: 5000 });
    assert_eq!(
        proc.process(&TransactionRecord::Dispute { client: 1, tx: 99 }),
        Some(Rejection::UnknownTransaction)
    );
    let rows = proc.snapshot();
    assert_eq!(rows.len(), 1);
    assert_eq!(rows[0].available, 5000);
    assert_eq!(rows[0].held, 0);
    assert_eq!(rows[0].total, 5000);
    assert!(!rows[0].locked);
}

#[test]
fn dispute_resolve_round_trip() {
    let mut proc = Processor::new();
    proc.process(&TransactionRecord::Deposit { client: 1, tx: 1, amount: 50000 });
    proc.process(&TransactionRecord::Dispute { client: 1, tx: 1 });
    assert_eq!(proc.process(&TransactionRecord::Resolve { client: 1, tx: 1 }), None);
    let rows = proc.snapshot();
    assert_eq!(rows[0].available, 50000);
    assert_eq!(rows[0].held, 0);
    assert_eq!(rows[0].total, 50000);
    assert!(!rows[0].locked);
    // the account is active again: a withdrawal goes through
    assert_eq!(
        proc.process(&TransactionRecord::Withdrawal { client: 1, tx: 2, amount: 50000 }),
        None
    );
    let rows = proc.snapshot();
    assert_eq!(rows[0].available, 0);
    assert_eq!(rows[0].total, 0);
}

#[test]
fn resolve_without_dispute_rejected() {
    let mut proc = Processor::new();
    proc.process(&TransactionRecord::Deposit { client: 1, tx: 1, amount: 50000 });
    assert_eq!(
        proc.process(&TransactionRecord::Resolve { client: 1, tx: 1 }),
        Some(Rejection::InvalidTransition)
    );
    assert_eq!(
        proc.process(&TransactionRecord::Chargeback { client: 1, tx: 1 }),
        Some(Rejection::InvalidTransition)
    );
    let rows = proc.snapshot();
    assert_eq!(rows[0].available, 50000);
    assert_eq!(rows[0].held, 0);
}

#[test]
fn deposit_overflow_rejected() {
    let mut proc = Processor::new();
    assert_eq!(
        proc.process(&TransactionRecord::Deposit { client: 1, tx: 1, amount: i64::MAX }),
        None
    );
    assert_eq!(
        proc.process(&TransactionRecord::Deposit { client: 1, tx: 2, amount: 1 }),
        Some(Rejection::BalanceOverflow)
    );
    let rows = proc.snapshot();
    assert_eq!(rows[0].available, i64::MAX);
    assert_eq!(rows[0].total, i64::MAX as i128);
}

#[test]
fn withdrawal_can_be_disputed() {
    // withdrawals are recorded in history too, so one can be disputed
    let mut proc = Processor::new();
    proc.process(&TransactionRecord::Deposit { client: 1, tx: 1, amount: 30000 });
    proc.process(&TransactionRecord::Withdrawal { client: 1, tx: 2, amount: 10000 });
    assert_eq!(proc.process(&TransactionRecord::Dispute { client: 1, tx: 2 }), None);
    let rows = proc.snapshot();
    assert_eq!(rows[0].available, 10000);
    assert_eq!(rows[0].held, 10000);
    assert_eq!(rows[0].total, 20000);
}

#[test]
fn history_records_deposits_and_withdrawals() {
    let mut proc = Processor::new();
    proc.process(&TransactionRecord::Deposit { client: 1, tx: 1, amount: 30000 });
    assert_eq!(proc.lookup(1), Some(30000));
    proc.process(&TransactionRecord::Withdrawal { client: 1, tx: 2, amount: 10000 });
    assert_eq!(proc.lookup(2), Some(10000));
    // a failed withdrawal records nothing
    proc.process(&TransactionRecord::Withdrawal { client: 1, tx: 3, amount: 990000 });
    assert_eq!(proc.lookup(3), None);
    // disputes never remove history
    proc.process(&TransactionRecord::Dispute { client: 1, tx: 1 });
    proc.process(&TransactionRecord::Resolve { client: 1, tx: 1 });
    assert_eq!(proc.lookup(1), Some(30000));
    assert_eq!(proc.lookup(99), None);
}

#[test]
fn stacked_disputes_can_drive_available_negative() {
    // only one dispute status is tracked per account, but nothing stops a
    // second dispute while one is open; available can go negative then
    let mut proc = Processor::new();
    proc.process(&TransactionRecord::Deposit { client: 1, tx: 1, amount: 10000 });
    proc.process(&TransactionRecord::Deposit { client: 1, tx: 2, amount: 20000 });
    assert_eq!(proc.process(&TransactionRecord::Dispute { client: 1, tx: 1 }), None);
    assert_eq!(proc.process(&TransactionRecord::Dispute { client: 1, tx: 2 }), None);
    assert_eq!(proc.process(&TransactionRecord::Dispute { client: 1, tx: 2 }), None);
    let rows = proc.snapshot();
    assert_eq!(rows[0].available, -20000);
    assert_eq!(rows[0].held, 50000);
    assert_eq!(rows[0].total, 30000);
}
