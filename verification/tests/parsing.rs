use payments_engine::parse::{parse_record, parse_u16, parse_u32, parse_units, ParseError};
use payments_engine::record::TransactionRecord;
use payments_engine::UNIT_SCALE;

#[test]
fn u16_fields() {
    assert_eq!(parse_u16(b"1"), Some(1));
    assert_eq!(parse_u16(b"007"), Some(7));
    assert_eq!(parse_u16(b"65535"), Some(65535));
    assert_eq!(parse_u16(b"65536"), None);
    assert_eq!(parse_u16(b""), None);
    assert_eq!(parse_u16(b"12a"), None);
    assert_eq!(parse_u16(b"-1"), None);
}

#[test]
fn u32_fields() {
    assert_eq!(parse_u32(b"0"), Some(0));
    assert_eq!(parse_u32(b"4294967295"), Some(4294967295));
    assert_eq!(parse_u32(b"4294967296"), None);
    assert_eq!(parse_u32(b"99999999999999999999"), None);
    assert_eq!(parse_u32(b" 5"), None);
}

#[test]
fn amount_fields() {
    assert_eq!(parse_units(b"1.0"), Some(UNIT_SCALE));
    assert_eq!(parse_units(b"1.5"), Some(15000));
    assert_eq!(parse_units(b"2"), Some(20000));
    assert_eq!(parse_units(b"1."), Some(10000));
    assert_eq!(parse_units(b"0.0001"), Some(1));
    assert_eq!(parse_units(b"1.2345"), Some(12345));
    assert_eq!(parse_units(b"003.10"), Some(31000));
    assert_eq!(parse_units(b"1.23456"), None);
    assert_eq!(parse_units(b".5"), None);
    assert_eq!(parse_units(b""), None);
    assert_eq!(parse_units(b"1.2.3"), None);
    assert_eq!(parse_units(b"-1.0"), None);
    assert_eq!(parse_units(b"1,5"), None);
}

#[test]
fn amount_fields_at_the_edge_of_range() {
    assert_eq!(parse_units(b"922337203685477.5807"), Some(i64::MAX));
    assert_eq!(parse_units(b"922337203685477.5808"), None);
    assert_eq!(parse_units(b"99999999999999999999"), None);
}

#[test]
fn records_parse() {
    assert_eq!(
        parse_record(b"deposit", b"1", b"2", b"1.5"),
        Ok(TransactionRecord::Deposit { client: 1, tx: 2, amount: 15000 })
    );
    assert_eq!(
        parse_record(b"withdrawal", b"7", b"9", b"0.25"),
        Ok(TransactionRecord::Withdrawal { client: 7, tx: 9, amount: 2500 })
    );
    assert_eq!(
        parse_record(b"dispute", b"1", b"2", b""),
        Ok(TransactionRecord::Dispute { client: 1, tx: 2 })
    );
    assert_eq!(
        parse_record(b"resolve", b"1", b"2", b""),
        Ok(TransactionRecord::Resolve { client: 1, tx: 2 })
    );
    assert_eq!(
        parse_record(b"chargeback", b"1", b"2", b""),
        Ok(TransactionRecord::Chargeback { client: 1, tx: 2 })
    );
    // an amount on a dispute is ignored, as on the other lifecycle records
    assert_eq!(
        parse_record(b"dispute", b"1", b"2", b"9.99"),
        Ok(TransactionRecord::Dispute { client: 1, tx: 2 })
    );
}

#[test]
fn records_refused() {
    assert_eq!(parse_record(b"transfer", b"1", b"2", b"1.0"), Err(ParseError::UnknownKind));
    assert_eq!(parse_record(b"Deposit", b"1", b"2", b"1.0"), Err(ParseError::UnknownKind));
    assert_eq!(parse_record(b"deposit", b"70000", b"2", b"1.0"), Err(ParseError::BadClient));
    assert_eq!(parse_record(b"deposit", b"x", b"2", b"1.0"), Err(ParseError::BadClient));
    assert_eq!(parse_record(b"deposit", b"1", b"5000000000", b"1.0"), Err(ParseError::BadTx));
    assert_eq!(parse_record(b"deposit", b"1", b"2", b""), Err(ParseError::MissingAmount));
    assert_eq!(parse_record(b"withdrawal", b"1", b"2", b""), Err(ParseError::MissingAmount));
    assert_eq!(parse_record(b"deposit", b"1", b"2", b"1.00000"), Err(ParseError::BadAmount));
    assert_eq!(parse_record(b"deposit", b"1", b"2", b"abc"), Err(ParseError::BadAmount));
}
