use ledger::AccountAction;
use ledger::Amount;
use ledger::Balance;
use ledger::ClientId;
use ledger::Error;
use ledger::TransactionId;

fn reader_for(entry: &str) -> csv::Reader<&[u8]> {
    csv::ReaderBuilder::new()
        .has_headers(true)
        .comment(Some(b'#'))
        .flexible(true)
        .trim(csv::Trim::All)
        .from_reader(entry.as_bytes())
}

fn action_from_row(rec: &csv::StringRecord) -> Result<AccountAction, Error> {
    let kind = rec.get(0).unwrap_or("");
    let client: u16 = match rec.get(1).unwrap_or("").parse() {
        Ok(v) => v,
        Err(_) => return Err(Error::MalformedRecord),
    };
    let tx: u32 = match rec.get(2).unwrap_or("").parse() {
        Ok(v) => v,
        Err(_) => return Err(Error::MalformedRecord),
    };
    let amount: Option<&str> = match rec.get(3) {
        None | Some("") => None,
        Some(a) => Some(a),
    };
    AccountAction::from_record(kind, client, tx, amount)
}

/// ensure the amount field must be present for deposits and withdrawals
#[test]
fn amount_present() {
    let entry = "type,client,tx,amount\nwithdrawal,1,1\ndeposit,1,2,\ndeposit,1,3,1\n";
    let mut reader = reader_for(entry);
    let mut records = reader.records();
    assert!(records.next().is_some_and(|x| action_from_row(&x.unwrap()).is_err()));
    assert!(records.next().is_some_and(|x| action_from_row(&x.unwrap()).is_err()));
    assert!(records.next().is_some_and(|x| action_from_row(&x.unwrap()).is_ok()));
    assert!(records.next().is_none());
}

/// ensure the amount field must be missing for disputes, resolves, and chargebacks
#[test]
fn amount_missing() {
    let entry = "type,client,tx,amount\ndispute,1,1,1\nresolve,1,2,1\nchargeback,1,3,1\ndispute,1,4,\nresolve,1,5\nchargeback,1,6,\n";
    let mut reader = reader_for(entry);
    let mut records = reader.records();
    assert!(records.next().is_some_and(|x| action_from_row(&x.unwrap()).is_err()));
    assert!(records.next().is_some_and(|x| action_from_row(&x.unwrap()).is_err()));
    assert!(records.next().is_some_and(|x| action_from_row(&x.unwrap()).is_err()));
    assert!(records.next().is_some_and(|x| action_from_row(&x.unwrap()).is_ok()));
    assert!(records.next().is_some_and(|x| action_from_row(&x.unwrap()).is_ok()));
    assert!(records.next().is_some_and(|x| action_from_row(&x.unwrap()).is_ok()));
    assert!(records.next().is_none());
}

/// ensure the amount in a transaction is always positive, to prevent someone withdrawing negative funds
#[test]
fn amount_positive() {
    let entry = "type,client,tx,amount\nwithdrawal,1,1,-1.00\ndeposit,1,2,-1.00";
    let mut reader = reader_for(entry);
    for record in reader.records() {
        assert!(action_from_row(&record.unwrap()).is_err());
    }
}

/// round trip through parse and render is exact
#[test]
fn amount_round_trip() {
    let a = Amount::from_text("1.5").unwrap();
    assert_eq!(a, Amount(15000));
    assert_eq!(a.render(), "1.5000");

    let b = Amount::from_text("1").unwrap();
    assert_eq!(b, Amount(10000));
    assert_eq!(b.render(), "1.0000");

    // more than four fractional digits are rejected
    assert_eq!(Amount::from_text("1.00000"), Err(Error::MalformedRecord));
}

/// exact parses, including a trailing dot and the scaled maximum
#[test]
fn amount_parse_exact() {
    assert_eq!(Amount::from_text("0.0001"), Ok(Amount(1)));
    assert_eq!(Amount::from_text("0"), Ok(Amount(0)));
    assert_eq!(Amount::from_text("1."), Ok(Amount(10000)));
    assert_eq!(Amount::from_text("12.34"), Ok(Amount(123400)));
    assert_eq!(Amount::from_text("007"), Ok(Amount(70000)));
    // the largest representable amount, and one step beyond it
    assert_eq!(
        Amount::from_text("1844674407370955.1615"),
        Ok(Amount(u64::MAX))
    );
    assert_eq!(
        Amount::from_text("1844674407370955.1616"),
        Err(Error::MalformedRecord)
    );
}

/// malformed amount texts are rejected
#[test]
fn amount_parse_rejects() {
    assert_eq!(Amount::from_text(""), Err(Error::MalformedRecord));
    assert_eq!(Amount::from_text("-1"), Err(Error::MalformedRecord));
    assert_eq!(Amount::from_text("+1"), Err(Error::MalformedRecord));
    assert_eq!(Amount::from_text("."), Err(Error::MalformedRecord));
    assert_eq!(Amount::from_text(".5"), Err(Error::MalformedRecord));
    assert_eq!(Amount::from_text("1.2.3"), Err(Error::MalformedRecord));
    assert_eq!(Amount::from_text("1a"), Err(Error::MalformedRecord));
    assert_eq!(Amount::from_text("1 "), Err(Error::MalformedRecord));
    assert_eq!(
        Amount::from_text("18446744073709551616"),
        Err(Error::MalformedRecord)
    );
}

/// balances render with a sign, whole units, and exactly four fractional digits
#[test]
fn balance_render() {
    assert_eq!(Balance(0).render(), "0.0000");
    assert_eq!(Balance(15000).render(), "1.5000");
    assert_eq!(Balance(-3).render(), "-0.0003");
    assert_eq!(Balance(-15000).render(), "-1.5000");
    assert_eq!(Balance(123456789).render(), "12345.6789");
}

/// the type tag is matched case-insensitively and unknown tags are refused
#[test]
fn record_type_tags() {
    assert!(matches!(
        AccountAction::from_record("DePoSiT", 1, 2, Some("1.0")),
        Ok(AccountAction::Deposit(d))
            if d.client_id == ClientId(1)
                && d.transaction_id == TransactionId(2)
                && d.amount == Amount(10000)
    ));
    assert!(matches!(
        AccountAction::from_record("WITHDRAWAL", 3, 4, Some("0.5")),
        Ok(AccountAction::Withdrawal(w))
            if w.client_id == ClientId(3)
                && w.transaction_id == TransactionId(4)
                && w.amount == Amount(5000)
    ));
    assert!(matches!(
        AccountAction::from_record("Dispute", 1, 5, None),
        Ok(AccountAction::Dispute(d)) if d.disputed_transaction == TransactionId(5)
    ));
    assert!(matches!(
        AccountAction::from_record("resolve", 1, 6, None),
        Ok(AccountAction::Resolve(r)) if r.disputed_transaction == TransactionId(6)
    ));
    assert!(matches!(
        AccountAction::from_record("chargeback", 1, 7, None),
        Ok(AccountAction::Chargeback(c)) if c.disputed_transaction == TransactionId(7)
    ));
    assert_eq!(
        AccountAction::from_record("transfer", 1, 8, None).err(),
        Some(Error::MalformedRecord)
    );
    // a deposit may carry a zero amount, but never none
    assert!(AccountAction::from_record("deposit", 1, 9, Some("0")).is_ok());
    assert_eq!(
        AccountAction::from_record("deposit", 1, 10, None).err(),
        Some(Error::MalformedRecord)
    );
}
