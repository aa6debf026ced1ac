use backertrack::date::Timestamp;
use backertrack::dedup::{fingerprint, is_known};
use backertrack::donations::{import, import_donorbox, DonationOrigin};
use backertrack::export::{export, format_fees};
use backertrack::import::{import_opencollective, ImportError, ImportWarning};
use backertrack::info::{gross_receipts, info, split_names};
use backertrack::ledger::{ExpenseKind, Fee, IncomeKind, Ledger, TransactionMetadata};
use backertrack::money::{format_currency, Money};
use backertrack::payout::{payout, PayoutOrigin};

const OC_HEADER: &str = "User Name,Transaction Date,Transaction Amount,Host Fee (USD),Open Collective Fee (USD),Payment Processor Fee (USD),Net Amount (USD)\n";

fn ledger_with(names: &[&str]) -> Ledger {
    let mut l = Ledger::new();
    for n in names {
        l.new_account(n, Money::zero(), Timestamp { secs: 1577836800, nanos: 0 }).unwrap();
    }
    l
}

fn balance(l: &Ledger, name: &str) -> String {
    format_currency(&l.get_account(name).unwrap().current_balance())
}

fn hex(bytes: &[u8]) -> String {
    bytes.iter().map(|b| format!("{:02x}", b)).collect()
}

#[test]
fn fingerprint_hashes_the_concatenation() {
    let id = fingerprint("a", &vec!["b".to_owned(), "c".to_owned()]);
    assert_eq!(hex(&id), "ba7816bf8f01cfea414140de5dae2223b00361a396177a9cb410ff61f20015ad");
    assert_eq!(id, fingerprint("ab", &vec!["c".to_owned()]));
    assert!(is_known(&vec![vec![1u8], id.clone()], &id));
    assert!(!is_known(&vec![vec![1u8]], &id));
}

#[test]
fn opencollective_donation_with_four_fees() {
    let mut l = ledger_with(&["Stripe"]);
    let text = format!("{}Alice,2020-02-01 10:00:00,100.00,-5.00,-3.00,-2.00,90.00\n", OC_HEADER);
    let w = import_opencollective(&mut l, &text).unwrap();
    assert!(w.is_empty());
    let a = l.get_account("Stripe").unwrap();
    assert_eq!(a.transactions.len(), 1);
    let t = &a.transactions[0];
    assert_eq!(t.date, Timestamp::parse("2020-02-01 10:00:00", "%Y-%m-%d %H:%M:%S").unwrap());
    assert_eq!(t.description, "Donation made through the OpenCollective platform");
    let fees: Vec<String> = t.fees.iter().map(|f| format!("{}[{}]", format_currency(&f.amount), f.towards)).collect();
    assert_eq!(
        fees,
        vec![
            "-$5.00[Collective Host (Amethyst Foundation)]",
            "$5.00[Collective Host (Amethyst Foundation)]",
            "$3.00[OpenCollective]",
            "$2.00[Payment Processor]",
        ]
    );
    match &t.meta {
        TransactionMetadata::Income { kind: IncomeKind::Donation(id), from } => {
            assert_eq!(from, "Alice");
            let expected = fingerprint(
                "OpenCollective",
                &vec!["Alice".to_owned(), "2020-02-01 10:00:00".to_owned(), "90.00".to_owned()],
            );
            assert_eq!(id, &expected);
        }
        _ => panic!("not a donation"),
    }
    // 100 - (-5) - 5 - 3 - 2
    assert_eq!(balance(&l, "Stripe"), "$95.00");
}

#[test]
fn reimporting_the_same_file_changes_nothing() {
    let mut l = ledger_with(&["Stripe"]);
    let text = format!(
        "{}Alice,2020-02-01 10:00:00,100.00,-5.00,-3.00,-2.00,90.00\nBob,2020-01-15 09:00:00,20,0,-1,-0.5,18.5\n",
        OC_HEADER
    );
    assert!(import_opencollective(&mut l, &text).unwrap().is_empty());
    let first: Vec<String> = l.accounts[0].transactions.iter().map(|t| format!("{:?}", t)).collect();
    assert_eq!(first.len(), 2);
    // sorted by date: Bob first
    match &l.accounts[0].transactions[0].meta {
        TransactionMetadata::Income { from, .. } => assert_eq!(from, "Bob"),
        _ => panic!("not an income"),
    }
    let w = import_opencollective(&mut l, &text).unwrap();
    assert_eq!(
        w,
        vec![
            ImportWarning::AlreadyImported { entry: 0, key: "Alice".to_owned(), date: "2020-02-01 10:00:00".to_owned() },
            ImportWarning::AlreadyImported { entry: 1, key: "Bob".to_owned(), date: "2020-01-15 09:00:00".to_owned() },
        ]
    );
    let second: Vec<String> = l.accounts[0].transactions.iter().map(|t| format!("{:?}", t)).collect();
    assert_eq!(first, second);
}

#[test]
fn duplicate_entries_within_one_file_are_taken_once() {
    let mut l = ledger_with(&["Stripe"]);
    let row = "Alice,2020-02-01 10:00:00,100.00,-5.00,-3.00,-2.00,90.00\n";
    let text = format!("{}{}{}", OC_HEADER, row, row);
    let w = import_opencollective(&mut l, &text).unwrap();
    assert_eq!(
        w,
        vec![ImportWarning::AlreadyImported { entry: 1, key: "Alice".to_owned(), date: "2020-02-01 10:00:00".to_owned() }]
    );
    assert_eq!(l.accounts[0].transactions.len(), 1);
}

#[test]
fn a_bad_cell_aborts_the_import() {
    let mut l = ledger_with(&["Stripe"]);
    let text = format!(
        "{}Alice,2020-02-01 10:00:00,100.00,-5.00,-3.00,-2.00,90.00\nBob,not a date,20,0,-1,-0.5,18.5\n",
        OC_HEADER
    );
    assert_eq!(
        import_opencollective(&mut l, &text),
        Err(ImportError::BadField { entry: 1, column: "Transaction Date".to_owned() })
    );
    assert!(l.accounts[0].transactions.is_empty());
    let text = format!("{}Alice,2020-02-01 10:00:00,lots,-5.00,-3.00,-2.00,90.00\n", OC_HEADER);
    assert_eq!(
        import_opencollective(&mut l, &text),
        Err(ImportError::BadField { entry: 0, column: "Transaction Amount".to_owned() })
    );
}

#[test]
fn missing_account_column_or_table_is_an_error() {
    let mut l = ledger_with(&["PayPal"]);
    let text = format!("{}Alice,2020-02-01 10:00:00,100.00,-5.00,-3.00,-2.00,90.00\n", OC_HEADER);
    assert_eq!(import_opencollective(&mut l, &text), Err(ImportError::AccountNotFound("Stripe".to_owned())));
    let mut s = ledger_with(&["Stripe"]);
    assert_eq!(
        import_opencollective(&mut s, "User Name,Transaction Date\nAlice,2020-02-01 10:00:00\n"),
        Err(ImportError::MissingColumn("Transaction Amount".to_owned()))
    );
    assert_eq!(import_opencollective(&mut s, ""), Err(ImportError::Table));
    assert_eq!(import_opencollective(&mut s, "a,b\n1,2,3\n"), Err(ImportError::Table));
}

const DB_HEADER: &str = "Date Donated,Name,Amount,Processing Fee,Net Amount,Receipt Id,Donation Type\n";

#[test]
fn donorbox_routes_by_payment_method() {
    let mut l = ledger_with(&["Stripe", "PayPal"]);
    let text = format!(
        "{}2020-03-01 12:00:00 UTC,Carol,50,1.75,48.25,r1,stripe\n2020-03-02 12:00:00 UTC,Dan,20,0.88,19.12,r2,paypal_express\n2020-03-03 12:00:00 UTC,Eve,10,0.5,9.5,r3,cheque\n",
        DB_HEADER
    );
    let w = import(&mut l, &text, DonationOrigin::from("donorbox")).unwrap();
    assert_eq!(
        w,
        vec![ImportWarning::UnknownMethod {
            entry: 2,
            method: "cheque".to_owned(),
            key: "Eve".to_owned(),
            date: "2020-03-03 12:00:00 UTC".to_owned(),
        }]
    );
    assert_eq!(balance(&l, "Stripe"), "$48.25");
    assert_eq!(balance(&l, "PayPal"), "$19.12");
    let t = &l.get_account("Stripe").unwrap().transactions[0];
    assert_eq!(t.fees.len(), 1);
    assert_eq!(t.fees[0].towards, "DonorBox Processing");
    assert_eq!(t.date, Timestamp::parse("2020-03-01 12:00:00", "%Y-%m-%d %H:%M:%S").unwrap());
    let again = import_donorbox(&mut l, &text).unwrap();
    assert_eq!(again.len(), 3);
    assert_eq!(
        again[0],
        ImportWarning::AlreadyImported { entry: 0, key: "Carol".to_owned(), date: "2020-03-01 12:00:00 UTC".to_owned() }
    );
    assert_eq!(l.get_account("Stripe").unwrap().transactions.len(), 1);
    assert_eq!(l.get_account("PayPal").unwrap().transactions.len(), 1);
}

#[test]
fn unknown_origins_are_refused() {
    let mut l = ledger_with(&["Stripe"]);
    assert_eq!(import(&mut l, "", DonationOrigin::from("patreon")), Err(ImportError::UnknownOrigin));
    assert_eq!(payout(&mut l, "", PayoutOrigin::from("venmo")), Err(ImportError::UnknownOrigin));
}

#[test]
fn stripe_payouts_make_two_legs() {
    let mut l = ledger_with(&["Stripe", "Chase"]);
    let text = "id,Amount,Created (UTC)\npo_1,\"1,250.00\",2020-04-01 08:30\n";
    let w = payout(&mut l, text, PayoutOrigin::from("stripe")).unwrap();
    assert!(w.is_empty());
    let s = &l.get_account("Stripe").unwrap().transactions[0];
    match &s.meta {
        TransactionMetadata::Expense { kind: ExpenseKind::Payout(id), towards, requester } => {
            assert_eq!(id, &fingerprint("Stripe", &vec!["po_1".to_owned()]));
            assert_eq!(towards, "Chase");
            assert_eq!(requester, "Treasurer");
        }
        _ => panic!("not a payout"),
    }
    assert_eq!(balance(&l, "Stripe"), "-$1,250.00");
    assert_eq!(balance(&l, "Chase"), "$1,250.00");
    let c = &l.get_account("Chase").unwrap().transactions[0];
    assert_eq!(c.description, "Payout from Stripe");
    assert_eq!(c.date, s.date);
    assert_eq!(c.date, Timestamp::parse("2020-04-01 08:30", "%Y-%m-%d %H:%M").unwrap());
    let again = payout(&mut l, text, PayoutOrigin::Stripe).unwrap();
    assert_eq!(
        again,
        vec![ImportWarning::AlreadyImported { entry: 0, key: "po_1".to_owned(), date: "2020-04-01 08:30".to_owned() }]
    );
    assert_eq!(l.get_account("Chase").unwrap().transactions.len(), 1);
}

#[test]
fn paypal_payouts_are_negated() {
    let mut l = ledger_with(&["PayPal", "Chase"]);
    let text = "Transaction ID,Gross,Date\nTX9,-300.00,04/15/2020\n";
    payout(&mut l, text, PayoutOrigin::from("paypal")).unwrap();
    assert_eq!(balance(&l, "PayPal"), "-$300.00");
    assert_eq!(balance(&l, "Chase"), "$300.00");
    let c = &l.get_account("Chase").unwrap().transactions[0];
    assert_eq!(c.description, "Payout from PayPal");
    assert_eq!(c.date, Timestamp::parse("2020-04-15 00:00", "%Y-%m-%d %H:%M").unwrap());
    assert_eq!(payout(&mut l, "Transaction ID,Gross,Date\nTX9,-300.00,04/15/2020\n", PayoutOrigin::PayPal).unwrap().len(), 1);
}

#[test]
fn payouts_need_the_bank_account() {
    let mut l = ledger_with(&["Stripe"]);
    let text = "id,Amount,Created (UTC)\npo_1,10.00,2020-04-01 08:30\n";
    assert_eq!(payout(&mut l, text, PayoutOrigin::Stripe), Err(ImportError::AccountNotFound("Chase".to_owned())));
    assert!(l.accounts[0].transactions.is_empty());
}

#[test]
fn export_of_an_opening_only_account_is_one_row() {
    let mut l = Ledger::new();
    l.new_account("Savings", Money::parse("50.00").unwrap(), Timestamp { secs: 1577836800, nanos: 0 }).unwrap();
    let rows = export(&l);
    assert_eq!(rows.len(), 1);
    assert_eq!(rows[0].account, "Savings");
    assert_eq!(rows[0].kind, "Opening");
    assert_eq!(rows[0].amount, "-$50.00");
    assert_eq!(rows[0].date, "2020-01-01T00:00:00+00:00");
    assert_eq!(rows[0].fees, "");
}

#[test]
fn export_classifies_transactions_and_joins_fees() {
    let mut l = ledger_with(&["Stripe"]);
    let text = format!("{}Alice,2020-02-01 10:00:00,100.00,-5.00,-3.00,-2.00,90.00\n", OC_HEADER);
    import_opencollective(&mut l, &text).unwrap();
    let rows = export(&l);
    assert_eq!(rows.len(), 2);
    assert_eq!(rows[1].kind, "Donation");
    assert_eq!(rows[1].amount, "-$100.00");
    assert_eq!(rows[1].paid_by, "Alice");
    assert_eq!(rows[1].paid_to, "");
    assert_eq!(
        rows[1].fees,
        "-$5.00[Collective Host (Amethyst Foundation)];$5.00[Collective Host (Amethyst Foundation)];$3.00[OpenCollective];$2.00[Payment Processor]"
    );
    assert_eq!(format_fees(&Vec::new()), "");
    assert_eq!(
        format_fees(&vec![Fee { towards: "x".to_owned(), amount: Money::parse("1").unwrap() }]),
        "$1.00[x]"
    );
}

#[test]
fn gross_receipts_count_incomes_only() {
    let mut l = ledger_with(&["Stripe", "PayPal", "Chase"]);
    let text = format!("{}Alice,2020-02-01 10:00:00,100.00,-5.00,-3.00,-2.00,90.00\n", OC_HEADER);
    import_opencollective(&mut l, &text).unwrap();
    payout(&mut l, "id,Amount,Created (UTC)\npo_1,40.00,2020-04-01 08:30\n", PayoutOrigin::Stripe).unwrap();
    let names = split_names("Stripe,Chase");
    assert_eq!(names, vec!["Stripe".to_owned(), "Chase".to_owned()]);
    let g = gross_receipts(&l, &names).unwrap();
    assert_eq!(format_currency(&g), "$140.00");
    assert_eq!(gross_receipts(&l, &split_names("Stripe,Nope")).err(), Some("Nope".to_owned()));
    assert_eq!(format_currency(&info(&l, "Chase,Stripe").unwrap()), "$140.00");
    assert_eq!(format_currency(&info(&l, "PayPal").unwrap()), "$0.00");
    assert_eq!(info(&l, "Bank").err(), Some("Bank".to_owned()));
    assert_eq!(split_names(""), vec!["".to_owned()]);
    assert_eq!(split_names("a,,b"), vec!["a".to_owned(), "".to_owned(), "b".to_owned()]);
}

#[test]
fn importers_append_and_dispatchers_sort() {
    let mut l = ledger_with(&["Stripe"]);
    let late = format!("{}Zed,2020-06-01 10:00:00,1,0,0,0,1\n", OC_HEADER);
    import_opencollective(&mut l, &late).unwrap();
    let early = format!("{}Amy,2020-02-01 10:00:00,2,0,0,0,2\n", OC_HEADER);
    import_opencollective(&mut l, &early).unwrap();
    let who: Vec<String> = l.accounts[0]
        .transactions
        .iter()
        .map(|t| match &t.meta {
            TransactionMetadata::Income { from, .. } => from.clone(),
            _ => String::new(),
        })
        .collect();
    assert_eq!(who, vec!["Zed".to_owned(), "Amy".to_owned()]);
    let more = format!("{}Bo,2020-04-01 10:00:00,3,0,0,0,3\n", OC_HEADER);
    import(&mut l, &more, DonationOrigin::OpenCollective).unwrap();
    let sorted: Vec<String> = l.accounts[0]
        .transactions
        .iter()
        .map(|t| match &t.meta {
            TransactionMetadata::Income { from, .. } => from.clone(),
            _ => String::new(),
        })
        .collect();
    assert_eq!(sorted, vec!["Amy".to_owned(), "Bo".to_owned(), "Zed".to_owned()]);
}

#[test]
fn missing_columns_name_the_column() {
    let mut l = ledger_with(&["Stripe", "PayPal", "Chase"]);
    assert_eq!(
        payout(&mut l, "id,Created (UTC)\npo_1,2020-04-01 08:30\n", PayoutOrigin::Stripe),
        Err(ImportError::MissingColumn("Amount".to_owned()))
    );
    assert_eq!(
        import_donorbox(&mut l, "Date Donated,Name,Amount\n"),
        Err(ImportError::MissingColumn("Processing Fee".to_owned()))
    );
}

#[test]
fn amounts_that_currency_cannot_read_are_bad_fields() {
    let mut l = ledger_with(&["Stripe", "Chase"]);
    let text = "id,Amount,Created (UTC)\npo_1,1.000000000001,2020-04-01 08:30\n";
    assert_eq!(
        payout(&mut l, text, PayoutOrigin::Stripe),
        Err(ImportError::BadField { entry: 0, column: "Amount".to_owned() })
    );
    let text = "id,Amount,Created (UTC)\npo_1,1-2,2020-04-01 08:30\n";
    assert_eq!(
        payout(&mut l, text, PayoutOrigin::Stripe),
        Err(ImportError::BadField { entry: 0, column: "Amount".to_owned() })
    );
    assert!(Money::parse_currency("12.345678901").is_some());
    assert!(Money::parse_currency("1.234567890123").is_none());
}
