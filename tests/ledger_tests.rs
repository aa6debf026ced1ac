use backertrack::date::Timestamp;
use backertrack::ledger::{
    new, AccountError, ExpenseKind, Fee, IncomeKind, Ledger, Transaction, TransactionMetadata,
};
use backertrack::money::{format_currency, Money};

fn at(secs: i64) -> Timestamp {
    Timestamp { secs, nanos: 0 }
}

fn income(secs: i64, amount: &str, description: &str) -> Transaction {
    Transaction {
        date: at(secs),
        description: description.to_owned(),
        amount: Money::parse(amount).unwrap(),
        meta: TransactionMetadata::Income { kind: IncomeKind::General, from: "someone".to_owned() },
        fees: Vec::new(),
    }
}

fn expense(secs: i64, amount: &str, fees: Vec<Fee>) -> Transaction {
    Transaction {
        date: at(secs),
        description: "bill".to_owned(),
        amount: Money::parse(amount).unwrap(),
        meta: TransactionMetadata::Expense {
            kind: ExpenseKind::General,
            towards: "vendor".to_owned(),
            requester: "me".to_owned(),
        },
        fees,
    }
}

#[test]
fn new_ledger_is_empty() {
    assert_eq!(new().accounts.len(), 0);
    assert_eq!(Ledger::new().accounts.len(), 0);
}

#[test]
fn duplicate_account_names_are_refused() {
    let mut l = Ledger::new();
    assert_eq!(l.new_account("Stripe", Money::zero(), at(0)), Ok(()));
    assert_eq!(l.new_account("stripe", Money::zero(), at(0)), Ok(()));
    assert_eq!(l.new_account("Stripe", Money::zero(), at(5)), Err(AccountError::DuplicateAccount));
    assert_eq!(l.accounts.len(), 2);
    assert_eq!(l.accounts[0].opening_date, at(0));
}

#[test]
fn accounts_are_found_by_exact_name() {
    let mut l = Ledger::new();
    l.new_account("Stripe", Money::zero(), at(0)).unwrap();
    l.new_account("PayPal", Money::zero(), at(0)).unwrap();
    assert_eq!(l.get_account("PayPal").unwrap().name, "PayPal");
    assert!(l.get_account("paypal").is_none());
    assert_eq!(l.position_of("PayPal"), Some(1));
    assert_eq!(l.position_of("Chase"), None);
}

#[test]
fn removing_the_first_of_three_keeps_the_others_in_order() {
    let mut l = Ledger::new();
    for name in ["A", "B", "C"] {
        l.new_account(name, Money::zero(), at(0)).unwrap();
    }
    l.remove_account_at(0);
    let names: Vec<&str> = l.accounts.iter().map(|a| a.name.as_str()).collect();
    assert_eq!(names, vec!["B", "C"]);
}

#[test]
fn balance_adds_income_and_takes_off_expenses_and_fees() {
    let mut l = Ledger::new();
    l.new_account("Bank", Money::parse("10").unwrap(), at(0)).unwrap();
    let a = &mut l.accounts[0];
    let mut paid = income(1, "100", "gift");
    paid.fees.push(Fee { towards: "processor".to_owned(), amount: Money::parse("2.5").unwrap() });
    a.transactions.push(paid);
    a.transactions.push(expense(
        2,
        "30",
        vec![
            Fee { towards: "bank".to_owned(), amount: Money::parse("1").unwrap() },
            Fee { towards: "refund".to_owned(), amount: Money::parse("-0.5").unwrap() },
        ],
    ));
    // 10 + 100 - 2.5 - 30 - 1 + 0.5
    assert_eq!(format_currency(&a.current_balance()), "$77.00");
}

#[test]
fn balance_of_an_empty_journal_is_the_opening() {
    let mut l = Ledger::new();
    l.new_account("Bank", Money::parse("-12.345").unwrap(), at(0)).unwrap();
    assert_eq!(format_currency(&l.accounts[0].current_balance()), "-$12.34");
}

#[test]
fn sort_by_date_is_stable_and_idempotent() {
    let mut l = Ledger::new();
    l.new_account("Bank", Money::zero(), at(0)).unwrap();
    let a = &mut l.accounts[0];
    a.transactions.push(income(30, "1", "late"));
    a.transactions.push(income(10, "1", "first of ten"));
    a.transactions.push(income(20, "1", "twenty"));
    a.transactions.push(income(10, "1", "second of ten"));
    a.sort_by_date();
    let order: Vec<String> = a.transactions.iter().map(|t| t.description.clone()).collect();
    assert_eq!(order, vec!["first of ten", "second of ten", "twenty", "late"]);
    a.sort_by_date();
    let again: Vec<String> = a.transactions.iter().map(|t| t.description.clone()).collect();
    assert_eq!(again, order);
}

#[test]
fn timestamps_parse_and_print() {
    let t = Timestamp::parse("2020-01-01 00:00:00", "%Y-%m-%d %H:%M:%S").unwrap();
    assert_eq!(t, at(1577836800));
    assert_eq!(t.to_rfc3339(), "2020-01-01T00:00:00+00:00");
    assert!(Timestamp::parse("2020-13-01 00:00:00", "%Y-%m-%d %H:%M:%S").is_none());
    assert!(at(5).not_after(&at(5)));
    assert!(!at(6).not_after(&at(5)));
}

#[test]
fn accounts_can_be_changed_in_place() {
    let mut l = Ledger::new();
    l.new_account("Stripe", Money::zero(), at(0)).unwrap();
    l.new_account("Chase", Money::zero(), at(0)).unwrap();
    l.get_account_mut("Chase").unwrap().transactions.push(income(4, "7", "deposit"));
    assert!(l.get_account_mut("chase").is_none());
    assert_eq!(l.accounts[1].transactions.len(), 1);
    assert!(l.accounts[0].transactions.is_empty());
    assert_eq!(format_currency(&l.accounts[1].current_balance()), "$7.00");
}
