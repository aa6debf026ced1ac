use backertrack::utils::{decrease_modular, increase_modular, path_exists_or_panic, BudgetTab, NewTransactionKind};

#[test]
fn increase_wraps_around() {
    let mut v = 3usize;
    increase_modular(&mut v, 1, 4);
    assert_eq!(v, 0);
    increase_modular(&mut v, 5, 4);
    assert_eq!(v, 1);
    increase_modular(&mut v, 5, 0);
    assert_eq!(v, 1);
}

#[test]
fn decrease_wraps_around() {
    let mut v = 0usize;
    decrease_modular(&mut v, 1, 4);
    assert_eq!(v, 3);
    decrease_modular(&mut v, 5, 4);
    assert_eq!(v, 2);
    decrease_modular(&mut v, 2, 4);
    assert_eq!(v, 0);
    decrease_modular(&mut v, 8, 4);
    assert_eq!(v, 0);
    decrease_modular(&mut v, 1, 0);
    assert_eq!(v, 0);
}

#[test]
fn kinds_have_labels() {
    assert_eq!(NewTransactionKind::DonationIncome.get_name(), "Donation");
    assert_eq!(NewTransactionKind::GeneralExpense.get_name(), "Expense");
    assert_eq!(NewTransactionKind::GeneralIncome.get_name(), "Income");
    assert_eq!(NewTransactionKind::PayoutExpense.get_name(), "Payout Expense");
    assert_eq!(BudgetTab.name(), "Budget");
}

#[test]
fn an_existing_path_is_returned() {
    assert_eq!(path_exists_or_panic("ledger.json", true), "ledger.json");
}
