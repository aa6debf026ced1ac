//! Small helpers of the front ends: cursors that wrap around, the kinds of a
//! new transaction, tab transitions, and the check on a path.

use vstd::prelude::*;

verus! {

/// Moves `value` forward by `step`, wrapping at `max`; nothing when `max` is zero.
pub fn increase_modular(value: &mut usize, step: usize, max: usize)
    requires
        max == 0 || *old(value) + step <= usize::MAX,
    ensures
        max == 0 ==> *final(value) == *old(value),
        max != 0 ==> *final(value) == (*old(value) + step) % (max as int),
{
    if max != 0 {
        *value = (*value + step) % max;
    }
}

/// Moves `value` back by `step`, wrapping at `max`; nothing when `max` is zero.
/// The result is the remainder, in `0..max`, of `value - step` by `max`.
pub fn decrease_modular(value: &mut usize, step: usize, max: usize)
    ensures
        max == 0 ==> *final(value) == *old(value),
        max != 0 ==> *final(value) == (*old(value) - step) % (max as int),
{
    if max != 0 {
        if *value >= step {
            *value = (*value - step) % max;
        } else {
            let d = (step - *value) % max;
            proof {
                let x = (step - *old(value)) as int;
                let m = max as int;
                let q = x / m;
                let dd = d as int;
                vstd::arithmetic::div_mod::lemma_fundamental_div_mod(x, m);
                assert(x == m * q + dd);
                if d == 0 {
                    vstd::arithmetic::div_mod::lemma_mod_multiples_vanish(-q, 0, m);
                    assert(-x == m * (-q) + 0) by (nonlinear_arith)
                        requires
                            x == m * q + dd,
                            dd == 0,
                    ;
                    vstd::arithmetic::div_mod::lemma_small_mod(0, m as nat);
                } else {
                    assert(-x == m * (-q - 1) + (m - dd)) by (nonlinear_arith)
                        requires
                            x == m * q + dd,
                    ;
                    vstd::arithmetic::div_mod::lemma_mod_multiples_vanish(-q - 1, m - dd, m);
                    vstd::arithmetic::div_mod::lemma_small_mod((m - d) as nat, m as nat);
                }
            }
            *value = if d == 0 { 0 } else { max - d };
        }
    }
}

/// What a tab asks of the application after an event.
pub enum Trans {
    /// Stay on the tab.
    Stay,
    Quit,
}

/// The kinds of transaction that can be entered by hand.
#[derive(PartialEq, Eq, Clone, Copy, Debug, Structural)]
pub enum NewTransactionKind {
    GeneralIncome,
    GeneralExpense,
    DonationIncome,
    PayoutExpense,
}

impl NewTransactionKind {
    /// The label of the kind.
    pub fn get_name(self) -> (r: &'static str)
        ensures
            self is DonationIncome ==> r@ == "Donation"@,
            self is GeneralExpense ==> r@ == "Expense"@,
            self is GeneralIncome ==> r@ == "Income"@,
            self is PayoutExpense ==> r@ == "Payout Expense"@,
    {
        match self {
            NewTransactionKind::DonationIncome => "Donation",
            NewTransactionKind::GeneralExpense => "Expense",
            NewTransactionKind::GeneralIncome => "Income",
            NewTransactionKind::PayoutExpense => "Payout Expense",
        }
    }
}

/// The budget tab, which holds nothing yet.
#[derive(Default)]
pub struct BudgetTab;

impl BudgetTab {
    /// The tab's title.
    pub fn name(&self) -> (r: &'static str)
        ensures
            r@ == "Budget"@,
    {
        "Budget"
    }
}

/// The path that was given, when it exists (the caller looks at the file
/// system and passes what it found).
pub fn path_exists_or_panic(input: &str, exists: bool) -> (r: String)
    requires
        exists,
    ensures
        r@ == input@,
{
    input.to_owned()
}

/// Who the web client is connected as.
pub enum AuthState {
    Disconnected,
    Connected { user_id: u64, level: AuthLevel, token: String },
}

/// What a connected user may do.
pub enum AuthLevel {
    Admin,
    TeamLeader,
}

/// The claims of a session token.
pub struct JWTClaims {
    pub iss: String,
    pub iat: u64,
    pub exp: u64,
    pub user: u64,
}

} // verus!
