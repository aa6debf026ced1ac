//! The flat report of a ledger: an opening row per account, then a row per
//! transaction.

use crate::date::rfc3339_of;
use crate::ledger::{Account, ExpenseKind, Fee, IncomeKind, Ledger, Transaction, TransactionMetadata};
use crate::money::{currency_text, format_currency, rat_neg};
use crate::text::{push_str, string_of};
use vstd::prelude::*;

verus! {

/// One row of the report.
#[derive(Debug, PartialEq, Eq)]
pub struct ExportRow {
    pub account: String,
    pub kind: String,
    pub date: String,
    pub amount: String,
    pub fees: String,
    pub description: String,
    pub paid_to: String,
    pub paid_by: String,
}

/// A report row as its texts.
pub struct RowView {
    pub account: Seq<char>,
    pub kind: Seq<char>,
    pub date: Seq<char>,
    pub amount: Seq<char>,
    pub fees: Seq<char>,
    pub description: Seq<char>,
    pub paid_to: Seq<char>,
    pub paid_by: Seq<char>,
}

impl View for ExportRow {
    type V = RowView;

    open spec fn view(&self) -> RowView {
        RowView {
            account: self.account@,
            kind: self.kind@,
            date: self.date@,
            amount: self.amount@,
            fees: self.fees@,
            description: self.description@,
            paid_to: self.paid_to@,
            paid_by: self.paid_by@,
        }
    }
}

/// A fee as `$5.00[towards]`.
pub open spec fn fee_text(f: Fee) -> Seq<char> {
    currency_text(f.amount@) + "["@ + f.towards@ + "]"@
}

/// The fees as one field: each as `$5.00[towards]`, separated by `;`.
pub open spec fn fees_text(fees: Seq<Fee>) -> Seq<char>
    decreases fees.len(),
{
    if fees.len() == 0 {
        Seq::empty()
    } else if fees.len() == 1 {
        fee_text(fees[0])
    } else {
        fees_text(fees.drop_last()) + ";"@ + fee_text(fees.last())
    }
}

/// Writes the fees as one field: each as `$5.00[towards]`, separated by
/// `;`, with no separator after the last.
pub fn format_fees(fees: &Vec<Fee>) -> (r: String)
    requires
        forall|i: int| 0 <= i < fees@.len() ==> (#[trigger] fees@[i]).wf(),
    ensures
        r@ == fees_text(fees@),
{
    let mut out: Vec<char> = Vec::new();
    let mut i: usize = 0;
    while i < fees.len()
        invariant
            i <= fees@.len(),
            forall|j: int| 0 <= j < fees@.len() ==> (#[trigger] fees@[j]).wf(),
            out@ == fees_text(fees@.subrange(0, i as int)),
        decreases fees.len() - i,
    {
        if i > 0 {
            push_str(&mut out, ";");
        }
        let amount = format_currency(&fees[i].amount);
        push_str(&mut out, amount.as_str());
        push_str(&mut out, "[");
        push_str(&mut out, fees[i].towards.as_str());
        push_str(&mut out, "]");
        proof {
            let s = fees@.subrange(0, i + 1);
            assert(s.drop_last() =~= fees@.subrange(0, i as int));
            if i == 0 {
                assert(fees@.subrange(0, 0) =~= Seq::<Fee>::empty());
            }
            assert(out@ =~= fees_text(s));
        }
        i += 1;
    }
    proof {
        assert(fees@.subrange(0, fees@.len() as int) =~= fees@);
    }
    string_of(&out)
}

/// The opening row of an account.
pub open spec fn opening_row(a: Account) -> RowView {
    RowView {
        account: a.name@,
        kind: "Opening"@,
        date: rfc3339_of(a.opening_date.secs as int, a.opening_date.nanos as int),
        amount: currency_text(rat_neg(a.opening_balance@)),
        fees: Seq::empty(),
        description: Seq::empty(),
        paid_to: Seq::empty(),
        paid_by: Seq::empty(),
    }
}

/// The row of a transaction: expenses and payouts with their amount and
/// payee; incomes and donations with the amount negated and their payer.
pub open spec fn transaction_row(account: Seq<char>, t: Transaction) -> RowView {
    let (kind, amount, paid_to, paid_by) = match t.meta {
        TransactionMetadata::Expense { kind, towards, .. } => (
            if kind is General { "Expense"@ } else { "Payout"@ },
            currency_text(t.amount@),
            towards@,
            Seq::empty(),
        ),
        TransactionMetadata::Income { kind, from } => (
            if kind is General { "Income"@ } else { "Donation"@ },
            currency_text(rat_neg(t.amount@)),
            Seq::empty(),
            from@,
        ),
    };
    RowView {
        account,
        kind,
        date: rfc3339_of(t.date.secs as int, t.date.nanos as int),
        amount,
        fees: fees_text(t.fees@),
        description: t.description@,
        paid_to,
        paid_by,
    }
}

/// The rows of an account: its opening, then its transactions in journal order.
pub open spec fn account_rows(a: Account) -> Seq<RowView> {
    seq![opening_row(a)] + a.transactions@.map_values(|t: Transaction| transaction_row(a.name@, t))
}

/// The rows of every account in turn.
pub open spec fn ledger_rows(accounts: Seq<Account>) -> Seq<RowView>
    decreases accounts.len(),
{
    if accounts.len() == 0 {
        Seq::empty()
    } else {
        ledger_rows(accounts.drop_last()) + account_rows(accounts.last())
    }
}

/// The texts of the rows.
pub open spec fn rows_view(rows: Seq<ExportRow>) -> Seq<RowView> {
    rows.map_values(|r: ExportRow| r@)
}

fn empty_text() -> (r: String)
    ensures
        r@ == Seq::<char>::empty(),
{
    String::new()
}

/// The row of a transaction.
fn transaction_export_row(account: &String, t: &Transaction) -> (r: ExportRow)
    requires
        t.wf(),
    ensures
        r@ == transaction_row(account@, *t),
{
    let (kind, amount, paid_to, paid_by) = match &t.meta {
        TransactionMetadata::Expense { kind, towards, .. } => (
            match kind {
                ExpenseKind::General => "Expense".to_owned(),
                ExpenseKind::Payout(_) => "Payout".to_owned(),
            },
            format_currency(&t.amount),
            towards.clone(),
            empty_text(),
        ),
        TransactionMetadata::Income { kind, from } => (
            match kind {
                IncomeKind::General => "Income".to_owned(),
                IncomeKind::Donation(_) => "Donation".to_owned(),
            },
            format_currency(&t.amount.negate()),
            empty_text(),
            from.clone(),
        ),
    };
    ExportRow {
        account: account.clone(),
        kind,
        date: t.date.to_rfc3339(),
        amount,
        fees: format_fees(&t.fees),
        description: t.description.clone(),
        paid_to,
        paid_by,
    }
}

/// The report of a ledger: for each account an opening row (its opening
/// balance negated), then a row for each transaction in journal order.
pub fn export(ledger: &Ledger) -> (r: Vec<ExportRow>)
    requires
        ledger.wf(),
    ensures
        rows_view(r@) == ledger_rows(ledger.accounts@),
{
    let mut rows: Vec<ExportRow> = Vec::new();
    let mut i: usize = 0;
    while i < ledger.accounts.len()
        invariant
            ledger.wf(),
            i <= ledger.accounts@.len(),
            rows_view(rows@) == ledger_rows(ledger.accounts@.subrange(0, i as int)),
        decreases ledger.accounts.len() - i,
    {
        let a = &ledger.accounts[i];
        assert(a.wf());
        let ghost start = rows_view(rows@);
        rows.push(ExportRow {
            account: a.name.clone(),
            kind: "Opening".to_owned(),
            date: a.opening_date.to_rfc3339(),
            amount: format_currency(&a.opening_balance.negate()),
            fees: empty_text(),
            description: empty_text(),
            paid_to: empty_text(),
            paid_by: empty_text(),
        });
        let mut j: usize = 0;
        while j < a.transactions.len()
            invariant
                a.wf(),
                j <= a.transactions@.len(),
                rows_view(rows@) == start + seq![opening_row(*a)] + a.transactions@.subrange(0, j as int).map_values(
                    |t: Transaction| transaction_row(a.name@, t),
                ),
            decreases a.transactions.len() - j,
        {
            assert(a.transactions@[j as int].wf());
            let ghost before = rows_view(rows@);
            rows.push(transaction_export_row(&a.name, &a.transactions[j]));
            j += 1;
            proof {
                assert(rows_view(rows@) =~= before.push(transaction_row(a.name@, a.transactions@[j - 1])));
                assert(a.transactions@.subrange(0, j as int).map_values(|t: Transaction| transaction_row(a.name@, t))
                    =~= a.transactions@.subrange(0, j - 1).map_values(|t: Transaction| transaction_row(a.name@, t)).push(
                    transaction_row(a.name@, a.transactions@[j - 1]),
                ));
            }
        }
        proof {
            assert(a.transactions@.subrange(0, a.transactions@.len() as int) =~= a.transactions@);
            let s = ledger.accounts@.subrange(0, i + 1);
            assert(s.drop_last() =~= ledger.accounts@.subrange(0, i as int));
            assert(rows_view(rows@) =~= ledger_rows(s));
        }
        i += 1;
    }
    proof {
        assert(ledger.accounts@.subrange(0, ledger.accounts@.len() as int) =~= ledger.accounts@);
    }
    rows
}

} // verus!
