//! The importers of payout exports: each payout is an expense of the
//! processor's account and an income of the bank account.

use crate::date::{parsed_utc, timestamp_in_range, Timestamp};
use crate::dedup::{fingerprint, fresh_mask, ids_in, joined, merged, select, sha256_of, strings_view, take_selected};
use crate::import::{already_warnings, bad_field, entries_read, failed_at, warnings_view, ImportError, ImportWarning};
use crate::table::Table;
use crate::journal::{journals_sorted, sorted_by_date};
use crate::ledger::{account_position, Account, ExpenseKind, IncomeKind, Ledger, MetaView, Transaction, TransactionMetadata, TransactionView};
use crate::money::{currency_coins_of, currency_text_safe, Money, Rat};
use crate::table::{cell, column_of, read_table, table_of, table_view, text_at, column_index};
use vstd::prelude::*;

verus! {

/// Where a payout export comes from.
pub enum PayoutOrigin {
    Unknown,
    PayPal,
    Stripe,
}

impl PayoutOrigin {
    /// The origin that a command line names: `paypal` or `stripe`.
    pub fn from(name: &str) -> (r: PayoutOrigin)
        ensures
            name@ == "paypal"@ ==> r is PayPal,
            name@ == "stripe"@ ==> r is Stripe,
            name@ != "paypal"@ && name@ != "stripe"@ ==> r is Unknown,
    {
        proof {
            reveal_strlit("paypal");
            reveal_strlit("stripe");
            assert("paypal"@[0] != "stripe"@[0]);
        }
        if crate::ledger::same_text(name, "paypal") {
            PayoutOrigin::PayPal
        } else if crate::ledger::same_text(name, "stripe") {
            PayoutOrigin::Stripe
        } else {
            PayoutOrigin::Unknown
        }
    }
}

/// The columns of a payout export: the processor's id, the amount, the date.
#[derive(Clone, Copy, PartialEq, Eq, Structural)]
pub struct PayoutColumns {
    pub id: usize,
    pub amount: usize,
    pub date: usize,
}

/// How a processor's payout export is laid out and booked.
pub struct PayoutFormat {
    /// The processor's account, which the payouts leave.
    pub account: &'static str,
    pub id_column: &'static str,
    pub amount_column: &'static str,
    pub date_column: &'static str,
    /// Text appended to the date before it is read.
    pub date_suffix: &'static str,
    pub date_format: &'static str,
    /// Whether the amount in the export is the negated payout.
    pub negated: bool,
}

/// Stripe's export: `id`, `Amount`, `Created (UTC)` as `2020-01-31 12:00`.
pub fn stripe_format() -> (r: PayoutFormat)
    ensures
        r == stripe_format_spec(),
{
    PayoutFormat {
        account: "Stripe",
        id_column: "id",
        amount_column: "Amount",
        date_column: "Created (UTC)",
        date_suffix: "",
        date_format: "%Y-%m-%d %H:%M",
        negated: false,
    }
}

/// The layout of Stripe's export.
pub open spec fn stripe_format_spec() -> PayoutFormat {
    PayoutFormat {
        account: "Stripe",
        id_column: "id",
        amount_column: "Amount",
        date_column: "Created (UTC)",
        date_suffix: "",
        date_format: "%Y-%m-%d %H:%M",
        negated: false,
    }
}

/// PayPal's export: `Transaction ID`, `Gross` (negative for a payout), and
/// `Date` as `01/31/2020`, read at midnight.
pub fn paypal_format() -> (r: PayoutFormat)
    ensures
        r == paypal_format_spec(),
{
    PayoutFormat {
        account: "PayPal",
        id_column: "Transaction ID",
        amount_column: "Gross",
        date_column: "Date",
        date_suffix: " 00:00",
        date_format: "%m/%d/%Y %H:%M",
        negated: true,
    }
}

/// The layout of PayPal's export.
pub open spec fn paypal_format_spec() -> PayoutFormat {
    PayoutFormat {
        account: "PayPal",
        id_column: "Transaction ID",
        amount_column: "Gross",
        date_column: "Date",
        date_suffix: " 00:00",
        date_format: "%m/%d/%Y %H:%M",
        negated: true,
    }
}

/// An entry of a payout export as its two legs (the expense of the
/// processor's account and the income of the bank account), or the column
/// of its first bad cell.
#[verifier::opaque]
pub open spec fn payout_entry(row: Seq<Seq<char>>, f: PayoutFormat, c: PayoutColumns) -> Result<(TransactionView, TransactionView), Seq<char>> {
    let amount_text = cell(row, c.amount as int);
    let date_text = cell(row, c.date as int);
    let id = cell(row, c.id as int);
    if amount_text is None || !currency_text_safe(amount_text->0) || currency_coins_of(amount_text->0) is None {
        Err(f.amount_column@)
    } else if date_text is None || timestamp_in_range(parsed_utc(date_text->0 + f.date_suffix@, f.date_format@)) is None {
        Err(f.date_column@)
    } else if id is None {
        Err(f.id_column@)
    } else {
        let coins = currency_coins_of(amount_text->0)->0;
        let amount: Rat = (if f.negated { -coins } else { coins }, 100);
        let date = timestamp_in_range(parsed_utc(date_text->0 + f.date_suffix@, f.date_format@))->0;
        Ok((
            TransactionView {
                date,
                description: "Payout to the Chase account"@,
                amount,
                meta: MetaView::Expense {
                    payout: Some(sha256_of(f.account@ + joined(seq![id->0]))),
                    towards: "Chase"@,
                    requester: "Treasurer"@,
                },
                fees: Seq::empty(),
            },
            TransactionView {
                date,
                description: "Payout from "@ + f.account@,
                amount,
                meta: MetaView::Income { donation: None, from: f.account@ + " payout"@ },
                fees: Seq::empty(),
            },
        ))
    }
}

/// Reads one entry of a payout export as its two legs.
pub fn payout_transactions(row: &Vec<String>, f: &PayoutFormat, c: &PayoutColumns) -> (r: Result<(Transaction, Transaction), &'static str>)
    ensures
        r matches Ok((e, i)) ==> e.wf() && i.wf()
            && payout_entry(strings_view(row@), *f, *c) == Ok::<(TransactionView, TransactionView), Seq<char>>((e@, i@)),
        r matches Err(col) ==> payout_entry(strings_view(row@), *f, *c) == Err::<(TransactionView, TransactionView), Seq<char>>(col@),
{
    reveal(payout_entry);
    let amount_text = match text_at(row, c.amount) {
        Some(s) => s,
        None => return Err(f.amount_column),
    };
    let amount = match Money::parse_currency(amount_text.as_str()) {
        Some(m) => if f.negated { m.negate() } else { m },
        None => return Err(f.amount_column),
    };
    let date_text = match text_at(row, c.date) {
        Some(s) => s,
        None => return Err(f.date_column),
    };
    let mut text = crate::text::chars_of(date_text.as_str());
    crate::text::push_str(&mut text, f.date_suffix);
    let full_date = crate::text::string_of(&text);
    let date = match Timestamp::parse(full_date.as_str(), f.date_format) {
        Some(d) => d,
        None => return Err(f.date_column),
    };
    let id = match text_at(row, c.id) {
        Some(s) => s,
        None => return Err(f.id_column),
    };
    let fields = vec![id];
    proof {
        assert(strings_view(fields@) =~= seq![fields@[0]@]);
    }
    let hash = fingerprint(f.account, &fields);
    let mut description: Vec<char> = Vec::new();
    crate::text::push_str(&mut description, "Payout from ");
    crate::text::push_str(&mut description, f.account);
    let mut from: Vec<char> = Vec::new();
    crate::text::push_str(&mut from, f.account);
    crate::text::push_str(&mut from, " payout");
    let expense = Transaction {
        date,
        description: "Payout to the Chase account".to_owned(),
        amount: amount.duplicate(),
        meta: TransactionMetadata::Expense {
            kind: ExpenseKind::Payout(hash),
            towards: "Chase".to_owned(),
            requester: "Treasurer".to_owned(),
        },
        fees: Vec::new(),
    };
    let income = Transaction {
        date,
        description: crate::text::string_of(&description),
        amount,
        meta: TransactionMetadata::Income { kind: IncomeKind::General, from: crate::text::string_of(&from) },
        fees: Vec::new(),
    };
    proof {
        assert(crate::ledger::fees_view(expense.fees@) =~= Seq::empty());
        assert(crate::ledger::fees_view(income.fees@) =~= Seq::empty());
    }
    Ok((expense, income))
}

/// The legs of each payout, paired.
pub open spec fn legs_view(e: Seq<Transaction>, i: Seq<Transaction>) -> Seq<(TransactionView, TransactionView)> {
    Seq::new(e.len(), |k: int| (e[k]@, i[k]@))
}

/// The columns of a payout export that a header names.
#[verifier::opaque]
pub open spec fn payout_columns_of(h: Seq<Seq<char>>, f: PayoutFormat) -> Option<PayoutColumns> {
    let id = column_of(h, f.id_column@);
    let amount = column_of(h, f.amount_column@);
    let date = column_of(h, f.date_column@);
    if id is Some && amount is Some && date is Some {
        Some(PayoutColumns { id: id->0 as usize, amount: amount->0 as usize, date: date->0 as usize })
    } else {
        None
    }
}

/// A column that a payout export of format `f` must have.
pub open spec fn payout_column(f: PayoutFormat, n: Seq<char>) -> bool {
    n == f.id_column@ || n == f.amount_column@ || n == f.date_column@
}

/// Finds the columns of a payout export.
pub fn payout_columns(header: &Vec<String>, f: &PayoutFormat) -> (r: Result<PayoutColumns, ImportError>)
    ensures
        r matches Ok(c) ==> payout_columns_of(strings_view(header@), *f) == Some(c),
        r matches Err(e) ==> payout_columns_of(strings_view(header@), *f) is None
            && (e matches ImportError::MissingColumn(n) && payout_column(*f, n@) && column_of(strings_view(header@), n@) is None),
{
    reveal(payout_columns_of);
    let id = match column_index(header, f.id_column) {
        Some(i) => i,
        None => return Err(ImportError::MissingColumn(f.id_column.to_owned())),
    };
    let amount = match column_index(header, f.amount_column) {
        Some(i) => i,
        None => return Err(ImportError::MissingColumn(f.amount_column.to_owned())),
    };
    let date = match column_index(header, f.date_column) {
        Some(i) => i,
        None => return Err(ImportError::MissingColumn(f.date_column.to_owned())),
    };
    Ok(PayoutColumns { id, amount, date })
}

/// Reads every entry of a payout export, stopping at the first bad one.
pub fn payout_candidates(entries: &Vec<Vec<String>>, f: &PayoutFormat, c: &PayoutColumns) -> (r: Result<(Vec<Transaction>, Vec<Transaction>), ImportError>)
    ensures
        r matches Ok((e, i)) ==> e@.len() == i@.len()
            && entries_read(table_view(entries@), |row| payout_entry(row, *f, *c))
                == Ok::<Seq<(TransactionView, TransactionView)>, (int, Seq<char>)>(legs_view(e@, i@))
            && forall|k: int| 0 <= k < e@.len() ==> (#[trigger] e@[k]).wf() && i@[k].wf(),
        r matches Err(x) ==> entries_read(table_view(entries@), |row| payout_entry(row, *f, *c)) matches Err((k, col)) && bad_field(x, k, col),
{
    let mut expenses: Vec<Transaction> = Vec::new();
    let mut incomes: Vec<Transaction> = Vec::new();
    let mut n: usize = 0;
    proof {
        assert(table_view(entries@.subrange(0, 0)) =~= Seq::<Seq<Seq<char>>>::empty());
        assert(legs_view(expenses@, incomes@) =~= Seq::<(TransactionView, TransactionView)>::empty());
    }
    while n < entries.len()
        invariant
            n <= entries@.len(),
            expenses@.len() == incomes@.len(),
            entries_read(table_view(entries@.subrange(0, n as int)), |row| payout_entry(row, *f, *c))
                == Ok::<Seq<(TransactionView, TransactionView)>, (int, Seq<char>)>(legs_view(expenses@, incomes@)),
            forall|k: int| 0 <= k < expenses@.len() ==> (#[trigger] expenses@[k]).wf() && incomes@[k].wf(),
        decreases entries.len() - n,
    {
        let ghost rows = table_view(entries@.subrange(0, n + 1));
        proof {
            assert(rows.drop_last() =~= table_view(entries@.subrange(0, n as int)));
            assert(rows.last() == strings_view(entries@[n as int]@));
        }
        match payout_transactions(&entries[n], f, c) {
            Ok((e, i)) => {
                let ghost before = legs_view(expenses@, incomes@);
                expenses.push(e);
                incomes.push(i);
                proof {
                    assert(legs_view(expenses@, incomes@) =~= before.push((e@, i@)));
                }
            },
            Err(col) => {
                proof {
                    assert(entries_read(rows, |row| payout_entry(row, *f, *c))
                        == Err::<Seq<(TransactionView, TransactionView)>, (int, Seq<char>)>((n as int, col@)));
                    assert(table_view(entries@).subrange(0, n + 1) =~= rows);
                    crate::import::lemma_entries_read_prefix(table_view(entries@), |row| payout_entry(row, *f, *c), n as int);
                }
                return Err(ImportError::BadField { entry: n, column: col.to_owned() });
            },
        }
        n += 1;
    }
    proof {
        assert(entries@.subrange(0, entries@.len() as int) =~= entries@);
        assert(entries_read(table_view(entries@), |row| payout_entry(row, *f, *c))
            == Ok::<Seq<(TransactionView, TransactionView)>, (int, Seq<char>)>(legs_view(expenses@, incomes@)));
    }
    Ok((expenses, incomes))
}

/// The ledger with the journals of the accounts at `p` and `q` replaced.
pub open spec fn with_two_journals(
    before: Seq<Account>,
    after: Seq<Account>,
    p: int,
    jp: Seq<Transaction>,
    q: int,
    jq: Seq<Transaction>,
) -> bool {
    &&& after.len() == before.len()
    &&& 0 <= p < before.len() && 0 <= q < before.len() && p != q
    &&& forall|j: int| 0 <= j < before.len() && j != p && j != q ==> after[j] == before[j]
    &&& after[p].name == before[p].name && after[q].name == before[q].name
    &&& after[p].opening_date == before[p].opening_date && after[q].opening_date == before[q].opening_date
    &&& after[p].opening_balance == before[p].opening_balance && after[q].opening_balance == before[q].opening_balance
    &&& after[p].transactions@ == jp
    &&& after[q].transactions@ == jq
}

/// Books the payouts whose fingerprint the account at `p` does not hold yet:
/// the expenses at `p`, the matching incomes at `q`.
fn book_payouts(ledger: &mut Ledger, p: usize, q: usize, expenses: Vec<Transaction>, incomes: Vec<Transaction>) -> (r: Vec<bool>)
    requires
        p < old(ledger).accounts@.len(),
        q < old(ledger).accounts@.len(),
        expenses@.len() == incomes@.len(),
    ensures
        r@ == fresh_mask(expenses@, ids_in(old(ledger).accounts@[p as int].transactions@, true), true),
        p != q ==> with_two_journals(
            old(ledger).accounts@,
            final(ledger).accounts@,
            p as int,
            merged(old(ledger).accounts@[p as int].transactions@, expenses@, true),
            q as int,
            old(ledger).accounts@[q as int].transactions@ + sorted_by_date(select(incomes@, r@)),
        ),
{
    let ghost e = expenses@;
    let ghost before = ledger.accounts@;
    let flags = crate::import::merge_at(ledger, p, expenses, true);
    proof {
        crate::dedup::lemma_fresh_mask_len(e, ids_in(before[p as int].transactions@, true), true);
    }
    if p != q {
        let taken = take_selected(incomes, &flags);
        let mut bank = ledger.accounts.remove(q);
        bank.append_sorted(taken);
        ledger.accounts.insert(q, bank);
        proof {
            assert forall|j: int| 0 <= j < before.len() && j != p as int && j != q as int implies ledger.accounts@[j] == before[j] by {}
        }
    }
    flags
}

/// Why a payout export `text` of format `f` cannot be imported into
/// `accounts`: the table does not read; or it lacks the column `n`; or the
/// ledger lacks the processor's account, or then "Chase"; or an entry, the
/// first that does not read, has a bad cell.
#[verifier::opaque]
pub open spec fn payout_failure(accounts: Seq<Account>, text: Seq<char>, f: PayoutFormat, e: ImportError) -> bool {
    let (h, rows) = table_of(text)->0;
    let cols = payout_columns_of(h, f);
    match e {
        ImportError::Table => table_of(text) is None,
        ImportError::MissingColumn(n) => table_of(text) is Some && cols is None && payout_column(f, n@)
            && column_of(h, n@) is None,
        ImportError::AccountNotFound(n) => table_of(text) is Some && cols is Some && (
            (n@ == f.account@ && account_position(accounts, f.account@) is None)
            || (account_position(accounts, f.account@) is Some && n@ == "Chase"@
                && account_position(accounts, "Chase"@) is None)),
        ImportError::BadField { .. } => table_of(text) is Some && cols is Some
            && account_position(accounts, f.account@) is Some && account_position(accounts, "Chase"@) is Some
            && failed_at(entries_read(rows, |row| payout_entry(row, f, cols->0)), e),
        ImportError::UnknownOrigin => false,
    }
}

/// What importing a payout export `text` of format `f` into `old` gives:
/// `new` and the result `r`. It fails exactly as `payout_failure` says,
/// leaving the ledger as it was; otherwise the fresh payouts are appended as
/// expenses of the processor's account and as incomes of "Chase", and each
/// skipped entry has a warning with its id and date.
pub open spec fn payouts_imported(
    old: Ledger,
    new: Ledger,
    text: Seq<char>,
    f: PayoutFormat,
    r: Result<Vec<ImportWarning>, ImportError>,
) -> bool {
    &&& r matches Err(e) ==> new == old && payout_failure(old.accounts@, text, f, e)
    &&& r matches Ok(w) ==> {
        let (h, rows) = table_of(text)->0;
        let c = payout_columns_of(h, f)->0;
        let p = account_position(old.accounts@, f.account@)->0;
        let q = account_position(old.accounts@, "Chase"@)->0;
        &&& table_of(text) is Some
        &&& payout_columns_of(h, f) is Some
        &&& account_position(old.accounts@, f.account@) is Some
        &&& account_position(old.accounts@, "Chase"@) is Some
        &&& exists|e: Seq<Transaction>, i: Seq<Transaction>| #![trigger legs_view(e, i)] {
            let mask = fresh_mask(e, ids_in(old.accounts@[p].transactions@, true), true);
            &&& e.len() == i.len()
            &&& entries_read(rows, |row| payout_entry(row, f, c))
                == Ok::<Seq<(TransactionView, TransactionView)>, (int, Seq<char>)>(legs_view(e, i))
            &&& (p != q ==> with_two_journals(
                old.accounts@,
                new.accounts@,
                p,
                merged(old.accounts@[p].transactions@, e, true),
                q,
                old.accounts@[q].transactions@ + sorted_by_date(select(i, mask)),
            ))
            &&& warnings_view(w@) == already_warnings(mask, rows, c.id as int, c.date as int)
        }
    }
}

/// Reads a payout export against the ledger: the table, its columns, the
/// positions of the processor's account and of "Chase", and the two legs of
/// each entry.
#[verifier::rlimit(50)]
fn read_payouts(ledger: &Ledger, text: &str, f: &PayoutFormat) -> (r: Result<(Table, PayoutColumns, usize, usize, Vec<Transaction>, Vec<Transaction>), ImportError>)
    ensures
        r matches Err(e) ==> payout_failure(ledger.accounts@, text@, *f, e),
        r matches Ok((t, c, p, q, e, i)) ==> {
            &&& table_of(text@) == Some((t.header_view(), t.entries_view()))
            &&& payout_columns_of(t.header_view(), *f) == Some(c)
            &&& account_position(ledger.accounts@, f.account@) == Some(p as int)
            &&& account_position(ledger.accounts@, "Chase"@) == Some(q as int)
            &&& p < ledger.accounts@.len() && q < ledger.accounts@.len()
            &&& e@.len() == i@.len()
            &&& entries_read(t.entries_view(), |row| payout_entry(row, *f, c))
                == Ok::<Seq<(TransactionView, TransactionView)>, (int, Seq<char>)>(legs_view(e@, i@))
        },
{
    let table = match read_table(text) {
        Some(t) => t,
        None => {
            proof {
                reveal(payout_failure);
            }
            return Err(ImportError::Table);
        },
    };
    let c = match payout_columns(&table.header, f) {
        Ok(c) => c,
        Err(e) => {
            proof {
                reveal(payout_failure);
            }
            return Err(e);
        },
    };
    let p = match ledger.position_of(f.account) {
        Some(p) => p,
        None => {
            proof {
                reveal(payout_failure);
            }
            return Err(ImportError::AccountNotFound(f.account.to_owned()));
        },
    };
    let q = match ledger.position_of("Chase") {
        Some(q) => q,
        None => {
            proof {
                reveal(payout_failure);
            }
            return Err(ImportError::AccountNotFound("Chase".to_owned()));
        },
    };
    let (expenses, incomes) = match payout_candidates(&table.entries, f, &c) {
        Ok(v) => v,
        Err(e) => {
            proof {
                reveal(payout_failure);
            }
            return Err(e);
        },
    };
    Ok((table, c, p, q, expenses, incomes))
}

/// Imports a payout export. Each entry whose fingerprint the processor's
/// account does not hold yet (nor an earlier entry) becomes an expense of
/// that account and an income of "Chase", with the same amount and date;
/// each batch is sorted by date and appended after its journal.
/// On an error the ledger is left as it was.
pub fn import_payouts(ledger: &mut Ledger, text: &str, f: &PayoutFormat) -> (r: Result<Vec<ImportWarning>, ImportError>)
    ensures
        payouts_imported(*old(ledger), *final(ledger), text@, *f, r),
{
    let (table, c, p, q, expenses, incomes) = match read_payouts(ledger, text, f) {
        Ok(x) => x,
        Err(e) => return Err(e),
    };
    let ghost e = expenses@;
    let ghost i = incomes@;
    let flags = book_payouts(ledger, p, q, expenses, incomes);
    let w = crate::import::skipped_warnings(&flags, &table.entries, c.id, c.date);
    proof {
        assert(legs_view(e, i) == legs_view(e, i));
    }
    Ok(w)
}

/// Imports a payout export of the given origin, then, when it succeeded,
/// sorts every journal by date; an unknown origin is refused.
pub fn payout(ledger: &mut Ledger, text: &str, origin: PayoutOrigin) -> (r: Result<Vec<ImportWarning>, ImportError>)
    ensures
        origin is Unknown ==> r == Err::<Vec<ImportWarning>, ImportError>(ImportError::UnknownOrigin),
        r is Err ==> *final(ledger) == *old(ledger),
        exists|booked: Ledger| #[trigger] payout_then_sorted(*old(ledger), booked, *final(ledger), text@, origin, r),
{
    let r = match origin {
        PayoutOrigin::Stripe => import_payouts(ledger, text, &stripe_format()),
        PayoutOrigin::PayPal => import_payouts(ledger, text, &paypal_format()),
        PayoutOrigin::Unknown => Err(ImportError::UnknownOrigin),
    };
    let ghost booked = *ledger;
    if r.is_ok() {
        ledger.sort_by_date();
    }
    proof {
        assert(payout_then_sorted(*old(ledger), booked, *final(ledger), text@, origin, r));
    }
    r
}

/// `booked` is what importing the payout export `text` of `origin` into
/// `old` gives, and `sorted` is `booked` with every journal sorted by date
/// when the import succeeded.
pub open spec fn payout_then_sorted(
    old: Ledger,
    booked: Ledger,
    sorted: Ledger,
    text: Seq<char>,
    origin: PayoutOrigin,
    r: Result<Vec<ImportWarning>, ImportError>,
) -> bool {
    &&& origin is Stripe ==> payouts_imported(old, booked, text, stripe_format_spec(), r)
    &&& origin is PayPal ==> payouts_imported(old, booked, text, paypal_format_spec(), r)
    &&& r is Ok ==> journals_sorted(booked.accounts@, sorted.accounts@)
}

/// Importing the same payout export a second time leaves both journals as
/// the first import left them: (`expenses`, `incomes`) and (`again_e`,
/// `again_i`) are what the two imports read from the same entries, and
/// `account` and `bank` the journals before the first.
pub proof fn lemma_payout_reimport(
    account: Seq<Transaction>,
    bank: Seq<Transaction>,
    rows: Seq<Seq<Seq<char>>>,
    f: PayoutFormat,
    c: PayoutColumns,
    expenses: Seq<Transaction>,
    incomes: Seq<Transaction>,
    again_e: Seq<Transaction>,
    again_i: Seq<Transaction>,
)
    requires
        expenses.len() == incomes.len(),
        again_e.len() == again_i.len(),
        entries_read(rows, |row| payout_entry(row, f, c))
            == Ok::<Seq<(TransactionView, TransactionView)>, (int, Seq<char>)>(legs_view(expenses, incomes)),
        entries_read(rows, |row| payout_entry(row, f, c))
            == Ok::<Seq<(TransactionView, TransactionView)>, (int, Seq<char>)>(legs_view(again_e, again_i)),
    ensures
        ({
            let account1 = merged(account, expenses, true);
            let bank1 = bank + sorted_by_date(select(incomes, fresh_mask(expenses, ids_in(account, true), true)));
            &&& merged(account1, again_e, true) == account1
            &&& bank1 + sorted_by_date(select(again_i, fresh_mask(again_e, ids_in(account1, true), true))) == bank1
        }),
{
    let v = legs_view(expenses, incomes);
    let w = legs_view(again_e, again_i);
    crate::import::lemma_entries_read_each(rows, |row| payout_entry(row, f, c), v);
    assert(v =~= w);
    assert forall|i: int| 0 <= i < expenses.len() implies (#[trigger] crate::dedup::id_of(expenses[i], true)) is Some by {
        reveal(payout_entry);
        assert(v[i] == (expenses[i]@, incomes[i]@));
        assert(payout_entry(rows[i], f, c) == Ok::<(TransactionView, TransactionView), Seq<char>>(v[i]));
    }
    assert forall|i: int| 0 <= i < expenses.len() implies crate::dedup::id_of(#[trigger] again_e[i], true) == crate::dedup::id_of(expenses[i], true) by {
        assert(v[i] == w[i]);
    }
    crate::dedup::lemma_merge_twice(account, expenses, again_e, true);
    let account1 = merged(account, expenses, true);
    assert forall|i: int| 0 <= i < again_e.len() implies ((#[trigger] crate::dedup::id_of(again_e[i], true)) matches Some(x) && ids_in(account1, true).contains(x)) by {
        assert(v[i] == w[i]);
        crate::dedup::lemma_candidate_kept(account, expenses, true, i);
    }
    crate::dedup::lemma_mask_unset(again_e, ids_in(account1, true), true);
    crate::dedup::lemma_fresh_mask_len(again_e, ids_in(account1, true), true);
    crate::dedup::lemma_select_unset(again_i, fresh_mask(again_e, ids_in(account1, true), true));
    let mask1 = fresh_mask(expenses, ids_in(account, true), true);
    let bank1 = bank + sorted_by_date(select(incomes, mask1));
    assert(sorted_by_date(Seq::<Transaction>::empty()) == Seq::<Transaction>::empty());
    assert(bank1 + Seq::<Transaction>::empty() =~= bank1);
}

/// A successful payout import, unfolded: the two legs of each entry.
proof fn lemma_payouts_done(l0: Ledger, l1: Ledger, text: Seq<char>, f: PayoutFormat, w: Vec<ImportWarning>) -> (legs: (
    Seq<Transaction>,
    Seq<Transaction>,
))
    requires
        payouts_imported(l0, l1, text, f, Ok(w)),
    ensures
        ({
            let (h, rows) = table_of(text)->0;
            let c = payout_columns_of(h, f)->0;
            let p = account_position(l0.accounts@, f.account@)->0;
            let q = account_position(l0.accounts@, "Chase"@)->0;
            let mask = fresh_mask(legs.0, ids_in(l0.accounts@[p].transactions@, true), true);
            &&& table_of(text) is Some
            &&& payout_columns_of(h, f) is Some
            &&& account_position(l0.accounts@, f.account@) is Some
            &&& account_position(l0.accounts@, "Chase"@) is Some
            &&& legs.0.len() == legs.1.len()
            &&& entries_read(rows, |row| payout_entry(row, f, c))
                == Ok::<Seq<(TransactionView, TransactionView)>, (int, Seq<char>)>(legs_view(legs.0, legs.1))
            &&& (p != q ==> with_two_journals(
                l0.accounts@,
                l1.accounts@,
                p,
                merged(l0.accounts@[p].transactions@, legs.0, true),
                q,
                l0.accounts@[q].transactions@ + sorted_by_date(select(legs.1, mask)),
            ))
        }),
{
    let (h, rows) = table_of(text)->0;
    let c = payout_columns_of(h, f)->0;
    let p = account_position(l0.accounts@, f.account@)->0;
    let q = account_position(l0.accounts@, "Chase"@)->0;
    let e = choose|e: Seq<Transaction>, i: Seq<Transaction>| #![trigger legs_view(e, i)] {
        let mask = fresh_mask(e, ids_in(l0.accounts@[p].transactions@, true), true);
        &&& e.len() == i.len()
        &&& entries_read(rows, |row| payout_entry(row, f, c))
            == Ok::<Seq<(TransactionView, TransactionView)>, (int, Seq<char>)>(legs_view(e, i))
        &&& (p != q ==> with_two_journals(
            l0.accounts@,
            l1.accounts@,
            p,
            merged(l0.accounts@[p].transactions@, e, true),
            q,
            l0.accounts@[q].transactions@ + sorted_by_date(select(i, mask)),
        ))
        &&& warnings_view(w@) == already_warnings(mask, rows, c.id as int, c.date as int)
    };
    e
}

/// A payout import whose table, columns, accounts and entries all read
/// cannot fail.
proof fn lemma_payouts_owed(accounts: Seq<Account>, text: Seq<char>, f: PayoutFormat, e: ImportError, v: Seq<(TransactionView, TransactionView)>)
    requires
        table_of(text) is Some,
        payout_columns_of((table_of(text)->0).0, f) is Some,
        account_position(accounts, f.account@) is Some,
        account_position(accounts, "Chase"@) is Some,
        entries_read((table_of(text)->0).1, |row| payout_entry(row, f, payout_columns_of((table_of(text)->0).0, f)->0))
            == Ok::<Seq<(TransactionView, TransactionView)>, (int, Seq<char>)>(v),
    ensures
        !payout_failure(accounts, text, f, e),
{
    reveal(payout_failure);
}

/// Importing a payout export into the ledger that importing it gave
/// succeeds, and leaves every account as it was: no payout is booked twice
/// on either leg. The processor's account is not "Chase".
pub proof fn lemma_payouts_twice(
    l0: Ledger,
    l1: Ledger,
    l2: Ledger,
    text: Seq<char>,
    f: PayoutFormat,
    w1: Vec<ImportWarning>,
    r2: Result<Vec<ImportWarning>, ImportError>,
)
    requires
        f.account@ != "Chase"@,
        payouts_imported(l0, l1, text, f, Ok(w1)),
        payouts_imported(l1, l2, text, f, r2),
    ensures
        r2 is Ok,
        crate::import::same_accounts(l1.accounts@, l2.accounts@),
{
    let p = account_position(l0.accounts@, f.account@)->0;
    let q = account_position(l0.accounts@, "Chase"@)->0;
    let (e1, i1) = lemma_payouts_done(l0, l1, text, f, w1);
    crate::ledger::lemma_position_found(l0.accounts@, f.account@);
    crate::ledger::lemma_position_found(l0.accounts@, "Chase"@);
    assert(p != q);
    assert(crate::ledger::same_names(l0.accounts@, l1.accounts@)) by {
        assert forall|j: int| 0 <= j < l0.accounts@.len() implies (#[trigger] l0.accounts@[j]).name@ == l1.accounts@[j].name@ by {
            if j != p && j != q {
                assert(l1.accounts@[j] == l0.accounts@[j]);
            }
        }
    }
    crate::ledger::lemma_position_by_names(l0.accounts@, l1.accounts@, f.account@);
    crate::ledger::lemma_position_by_names(l0.accounts@, l1.accounts@, "Chase"@);
    if r2 is Err {
        lemma_payouts_owed(l1.accounts@, text, f, r2->Err_0, legs_view(e1, i1));
    }
    let (e2, i2) = lemma_payouts_done(l1, l2, text, f, r2->Ok_0);
    let (h, rows) = table_of(text)->0;
    crate::import::lemma_entries_read_each(rows, |row| payout_entry(row, f, payout_columns_of(h, f)->0), legs_view(e1, i1));
    crate::import::lemma_entries_read_each(rows, |row| payout_entry(row, f, payout_columns_of(h, f)->0), legs_view(e2, i2));
    lemma_payout_reimport(
        l0.accounts@[p].transactions@,
        l0.accounts@[q].transactions@,
        rows,
        f,
        payout_columns_of(h, f)->0,
        e1,
        i1,
        e2,
        i2,
    );
    assert forall|j: int| 0 <= j < l1.accounts@.len() implies {
        &&& (#[trigger] l2.accounts@[j]).name == l1.accounts@[j].name
        &&& l2.accounts@[j].opening_date == l1.accounts@[j].opening_date
        &&& l2.accounts@[j].opening_balance == l1.accounts@[j].opening_balance
        &&& l2.accounts@[j].transactions@ == l1.accounts@[j].transactions@
    } by {
        if j != p && j != q {
            assert(l2.accounts@[j] == l1.accounts@[j]);
        }
    }
}

/// A payout import appends to both journals, keeping them as they were
/// before the new entries, and appends as many expenses to the processor's
/// account as incomes to "Chase", the k-th of each with the same date and
/// amount. The processor's account is not "Chase".
pub proof fn lemma_payout_legs(l0: Ledger, l1: Ledger, text: Seq<char>, f: PayoutFormat, w: Vec<ImportWarning>)
    requires
        f.account@ != "Chase"@,
        payouts_imported(l0, l1, text, f, Ok(w)),
    ensures
        ({
            let p = account_position(l0.accounts@, f.account@)->0;
            let q = account_position(l0.accounts@, "Chase"@)->0;
            let before_p = l0.accounts@[p].transactions@;
            let before_q = l0.accounts@[q].transactions@;
            let after_p = l1.accounts@[p].transactions@;
            let after_q = l1.accounts@[q].transactions@;
            &&& after_p.subrange(0, before_p.len() as int) == before_p
            &&& after_q.subrange(0, before_q.len() as int) == before_q
            &&& crate::journal::legs_match(
                after_p.subrange(before_p.len() as int, after_p.len() as int),
                after_q.subrange(before_q.len() as int, after_q.len() as int),
            )
        }),
{
    let p = account_position(l0.accounts@, f.account@)->0;
    let q = account_position(l0.accounts@, "Chase"@)->0;
    let (e, i) = lemma_payouts_done(l0, l1, text, f, w);
    crate::ledger::lemma_position_found(l0.accounts@, f.account@);
    crate::ledger::lemma_position_found(l0.accounts@, "Chase"@);
    assert(p != q);
    let (h, rows) = table_of(text)->0;
    let c = payout_columns_of(h, f)->0;
    crate::import::lemma_entries_read_each(rows, |row| payout_entry(row, f, c), legs_view(e, i));
    assert(crate::journal::legs_match(e, i)) by {
        assert forall|k: int| 0 <= k < e.len() implies (#[trigger] e[k]).date == i[k].date && e[k].amount@ == i[k].amount@ by {
            reveal(payout_entry);
            assert(legs_view(e, i)[k] == (e[k]@, i[k]@));
            assert(payout_entry(rows[k], f, c) == Ok::<(TransactionView, TransactionView), Seq<char>>(legs_view(e, i)[k]));
        }
    }
    let mask = fresh_mask(e, ids_in(l0.accounts@[p].transactions@, true), true);
    crate::dedup::lemma_fresh_mask_len(e, ids_in(l0.accounts@[p].transactions@, true), true);
    crate::dedup::lemma_select_match(e, i, mask);
    crate::journal::lemma_sorted_match(select(e, mask), select(i, mask));
    let before_p = l0.accounts@[p].transactions@;
    let before_q = l0.accounts@[q].transactions@;
    let after_p = l1.accounts@[p].transactions@;
    let after_q = l1.accounts@[q].transactions@;
    assert(after_p.subrange(0, before_p.len() as int) =~= before_p);
    assert(after_q.subrange(0, before_q.len() as int) =~= before_q);
    assert(after_p.subrange(before_p.len() as int, after_p.len() as int) =~= sorted_by_date(select(e, mask)));
    assert(after_q.subrange(before_q.len() as int, after_q.len() as int) =~= sorted_by_date(select(i, mask)));
}

} // verus!
