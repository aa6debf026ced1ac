//! The importers of donation and payout exports.

use crate::date::{parsed_utc, timestamp_in_range, Timestamp};
use crate::dedup::{fresh_mask, ids_in, merged, sha256_of, strings_view, fingerprint, joined};
use crate::ledger::txns_view;
use crate::table::table_view;
use crate::ledger::{account_position, Account, Fee, FeeView, IncomeKind, Ledger, MetaView, Transaction, TransactionMetadata, TransactionView};
use crate::money::rat_neg;
use crate::table::{amount_at, amount_cell, cell, column_index, column_of, read_table, table_of, text_at, Table};
use vstd::prelude::*;

verus! {

/// Why an import did nothing.
#[derive(Debug, PartialEq, Eq)]
pub enum ImportError {
    /// The text is not a well-formed table with a header.
    Table,
    /// The header lacks a column of the format.
    MissingColumn(String),
    /// The ledger lacks an account that the format fills.
    AccountNotFound(String),
    /// An entry (counted from zero after the header) has a cell that is
    /// missing or does not parse.
    BadField { entry: usize, column: String },
    /// The export's origin is not one that this library reads.
    UnknownOrigin,
}

/// A skipped entry, for reconciling by hand: its number (counted from zero
/// after the header), its key (the donor, or the payout's id) and its date
/// as the export writes them.
#[derive(Debug, PartialEq, Eq)]
pub enum ImportWarning {
    /// The entry's fingerprint is in the ledger already, or on an earlier entry.
    AlreadyImported { entry: usize, key: String, date: String },
    /// The entry names a payment method that routes to no account.
    UnknownMethod { entry: usize, method: String, key: String, date: String },
}

/// A warning as its texts.
pub enum WarningView {
    AlreadyImported { entry: usize, key: Seq<char>, date: Seq<char> },
    UnknownMethod { entry: usize, method: Seq<char>, key: Seq<char>, date: Seq<char> },
}

impl View for ImportWarning {
    type V = WarningView;

    open spec fn view(&self) -> WarningView {
        match self {
            ImportWarning::AlreadyImported { entry, key, date } => WarningView::AlreadyImported {
                entry: *entry,
                key: key@,
                date: date@,
            },
            ImportWarning::UnknownMethod { entry, method, key, date } => WarningView::UnknownMethod {
                entry: *entry,
                method: method@,
                key: key@,
                date: date@,
            },
        }
    }
}

/// The views of a list of warnings.
pub open spec fn warnings_view(w: Seq<ImportWarning>) -> Seq<WarningView> {
    w.map_values(|x: ImportWarning| x@)
}

/// The cell of entry `i` in column `k`, or nothing when there is no such cell.
pub open spec fn entry_cell(rows: Seq<Seq<Seq<char>>>, i: int, k: int) -> Seq<char> {
    if 0 <= i < rows.len() && 0 <= k < rows[i].len() {
        rows[i][k]
    } else {
        Seq::empty()
    }
}

/// A copy of the cell of entry `i` in column `k`; empty when there is none.
pub fn cell_text(entries: &Vec<Vec<String>>, i: usize, k: usize) -> (r: String)
    ensures
        r@ == entry_cell(table_view(entries@), i as int, k as int),
{
    if i < entries.len() && k < entries[i].len() {
        proof {
            assert(table_view(entries@)[i as int] == strings_view(entries@[i as int]@));
        }
        entries[i][k].clone()
    } else {
        String::new()
    }
}

/// A warning for each entry whose flag is unset, with the entry's cells in
/// the key and date columns.
pub open spec fn already_warnings(m: Seq<bool>, rows: Seq<Seq<Seq<char>>>, key: int, date: int) -> Seq<WarningView>
    decreases m.len(),
{
    if m.len() == 0 {
        Seq::empty()
    } else if m.last() {
        already_warnings(m.drop_last(), rows, key, date)
    } else {
        let i = m.len() - 1;
        already_warnings(m.drop_last(), rows, key, date).push(
            WarningView::AlreadyImported { entry: i as usize, key: entry_cell(rows, i, key), date: entry_cell(rows, i, date) },
        )
    }
}

/// A warning for each entry whose flag is unset.
pub(crate) fn skipped_warnings(flags: &Vec<bool>, entries: &Vec<Vec<String>>, key: usize, date: usize) -> (r: Vec<ImportWarning>)
    ensures
        warnings_view(r@) == already_warnings(flags@, table_view(entries@), key as int, date as int),
{
    let mut r: Vec<ImportWarning> = Vec::new();
    let mut i: usize = 0;
    while i < flags.len()
        invariant
            i <= flags@.len(),
            warnings_view(r@) == already_warnings(flags@.subrange(0, i as int), table_view(entries@), key as int, date as int),
        decreases flags.len() - i,
    {
        let ghost before = r@;
        if !flags[i] {
            let k = cell_text(entries, i, key);
            let d = cell_text(entries, i, date);
            r.push(ImportWarning::AlreadyImported { entry: i, key: k, date: d });
        }
        proof {
            let m = flags@.subrange(0, i + 1);
            assert(m.drop_last() =~= flags@.subrange(0, i as int));
            assert(warnings_view(r@) =~= already_warnings(m, table_view(entries@), key as int, date as int));
        }
        i += 1;
    }
    proof {
        assert(flags@.subrange(0, flags@.len() as int) =~= flags@);
    }
    r
}

/// The ledger with the journal of the account at `p` replaced.
pub open spec fn with_journal(before: Seq<Account>, after: Seq<Account>, p: int, journal: Seq<Transaction>) -> bool {
    &&& after.len() == before.len()
    &&& 0 <= p < before.len()
    &&& forall|j: int| 0 <= j < before.len() && j != p ==> after[j] == before[j]
    &&& after[p].name == before[p].name
    &&& after[p].opening_date == before[p].opening_date
    &&& after[p].opening_balance == before[p].opening_balance
    &&& after[p].transactions@ == journal
}

/// Merges the fresh candidates into the account at `p`.
pub(crate) fn merge_at(ledger: &mut Ledger, p: usize, candidates: Vec<Transaction>, payout: bool) -> (r: Vec<bool>)
    requires
        p < old(ledger).accounts@.len(),
    ensures
        with_journal(
            old(ledger).accounts@,
            final(ledger).accounts@,
            p as int,
            merged(old(ledger).accounts@[p as int].transactions@, candidates@, payout),
        ),
        r@ == fresh_mask(candidates@, ids_in(old(ledger).accounts@[p as int].transactions@, payout), payout),
{
    let mut account = ledger.accounts.remove(p);
    let flags = account.merge_fresh(candidates, payout);
    ledger.accounts.insert(p, account);
    proof {
        assert forall|j: int| 0 <= j < old(ledger).accounts@.len() && j != p implies ledger.accounts@[j] == old(ledger).accounts@[j] by {
        }
    }
    flags
}

/// The position of a column that a format requires.
fn required_column(header: &Vec<String>, name: &str) -> (r: Result<usize, ImportError>)
    ensures
        r matches Ok(i) ==> column_of(strings_view(header@), name@) == Some(i as int),
        r matches Err(e) ==> (e matches ImportError::MissingColumn(n) && n@ == name@),
        r is Err ==> column_of(strings_view(header@), name@) is None,
{
    match column_index(header, name) {
        Some(i) => Ok(i),
        None => Err(ImportError::MissingColumn(name.to_owned())),
    }
}

/// The first entry that does not read, with the column of its bad cell, or
/// what every entry records.
pub open spec fn entries_read<T>(
    rows: Seq<Seq<Seq<char>>>,
    entry: spec_fn(Seq<Seq<char>>) -> Result<T, Seq<char>>,
) -> Result<Seq<T>, (int, Seq<char>)>
    decreases rows.len(),
{
    if rows.len() == 0 {
        Ok(Seq::empty())
    } else {
        match entries_read(rows.drop_last(), entry) {
            Ok(v) => match entry(rows.last()) {
                Ok(t) => Ok(v.push(t)),
                Err(col) => Err(((rows.len() - 1) as int, col)),
            },
            Err(e) => Err(e),
        }
    }
}

/// The error for a bad cell.
pub open spec fn bad_field(e: ImportError, entry: int, column: Seq<char>) -> bool {
    e matches ImportError::BadField { entry: k, column: col } && k == entry && col@ == column
}

/// Reading the entries stopped at a bad cell, and `e` names its entry and column.
pub open spec fn failed_at<T>(read: Result<Seq<T>, (int, Seq<char>)>, e: ImportError) -> bool {
    match read {
        Err((k, col)) => bad_field(e, k, col),
        Ok(_) => false,
    }
}

/// The columns of an OpenCollective export.
#[derive(Clone, Copy, PartialEq, Eq, Structural)]
pub struct OpenCollectiveColumns {
    pub user: usize,
    pub date: usize,
    pub amount: usize,
    pub host_fee: usize,
    pub platform_fee: usize,
    pub processor_fee: usize,
    pub net_amount: usize,
}

/// An entry of an OpenCollective export as the donation it records, or the
/// column of its first bad cell.
#[verifier::opaque]
pub open spec fn opencollective_entry(row: Seq<Seq<char>>, c: OpenCollectiveColumns) -> Result<TransactionView, Seq<char>> {
    let amount = amount_cell(row, c.amount as int);
    let host = amount_cell(row, c.host_fee as int);
    let platform = amount_cell(row, c.platform_fee as int);
    let processor = amount_cell(row, c.processor_fee as int);
    let date_text = cell(row, c.date as int);
    let user = cell(row, c.user as int);
    let net = cell(row, c.net_amount as int);
    if amount is None {
        Err("Transaction Amount"@)
    } else if host is None {
        Err("Host Fee (USD)"@)
    } else if platform is None {
        Err("Open Collective Fee (USD)"@)
    } else if processor is None {
        Err("Payment Processor Fee (USD)"@)
    } else if date_text is None || timestamp_in_range(parsed_utc(date_text->0, "%Y-%m-%d %H:%M:%S"@)) is None {
        Err("Transaction Date"@)
    } else if user is None {
        Err("User Name"@)
    } else if net is None {
        Err("Net Amount (USD)"@)
    } else {
        let host = host->0;
        let u = user->0;
        Ok(TransactionView {
            date: timestamp_in_range(parsed_utc(date_text->0, "%Y-%m-%d %H:%M:%S"@))->0,
            description: "Donation made through the OpenCollective platform"@,
            amount: amount->0,
            meta: MetaView::Income {
                donation: Some(sha256_of("OpenCollective"@ + joined(seq![u, date_text->0, net->0]))),
                from: u,
            },
            fees: seq![
                FeeView { towards: "Collective Host (Amethyst Foundation)"@, amount: host },
                FeeView { towards: "Collective Host (Amethyst Foundation)"@, amount: rat_neg(host) },
                FeeView { towards: "OpenCollective"@, amount: rat_neg(platform->0) },
                FeeView { towards: "Payment Processor"@, amount: rat_neg(processor->0) },
            ],
        })
    }
}

/// Reads one entry of an OpenCollective export.
pub fn opencollective_transaction(row: &Vec<String>, c: &OpenCollectiveColumns) -> (r: Result<Transaction, &'static str>)
    ensures
        r matches Ok(t) ==> t.wf() && opencollective_entry(strings_view(row@), *c) == Ok::<TransactionView, Seq<char>>(t@),
        r matches Err(col) ==> opencollective_entry(strings_view(row@), *c) == Err::<TransactionView, Seq<char>>(col@),
{
    reveal(opencollective_entry);
    let amount = match amount_at(row, c.amount) {
        Some(m) => m,
        None => return Err("Transaction Amount"),
    };
    let host = match amount_at(row, c.host_fee) {
        Some(m) => m,
        None => return Err("Host Fee (USD)"),
    };
    let platform = match amount_at(row, c.platform_fee) {
        Some(m) => m,
        None => return Err("Open Collective Fee (USD)"),
    };
    let processor = match amount_at(row, c.processor_fee) {
        Some(m) => m,
        None => return Err("Payment Processor Fee (USD)"),
    };
    let date_text = match text_at(row, c.date) {
        Some(s) => s,
        None => return Err("Transaction Date"),
    };
    let date = match Timestamp::parse(date_text.as_str(), "%Y-%m-%d %H:%M:%S") {
        Some(d) => d,
        None => return Err("Transaction Date"),
    };
    let user = match text_at(row, c.user) {
        Some(s) => s,
        None => return Err("User Name"),
    };
    let net = match text_at(row, c.net_amount) {
        Some(s) => s,
        None => return Err("Net Amount (USD)"),
    };
    let fields = vec![user.clone(), date_text, net];
    proof {
        assert(strings_view(fields@) =~= seq![user@, date_text@, net@]);
    }
    let id = fingerprint("OpenCollective", &fields);
    let host_towards = "Collective Host (Amethyst Foundation)";
    let fees = vec![
        Fee { towards: host_towards.to_owned(), amount: host.duplicate() },
        Fee { towards: host_towards.to_owned(), amount: host.negate() },
        Fee { towards: "OpenCollective".to_owned(), amount: platform.negate() },
        Fee { towards: "Payment Processor".to_owned(), amount: processor.negate() },
    ];
    let t = Transaction {
        date,
        description: "Donation made through the OpenCollective platform".to_owned(),
        amount,
        meta: TransactionMetadata::Income { kind: IncomeKind::Donation(id), from: user },
        fees,
    };
    proof {
        assert(crate::ledger::fees_view(t.fees@) =~= seq![
            FeeView { towards: "Collective Host (Amethyst Foundation)"@, amount: host@ },
            FeeView { towards: "Collective Host (Amethyst Foundation)"@, amount: rat_neg(host@) },
            FeeView { towards: "OpenCollective"@, amount: rat_neg(platform@) },
            FeeView { towards: "Payment Processor"@, amount: rat_neg(processor@) },
        ]);
        assert forall|i: int| 0 <= i < t.fees@.len() implies (#[trigger] t.fees@[i]).wf() by {}
        assert(t.wf());
        assert(opencollective_entry(strings_view(row@), *c) == Ok::<TransactionView, Seq<char>>(t@));
    }
    Ok(t)
}

/// The columns of an OpenCollective export that a header names.
#[verifier::opaque]
pub open spec fn opencollective_columns_of(h: Seq<Seq<char>>) -> Option<OpenCollectiveColumns> {
    let user = column_of(h, "User Name"@);
    let date = column_of(h, "Transaction Date"@);
    let amount = column_of(h, "Transaction Amount"@);
    let host = column_of(h, "Host Fee (USD)"@);
    let platform = column_of(h, "Open Collective Fee (USD)"@);
    let processor = column_of(h, "Payment Processor Fee (USD)"@);
    let net = column_of(h, "Net Amount (USD)"@);
    if user is Some && date is Some && amount is Some && host is Some && platform is Some && processor is Some && net is Some {
        Some(OpenCollectiveColumns {
            user: user->0 as usize,
            date: date->0 as usize,
            amount: amount->0 as usize,
            host_fee: host->0 as usize,
            platform_fee: platform->0 as usize,
            processor_fee: processor->0 as usize,
            net_amount: net->0 as usize,
        })
    } else {
        None
    }
}

/// A column that an OpenCollective export must have.
pub open spec fn opencollective_column(n: Seq<char>) -> bool {
    n == "User Name"@ || n == "Transaction Date"@ || n == "Transaction Amount"@ || n == "Host Fee (USD)"@
        || n == "Open Collective Fee (USD)"@ || n == "Payment Processor Fee (USD)"@ || n == "Net Amount (USD)"@
}

/// Finds the columns of an OpenCollective export.
pub fn opencollective_columns(header: &Vec<String>) -> (r: Result<OpenCollectiveColumns, ImportError>)
    ensures
        r matches Ok(c) ==> opencollective_columns_of(strings_view(header@)) == Some(c),
        r matches Err(e) ==> opencollective_columns_of(strings_view(header@)) is None
            && (e matches ImportError::MissingColumn(n) && opencollective_column(n@) && column_of(strings_view(header@), n@) is None),
{
    reveal(opencollective_columns_of);
    let user = match required_column(header, "User Name") {
        Ok(i) => i,
        Err(e) => return Err(e),
    };
    let date = match required_column(header, "Transaction Date") {
        Ok(i) => i,
        Err(e) => return Err(e),
    };
    let amount = match required_column(header, "Transaction Amount") {
        Ok(i) => i,
        Err(e) => return Err(e),
    };
    let host_fee = match required_column(header, "Host Fee (USD)") {
        Ok(i) => i,
        Err(e) => return Err(e),
    };
    let platform_fee = match required_column(header, "Open Collective Fee (USD)") {
        Ok(i) => i,
        Err(e) => return Err(e),
    };
    let processor_fee = match required_column(header, "Payment Processor Fee (USD)") {
        Ok(i) => i,
        Err(e) => return Err(e),
    };
    let net_amount = match required_column(header, "Net Amount (USD)") {
        Ok(i) => i,
        Err(e) => return Err(e),
    };
    Ok(OpenCollectiveColumns { user, date, amount, host_fee, platform_fee, processor_fee, net_amount })
}

/// Reads every entry of an OpenCollective export, stopping at the first bad one.
pub fn opencollective_candidates(entries: &Vec<Vec<String>>, c: &OpenCollectiveColumns) -> (r: Result<Vec<Transaction>, ImportError>)
    ensures
        r matches Ok(v) ==> entries_read(table_view(entries@), |row| opencollective_entry(row, *c)) == Ok::<Seq<TransactionView>, (int, Seq<char>)>(txns_view(v@))
            && forall|i: int| 0 <= i < v@.len() ==> (#[trigger] v@[i]).wf(),
        r matches Err(e) ==> entries_read(table_view(entries@), |row| opencollective_entry(row, *c)) matches Err((k, col)) && bad_field(e, k, col),
{
    let mut out: Vec<Transaction> = Vec::new();
    let mut i: usize = 0;
    proof {
        assert(table_view(entries@.subrange(0, 0)) =~= Seq::<Seq<Seq<char>>>::empty());
        assert(txns_view(out@) =~= Seq::<TransactionView>::empty());
    }
    while i < entries.len()
        invariant
            i <= entries@.len(),
            entries_read(table_view(entries@.subrange(0, i as int)), |row| opencollective_entry(row, *c))
                == Ok::<Seq<TransactionView>, (int, Seq<char>)>(txns_view(out@)),
            forall|j: int| 0 <= j < out@.len() ==> (#[trigger] out@[j]).wf(),
        decreases entries.len() - i,
    {
        let ghost rows = table_view(entries@.subrange(0, i + 1));
        proof {
            assert(rows.drop_last() =~= table_view(entries@.subrange(0, i as int)));
            assert(rows.last() == strings_view(entries@[i as int]@));
        }
        match opencollective_transaction(&entries[i], c) {
            Ok(t) => {
                let ghost before = out@;
                out.push(t);
                proof {
                    assert(txns_view(out@) =~= txns_view(before).push(t@));
                }
            },
            Err(col) => {
                proof {
                    assert(opencollective_entry(rows.last(), *c) == Err::<TransactionView, Seq<char>>(col@));
                    assert(entries_read(rows, |row| opencollective_entry(row, *c)) == Err::<Seq<TransactionView>, (int, Seq<char>)>((i as int, col@)));
                    assert(table_view(entries@).subrange(0, i + 1) =~= rows);
                    lemma_entries_read_prefix(table_view(entries@), |row| opencollective_entry(row, *c), i as int);
                }
                return Err(ImportError::BadField { entry: i, column: col.to_owned() });
            },
        }
        i += 1;
    }
    proof {
        assert(entries@.subrange(0, entries@.len() as int) =~= entries@);
    }
    Ok(out)
}

/// A failure among the first `k + 1` entries is the failure of them all.
pub proof fn lemma_entries_read_prefix<T>(
    rows: Seq<Seq<Seq<char>>>,
    entry: spec_fn(Seq<Seq<char>>) -> Result<T, Seq<char>>,
    k: int,
)
    requires
        0 <= k < rows.len(),
        entries_read(rows.subrange(0, k + 1), entry) is Err,
    ensures
        entries_read(rows, entry) == entries_read(rows.subrange(0, k + 1), entry),
    decreases rows.len(),
{
    if k + 1 < rows.len() {
        assert(rows.drop_last().subrange(0, k + 1) =~= rows.subrange(0, k + 1));
        lemma_entries_read_prefix(rows.drop_last(), entry, k);
    } else {
        assert(rows.subrange(0, k + 1) =~= rows);
    }
}

/// Why an OpenCollective export `text` cannot be imported into `accounts`:
/// the table does not read; or it lacks the column `n`; or the ledger lacks
/// "Stripe"; or an entry, the first that does not read, has a bad cell.
#[verifier::opaque]
pub open spec fn opencollective_failure(accounts: Seq<Account>, text: Seq<char>, e: ImportError) -> bool {
    let (h, rows) = table_of(text)->0;
    let cols = opencollective_columns_of(h);
    match e {
        ImportError::Table => table_of(text) is None,
        ImportError::MissingColumn(n) => table_of(text) is Some && cols is None && opencollective_column(n@)
            && column_of(h, n@) is None,
        ImportError::AccountNotFound(n) => table_of(text) is Some && cols is Some && n@ == "Stripe"@
            && account_position(accounts, "Stripe"@) is None,
        ImportError::BadField { .. } => table_of(text) is Some && cols is Some
            && account_position(accounts, "Stripe"@) is Some
            && failed_at(entries_read(rows, |row| opencollective_entry(row, cols->0)), e),
        ImportError::UnknownOrigin => false,
    }
}

/// What importing an OpenCollective export `text` into `old` gives: `new`
/// and the result `r`. It fails exactly as `opencollective_failure` says,
/// leaving the ledger as it was; otherwise the fresh donations are appended
/// to "Stripe", and each skipped entry has a warning with its donor and date.
pub open spec fn opencollective_imported(
    old: Ledger,
    new: Ledger,
    text: Seq<char>,
    r: Result<Vec<ImportWarning>, ImportError>,
) -> bool {
    &&& r matches Err(e) ==> new == old && opencollective_failure(old.accounts@, text, e)
    &&& r matches Ok(w) ==> {
        let (h, rows) = table_of(text)->0;
        let c = opencollective_columns_of(h)->0;
        let p = account_position(old.accounts@, "Stripe"@)->0;
        &&& table_of(text) is Some
        &&& opencollective_columns_of(h) is Some
        &&& account_position(old.accounts@, "Stripe"@) is Some
        &&& exists|cands: Seq<Transaction>| #![trigger txns_view(cands)] {
            let mask = fresh_mask(cands, ids_in(old.accounts@[p].transactions@, false), false);
            &&& entries_read(rows, |row| opencollective_entry(row, c))
                == Ok::<Seq<TransactionView>, (int, Seq<char>)>(txns_view(cands))
            &&& with_journal(old.accounts@, new.accounts@, p, merged(old.accounts@[p].transactions@, cands, false))
            &&& warnings_view(w@) == already_warnings(mask, rows, c.user as int, c.date as int)
        }
    }
}

/// Reads an OpenCollective export against the ledger: the table, its
/// columns, the position of "Stripe", and the donation of each entry.
fn read_opencollective(ledger: &Ledger, text: &str) -> (r: Result<(Table, OpenCollectiveColumns, usize, Vec<Transaction>), ImportError>)
    ensures
        r matches Err(e) ==> opencollective_failure(ledger.accounts@, text@, e),
        r matches Ok((t, c, p, v)) ==> {
            &&& table_of(text@) == Some((t.header_view(), t.entries_view()))
            &&& opencollective_columns_of(t.header_view()) == Some(c)
            &&& account_position(ledger.accounts@, "Stripe"@) == Some(p as int)
            &&& p < ledger.accounts@.len()
            &&& entries_read(t.entries_view(), |row| opencollective_entry(row, c))
                == Ok::<Seq<TransactionView>, (int, Seq<char>)>(txns_view(v@))
        },
{
    let table = match read_table(text) {
        Some(t) => t,
        None => {
            proof {
                reveal(opencollective_failure);
            }
            return Err(ImportError::Table);
        },
    };
    let c = match opencollective_columns(&table.header) {
        Ok(c) => c,
        Err(e) => {
            proof {
                reveal(opencollective_failure);
            }
            return Err(e);
        },
    };
    let p = match ledger.position_of("Stripe") {
        Some(p) => p,
        None => {
            proof {
                reveal(opencollective_failure);
            }
            return Err(ImportError::AccountNotFound("Stripe".to_owned()));
        },
    };
    let candidates = match opencollective_candidates(&table.entries, &c) {
        Ok(v) => v,
        Err(e) => {
            proof {
                reveal(opencollective_failure);
            }
            return Err(e);
        },
    };
    Ok((table, c, p, candidates))
}

/// Imports an OpenCollective export into the account "Stripe": each entry is
/// a donation with four fees (the host fee, its waiver, the platform fee and
/// the processor fee, the last two negated); entries whose fingerprint the
/// account holds, or an earlier entry carries, are skipped with a warning.
/// The new donations are sorted by date and appended after the journal,
/// which is otherwise kept as it was. On an error the ledger is left as it was.
pub fn import_opencollective(ledger: &mut Ledger, text: &str) -> (r: Result<Vec<ImportWarning>, ImportError>)
    ensures
        opencollective_imported(*old(ledger), *final(ledger), text@, r),
{
    let (table, c, p, candidates) = match read_opencollective(ledger, text) {
        Ok(x) => x,
        Err(e) => return Err(e),
    };
    let ghost cands = candidates@;
    let flags = merge_at(ledger, p, candidates, false);
    let w = skipped_warnings(&flags, &table.entries, c.user, c.date);
    proof {
        let mask = fresh_mask(cands, ids_in(old(ledger).accounts@[p as int].transactions@, false), false);
        assert(warnings_view(w@) == already_warnings(mask, table.entries_view(), c.user as int, c.date as int));
    }
    Ok(w)
}

/// Each record that reading every entry gives is what some entry reads as.
pub proof fn lemma_entries_read_each<T>(
    rows: Seq<Seq<Seq<char>>>,
    entry: spec_fn(Seq<Seq<char>>) -> Result<T, Seq<char>>,
    v: Seq<T>,
)
    requires
        entries_read(rows, entry) == Ok::<Seq<T>, (int, Seq<char>)>(v),
    ensures
        v.len() == rows.len(),
        forall|i: int| 0 <= i < v.len() ==> entry(rows[i]) == Ok::<T, Seq<char>>(#[trigger] v[i]),
    decreases rows.len(),
{
    if rows.len() > 0 {
        let w = entries_read(rows.drop_last(), entry)->Ok_0;
        lemma_entries_read_each(rows.drop_last(), entry, w);
        assert forall|i: int| 0 <= i < v.len() implies entry(rows[i]) == Ok::<T, Seq<char>>(#[trigger] v[i]) by {
            if i < v.len() - 1 {
                assert(v[i] == w[i]);
                assert(rows[i] == rows.drop_last()[i]);
            }
        }
    }
}

/// Importing the same OpenCollective export a second time leaves the journal
/// of "Stripe" as the first import left it: `cands` and `again` are what the
/// two imports read from the same entries.
pub proof fn lemma_opencollective_reimport(
    old: Seq<Transaction>,
    rows: Seq<Seq<Seq<char>>>,
    c: OpenCollectiveColumns,
    cands: Seq<Transaction>,
    again: Seq<Transaction>,
)
    requires
        entries_read(rows, |row| opencollective_entry(row, c)) == Ok::<Seq<TransactionView>, (int, Seq<char>)>(txns_view(cands)),
        entries_read(rows, |row| opencollective_entry(row, c)) == Ok::<Seq<TransactionView>, (int, Seq<char>)>(txns_view(again)),
    ensures
        merged(merged(old, cands, false), again, false) == merged(old, cands, false),
{
    lemma_entries_read_each(rows, |row| opencollective_entry(row, c), txns_view(cands));
    assert forall|i: int| 0 <= i < cands.len() implies (#[trigger] crate::dedup::id_of(cands[i], false)) is Some by {
        reveal(opencollective_entry);
        assert(txns_view(cands)[i] == cands[i]@);
        assert(opencollective_entry(rows[i], c) == Ok::<TransactionView, Seq<char>>(cands[i]@));
    }
    assert forall|i: int| 0 <= i < cands.len() implies crate::dedup::id_of(#[trigger] again[i], false) == crate::dedup::id_of(cands[i], false) by {
        assert(txns_view(cands)[i] == cands[i]@);
        assert(txns_view(again)[i] == again[i]@);
    }
    crate::dedup::lemma_merge_twice(old, cands, again, false);
}

/// The accounts of `b` are those of `a`, with the same journals.
pub open spec fn same_accounts(a: Seq<Account>, b: Seq<Account>) -> bool {
    &&& a.len() == b.len()
    &&& forall|j: int| 0 <= j < a.len() ==> {
        &&& (#[trigger] b[j]).name == a[j].name
        &&& b[j].opening_date == a[j].opening_date
        &&& b[j].opening_balance == a[j].opening_balance
        &&& b[j].transactions@ == a[j].transactions@
    }
}

/// Replacing one journal keeps the names.
pub proof fn lemma_with_journal_names(a: Seq<Account>, b: Seq<Account>, p: int, j: Seq<Transaction>)
    requires
        with_journal(a, b, p, j),
    ensures
        crate::ledger::same_names(a, b),
{
    assert forall|i: int| 0 <= i < a.len() implies (#[trigger] a[i]).name@ == b[i].name@ by {
        if i != p {
            assert(b[i] == a[i]);
        }
    }
}

/// A successful OpenCollective import, unfolded: the donations it read.
proof fn lemma_opencollective_done(l0: Ledger, l1: Ledger, text: Seq<char>, w: Vec<ImportWarning>) -> (cands: Seq<Transaction>)
    requires
        opencollective_imported(l0, l1, text, Ok(w)),
    ensures
        table_of(text) is Some,
        opencollective_columns_of((table_of(text)->0).0) is Some,
        account_position(l0.accounts@, "Stripe"@) is Some,
        entries_read((table_of(text)->0).1, |row| opencollective_entry(row, opencollective_columns_of((table_of(text)->0).0)->0))
            == Ok::<Seq<TransactionView>, (int, Seq<char>)>(txns_view(cands)),
        with_journal(
            l0.accounts@,
            l1.accounts@,
            account_position(l0.accounts@, "Stripe"@)->0,
            merged(l0.accounts@[account_position(l0.accounts@, "Stripe"@)->0].transactions@, cands, false),
        ),
{
    let (h, rows) = table_of(text)->0;
    let c = opencollective_columns_of(h)->0;
    let p = account_position(l0.accounts@, "Stripe"@)->0;
    choose|cands: Seq<Transaction>| #![trigger txns_view(cands)] {
        let mask = fresh_mask(cands, ids_in(l0.accounts@[p].transactions@, false), false);
        &&& entries_read(rows, |row| opencollective_entry(row, c))
            == Ok::<Seq<TransactionView>, (int, Seq<char>)>(txns_view(cands))
        &&& with_journal(l0.accounts@, l1.accounts@, p, merged(l0.accounts@[p].transactions@, cands, false))
        &&& warnings_view(w@) == already_warnings(mask, rows, c.user as int, c.date as int)
    }
}

/// An OpenCollective import whose table, columns, account and entries all
/// read cannot fail.
proof fn lemma_opencollective_owed(accounts: Seq<Account>, text: Seq<char>, e: ImportError, v: Seq<TransactionView>)
    requires
        table_of(text) is Some,
        opencollective_columns_of((table_of(text)->0).0) is Some,
        account_position(accounts, "Stripe"@) is Some,
        entries_read((table_of(text)->0).1, |row| opencollective_entry(row, opencollective_columns_of((table_of(text)->0).0)->0))
            == Ok::<Seq<TransactionView>, (int, Seq<char>)>(v),
    ensures
        !opencollective_failure(accounts, text, e),
{
    reveal(opencollective_failure);
}

/// Importing an OpenCollective export into the ledger that importing it
/// gave succeeds, and leaves every account as it was.
pub proof fn lemma_opencollective_twice(
    l0: Ledger,
    l1: Ledger,
    l2: Ledger,
    text: Seq<char>,
    w1: Vec<ImportWarning>,
    r2: Result<Vec<ImportWarning>, ImportError>,
)
    requires
        opencollective_imported(l0, l1, text, Ok(w1)),
        opencollective_imported(l1, l2, text, r2),
    ensures
        r2 is Ok,
        same_accounts(l1.accounts@, l2.accounts@),
{
    let p = account_position(l0.accounts@, "Stripe"@)->0;
    let c1 = lemma_opencollective_done(l0, l1, text, w1);
    lemma_with_journal_names(l0.accounts@, l1.accounts@, p, merged(l0.accounts@[p].transactions@, c1, false));
    crate::ledger::lemma_position_by_names(l0.accounts@, l1.accounts@, "Stripe"@);
    if r2 is Err {
        lemma_opencollective_owed(l1.accounts@, text, r2->Err_0, txns_view(c1));
    }
    let c2 = lemma_opencollective_done(l1, l2, text, r2->Ok_0);
    let (h, rows) = table_of(text)->0;
    lemma_opencollective_reimport(l0.accounts@[p].transactions@, rows, opencollective_columns_of(h)->0, c1, c2);
    assert forall|j: int| 0 <= j < l1.accounts@.len() implies {
        &&& (#[trigger] l2.accounts@[j]).name == l1.accounts@[j].name
        &&& l2.accounts@[j].opening_date == l1.accounts@[j].opening_date
        &&& l2.accounts@[j].opening_balance == l1.accounts@[j].opening_balance
        &&& l2.accounts@[j].transactions@ == l1.accounts@[j].transactions@
    } by {
        if j != p {
            assert(l2.accounts@[j] == l1.accounts@[j]);
        }
    }
}

} // verus!
