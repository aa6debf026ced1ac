//! The DonorBox importer, and the choice of a donation importer.

use crate::date::{parsed_utc, timestamp_in_range, Timestamp};
use crate::dedup::{fingerprint, fresh_flags, fresh_mask, ids_in, ids_view, joined, known_ids, select, sha256_of, strings_view};
use crate::import::{bad_field, cell_text, entries_read, entry_cell, failed_at, import_opencollective, warnings_view, ImportError, ImportWarning, WarningView};
use crate::ledger::Account;
use crate::table::Table;
use crate::journal::{journals_sorted, sorted_by_date};
use crate::ledger::{account_position, Fee, FeeView, IncomeKind, Ledger, MetaView, Transaction, TransactionMetadata, TransactionView};
use crate::payout::with_two_journals;
use crate::table::{amount_at, amount_cell, cell, column_index, column_of, read_table, table_of, table_view, text_at};
use crate::text::{chars_of, string_of};
use vstd::prelude::*;

verus! {

/// Where a donation export comes from.
pub enum DonationOrigin {
    Unknown,
    DonorBox,
    OpenCollective,
}

impl DonationOrigin {
    /// The origin that a command line names: `donorbox` or `opencollective`.
    pub fn from(name: &str) -> (r: DonationOrigin)
        ensures
            name@ == "donorbox"@ ==> r is DonorBox,
            name@ == "opencollective"@ ==> r is OpenCollective,
            name@ != "donorbox"@ && name@ != "opencollective"@ ==> r is Unknown,
    {
        proof {
            reveal_strlit("donorbox");
            reveal_strlit("opencollective");
            assert("donorbox"@[0] != "opencollective"@[0]);
        }
        if crate::ledger::same_text(name, "donorbox") {
            DonationOrigin::DonorBox
        } else if crate::ledger::same_text(name, "opencollective") {
            DonationOrigin::OpenCollective
        } else {
            DonationOrigin::Unknown
        }
    }
}

/// `s` without every trailing " UTC".
pub open spec fn trim_utc(s: Seq<char>) -> Seq<char>
    decreases s.len(),
{
    if s.len() >= 4 && s.subrange(s.len() - 4, s.len() as int) == " UTC"@ {
        trim_utc(s.subrange(0, s.len() - 4))
    } else {
        s
    }
}

/// The text without every trailing " UTC", as `str::trim_end_matches` leaves it.
fn trim_utc_suffix(text: &str) -> (r: String)
    ensures
        r@ == trim_utc(text@),
{
    let c = chars_of(text);
    proof {
        reveal_strlit(" UTC");
        assert(" UTC"@ =~= seq![' ', 'U', 'T', 'C']);
        assert(c@.subrange(0, c@.len() as int) =~= c@);
    }
    let mut end = c.len();
    while end >= 4 && c[end - 4] == ' ' && c[end - 3] == 'U' && c[end - 2] == 'T' && c[end - 1] == 'C'
        invariant
            end <= c@.len(),
            " UTC"@ == seq![' ', 'U', 'T', 'C'],
            trim_utc(text@) == trim_utc(c@.subrange(0, end as int)),
            c@ == text@,
        decreases end,
    {
        proof {
            let s = c@.subrange(0, end as int);
            assert(s.subrange(s.len() - 4, s.len() as int) =~= " UTC"@);
            assert(s.subrange(0, s.len() - 4) =~= c@.subrange(0, end - 4));
        }
        end -= 4;
    }
    proof {
        let s = c@.subrange(0, end as int);
        if s.len() >= 4 && s.subrange(s.len() - 4, s.len() as int) == " UTC"@ {
            assert(s.subrange(s.len() - 4, s.len() as int)[0] == c@[end - 4]);
            assert(s.subrange(s.len() - 4, s.len() as int)[1] == c@[end - 3]);
            assert(s.subrange(s.len() - 4, s.len() as int)[2] == c@[end - 2]);
            assert(s.subrange(s.len() - 4, s.len() as int)[3] == c@[end - 1]);
        }
        assert(c@.subrange(0, c@.len() as int) =~= text@);
    }
    let mut out: Vec<char> = Vec::new();
    let mut i: usize = 0;
    while i < end
        invariant
            end <= c@.len(),
            i <= end,
            out@ == c@.subrange(0, i as int),
        decreases end - i,
    {
        out.push(c[i]);
        i += 1;
        proof {
            assert(c@.subrange(0, i as int) =~= c@.subrange(0, i - 1).push(c@[i - 1]));
        }
    }
    string_of(&out)
}

/// The columns of a DonorBox export.
#[derive(Clone, Copy, PartialEq, Eq, Structural)]
pub struct DonorBoxColumns {
    pub date: usize,
    pub name: usize,
    pub amount: usize,
    pub fee: usize,
    pub net_amount: usize,
    pub receipt: usize,
    pub method: usize,
}

/// The account that a DonorBox payment method routes to: `Some(false)` for
/// "Stripe", `Some(true)` for "PayPal", none for an unknown method.
pub open spec fn donorbox_route(method: Seq<char>) -> Option<bool> {
    if method == "stripe"@ {
        Some(false)
    } else if method == "paypal"@ || method == "paypal_express"@ {
        Some(true)
    } else {
        None
    }
}

/// An entry of a DonorBox export as the donation it records and its route,
/// or the column of its first bad cell.
#[verifier::opaque]
pub open spec fn donorbox_entry(row: Seq<Seq<char>>, c: DonorBoxColumns) -> Result<(TransactionView, Option<bool>), Seq<char>> {
    let amount = amount_cell(row, c.amount as int);
    let fee = amount_cell(row, c.fee as int);
    let date_text = cell(row, c.date as int);
    let name = cell(row, c.name as int);
    let net = cell(row, c.net_amount as int);
    let receipt = cell(row, c.receipt as int);
    let method = cell(row, c.method as int);
    if amount is None {
        Err("Amount"@)
    } else if fee is None {
        Err("Processing Fee"@)
    } else if date_text is None || timestamp_in_range(parsed_utc(trim_utc(date_text->0), "%Y-%m-%d %H:%M:%S"@)) is None {
        Err("Date Donated"@)
    } else if name is None {
        Err("Name"@)
    } else if net is None {
        Err("Net Amount"@)
    } else if receipt is None {
        Err("Receipt Id"@)
    } else if method is None {
        Err("Donation Type"@)
    } else {
        Ok((
            TransactionView {
                date: timestamp_in_range(parsed_utc(trim_utc(date_text->0), "%Y-%m-%d %H:%M:%S"@))->0,
                description: "Donation made through the DonorBox platform"@,
                amount: amount->0,
                meta: MetaView::Income {
                    donation: Some(sha256_of("DonorBox"@ + joined(seq![name->0, date_text->0, net->0, receipt->0]))),
                    from: name->0,
                },
                fees: seq![FeeView { towards: "DonorBox Processing"@, amount: fee->0 }],
            },
            donorbox_route(method->0),
        ))
    }
}

/// Reads one entry of a DonorBox export: the donation, and its route.
pub fn donorbox_transaction(row: &Vec<String>, c: &DonorBoxColumns) -> (r: Result<(Transaction, Option<bool>), &'static str>)
    ensures
        r matches Ok((t, route)) ==> t.wf()
            && donorbox_entry(strings_view(row@), *c) == Ok::<(TransactionView, Option<bool>), Seq<char>>((t@, route)),
        r matches Err(col) ==> donorbox_entry(strings_view(row@), *c) == Err::<(TransactionView, Option<bool>), Seq<char>>(col@),
{
    reveal(donorbox_entry);
    let amount = match amount_at(row, c.amount) {
        Some(m) => m,
        None => return Err("Amount"),
    };
    let fee = match amount_at(row, c.fee) {
        Some(m) => m,
        None => return Err("Processing Fee"),
    };
    let date_text = match text_at(row, c.date) {
        Some(s) => s,
        None => return Err("Date Donated"),
    };
    let trimmed = trim_utc_suffix(date_text.as_str());
    let date = match Timestamp::parse(trimmed.as_str(), "%Y-%m-%d %H:%M:%S") {
        Some(d) => d,
        None => return Err("Date Donated"),
    };
    let name = match text_at(row, c.name) {
        Some(s) => s,
        None => return Err("Name"),
    };
    let net = match text_at(row, c.net_amount) {
        Some(s) => s,
        None => return Err("Net Amount"),
    };
    let receipt = match text_at(row, c.receipt) {
        Some(s) => s,
        None => return Err("Receipt Id"),
    };
    let method = match text_at(row, c.method) {
        Some(s) => s,
        None => return Err("Donation Type"),
    };
    let fields = vec![name.clone(), date_text, net, receipt];
    proof {
        assert(strings_view(fields@) =~= seq![fields@[0]@, fields@[1]@, fields@[2]@, fields@[3]@]);
    }
    let id = fingerprint("DonorBox", &fields);
    let route = if crate::ledger::same_text(method.as_str(), "stripe") {
        Some(false)
    } else if crate::ledger::same_text(method.as_str(), "paypal") || crate::ledger::same_text(method.as_str(), "paypal_express") {
        Some(true)
    } else {
        None
    };
    let t = Transaction {
        date,
        description: "Donation made through the DonorBox platform".to_owned(),
        amount,
        meta: TransactionMetadata::Income { kind: IncomeKind::Donation(id), from: name },
        fees: vec![Fee { towards: "DonorBox Processing".to_owned(), amount: fee }],
    };
    proof {
        assert(crate::ledger::fees_view(t.fees@) =~= seq![FeeView { towards: "DonorBox Processing"@, amount: t.fees@[0].amount@ }]);
        assert forall|i: int| 0 <= i < t.fees@.len() implies (#[trigger] t.fees@[i]).wf() by {}
    }
    Ok((t, route))
}

/// The columns of a DonorBox export that a header names.
#[verifier::opaque]
pub open spec fn donorbox_columns_of(h: Seq<Seq<char>>) -> Option<DonorBoxColumns> {
    let date = column_of(h, "Date Donated"@);
    let name = column_of(h, "Name"@);
    let amount = column_of(h, "Amount"@);
    let fee = column_of(h, "Processing Fee"@);
    let net = column_of(h, "Net Amount"@);
    let receipt = column_of(h, "Receipt Id"@);
    let method = column_of(h, "Donation Type"@);
    if date is Some && name is Some && amount is Some && fee is Some && net is Some && receipt is Some && method is Some {
        Some(DonorBoxColumns {
            date: date->0 as usize,
            name: name->0 as usize,
            amount: amount->0 as usize,
            fee: fee->0 as usize,
            net_amount: net->0 as usize,
            receipt: receipt->0 as usize,
            method: method->0 as usize,
        })
    } else {
        None
    }
}

/// The position of a column that the DonorBox format requires.
fn donorbox_column(header: &Vec<String>, name: &str) -> (r: Result<usize, ImportError>)
    ensures
        r matches Ok(i) ==> column_of(strings_view(header@), name@) == Some(i as int),
        r matches Err(e) ==> (e matches ImportError::MissingColumn(n) && n@ == name@) && column_of(strings_view(header@), name@) is None,
{
    match column_index(header, name) {
        Some(i) => Ok(i),
        None => Err(ImportError::MissingColumn(name.to_owned())),
    }
}

/// A column that a DonorBox export must have.
pub open spec fn donorbox_column_name(n: Seq<char>) -> bool {
    n == "Date Donated"@ || n == "Name"@ || n == "Amount"@ || n == "Processing Fee"@ || n == "Net Amount"@
        || n == "Receipt Id"@ || n == "Donation Type"@
}

/// Finds the columns of a DonorBox export.
pub fn donorbox_columns(header: &Vec<String>) -> (r: Result<DonorBoxColumns, ImportError>)
    ensures
        r matches Ok(c) ==> donorbox_columns_of(strings_view(header@)) == Some(c),
        r matches Err(e) ==> donorbox_columns_of(strings_view(header@)) is None
            && (e matches ImportError::MissingColumn(n) && donorbox_column_name(n@) && column_of(strings_view(header@), n@) is None),
{
    reveal(donorbox_columns_of);
    let date = match donorbox_column(header, "Date Donated") {
        Ok(i) => i,
        Err(e) => return Err(e),
    };
    let name = match donorbox_column(header, "Name") {
        Ok(i) => i,
        Err(e) => return Err(e),
    };
    let amount = match donorbox_column(header, "Amount") {
        Ok(i) => i,
        Err(e) => return Err(e),
    };
    let fee = match donorbox_column(header, "Processing Fee") {
        Ok(i) => i,
        Err(e) => return Err(e),
    };
    let net_amount = match donorbox_column(header, "Net Amount") {
        Ok(i) => i,
        Err(e) => return Err(e),
    };
    let receipt = match donorbox_column(header, "Receipt Id") {
        Ok(i) => i,
        Err(e) => return Err(e),
    };
    let method = match donorbox_column(header, "Donation Type") {
        Ok(i) => i,
        Err(e) => return Err(e),
    };
    Ok(DonorBoxColumns { date, name, amount, fee, net_amount, receipt, method })
}

/// Each donation with its route.
pub open spec fn routed_view(t: Seq<Transaction>, routes: Seq<Option<bool>>) -> Seq<(TransactionView, Option<bool>)> {
    Seq::new(t.len(), |k: int| (t[k]@, routes[k]))
}

/// Reads every entry of a DonorBox export, stopping at the first bad one.
pub fn donorbox_candidates(entries: &Vec<Vec<String>>, c: &DonorBoxColumns) -> (r: Result<(Vec<Transaction>, Vec<Option<bool>>), ImportError>)
    ensures
        r matches Ok((t, routes)) ==> t@.len() == routes@.len() && routes@.len() == entries@.len()
            && entries_read(table_view(entries@), |row| donorbox_entry(row, *c))
                == Ok::<Seq<(TransactionView, Option<bool>)>, (int, Seq<char>)>(routed_view(t@, routes@))
            && forall|k: int| 0 <= k < t@.len() ==> (#[trigger] t@[k]).wf(),
        r matches Err(x) ==> entries_read(table_view(entries@), |row| donorbox_entry(row, *c)) matches Err((k, col)) && bad_field(x, k, col),
{
    let mut out: Vec<Transaction> = Vec::new();
    let mut routes: Vec<Option<bool>> = Vec::new();
    let mut n: usize = 0;
    proof {
        assert(table_view(entries@.subrange(0, 0)) =~= Seq::<Seq<Seq<char>>>::empty());
        assert(routed_view(out@, routes@) =~= Seq::<(TransactionView, Option<bool>)>::empty());
    }
    while n < entries.len()
        invariant
            n <= entries@.len(),
            out@.len() == routes@.len(),
            out@.len() == n,
            entries_read(table_view(entries@.subrange(0, n as int)), |row| donorbox_entry(row, *c))
                == Ok::<Seq<(TransactionView, Option<bool>)>, (int, Seq<char>)>(routed_view(out@, routes@)),
            forall|k: int| 0 <= k < out@.len() ==> (#[trigger] out@[k]).wf(),
        decreases entries.len() - n,
    {
        let ghost rows = table_view(entries@.subrange(0, n + 1));
        proof {
            assert(rows.drop_last() =~= table_view(entries@.subrange(0, n as int)));
            assert(rows.last() == strings_view(entries@[n as int]@));
        }
        match donorbox_transaction(&entries[n], c) {
            Ok((t, route)) => {
                let ghost before = routed_view(out@, routes@);
                out.push(t);
                routes.push(route);
                proof {
                    assert(routed_view(out@, routes@) =~= before.push((t@, route)));
                }
            },
            Err(col) => {
                proof {
                    assert(entries_read(rows, |row| donorbox_entry(row, *c))
                        == Err::<Seq<(TransactionView, Option<bool>)>, (int, Seq<char>)>((n as int, col@)));
                    assert(table_view(entries@).subrange(0, n + 1) =~= rows);
                    crate::import::lemma_entries_read_prefix(table_view(entries@), |row| donorbox_entry(row, *c), n as int);
                }
                return Err(ImportError::BadField { entry: n, column: col.to_owned() });
            },
        }
        n += 1;
    }
    proof {
        assert(entries@.subrange(0, entries@.len() as int) =~= entries@);
        assert(entries_read(table_view(entries@), |row| donorbox_entry(row, *c))
            == Ok::<Seq<(TransactionView, Option<bool>)>, (int, Seq<char>)>(routed_view(out@, routes@)));
    }
    Ok((out, routes))
}

/// Which entries have a route.
pub open spec fn routed_mask(routes: Seq<Option<bool>>) -> Seq<bool> {
    Seq::new(routes.len(), |k: int| routes[k] is Some)
}

/// The routes that are known, in order: true for "PayPal".
pub open spec fn known_routes(routes: Seq<Option<bool>>) -> Seq<bool>
    decreases routes.len(),
{
    if routes.len() == 0 {
        Seq::empty()
    } else {
        match routes.last() {
            Some(b) => known_routes(routes.drop_last()).push(b),
            None => known_routes(routes.drop_last()),
        }
    }
}

/// Flags set where both are.
pub open spec fn both(a: Seq<bool>, b: Seq<bool>) -> Seq<bool> {
    Seq::new(a.len(), |k: int| a[k] && b[k])
}

/// Flags set where the first is and the second is not.
pub open spec fn first_only(a: Seq<bool>, b: Seq<bool>) -> Seq<bool> {
    Seq::new(a.len(), |k: int| a[k] && !b[k])
}

/// The donations that have a route, and their routes.
fn keep_routed(t: Vec<Transaction>, routes: &Vec<Option<bool>>) -> (r: (Vec<Transaction>, Vec<bool>))
    requires
        t@.len() == routes@.len(),
    ensures
        r.0@ == select(t@, routed_mask(routes@)),
        r.1@ == known_routes(routes@),
        r.0@.len() == r.1@.len(),
{
    let n = t.len();
    let ghost all = t@;
    let mut src = t;
    let mut kept: Vec<Transaction> = Vec::new();
    let mut to_paypal: Vec<bool> = Vec::new();
    let mut k: usize = 0;
    while src.len() > 0
        invariant
            n == all.len() == routes@.len(),
            k + src@.len() == n,
            src@ == all.subrange(k as int, n as int),
            kept@ == select(all.subrange(0, k as int), routed_mask(routes@.subrange(0, k as int))),
            to_paypal@ == known_routes(routes@.subrange(0, k as int)),
            kept@.len() == to_paypal@.len(),
        decreases src@.len(),
    {
        let x = src.remove(0);
        proof {
            assert(all.subrange(0, k + 1).drop_last() =~= all.subrange(0, k as int));
            assert(routes@.subrange(0, k + 1).drop_last() =~= routes@.subrange(0, k as int));
            assert(routed_mask(routes@.subrange(0, k + 1)).drop_last() =~= routed_mask(routes@.subrange(0, k as int)));
        }
        match routes[k] {
            Some(b) => {
                kept.push(x);
                to_paypal.push(b);
            },
            None => {},
        }
        k += 1;
        proof {
            assert(src@ =~= all.subrange(k as int, n as int));
        }
    }
    proof {
        assert(all.subrange(0, n as int) =~= all);
        assert(routes@.subrange(0, n as int) =~= routes@);
    }
    (kept, to_paypal)
}

/// The entries whose flag is set in `a`, and those whose flag is set in `b`.
fn split_selected(v: Vec<Transaction>, a: &Vec<bool>, b: &Vec<bool>) -> (r: (Vec<Transaction>, Vec<Transaction>))
    requires
        a@.len() == v@.len(),
        b@.len() == v@.len(),
        forall|k: int| 0 <= k < v@.len() ==> !(a@[k] && b@[k]),
    ensures
        r.0@ == select(v@, a@),
        r.1@ == select(v@, b@),
{
    let n = v.len();
    let ghost all = v@;
    let mut src = v;
    let mut x: Vec<Transaction> = Vec::new();
    let mut y: Vec<Transaction> = Vec::new();
    let mut k: usize = 0;
    while src.len() > 0
        invariant
            n == all.len() == a@.len() == b@.len(),
            forall|j: int| 0 <= j < n ==> !(a@[j] && b@[j]),
            k + src@.len() == n,
            src@ == all.subrange(k as int, n as int),
            x@ == select(all.subrange(0, k as int), a@.subrange(0, k as int)),
            y@ == select(all.subrange(0, k as int), b@.subrange(0, k as int)),
        decreases src@.len(),
    {
        let t = src.remove(0);
        proof {
            assert(all.subrange(0, k + 1).drop_last() =~= all.subrange(0, k as int));
            assert(a@.subrange(0, k + 1).drop_last() =~= a@.subrange(0, k as int));
            assert(b@.subrange(0, k + 1).drop_last() =~= b@.subrange(0, k as int));
        }
        if a[k] {
            x.push(t);
        } else if b[k] {
            y.push(t);
        }
        k += 1;
        proof {
            assert(src@ =~= all.subrange(k as int, n as int));
        }
    }
    proof {
        assert(all.subrange(0, n as int) =~= all);
        assert(a@.subrange(0, n as int) =~= a@);
        assert(b@.subrange(0, n as int) =~= b@);
    }
    (x, y)
}

/// The journals of "Stripe" and "PayPal" after booking DonorBox entries: the
/// routed entries whose fingerprint neither journal holds, nor an earlier
/// routed entry, appended in order of date after its account's journal.
pub open spec fn donorbox_booked(
    stripe: Seq<Transaction>,
    paypal: Seq<Transaction>,
    t: Seq<Transaction>,
    routes: Seq<Option<bool>>,
) -> (Seq<Transaction>, Seq<Transaction>) {
    let rt = select(t, routed_mask(routes));
    let pp = known_routes(routes);
    let mask = fresh_mask(rt, ids_in(stripe, false) + ids_in(paypal, false), false);
    (
        stripe + sorted_by_date(select(rt, first_only(mask, pp))),
        paypal + sorted_by_date(select(rt, both(mask, pp))),
    )
}

proof fn lemma_select_member(s: Seq<Transaction>, m: Seq<bool>, t: Transaction)
    requires
        m.len() == s.len(),
        select(s, m).contains(t),
    ensures
        exists|j: int| 0 <= j < s.len() && m[j] && s[j] == t,
    decreases s.len(),
{
    if s.len() > 0 {
        let q = select(s.drop_last(), m.drop_last());
        if m.last() && t == s.last() {
            assert(m[s.len() - 1] && s[s.len() - 1] == t);
        } else {
            let k = choose|k: int| 0 <= k < select(s, m).len() && select(s, m)[k] == t;
            if m.last() {
                assert(k < q.len());
            }
            assert(q[k] == t);
            lemma_select_member(s.drop_last(), m.drop_last(), t);
            let j = choose|j: int| 0 <= j < s.drop_last().len() && m.drop_last()[j] && s.drop_last()[j] == t;
            assert(m[j] && s[j] == t);
        }
    }
}

proof fn lemma_select_ids(s: Seq<Transaction>, s2: Seq<Transaction>, m: Seq<bool>)
    requires
        m.len() == s.len(),
        s2.len() == s.len(),
        forall|k: int| 0 <= k < s.len() ==> crate::dedup::id_of(#[trigger] s2[k], false) == crate::dedup::id_of(s[k], false),
    ensures
        select(s2, m).len() == select(s, m).len(),
        forall|k: int| 0 <= k < select(s, m).len() ==> crate::dedup::id_of(#[trigger] select(s2, m)[k], false) == crate::dedup::id_of(select(s, m)[k], false),
    decreases s.len(),
{
    if s.len() > 0 {
        lemma_select_ids(s.drop_last(), s2.drop_last(), m.drop_last());
        assert forall|k: int| 0 <= k < select(s, m).len() implies crate::dedup::id_of(#[trigger] select(s2, m)[k], false) == crate::dedup::id_of(select(s, m)[k], false) by {
            if k < select(s.drop_last(), m.drop_last()).len() {
                assert(select(s2, m)[k] == select(s2.drop_last(), m.drop_last())[k]);
                assert(select(s, m)[k] == select(s.drop_last(), m.drop_last())[k]);
            } else {
                assert(s2.last() == s2[s.len() - 1]);
            }
        }
    }
}

/// `a` followed by `b` sorted holds the fingerprint of each element of them.
proof fn lemma_id_kept(a: Seq<Transaction>, b: Seq<Transaction>, t: Transaction)
    requires
        a.contains(t) || b.contains(t),
        crate::dedup::id_of(t, false) is Some,
    ensures
        ids_in(a + sorted_by_date(b), false).contains(crate::dedup::id_of(t, false)->0),
{
    crate::dedup::lemma_kept_by_merge(a, b, t);
    let r = a + sorted_by_date(b);
    let j = choose|j: int| 0 <= j < r.len() && r[j] == t;
    crate::dedup::lemma_ids_in_contains(r, crate::dedup::id_of(t, false)->0, false);
}

proof fn lemma_concat_contains(a: Seq<Seq<u8>>, b: Seq<Seq<u8>>, x: Seq<u8>)
    requires
        a.contains(x) || b.contains(x),
    ensures
        (a + b).contains(x),
{
    if a.contains(x) {
        let k = choose|k: int| 0 <= k < a.len() && a[k] == x;
        assert((a + b)[k] == x);
    } else {
        let k = choose|k: int| 0 <= k < b.len() && b[k] == x;
        assert((a + b)[a.len() + k] == x);
    }
}

/// Each routed entry's fingerprint is in one of the two journals after booking.
proof fn lemma_routed_kept(stripe: Seq<Transaction>, paypal: Seq<Transaction>, rt: Seq<Transaction>, pp: Seq<bool>, k: int)
    requires
        pp.len() == rt.len(),
        0 <= k < rt.len(),
        crate::dedup::id_of(rt[k], false) is Some,
    ensures
        ({
            let mask = fresh_mask(rt, ids_in(stripe, false) + ids_in(paypal, false), false);
            let stripe_after = stripe + sorted_by_date(select(rt, first_only(mask, pp)));
            let paypal_after = paypal + sorted_by_date(select(rt, both(mask, pp)));
            (ids_in(stripe_after, false) + ids_in(paypal_after, false)).contains(crate::dedup::id_of(rt[k], false)->0)
        }),
{
    let known = ids_in(stripe, false) + ids_in(paypal, false);
    let mask = fresh_mask(rt, known, false);
    let fo = first_only(mask, pp);
    let bo = both(mask, pp);
    let x = crate::dedup::id_of(rt[k], false)->0;
    crate::dedup::lemma_fresh_mask_len(rt, known, false);
    let mut holder = rt[k];
    if mask[k] {
        if pp[k] {
            crate::dedup::lemma_select_contains(rt, bo, k);
        } else {
            crate::dedup::lemma_select_contains(rt, fo, k);
        }
    } else {
        crate::dedup::lemma_fresh_mask_prefix(rt, known, false, k + 1);
        crate::dedup::lemma_fresh_mask_prefix(rt, known, false, k);
        let pre = rt.subrange(0, k);
        assert(rt.subrange(0, k + 1).drop_last() =~= pre);
        assert(mask.subrange(0, k + 1).last() == mask[k]);
        let earlier = select(pre, mask.subrange(0, k));
        assert((known + ids_in(earlier, false)).contains(x));
        let i = choose|i: int| 0 <= i < (known + ids_in(earlier, false)).len() && (known + ids_in(earlier, false))[i] == x;
        if i < ids_in(stripe, false).len() {
            assert(ids_in(stripe, false)[i] == x);
            crate::dedup::lemma_ids_in_contains(stripe, x, false);
            let j = choose|j: int| 0 <= j < stripe.len() && crate::dedup::id_of(#[trigger] stripe[j], false) == Some(x);
            holder = stripe[j];
        } else if i < known.len() {
            assert(ids_in(paypal, false)[i - ids_in(stripe, false).len()] == x);
            crate::dedup::lemma_ids_in_contains(paypal, x, false);
            let j = choose|j: int| 0 <= j < paypal.len() && crate::dedup::id_of(#[trigger] paypal[j], false) == Some(x);
            holder = paypal[j];
        } else {
            assert(ids_in(earlier, false)[i - known.len()] == x);
            crate::dedup::lemma_ids_in_contains(earlier, x, false);
            let j = choose|j: int| 0 <= j < earlier.len() && crate::dedup::id_of(#[trigger] earlier[j], false) == Some(x);
            holder = earlier[j];
            crate::dedup::lemma_select_prefix(rt, mask, k, earlier[j]);
            lemma_select_member(rt, mask, earlier[j]);
            let q = choose|q: int| 0 <= q < rt.len() && mask[q] && rt[q] == earlier[j];
            if pp[q] {
                crate::dedup::lemma_select_contains(rt, bo, q);
            } else {
                crate::dedup::lemma_select_contains(rt, fo, q);
            }
        }
    }
    let stripe_after = stripe + sorted_by_date(select(rt, fo));
    let paypal_after = paypal + sorted_by_date(select(rt, bo));
    if stripe.contains(holder) || select(rt, fo).contains(holder) {
        lemma_id_kept(stripe, select(rt, fo), holder);
        lemma_concat_contains(ids_in(stripe_after, false), ids_in(paypal_after, false), x);
    } else {
        assert(paypal.contains(holder) || select(rt, bo).contains(holder));
        lemma_id_kept(paypal, select(rt, bo), holder);
        lemma_concat_contains(ids_in(stripe_after, false), ids_in(paypal_after, false), x);
    }
}

/// Importing the same DonorBox export a second time leaves both journals as
/// the first import left them: (`t`, `routes`) and (`again`, `again_routes`)
/// are what the two imports read from the same entries.
pub proof fn lemma_donorbox_reimport(
    stripe: Seq<Transaction>,
    paypal: Seq<Transaction>,
    rows: Seq<Seq<Seq<char>>>,
    c: DonorBoxColumns,
    t: Seq<Transaction>,
    routes: Seq<Option<bool>>,
    again: Seq<Transaction>,
    again_routes: Seq<Option<bool>>,
)
    requires
        t.len() == routes.len(),
        again.len() == again_routes.len(),
        entries_read(rows, |row| donorbox_entry(row, c))
            == Ok::<Seq<(TransactionView, Option<bool>)>, (int, Seq<char>)>(routed_view(t, routes)),
        entries_read(rows, |row| donorbox_entry(row, c))
            == Ok::<Seq<(TransactionView, Option<bool>)>, (int, Seq<char>)>(routed_view(again, again_routes)),
    ensures
        ({
            let (stripe_after, paypal_after) = donorbox_booked(stripe, paypal, t, routes);
            donorbox_booked(stripe_after, paypal_after, again, again_routes) == (stripe_after, paypal_after)
        }),
{
    let v = routed_view(t, routes);
    let w = routed_view(again, again_routes);
    crate::import::lemma_entries_read_each(rows, |row| donorbox_entry(row, c), v);
    assert(v =~= w);
    assert(routes =~= again_routes) by {
        assert forall|k: int| 0 <= k < routes.len() implies routes[k] == again_routes[k] by {
            assert(v[k] == w[k]);
        }
    }
    assert forall|k: int| 0 <= k < t.len() implies crate::dedup::id_of(#[trigger] again[k], false) == crate::dedup::id_of(t[k], false) by {
        assert(v[k] == w[k]);
    }
    assert forall|k: int| 0 <= k < t.len() implies (#[trigger] crate::dedup::id_of(t[k], false)) is Some by {
        reveal(donorbox_entry);
        assert(v[k] == (t[k]@, routes[k]));
        assert(donorbox_entry(rows[k], c) == Ok::<(TransactionView, Option<bool>), Seq<char>>(v[k]));
    }
    let rm = routed_mask(routes);
    let rt = select(t, rm);
    let rt2 = select(again, rm);
    let pp = known_routes(routes);
    lemma_select_ids(t, again, rm);
    assert(pp.len() == rt.len()) by {
        lemma_select_routes_len(t, routes);
    }
    let (stripe_after, paypal_after) = donorbox_booked(stripe, paypal, t, routes);
    let known1 = ids_in(stripe_after, false) + ids_in(paypal_after, false);
    assert forall|k: int| 0 <= k < rt2.len() implies ((#[trigger] crate::dedup::id_of(rt2[k], false)) matches Some(x) && known1.contains(x)) by {
        assert(rt.contains(rt[k]));
        lemma_select_member(t, rm, rt[k]);
        lemma_routed_kept(stripe, paypal, rt, pp, k);
    }
    crate::dedup::lemma_mask_unset(rt2, known1, false);
    crate::dedup::lemma_fresh_mask_len(rt2, known1, false);
    let mask2 = fresh_mask(rt2, known1, false);
    crate::dedup::lemma_select_unset(rt2, first_only(mask2, pp));
    crate::dedup::lemma_select_unset(rt2, both(mask2, pp));
    let mask = fresh_mask(rt, ids_in(stripe, false) + ids_in(paypal, false), false);
    assert(sorted_by_date(Seq::<Transaction>::empty()) == Seq::<Transaction>::empty());
    assert(stripe_after + Seq::<Transaction>::empty() =~= stripe_after);
    assert(paypal_after + Seq::<Transaction>::empty() =~= paypal_after);
}

/// The routed entries and their routes are as many.
proof fn lemma_select_routes_len(t: Seq<Transaction>, routes: Seq<Option<bool>>)
    requires
        t.len() == routes.len(),
    ensures
        select(t, routed_mask(routes)).len() == known_routes(routes).len(),
    decreases t.len(),
{
    if t.len() > 0 {
        assert(routed_mask(routes).drop_last() =~= routed_mask(routes.drop_last()));
        lemma_select_routes_len(t.drop_last(), routes.drop_last());
    }
}

/// Appends a batch, sorted by date, after the journal of the account at `p`.
fn append_at(ledger: &mut Ledger, p: usize, batch: Vec<Transaction>)
    requires
        p < old(ledger).accounts@.len(),
    ensures
        crate::import::with_journal(
            old(ledger).accounts@,
            final(ledger).accounts@,
            p as int,
            old(ledger).accounts@[p as int].transactions@ + sorted_by_date(batch@),
        ),
{
    let mut account = ledger.accounts.remove(p);
    account.append_sorted(batch);
    ledger.accounts.insert(p, account);
    proof {
        assert forall|j: int| 0 <= j < old(ledger).accounts@.len() && j != p implies ledger.accounts@[j] == old(ledger).accounts@[j] by {}
    }
}

/// The warnings of a DonorBox import, entry by entry: an entry with an
/// unknown payment method has one naming the method; a routed entry whose
/// flag in `mask` (one flag per routed entry) is unset has one saying it is
/// imported already. Each names the donor and the date.
pub open spec fn donorbox_warnings_of(
    routes: Seq<Option<bool>>,
    mask: Seq<bool>,
    rows: Seq<Seq<Seq<char>>>,
    c: DonorBoxColumns,
) -> Seq<WarningView>
    decreases routes.len(),
{
    if routes.len() == 0 {
        Seq::empty()
    } else {
        let k = routes.len() - 1;
        let prev = donorbox_warnings_of(routes.drop_last(), mask, rows, c);
        let key = entry_cell(rows, k, c.name as int);
        let date = entry_cell(rows, k, c.date as int);
        match routes.last() {
            None => prev.push(
                WarningView::UnknownMethod { entry: k as usize, method: entry_cell(rows, k, c.method as int), key, date },
            ),
            Some(_) => {
                let j = known_routes(routes.drop_last()).len() as int;
                if j < mask.len() && !mask[j] {
                    prev.push(WarningView::AlreadyImported { entry: k as usize, key, date })
                } else {
                    prev
                }
            },
        }
    }
}

/// The warnings of a DonorBox import.
fn donorbox_warnings(entries: &Vec<Vec<String>>, c: &DonorBoxColumns, routes: &Vec<Option<bool>>, flags: &Vec<bool>) -> (r: Vec<ImportWarning>)
    ensures
        warnings_view(r@) == donorbox_warnings_of(routes@, flags@, table_view(entries@), *c),
{
    let ghost rows = table_view(entries@);
    let mut r: Vec<ImportWarning> = Vec::new();
    let mut j: usize = 0;
    let mut k: usize = 0;
    while k < routes.len()
        invariant
            rows == table_view(entries@),
            k <= routes@.len(),
            j == known_routes(routes@.subrange(0, k as int)).len(),
            j <= k,
            warnings_view(r@) == donorbox_warnings_of(routes@.subrange(0, k as int), flags@, rows, *c),
        decreases routes.len() - k,
    {
        let ghost before = r@;
        let ghost pre = routes@.subrange(0, k + 1);
        proof {
            assert(pre.drop_last() =~= routes@.subrange(0, k as int));
        }
        let key = cell_text(entries, k, c.name);
        let date = cell_text(entries, k, c.date);
        match routes[k] {
            Some(_) => {
                if j < flags.len() && !flags[j] {
                    r.push(ImportWarning::AlreadyImported { entry: k, key, date });
                }
                j += 1;
            },
            None => {
                let method = cell_text(entries, k, c.method);
                r.push(ImportWarning::UnknownMethod { entry: k, method, key, date });
            },
        }
        proof {
            assert(warnings_view(r@) =~= donorbox_warnings_of(pre, flags@, rows, *c));
        }
        k += 1;
    }
    proof {
        assert(routes@.subrange(0, routes@.len() as int) =~= routes@);
    }
    r
}

/// Which routed donations are fresh against both journals.
pub open spec fn donorbox_mask(
    stripe: Seq<Transaction>,
    paypal: Seq<Transaction>,
    t: Seq<Transaction>,
    routes: Seq<Option<bool>>,
) -> Seq<bool> {
    fresh_mask(select(t, routed_mask(routes)), ids_in(stripe, false) + ids_in(paypal, false), false)
}

/// Books the routed donations whose fingerprint neither account holds yet:
/// into the account at `s` for "Stripe", at `p` for "PayPal". Returns the
/// flags of the routed donations taken.
#[verifier::rlimit(50)]
fn book_donations(ledger: &mut Ledger, s: usize, p: usize, t: Vec<Transaction>, routes: &Vec<Option<bool>>) -> (r: Vec<bool>)
    requires
        s < old(ledger).accounts@.len(),
        p < old(ledger).accounts@.len(),
        s != p,
        t@.len() == routes@.len(),
    ensures
        r@ == donorbox_mask(old(ledger).accounts@[s as int].transactions@, old(ledger).accounts@[p as int].transactions@, t@, routes@),
        with_two_journals(
            old(ledger).accounts@,
            final(ledger).accounts@,
            s as int,
            donorbox_booked(old(ledger).accounts@[s as int].transactions@, old(ledger).accounts@[p as int].transactions@, t@, routes@).0,
            p as int,
            donorbox_booked(old(ledger).accounts@[s as int].transactions@, old(ledger).accounts@[p as int].transactions@, t@, routes@).1,
        ),
{
    let ghost before = ledger.accounts@;
    let (rt, pp) = keep_routed(t, routes);
    let mut known = known_ids(&ledger.accounts[s].transactions, false);
    let mut more = known_ids(&ledger.accounts[p].transactions, false);
    let ghost k0 = known@;
    known.append(&mut more);
    proof {
        assert(crate::dedup::ids_view(known@) =~= crate::dedup::ids_view(k0) + ids_in(before[p as int].transactions@, false));
    }
    let flags = fresh_flags(&rt, &known, false);
    proof {
        crate::dedup::lemma_fresh_mask_len(rt@, crate::dedup::ids_view(known@), false);
    }
    let mut to_stripe: Vec<bool> = Vec::new();
    let mut to_paypal: Vec<bool> = Vec::new();
    let mut k: usize = 0;
    while k < flags.len()
        invariant
            flags@.len() == pp@.len(),
            k <= flags@.len(),
            to_stripe@ == first_only(flags@, pp@).subrange(0, k as int),
            to_paypal@ == both(flags@, pp@).subrange(0, k as int),
        decreases flags.len() - k,
    {
        to_stripe.push(flags[k] && !pp[k]);
        to_paypal.push(flags[k] && pp[k]);
        k += 1;
        proof {
            assert(to_stripe@ =~= first_only(flags@, pp@).subrange(0, k as int));
            assert(to_paypal@ =~= both(flags@, pp@).subrange(0, k as int));
        }
    }
    proof {
        assert(to_stripe@ =~= first_only(flags@, pp@));
        assert(to_paypal@ =~= both(flags@, pp@));
    }
    let (bs, bp) = split_selected(rt, &to_stripe, &to_paypal);
    append_at(ledger, s, bs);
    let ghost mid = ledger.accounts@;
    append_at(ledger, p, bp);
    proof {
        assert forall|j: int| 0 <= j < before.len() && j != s as int && j != p as int implies ledger.accounts@[j] == before[j] by {
            assert(mid[j] == before[j]);
        }
    }
    flags
}

/// Why a DonorBox export `text` cannot be imported into `accounts`: the
/// table does not read; or it lacks the column `n`; or the ledger lacks
/// "Stripe", or then "PayPal"; or an entry, the first that does not read,
/// has a bad cell.
#[verifier::opaque]
pub open spec fn donorbox_failure(accounts: Seq<Account>, text: Seq<char>, e: ImportError) -> bool {
    let (h, rows) = table_of(text)->0;
    let cols = donorbox_columns_of(h);
    match e {
        ImportError::Table => table_of(text) is None,
        ImportError::MissingColumn(n) => table_of(text) is Some && cols is None && donorbox_column_name(n@)
            && column_of(h, n@) is None,
        ImportError::AccountNotFound(n) => table_of(text) is Some && cols is Some && (
            (n@ == "Stripe"@ && account_position(accounts, "Stripe"@) is None)
            || (account_position(accounts, "Stripe"@) is Some && n@ == "PayPal"@
                && account_position(accounts, "PayPal"@) is None)),
        ImportError::BadField { .. } => table_of(text) is Some && cols is Some
            && account_position(accounts, "Stripe"@) is Some && account_position(accounts, "PayPal"@) is Some
            && failed_at(entries_read(rows, |row| donorbox_entry(row, cols->0)), e),
        ImportError::UnknownOrigin => false,
    }
}

/// What importing a DonorBox export `text` into `old` gives: `new` and the
/// result `r`. It fails exactly as `donorbox_failure` says, leaving the
/// ledger as it was; otherwise the fresh donations are appended to "Stripe"
/// and "PayPal" as their methods route them, and each skipped entry has a
/// warning with its donor and date.
pub open spec fn donorbox_imported(
    old: Ledger,
    new: Ledger,
    text: Seq<char>,
    r: Result<Vec<ImportWarning>, ImportError>,
) -> bool {
    &&& r matches Err(e) ==> new == old && donorbox_failure(old.accounts@, text, e)
    &&& r matches Ok(w) ==> {
        let (h, rows) = table_of(text)->0;
        let c = donorbox_columns_of(h)->0;
        let s = account_position(old.accounts@, "Stripe"@)->0;
        let p = account_position(old.accounts@, "PayPal"@)->0;
        &&& table_of(text) is Some
        &&& donorbox_columns_of(h) is Some
        &&& account_position(old.accounts@, "Stripe"@) is Some
        &&& account_position(old.accounts@, "PayPal"@) is Some
        &&& exists|t: Seq<Transaction>, routes: Seq<Option<bool>>| #![trigger routed_view(t, routes)] {
            let stripe = old.accounts@[s].transactions@;
            let paypal = old.accounts@[p].transactions@;
            let booked = donorbox_booked(stripe, paypal, t, routes);
            &&& t.len() == routes.len()
            &&& entries_read(rows, |row| donorbox_entry(row, c))
                == Ok::<Seq<(TransactionView, Option<bool>)>, (int, Seq<char>)>(routed_view(t, routes))
            &&& with_two_journals(old.accounts@, new.accounts@, s, booked.0, p, booked.1)
            &&& warnings_view(w@) == donorbox_warnings_of(routes, donorbox_mask(stripe, paypal, t, routes), rows, c)
        }
    }
}

/// The table of a DonorBox export and its columns.
fn read_donorbox_table(text: &str) -> (r: Result<(Table, DonorBoxColumns), ImportError>)
    ensures
        r matches Err(e) ==> (e is Table || e is MissingColumn) && donorbox_failure(Seq::empty(), text@, e),
        r matches Ok((tb, c)) ==> table_of(text@) == Some((tb.header_view(), tb.entries_view()))
            && donorbox_columns_of(tb.header_view()) == Some(c),
{
    let table = match read_table(text) {
        Some(t) => t,
        None => {
            proof {
                reveal(donorbox_failure);
            }
            return Err(ImportError::Table);
        },
    };
    let c = match donorbox_columns(&table.header) {
        Ok(c) => c,
        Err(e) => {
            proof {
                reveal(donorbox_failure);
            }
            return Err(e);
        },
    };
    Ok((table, c))
}

proof fn lemma_stripe_is_not_paypal()
    ensures
        "Stripe"@ != "PayPal"@,
{
    reveal_strlit("Stripe");
    reveal_strlit("PayPal");
    assert("Stripe"@[0] != "PayPal"@[0]);
}

/// Reads a DonorBox export's table and columns, and finds "Stripe" and
/// "PayPal" in the ledger.
#[verifier::rlimit(50)]
fn read_donorbox(ledger: &Ledger, text: &str) -> (r: Result<(Table, DonorBoxColumns, usize, usize), ImportError>)
    ensures
        r matches Err(e) ==> donorbox_failure(ledger.accounts@, text@, e),
        r matches Ok((tb, c, s, p)) ==> {
            &&& table_of(text@) == Some((tb.header_view(), tb.entries_view()))
            &&& donorbox_columns_of(tb.header_view()) == Some(c)
            &&& account_position(ledger.accounts@, "Stripe"@) == Some(s as int)
            &&& account_position(ledger.accounts@, "PayPal"@) == Some(p as int)
            &&& s != p
            &&& s < ledger.accounts@.len() && p < ledger.accounts@.len()
        },
{
    let (table, c) = match read_donorbox_table(text) {
        Ok(x) => x,
        Err(e) => {
            proof {
                reveal(donorbox_failure);
            }
            return Err(e);
        },
    };
    let s = match ledger.position_of("Stripe") {
        Some(i) => i,
        None => {
            proof {
                reveal(donorbox_failure);
            }
            return Err(ImportError::AccountNotFound("Stripe".to_owned()));
        },
    };
    let p = match ledger.position_of("PayPal") {
        Some(i) => i,
        None => {
            proof {
                reveal(donorbox_failure);
            }
            return Err(ImportError::AccountNotFound("PayPal".to_owned()));
        },
    };
    proof {
        lemma_stripe_is_not_paypal();
    }
    Ok((table, c, s, p))
}

/// Imports a DonorBox export: each entry is a donation with the processing
/// fee, routed to "Stripe" or "PayPal" by its payment method (entries with
/// another method are skipped with a warning). Entries whose fingerprint
/// either account holds, or an earlier entry carries, are skipped with a
/// warning. Each batch is sorted by date and appended after its journal,
/// which is otherwise kept as it was. On an error the ledger is left as it was.
pub fn import_donorbox(ledger: &mut Ledger, text: &str) -> (r: Result<Vec<ImportWarning>, ImportError>)
    ensures
        donorbox_imported(*old(ledger), *final(ledger), text@, r),
{
    let (table, c, s, p) = match read_donorbox(ledger, text) {
        Ok(x) => x,
        Err(e) => return Err(e),
    };
    let (t, routes) = match donorbox_candidates(&table.entries, &c) {
        Ok(v) => v,
        Err(e) => {
            proof {
                reveal(donorbox_failure);
            }
            return Err(e);
        },
    };
    let ghost tv = t@;
    let flags = book_donations(ledger, s, p, t, &routes);
    let w = donorbox_warnings(&table.entries, &c, &routes, &flags);
    proof {
        assert(routed_view(tv, routes@) == routed_view(tv, routes@));
    }
    Ok(w)
}

/// Imports a donation export of the given origin, then, when it succeeded,
/// sorts every journal by date; an unknown origin is refused.
pub fn import(ledger: &mut Ledger, text: &str, origin: DonationOrigin) -> (r: Result<Vec<ImportWarning>, ImportError>)
    ensures
        origin is Unknown ==> r == Err::<Vec<ImportWarning>, ImportError>(ImportError::UnknownOrigin),
        r is Err ==> *final(ledger) == *old(ledger),
        exists|booked: Ledger| #[trigger] donation_then_sorted(*old(ledger), booked, *final(ledger), text@, origin, r),
{
    let r = match origin {
        DonationOrigin::DonorBox => import_donorbox(ledger, text),
        DonationOrigin::OpenCollective => import_opencollective(ledger, text),
        DonationOrigin::Unknown => Err(ImportError::UnknownOrigin),
    };
    let ghost booked = *ledger;
    if r.is_ok() {
        ledger.sort_by_date();
    }
    proof {
        assert(donation_then_sorted(*old(ledger), booked, *final(ledger), text@, origin, r));
    }
    r
}

/// `booked` is what importing the donation export `text` of `origin` into
/// `old` gives, and `sorted` is `booked` with every journal sorted by date
/// when the import succeeded.
pub open spec fn donation_then_sorted(
    old: Ledger,
    booked: Ledger,
    sorted: Ledger,
    text: Seq<char>,
    origin: DonationOrigin,
    r: Result<Vec<ImportWarning>, ImportError>,
) -> bool {
    &&& origin is DonorBox ==> donorbox_imported(old, booked, text, r)
    &&& origin is OpenCollective ==> crate::import::opencollective_imported(old, booked, text, r)
    &&& r is Ok ==> journals_sorted(booked.accounts@, sorted.accounts@)
}

/// A successful DonorBox import, unfolded: the donations it read and their routes.
proof fn lemma_donorbox_done(l0: Ledger, l1: Ledger, text: Seq<char>, w: Vec<ImportWarning>) -> (read: (
    Seq<Transaction>,
    Seq<Option<bool>>,
))
    requires
        donorbox_imported(l0, l1, text, Ok(w)),
    ensures
        ({
            let (h, rows) = table_of(text)->0;
            let c = donorbox_columns_of(h)->0;
            let s = account_position(l0.accounts@, "Stripe"@)->0;
            let p = account_position(l0.accounts@, "PayPal"@)->0;
            let booked = donorbox_booked(l0.accounts@[s].transactions@, l0.accounts@[p].transactions@, read.0, read.1);
            &&& table_of(text) is Some
            &&& donorbox_columns_of(h) is Some
            &&& account_position(l0.accounts@, "Stripe"@) is Some
            &&& account_position(l0.accounts@, "PayPal"@) is Some
            &&& read.0.len() == read.1.len()
            &&& entries_read(rows, |row| donorbox_entry(row, c))
                == Ok::<Seq<(TransactionView, Option<bool>)>, (int, Seq<char>)>(routed_view(read.0, read.1))
            &&& with_two_journals(l0.accounts@, l1.accounts@, s, booked.0, p, booked.1)
        }),
{
    let (h, rows) = table_of(text)->0;
    let c = donorbox_columns_of(h)->0;
    let s = account_position(l0.accounts@, "Stripe"@)->0;
    let p = account_position(l0.accounts@, "PayPal"@)->0;
    choose|t: Seq<Transaction>, routes: Seq<Option<bool>>| #![trigger routed_view(t, routes)] {
        let stripe = l0.accounts@[s].transactions@;
        let paypal = l0.accounts@[p].transactions@;
        let booked = donorbox_booked(stripe, paypal, t, routes);
        &&& t.len() == routes.len()
        &&& entries_read(rows, |row| donorbox_entry(row, c))
            == Ok::<Seq<(TransactionView, Option<bool>)>, (int, Seq<char>)>(routed_view(t, routes))
        &&& with_two_journals(l0.accounts@, l1.accounts@, s, booked.0, p, booked.1)
        &&& warnings_view(w@) == donorbox_warnings_of(routes, donorbox_mask(stripe, paypal, t, routes), rows, c)
    }
}

/// A DonorBox import whose table, columns, accounts and entries all read
/// cannot fail.
proof fn lemma_donorbox_owed(accounts: Seq<Account>, text: Seq<char>, e: ImportError, v: Seq<(TransactionView, Option<bool>)>)
    requires
        table_of(text) is Some,
        donorbox_columns_of((table_of(text)->0).0) is Some,
        account_position(accounts, "Stripe"@) is Some,
        account_position(accounts, "PayPal"@) is Some,
        entries_read((table_of(text)->0).1, |row| donorbox_entry(row, donorbox_columns_of((table_of(text)->0).0)->0))
            == Ok::<Seq<(TransactionView, Option<bool>)>, (int, Seq<char>)>(v),
    ensures
        !donorbox_failure(accounts, text, e),
{
    reveal(donorbox_failure);
}

/// Importing a DonorBox export into the ledger that importing it gave
/// succeeds, and leaves every account as it was.
pub proof fn lemma_donorbox_twice(
    l0: Ledger,
    l1: Ledger,
    l2: Ledger,
    text: Seq<char>,
    w1: Vec<ImportWarning>,
    r2: Result<Vec<ImportWarning>, ImportError>,
)
    requires
        donorbox_imported(l0, l1, text, Ok(w1)),
        donorbox_imported(l1, l2, text, r2),
    ensures
        r2 is Ok,
        crate::import::same_accounts(l1.accounts@, l2.accounts@),
{
    let s = account_position(l0.accounts@, "Stripe"@)->0;
    let p = account_position(l0.accounts@, "PayPal"@)->0;
    let (t1, routes1) = lemma_donorbox_done(l0, l1, text, w1);
    assert(crate::ledger::same_names(l0.accounts@, l1.accounts@)) by {
        assert forall|j: int| 0 <= j < l0.accounts@.len() implies (#[trigger] l0.accounts@[j]).name@ == l1.accounts@[j].name@ by {
            if j != s && j != p {
                assert(l1.accounts@[j] == l0.accounts@[j]);
            }
        }
    }
    crate::ledger::lemma_position_by_names(l0.accounts@, l1.accounts@, "Stripe"@);
    crate::ledger::lemma_position_by_names(l0.accounts@, l1.accounts@, "PayPal"@);
    if r2 is Err {
        lemma_donorbox_owed(l1.accounts@, text, r2->Err_0, routed_view(t1, routes1));
    }
    let (t2, routes2) = lemma_donorbox_done(l1, l2, text, r2->Ok_0);
    let (h, rows) = table_of(text)->0;
    lemma_donorbox_reimport(
        l0.accounts@[s].transactions@,
        l0.accounts@[p].transactions@,
        rows,
        donorbox_columns_of(h)->0,
        t1,
        routes1,
        t2,
        routes2,
    );
    assert forall|j: int| 0 <= j < l1.accounts@.len() implies {
        &&& (#[trigger] l2.accounts@[j]).name == l1.accounts@[j].name
        &&& l2.accounts@[j].opening_date == l1.accounts@[j].opening_date
        &&& l2.accounts@[j].opening_balance == l1.accounts@[j].opening_balance
        &&& l2.accounts@[j].transactions@ == l1.accounts@[j].transactions@
    } by {
        if j != s && j != p {
            assert(l2.accounts@[j] == l1.accounts@[j]);
        }
    }
}

} // verus!
