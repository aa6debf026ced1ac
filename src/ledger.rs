//! The ledger: accounts, their transactions and fees, and the operations on them.

use crate::date::Timestamp;
use crate::money::{lemma_rat_step, rat_add, rat_eq, rat_neg, rat_sub, Money, Rat};
use crate::text::chars_of;
use vstd::prelude::*;

verus! {

/// The fingerprint of an imported donation.
pub type DonationID = Vec<u8>;

/// The fingerprint of an imported payout.
pub type PayoutID = Vec<u8>;

/// A deduction attached to a transaction.
#[derive(Debug)]
pub struct Fee {
    pub towards: String,
    pub amount: Money,
}

#[derive(Debug, PartialEq, Eq)]
pub enum IncomeKind {
    General,
    Donation(DonationID),
}

#[derive(Debug, PartialEq, Eq)]
pub enum ExpenseKind {
    General,
    Payout(PayoutID),
}

/// Whether money came in or went out, and from or to whom.
#[allow(inconsistent_fields)]
#[derive(Debug)]
pub enum TransactionMetadata {
    Income { kind: IncomeKind, from: String },
    Expense { kind: ExpenseKind, towards: String, requester: String },
}

/// A dated movement of money: `amount` is a magnitude, and `meta` says which way it goes.
#[derive(Debug)]
pub struct Transaction {
    pub date: Timestamp,
    pub description: String,
    pub amount: Money,
    pub meta: TransactionMetadata,
    pub fees: Vec<Fee>,
}

/// A named account with its opening and its journal.
#[derive(Debug)]
pub struct Account {
    pub name: String,
    pub opening_date: Timestamp,
    pub opening_balance: Money,
    pub transactions: Vec<Transaction>,
}

/// The whole persisted document.
#[derive(Debug)]
pub struct Ledger {
    pub accounts: Vec<Account>,
}

/// A fee as its payee and exact amount.
pub struct FeeView {
    pub towards: Seq<char>,
    pub amount: Rat,
}

/// Metadata with the fingerprint of a donation or a payout, if any.
pub enum MetaView {
    Income { donation: Option<Seq<u8>>, from: Seq<char> },
    Expense { payout: Option<Seq<u8>>, towards: Seq<char>, requester: Seq<char> },
}

/// A transaction with its amounts as exact fractions.
pub struct TransactionView {
    pub date: Timestamp,
    pub description: Seq<char>,
    pub amount: Rat,
    pub meta: MetaView,
    pub fees: Seq<FeeView>,
}

impl View for Fee {
    type V = FeeView;

    open spec fn view(&self) -> FeeView {
        FeeView { towards: self.towards@, amount: self.amount@ }
    }
}

impl View for TransactionMetadata {
    type V = MetaView;

    open spec fn view(&self) -> MetaView {
        match self {
            TransactionMetadata::Income { kind, from } => MetaView::Income {
                donation: match kind {
                    IncomeKind::Donation(id) => Some(id@),
                    IncomeKind::General => None,
                },
                from: from@,
            },
            TransactionMetadata::Expense { kind, towards, requester } => MetaView::Expense {
                payout: match kind {
                    ExpenseKind::Payout(id) => Some(id@),
                    ExpenseKind::General => None,
                },
                towards: towards@,
                requester: requester@,
            },
        }
    }
}

/// The views of a list of fees.
pub open spec fn fees_view(fees: Seq<Fee>) -> Seq<FeeView> {
    fees.map_values(|f: Fee| f@)
}

impl View for Transaction {
    type V = TransactionView;

    open spec fn view(&self) -> TransactionView {
        TransactionView {
            date: self.date,
            description: self.description@,
            amount: self.amount@,
            meta: self.meta@,
            fees: fees_view(self.fees@),
        }
    }
}

/// The views of a list of transactions.
pub open spec fn txns_view(s: Seq<Transaction>) -> Seq<TransactionView> {
    s.map_values(|t: Transaction| t@)
}

impl Fee {
    /// The amount has a denominator.
    pub open spec fn wf(&self) -> bool {
        self.amount.wf()
    }
}

impl Transaction {
    /// The date is in range and every amount has a denominator.
    pub open spec fn wf(&self) -> bool {
        &&& self.date.wf()
        &&& self.amount.wf()
        &&& forall|i: int| 0 <= i < self.fees@.len() ==> (#[trigger] self.fees@[i]).wf()
    }

    /// Whether this is money coming in.
    pub open spec fn is_income(&self) -> bool {
        self.meta is Income
    }
}

impl Account {
    /// The balance that the journal gives, from the opening balance on.
    pub open spec fn balance(&self) -> Rat {
        balance_after(self.opening_balance@, self.transactions@)
    }

    /// The balance now: the opening balance, plus each income, less each
    /// expense, less every fee (whatever its sign).
    pub fn current_balance(&self) -> (r: Money)
        requires
            self.wf(),
        ensures
            r.wf(),
            rat_eq(r@, self.balance()),
    {
        let mut res = self.opening_balance.duplicate();
        let mut i: usize = 0;
        while i < self.transactions.len()
            invariant
                self.wf(),
                i <= self.transactions@.len(),
                res.wf(),
                rat_eq(res@, balance_after(self.opening_balance@, self.transactions@.subrange(0, i as int))),
            decreases self.transactions.len() - i,
        {
            let t = &self.transactions[i];
            let ghost x = balance_after(self.opening_balance@, self.transactions@.subrange(0, i as int));
            assert(t.wf());
            let ghost r0 = res@;
            match &t.meta {
                TransactionMetadata::Income { .. } => {
                    res = res.add(&t.amount);
                    proof {
                        lemma_rat_step(res@, r0, x, t.amount@);
                    }
                },
                TransactionMetadata::Expense { .. } => {
                    res = res.subtract(&t.amount);
                    proof {
                        lemma_rat_step(res@, r0, x, rat_neg(t.amount@));
                    }
                },
            }
            let ghost y = if t.is_income() { rat_add(x, t.amount@) } else { rat_sub(x, t.amount@) };
            let mut j: usize = 0;
            while j < t.fees.len()
                invariant
                    t.wf(),
                    j <= t.fees@.len(),
                    res.wf(),
                    rat_eq(res@, after_fees(y, t.fees@.subrange(0, j as int))),
                decreases t.fees.len() - j,
            {
                let ghost r1 = res@;
                assert(t.fees@[j as int].wf());
                res = res.subtract(&t.fees[j].amount);
                proof {
                    lemma_rat_step(res@, r1, after_fees(y, t.fees@.subrange(0, j as int)), rat_neg(t.fees@[j as int].amount@));
                    assert(t.fees@.subrange(0, j + 1).drop_last() =~= t.fees@.subrange(0, j as int));
                }
                j += 1;
            }
            proof {
                assert(t.fees@.subrange(0, t.fees@.len() as int) =~= t.fees@);
                assert(self.transactions@.subrange(0, i + 1).drop_last() =~= self.transactions@.subrange(0, i as int));
            }
            i += 1;
        }
        proof {
            assert(self.transactions@.subrange(0, self.transactions@.len() as int) =~= self.transactions@);
        }
        res
    }

    /// The opening and every transaction are valid.
    pub open spec fn wf(&self) -> bool {
        &&& self.opening_date.wf()
        &&& self.opening_balance.wf()
        &&& forall|i: int| 0 <= i < self.transactions@.len() ==> (#[trigger] self.transactions@[i]).wf()
    }
}

/// A running total after each fee in turn is taken off.
pub open spec fn after_fees(r: Rat, fees: Seq<Fee>) -> Rat
    decreases fees.len(),
{
    if fees.len() == 0 {
        r
    } else {
        rat_sub(after_fees(r, fees.drop_last()), fees.last().amount@)
    }
}

/// A running total after one transaction: its amount added for income or
/// taken off for an expense, then each of its fees taken off as stored.
pub open spec fn after_transaction(r: Rat, t: Transaction) -> Rat {
    after_fees(if t.is_income() { rat_add(r, t.amount@) } else { rat_sub(r, t.amount@) }, t.fees@)
}

/// A running total after each transaction in turn.
pub open spec fn balance_after(r: Rat, s: Seq<Transaction>) -> Rat
    decreases s.len(),
{
    if s.len() == 0 {
        r
    } else {
        after_transaction(balance_after(r, s.drop_last()), s.last())
    }
}

/// The sum of the income amounts.
pub open spec fn income_total(s: Seq<Transaction>) -> Rat
    decreases s.len(),
{
    if s.len() == 0 {
        (0, 1)
    } else if s.last().is_income() {
        rat_add(income_total(s.drop_last()), s.last().amount@)
    } else {
        income_total(s.drop_last())
    }
}

/// The sum of the expense amounts.
pub open spec fn expense_total(s: Seq<Transaction>) -> Rat
    decreases s.len(),
{
    if s.len() == 0 {
        (0, 1)
    } else if !s.last().is_income() {
        rat_add(expense_total(s.drop_last()), s.last().amount@)
    } else {
        expense_total(s.drop_last())
    }
}

/// `acc` with each fee of `fees` added in turn.
pub open spec fn fees_added(acc: Rat, fees: Seq<Fee>) -> Rat
    decreases fees.len(),
{
    if fees.len() == 0 {
        acc
    } else {
        rat_add(fees_added(acc, fees.drop_last()), fees.last().amount@)
    }
}

/// The sum of every fee of every transaction.
pub open spec fn fee_total(s: Seq<Transaction>) -> Rat
    decreases s.len(),
{
    if s.len() == 0 {
        (0, 1)
    } else {
        fees_added(fee_total(s.drop_last()), s.last().fees@)
    }
}

/// `o + i - e - f`.
pub open spec fn net(o: Rat, i: Rat, e: Rat, f: Rat) -> Rat {
    rat_sub(rat_sub(rat_add(o, i), e), f)
}

proof fn lemma_add_assoc(x: Rat, y: Rat, z: Rat)
    ensures
        rat_add(rat_add(x, y), z) == rat_add(x, rat_add(y, z)),
{
    let (x0, x1, y0, y1, z0, z1) = (x.0, x.1, y.0, y.1, z.0, z.1);
    assert((x0 * y1 + y0 * x1) * z1 == (x0 * y1) * z1 + (y0 * x1) * z1) by (nonlinear_arith);
    assert((y0 * z1 + z0 * y1) * x1 == (y0 * z1) * x1 + (z0 * y1) * x1) by (nonlinear_arith);
    assert((x0 * y1) * z1 == x0 * (y1 * z1)) by (nonlinear_arith);
    assert((y0 * x1) * z1 == (y0 * z1) * x1) by (nonlinear_arith);
    assert(z0 * (x1 * y1) == (z0 * y1) * x1) by (nonlinear_arith);
    assert((x1 * y1) * z1 == x1 * (y1 * z1)) by (nonlinear_arith);
}

proof fn lemma_add_comm(x: Rat, y: Rat)
    ensures
        rat_add(x, y) == rat_add(y, x),
{
}

proof fn lemma_neg_add(x: Rat, y: Rat)
    ensures
        rat_neg(rat_add(x, y)) == rat_add(rat_neg(x), rat_neg(y)),
{
    let (x0, x1, y0, y1) = (x.0, x.1, y.0, y.1);
    assert(-(x0 * y1 + y0 * x1) == (-x0) * y1 + (-y0) * x1) by (nonlinear_arith);
}

/// `((p + q) + r) + a == (p + (q + a)) + r`
proof fn lemma_add_swap(p: Rat, q: Rat, r: Rat, a: Rat)
    ensures
        rat_add(rat_add(rat_add(p, q), r), a) == rat_add(rat_add(p, rat_add(q, a)), r),
{
    lemma_add_assoc(rat_add(p, q), r, a);
    lemma_add_comm(r, a);
    lemma_add_assoc(rat_add(p, q), a, r);
    lemma_add_assoc(p, q, a);
}

proof fn lemma_net_income(o: Rat, i: Rat, e: Rat, f: Rat, a: Rat)
    ensures
        rat_add(net(o, i, e, f), a) == net(o, rat_add(i, a), e, f),
{
    let (ne, nf) = (rat_neg(e), rat_neg(f));
    lemma_add_swap(rat_add(o, i), ne, nf, a);
    lemma_add_comm(ne, a);
    lemma_add_assoc(rat_add(o, i), a, ne);
    lemma_add_assoc(o, i, a);
}

proof fn lemma_net_expense(o: Rat, i: Rat, e: Rat, f: Rat, a: Rat)
    ensures
        rat_sub(net(o, i, e, f), a) == net(o, i, rat_add(e, a), f),
{
    let (ne, nf, na) = (rat_neg(e), rat_neg(f), rat_neg(a));
    lemma_add_swap(rat_add(o, i), ne, nf, na);
    lemma_neg_add(e, a);
}

proof fn lemma_net_fee(o: Rat, i: Rat, e: Rat, f: Rat, a: Rat)
    ensures
        rat_sub(net(o, i, e, f), a) == net(o, i, e, rat_add(f, a)),
{
    lemma_add_assoc(rat_sub(rat_add(o, i), e), rat_neg(f), rat_neg(a));
    lemma_neg_add(f, a);
}

proof fn lemma_fees_net(o: Rat, i: Rat, e: Rat, f: Rat, fees: Seq<Fee>)
    ensures
        after_fees(net(o, i, e, f), fees) == net(o, i, e, fees_added(f, fees)),
    decreases fees.len(),
{
    if fees.len() > 0 {
        lemma_fees_net(o, i, e, f, fees.drop_last());
        lemma_net_fee(o, i, e, fees_added(f, fees.drop_last()), fees.last().amount@);
    }
}

/// The balance of a journal is the opening balance, plus the sum of its
/// incomes, less the sum of its expenses, less the sum of all its fees.
pub proof fn lemma_balance_decomposes(opening: Rat, s: Seq<Transaction>)
    ensures
        balance_after(opening, s) == net(opening, income_total(s), expense_total(s), fee_total(s)),
    decreases s.len(),
{
    if s.len() == 0 {
        assert(net(opening, (0, 1), (0, 1), (0, 1)) == opening);
    } else {
        let p = s.drop_last();
        let t = s.last();
        lemma_balance_decomposes(opening, p);
        let (i, e, f) = (income_total(p), expense_total(p), fee_total(p));
        if t.is_income() {
            lemma_net_income(opening, i, e, f, t.amount@);
            lemma_fees_net(opening, rat_add(i, t.amount@), e, f, t.fees@);
        } else {
            lemma_net_expense(opening, i, e, f, t.amount@);
            lemma_fees_net(opening, i, rat_add(e, t.amount@), f, t.fees@);
        }
    }
}

/// What `current_balance` returns equals, as a number, the opening balance
/// plus all income amounts, less all expense amounts, less all fee amounts.
pub proof fn lemma_current_balance_law(account: Account, r: Money)
    requires
        rat_eq(r@, account.balance()),
    ensures
        rat_eq(
            r@,
            net(
                account.opening_balance@,
                income_total(account.transactions@),
                expense_total(account.transactions@),
                fee_total(account.transactions@),
            ),
        ),
{
    lemma_balance_decomposes(account.opening_balance@, account.transactions@);
}

/// No two accounts share a name.
pub open spec fn names_unique(accounts: Seq<Account>) -> bool {
    forall|i: int, j: int|
        0 <= i < accounts.len() && 0 <= j < accounts.len() && i != j ==> accounts[i].name@ != accounts[j].name@
}

impl Ledger {
    /// The names are unique and every account is valid.
    pub open spec fn wf(&self) -> bool {
        &&& names_unique(self.accounts@)
        &&& forall|i: int| 0 <= i < self.accounts@.len() ==> (#[trigger] self.accounts@[i]).wf()
    }
}

/// The position of the account called `name`, if any.
pub open spec fn account_position(accounts: Seq<Account>, name: Seq<char>) -> Option<int> {
    if exists|i: int| 0 <= i < accounts.len() && accounts[i].name@ == name {
        Some(
            choose|i: int|
                0 <= i < accounts.len() && accounts[i].name@ == name && forall|j: int| 0 <= j < i ==> accounts[j].name@ != name,
        )
    } else {
        None
    }
}

/// Two lists of accounts with the same names, in order.
pub open spec fn same_names(a: Seq<Account>, b: Seq<Account>) -> bool {
    a.len() == b.len() && forall|i: int| 0 <= i < a.len() ==> (#[trigger] a[i]).name@ == b[i].name@
}

/// The position of a name is its first occurrence.
proof fn lemma_first_position(a: Seq<Account>, name: Seq<char>, i: int)
    requires
        0 <= i < a.len(),
        a[i].name@ == name,
        forall|j: int| 0 <= j < i ==> (#[trigger] a[j]).name@ != name,
    ensures
        account_position(a, name) == Some(i),
{
    let x = account_position(a, name)->0;
    if x < i {
        assert(a[x].name@ != name);
    } else if i < x {
        assert(a[i].name@ != name);
    }
}

pub proof fn lemma_position_found(a: Seq<Account>, name: Seq<char>)
    requires
        account_position(a, name) is Some,
    ensures
        ({
            let x = account_position(a, name)->0;
            &&& 0 <= x < a.len()
            &&& a[x].name@ == name
            &&& forall|j: int| 0 <= j < x ==> (#[trigger] a[j]).name@ != name
        }),
{
    let i = choose|i: int| 0 <= i < a.len() && a[i].name@ == name;
    lemma_first_exists(a, name, i);
}

/// A name that occurs has a first occurrence.
proof fn lemma_first_exists(a: Seq<Account>, name: Seq<char>, i: int)
    requires
        0 <= i < a.len(),
        a[i].name@ == name,
    ensures
        exists|k: int| 0 <= k < a.len() && a[k].name@ == name && forall|j: int| 0 <= j < k ==> a[j].name@ != name,
    decreases i,
{
    if exists|j: int| 0 <= j < i && a[j].name@ == name {
        let j = choose|j: int| 0 <= j < i && a[j].name@ == name;
        lemma_first_exists(a, name, j);
    } else {
        assert(forall|j: int| 0 <= j < i ==> a[j].name@ != name);
    }
}

proof fn lemma_position_carries(a: Seq<Account>, b: Seq<Account>, name: Seq<char>)
    requires
        same_names(a, b),
        account_position(a, name) is Some,
    ensures
        account_position(b, name) == account_position(a, name),
{
    lemma_position_found(a, name);
    let x = account_position(a, name)->0;
    assert(b[x].name@ == a[x].name@);
    assert forall|j: int| 0 <= j < x implies (#[trigger] b[j]).name@ != name by {
        assert(a[j].name@ == b[j].name@);
    }
    lemma_first_position(b, name, x);
}

/// Positions depend on the names alone.
pub proof fn lemma_position_by_names(a: Seq<Account>, b: Seq<Account>, name: Seq<char>)
    requires
        same_names(a, b),
    ensures
        account_position(a, name) == account_position(b, name),
{
    if account_position(a, name) is Some {
        lemma_position_carries(a, b, name);
    } else if account_position(b, name) is Some {
        assert(same_names(b, a)) by {
            assert forall|i: int| 0 <= i < b.len() implies (#[trigger] b[i]).name@ == a[i].name@ by {
                assert(a[i].name@ == b[i].name@);
            }
        }
        lemma_position_carries(b, a, name);
    }
}

/// Why an account could not be created.
#[derive(Debug, PartialEq, Eq)]
pub enum AccountError {
    DuplicateAccount,
}

/// Whether two strings hold the same characters.
pub fn same_text(a: &str, b: &str) -> (r: bool)
    ensures
        r == (a@ == b@),
{
    let x = chars_of(a);
    let y = chars_of(b);
    if x.len() != y.len() {
        return false;
    }
    let mut i: usize = 0;
    while i < x.len()
        invariant
            x@ == a@,
            y@ == b@,
            x.len() == y.len(),
            i <= x.len(),
            forall|j: int| 0 <= j < i ==> x@[j] == y@[j],
        decreases x.len() - i,
    {
        if x[i] != y[i] {
            assert(x@[i as int] != y@[i as int]);
            return false;
        }
        i += 1;
    }
    assert(x@ =~= y@);
    true
}

/// A new, empty ledger.
pub fn new() -> (r: Ledger)
    ensures
        r.accounts@.len() == 0,
        r.wf(),
{
    Ledger::new()
}

impl Transaction {
    /// Whether the date is in range and every amount has a denominator.
    pub fn is_valid(&self) -> (r: bool)
        ensures
            r == self.wf(),
    {
        if !self.date.is_valid() || !self.amount.is_valid() {
            return false;
        }
        let mut i: usize = 0;
        while i < self.fees.len()
            invariant
                i <= self.fees@.len(),
                forall|j: int| 0 <= j < i ==> (#[trigger] self.fees@[j]).wf(),
            decreases self.fees.len() - i,
        {
            if !self.fees[i].amount.is_valid() {
                return false;
            }
            i += 1;
        }
        true
    }
}

impl Account {
    /// Whether the opening and every transaction are valid.
    pub fn is_valid(&self) -> (r: bool)
        ensures
            r == self.wf(),
    {
        if !self.opening_date.is_valid() || !self.opening_balance.is_valid() {
            return false;
        }
        let mut i: usize = 0;
        while i < self.transactions.len()
            invariant
                i <= self.transactions@.len(),
                forall|j: int| 0 <= j < i ==> (#[trigger] self.transactions@[j]).wf(),
            decreases self.transactions.len() - i,
        {
            if !self.transactions[i].is_valid() {
                return false;
            }
            i += 1;
        }
        true
    }
}

impl Ledger {
    /// Whether the names are unique and every account is valid.
    pub fn is_valid(&self) -> (r: bool)
        ensures
            r == self.wf(),
    {
        let n = self.accounts.len();
        let mut i: usize = 0;
        while i < n
            invariant
                n == self.accounts@.len(),
                i <= n,
                forall|j: int| 0 <= j < i ==> (#[trigger] self.accounts@[j]).wf(),
                forall|a: int, b: int| 0 <= a < i && 0 <= b < n && a != b ==> self.accounts@[a].name@ != self.accounts@[b].name@,
            decreases n - i,
        {
            if !self.accounts[i].is_valid() {
                return false;
            }
            let mut k: usize = 0;
            while k < n
                invariant
                    n == self.accounts@.len(),
                    i < n,
                    k <= n,
                    forall|b: int| 0 <= b < k && b != i ==> self.accounts@[i as int].name@ != self.accounts@[b].name@,
                decreases n - k,
            {
                if k != i && same_text(self.accounts[i].name.as_str(), self.accounts[k].name.as_str()) {
                    return false;
                }
                k += 1;
            }
            i += 1;
        }
        true
    }

    /// The empty ledger.
    pub fn new() -> (r: Ledger)
        ensures
            r.accounts@.len() == 0,
            r.wf(),
    {
        Ledger { accounts: Vec::new() }
    }

    /// The position of the account called `name` (an exact, case-sensitive match).
    pub fn position_of(&self, name: &str) -> (r: Option<usize>)
        ensures
            r matches Some(i) ==> i < self.accounts@.len() && self.accounts@[i as int].name@ == name@,
            r is None <==> account_position(self.accounts@, name@) is None,
            r matches Some(i) ==> account_position(self.accounts@, name@) == Some(i as int),
    {
        let mut i: usize = 0;
        while i < self.accounts.len()
            invariant
                i <= self.accounts@.len(),
                forall|j: int| 0 <= j < i ==> self.accounts@[j].name@ != name@,
            decreases self.accounts.len() - i,
        {
            if same_text(self.accounts[i].name.as_str(), name) {
                proof {
                    let a = self.accounts@;
                    let k = choose|k: int| 0 <= k < a.len() && a[k].name@ == name@ && forall|j: int| 0 <= j < k ==> a[j].name@ != name@;
                    if k > i {
                        assert(a[i as int].name@ != name@);
                    }
                }
                return Some(i);
            }
            i += 1;
        }
        None
    }

    /// The account called `name`, if there is one.
    pub fn get_account(&self, name: &str) -> (r: Option<&Account>)
        ensures
            r matches Some(a) ==> account_position(self.accounts@, name@) matches Some(i)
                && self.accounts@[i] == *a && a.name@ == name@,
            r is None <==> account_position(self.accounts@, name@) is None,
    {
        match self.position_of(name) {
            Some(i) => Some(&self.accounts[i]),
            None => None,
        }
    }

    /// The account called `name`, to change in place, if there is one.
    pub fn get_account_mut(&mut self, name: &str) -> (r: Option<&mut Account>)
        ensures
            account_position(old(self).accounts@, name@) is None ==> r is None && *final(self) == *old(self),
            account_position(old(self).accounts@, name@) is Some ==> r is Some,
            r matches Some(a) ==> ({
                let i = account_position(old(self).accounts@, name@)->0;
                &&& *a == old(self).accounts@[i]
                &&& final(self).accounts@ == old(self).accounts@.update(i, *final(a))
            }),
    {
        match self.position_of(name) {
            Some(i) => Some(&mut self.accounts[i]),
            None => None,
        }
    }

    /// Appends a new account with no transactions; fails when the name is taken.
    pub fn new_account(&mut self, name: &str, opening_balance: Money, opening_date: Timestamp) -> (r: Result<(), AccountError>)
        ensures
            account_position(old(self).accounts@, name@) is Some ==> r == Err::<(), AccountError>(AccountError::DuplicateAccount) && *final(self) == *old(self),
            account_position(old(self).accounts@, name@) is None ==> {
                &&& r is Ok
                &&& final(self).accounts@.len() == old(self).accounts@.len() + 1
                &&& final(self).accounts@.subrange(0, old(self).accounts@.len() as int) == old(self).accounts@
                &&& final(self).accounts@.last().name@ == name@
                &&& final(self).accounts@.last().opening_balance == opening_balance
                &&& final(self).accounts@.last().opening_date == opening_date
                &&& final(self).accounts@.last().transactions@.len() == 0
            },
            old(self).wf() && opening_balance.wf() && opening_date.wf() ==> final(self).wf(),
    {
        if self.position_of(name).is_some() {
            return Err(AccountError::DuplicateAccount);
        }
        let account = Account {
            name: name.to_owned(),
            opening_balance,
            opening_date,
            transactions: Vec::new(),
        };
        let ghost before = self.accounts@;
        self.accounts.push(account);
        proof {
            assert(self.accounts@.subrange(0, before.len() as int) =~= before);
            if old(self).wf() {
                assert forall|i: int, j: int|
                    0 <= i < self.accounts@.len() && 0 <= j < self.accounts@.len() && i != j implies
                    self.accounts@[i].name@ != self.accounts@[j].name@ by {
                    if i == before.len() {
                        assert(before[j].name@ != name@);
                    } else if j == before.len() {
                        assert(before[i].name@ != name@);
                    }
                }
            }
        }
        Ok(())
    }

    /// Removes the account at `position`; the accounts after it move down by one.
    pub fn remove_account_at(&mut self, position: usize)
        requires
            position < old(self).accounts@.len(),
        ensures
            final(self).accounts@ == old(self).accounts@.remove(position as int),
            old(self).wf() ==> final(self).wf(),
    {
        self.accounts.remove(position);
        proof {
            let o = old(self).accounts@;
            let p = position as int;
            assert forall|i: int| 0 <= i < self.accounts@.len() implies (#[trigger] self.accounts@[i]) == o[if i < p { i } else { i + 1 }] by {}
        }
    }
}

} // verus!
