//! The order of a journal: a stable sort by date, and its laws.

use crate::ledger::{Account, Ledger, Transaction};
use vstd::prelude::*;
use vstd::seq_lib::{to_multiset_build, to_multiset_contains};

verus! {

/// `t` placed after every entry of `s` not later than it, walking from the end.
pub open spec fn insert_by_date(s: Seq<Transaction>, t: Transaction) -> Seq<Transaction>
    decreases s.len(),
{
    if s.len() == 0 || s.last().date.le(t.date) {
        s.push(t)
    } else {
        insert_by_date(s.drop_last(), t).push(s.last())
    }
}

/// The entries of `s` in order of date; entries with the same date keep their order.
pub open spec fn sorted_by_date(s: Seq<Transaction>) -> Seq<Transaction>
    decreases s.len(),
{
    if s.len() == 0 {
        s
    } else {
        insert_by_date(sorted_by_date(s.drop_last()), s.last())
    }
}

/// No entry is dated after one that follows it.
pub open spec fn dates_ascending(s: Seq<Transaction>) -> bool {
    forall|i: int, j: int| 0 <= i < j < s.len() ==> (#[trigger] s[i]).date.le((#[trigger] s[j]).date)
}

/// The entries of `s` dated `d`, in their order.
pub open spec fn on_date(s: Seq<Transaction>, d: crate::date::Timestamp) -> Seq<Transaction>
    decreases s.len(),
{
    if s.len() == 0 {
        s
    } else if s.last().date == d {
        on_date(s.drop_last(), d).push(s.last())
    } else {
        on_date(s.drop_last(), d)
    }
}

proof fn lemma_insert_at(s: Seq<Transaction>, t: Transaction, j: int)
    requires
        0 <= j <= s.len(),
        j == 0 || s[j - 1].date.le(t.date),
        forall|k: int| j <= k < s.len() ==> !(#[trigger] s[k]).date.le(t.date),
    ensures
        insert_by_date(s, t) == s.insert(j, t),
    decreases s.len(),
{
    if j == s.len() {
        assert(s.push(t) =~= s.insert(j, t));
    } else {
        lemma_insert_at(s.drop_last(), t, j);
        assert(s.drop_last().insert(j, t).push(s.last()) =~= s.insert(j, t));
    }
}

proof fn lemma_insert_multiset(s: Seq<Transaction>, t: Transaction)
    ensures
        insert_by_date(s, t).to_multiset() == s.to_multiset().insert(t),
    decreases s.len(),
{
    to_multiset_build(s, t);
    if !(s.len() == 0 || s.last().date.le(t.date)) {
        let p = s.drop_last();
        lemma_insert_multiset(p, t);
        to_multiset_build(insert_by_date(p, t), s.last());
        to_multiset_build(p, s.last());
        assert(p.push(s.last()) =~= s);
        assert(insert_by_date(s, t).to_multiset() =~= s.to_multiset().insert(t));
    }
}

proof fn lemma_insert_ascending(s: Seq<Transaction>, t: Transaction)
    requires
        dates_ascending(s),
    ensures
        dates_ascending(insert_by_date(s, t)),
    decreases s.len(),
{
    let r = insert_by_date(s, t);
    if s.len() == 0 || s.last().date.le(t.date) {
        assert forall|i: int, j: int| 0 <= i < j < r.len() implies (#[trigger] r[i]).date.le((#[trigger] r[j]).date) by {
            if j == s.len() && i < s.len() - 1 {
                assert(s[i].date.le(s[s.len() - 1].date));
            }
        }
    } else {
        let p = s.drop_last();
        let l = s.last();
        lemma_insert_ascending(p, t);
        lemma_insert_multiset(p, t);
        let q = insert_by_date(p, t);
        assert forall|i: int, j: int| 0 <= i < j < r.len() implies (#[trigger] r[i]).date.le((#[trigger] r[j]).date) by {
            if j == q.len() {
                let x = q[i];
                to_multiset_contains(q, x);
                assert(q.contains(x));
                assert(q.to_multiset().count(x) > 0);
                if x != t {
                    assert(p.to_multiset().count(x) > 0);
                    to_multiset_contains(p, x);
                    let k = choose|k: int| 0 <= k < p.len() && p[k] == x;
                    assert(s[k] == x);
                    assert(s[k].date.le(s[s.len() - 1].date));
                }
            } else {
                assert(r[i] == q[i] && r[j] == q[j]);
            }
        }
    }
}

proof fn lemma_sorted_ascending(s: Seq<Transaction>)
    ensures
        dates_ascending(sorted_by_date(s)),
        sorted_by_date(s).to_multiset() == s.to_multiset(),
    decreases s.len(),
{
    if s.len() > 0 {
        lemma_sorted_ascending(s.drop_last());
        lemma_insert_ascending(sorted_by_date(s.drop_last()), s.last());
        lemma_insert_multiset(sorted_by_date(s.drop_last()), s.last());
        to_multiset_build(s.drop_last(), s.last());
        assert(s.drop_last().push(s.last()) =~= s);
    }
}

proof fn lemma_sorted_identity(s: Seq<Transaction>)
    requires
        dates_ascending(s),
    ensures
        sorted_by_date(s) == s,
    decreases s.len(),
{
    if s.len() > 0 {
        let p = s.drop_last();
        assert(dates_ascending(p)) by {
            assert forall|i: int, j: int| 0 <= i < j < p.len() implies (#[trigger] p[i]).date.le((#[trigger] p[j]).date) by {
                assert(s[i].date.le(s[j].date));
            }
        }
        lemma_sorted_identity(p);
        if p.len() > 0 {
            assert(s[p.len() - 1].date.le(s[s.len() - 1].date));
        }
        assert(p.push(s.last()) =~= s);
    }
}

proof fn lemma_insert_on_date(s: Seq<Transaction>, t: Transaction, d: crate::date::Timestamp)
    ensures
        on_date(insert_by_date(s, t), d) == if t.date == d { on_date(s, d).push(t) } else { on_date(s, d) },
    decreases s.len(),
{
    if s.len() == 0 || s.last().date.le(t.date) {
        assert(s.push(t).drop_last() =~= s);
    } else {
        lemma_insert_on_date(s.drop_last(), t, d);
        assert(insert_by_date(s.drop_last(), t).push(s.last()).drop_last() =~= insert_by_date(s.drop_last(), t));
    }
}

proof fn lemma_sorted_on_date(s: Seq<Transaction>, d: crate::date::Timestamp)
    ensures
        on_date(sorted_by_date(s), d) == on_date(s, d),
    decreases s.len(),
{
    if s.len() > 0 {
        lemma_sorted_on_date(s.drop_last(), d);
        lemma_insert_on_date(sorted_by_date(s.drop_last()), s.last(), d);
    }
}

/// Sorting by date orders the dates, only rearranges the entries, keeps the
/// order of the entries of each date, and leaves a sorted journal as it is,
/// so that sorting twice is sorting once.
pub proof fn lemma_sort_by_date_laws(s: Seq<Transaction>)
    ensures
        dates_ascending(sorted_by_date(s)),
        sorted_by_date(s).to_multiset() == s.to_multiset(),
        forall|d: crate::date::Timestamp| #[trigger] on_date(sorted_by_date(s), d) == on_date(s, d),
        sorted_by_date(sorted_by_date(s)) == sorted_by_date(s),
{
    lemma_sorted_ascending(s);
    lemma_sorted_identity(sorted_by_date(s));
    assert forall|d: crate::date::Timestamp| #[trigger] on_date(sorted_by_date(s), d) == on_date(s, d) by {
        lemma_sorted_on_date(s, d);
    }
}

/// Places `t` into the date-ordered `out`, after the entries not later than it.
fn insert_sorted(out: &mut Vec<Transaction>, t: Transaction)
    ensures
        final(out)@ == insert_by_date(old(out)@, t),
{
    let mut j = out.len();
    while j > 0 && !out[j - 1].date.not_after(&t.date)
        invariant
            j <= out@.len(),
            forall|k: int| j <= k < out@.len() ==> !(#[trigger] out@[k]).date.le(t.date),
        decreases j,
    {
        j -= 1;
    }
    proof {
        lemma_insert_at(out@, t, j as int);
    }
    out.insert(j, t);
}

/// The transactions in order of date, stably.
pub fn sort_transactions(v: Vec<Transaction>) -> (r: Vec<Transaction>)
    ensures
        r@ == sorted_by_date(v@),
{
    let n = v.len();
    let mut src = v;
    let mut out: Vec<Transaction> = Vec::new();
    let mut k: usize = 0;
    while src.len() > 0
        invariant
            n == v@.len(),
            k + src@.len() == v@.len(),
            src@ == v@.subrange(k as int, v@.len() as int),
            out@ == sorted_by_date(v@.subrange(0, k as int)),
        decreases src@.len(),
    {
        let t = src.remove(0);
        proof {
            assert(v@.subrange(0, k + 1).drop_last() =~= v@.subrange(0, k as int));
        }
        insert_sorted(&mut out, t);
        k += 1;
        proof {
            assert(src@ =~= v@.subrange(k as int, v@.len() as int));
        }
    }
    proof {
        assert(v@.subrange(0, k as int) =~= v@);
    }
    out
}

impl Account {
    /// Orders the journal by date, stably.
    pub fn sort_by_date(&mut self)
        ensures
            final(self).transactions@ == sorted_by_date(old(self).transactions@),
            final(self).name == old(self).name,
            final(self).opening_date == old(self).opening_date,
            final(self).opening_balance == old(self).opening_balance,
    {
        let mut v: Vec<Transaction> = Vec::new();
        std::mem::swap(&mut v, &mut self.transactions);
        self.transactions = sort_transactions(v);
    }
}

/// Entry by entry, `a` and `b` have the same dates and amounts.
pub open spec fn legs_match(a: Seq<Transaction>, b: Seq<Transaction>) -> bool {
    &&& a.len() == b.len()
    &&& forall|k: int| 0 <= k < a.len() ==> (#[trigger] a[k]).date == b[k].date && a[k].amount@ == b[k].amount@
}

proof fn lemma_insert_match(s: Seq<Transaction>, s2: Seq<Transaction>, t: Transaction, t2: Transaction)
    requires
        legs_match(s, s2),
        t.date == t2.date,
        t.amount@ == t2.amount@,
    ensures
        legs_match(insert_by_date(s, t), insert_by_date(s2, t2)),
    decreases s.len(),
{
    if s.len() == 0 || s.last().date.le(t.date) {
        if s.len() > 0 {
            assert(s2.last() == s2[s.len() - 1]);
        }
        assert(legs_match(s.push(t), s2.push(t2)));
    } else {
        assert(s2.last() == s2[s.len() - 1]);
        assert(legs_match(s.drop_last(), s2.drop_last())) by {
            assert forall|k: int| 0 <= k < s.len() - 1 implies (#[trigger] s.drop_last()[k]).date == s2.drop_last()[k].date
                && s.drop_last()[k].amount@ == s2.drop_last()[k].amount@ by {
                assert(s.drop_last()[k] == s[k]);
                assert(s2.drop_last()[k] == s2[k]);
            }
        }
        lemma_insert_match(s.drop_last(), s2.drop_last(), t, t2);
        let a = insert_by_date(s.drop_last(), t);
        let b = insert_by_date(s2.drop_last(), t2);
        assert(legs_match(a.push(s.last()), b.push(s2.last())));
    }
}

/// Sorting by date keeps two lists with the same dates and amounts, entry by
/// entry, matched: the order depends on the dates alone.
pub proof fn lemma_sorted_match(s: Seq<Transaction>, s2: Seq<Transaction>)
    requires
        legs_match(s, s2),
    ensures
        legs_match(sorted_by_date(s), sorted_by_date(s2)),
    decreases s.len(),
{
    if s.len() > 0 {
        assert(legs_match(s.drop_last(), s2.drop_last())) by {
            assert forall|k: int| 0 <= k < s.len() - 1 implies (#[trigger] s.drop_last()[k]).date == s2.drop_last()[k].date
                && s.drop_last()[k].amount@ == s2.drop_last()[k].amount@ by {
                assert(s.drop_last()[k] == s[k]);
                assert(s2.drop_last()[k] == s2[k]);
            }
        }
        lemma_sorted_match(s.drop_last(), s2.drop_last());
        assert(s2.last() == s2[s.len() - 1]);
        lemma_insert_match(sorted_by_date(s.drop_last()), sorted_by_date(s2.drop_last()), s.last(), s2.last());
    }
}

/// `after` is `before` with every journal sorted by date.
pub open spec fn journals_sorted(before: Seq<Account>, after: Seq<Account>) -> bool {
    &&& after.len() == before.len()
    &&& forall|j: int| 0 <= j < before.len() ==> {
        &&& (#[trigger] after[j]).name == before[j].name
        &&& after[j].opening_date == before[j].opening_date
        &&& after[j].opening_balance == before[j].opening_balance
        &&& after[j].transactions@ == sorted_by_date(before[j].transactions@)
    }
}

impl Ledger {
    /// Orders every journal by date, stably.
    pub fn sort_by_date(&mut self)
        ensures
            journals_sorted(old(self).accounts@, final(self).accounts@),
    {
        let n = self.accounts.len();
        let ghost before = self.accounts@;
        let mut i: usize = 0;
        while i < n
            invariant
                n == before.len() == self.accounts@.len(),
                i <= n,
                forall|j: int| 0 <= j < i ==> {
                    &&& (#[trigger] self.accounts@[j]).name == before[j].name
                    &&& self.accounts@[j].opening_date == before[j].opening_date
                    &&& self.accounts@[j].opening_balance == before[j].opening_balance
                    &&& self.accounts@[j].transactions@ == sorted_by_date(before[j].transactions@)
                },
                forall|j: int| i <= j < n ==> self.accounts@[j] == before[j],
            decreases n - i,
        {
            let mut a = self.accounts.remove(i);
            a.sort_by_date();
            self.accounts.insert(i, a);
            i += 1;
        }
    }
}

} // verus!
