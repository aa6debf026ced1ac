//! Gross receipts over named accounts.

use crate::ledger::{account_position, Ledger, Transaction};
use crate::money::{lemma_rat_step, rat_add, rat_eq, Money, Rat};
use crate::text::{chars_of, string_of};
use vstd::prelude::*;

verus! {

/// `s` cut at every `sep`.
pub open spec fn split_at_char(s: Seq<char>, sep: char) -> Seq<Seq<char>>
    decreases s.len(),
{
    if s.len() == 0 {
        seq![Seq::empty()]
    } else {
        let p = split_at_char(s.drop_last(), sep);
        if s.last() == sep {
            p.push(Seq::empty())
        } else {
            p.update(p.len() - 1, p.last().push(s.last()))
        }
    }
}

proof fn lemma_split_nonempty(s: Seq<char>, sep: char)
    ensures
        split_at_char(s, sep).len() > 0,
    decreases s.len(),
{
    if s.len() > 0 {
        lemma_split_nonempty(s.drop_last(), sep);
    }
}

/// The names in a comma-separated list, as given (`"Stripe,PayPal"`).
pub fn split_names(list: &str) -> (r: Vec<String>)
    ensures
        r@.map_values(|n: String| n@) == split_at_char(list@, ','),
{
    let c = chars_of(list);
    let mut done: Vec<String> = Vec::new();
    let mut current: Vec<char> = Vec::new();
    let mut i: usize = 0;
    while i < c.len()
        invariant
            c@ == list@,
            i <= c@.len(),
            done@.map_values(|n: String| n@).push(current@) == split_at_char(c@.subrange(0, i as int), ','),
        decreases c.len() - i,
    {
        proof {
            assert(c@.subrange(0, i + 1).drop_last() =~= c@.subrange(0, i as int));
            lemma_split_nonempty(c@.subrange(0, i as int), ',');
        }
        let ghost before = done@.map_values(|n: String| n@);
        if c[i] == ',' {
            let piece = string_of(&current);
            done.push(piece);
            current = Vec::new();
            proof {
                assert(done@.map_values(|n: String| n@) =~= before.push(piece@));
            }
        } else {
            current.push(c[i]);
            proof {
                assert(before.push(current@) =~= before.push(current@.drop_last()).update(before.len() as int, current@));
            }
        }
        i += 1;
    }
    proof {
        assert(c@.subrange(0, c@.len() as int) =~= list@);
    }
    let last = string_of(&current);
    let ghost before = done@.map_values(|n: String| n@);
    done.push(last);
    proof {
        assert(done@.map_values(|n: String| n@) =~= before.push(last@));
    }
    done
}

/// `acc` with the amount of every income added in turn.
pub open spec fn incomes_added(acc: Rat, s: Seq<Transaction>) -> Rat
    decreases s.len(),
{
    if s.len() == 0 {
        acc
    } else if s.last().is_income() {
        rat_add(incomes_added(acc, s.drop_last()), s.last().amount@)
    } else {
        incomes_added(acc, s.drop_last())
    }
}

/// The gross receipts of the named accounts, taken in turn: the sum of the
/// amounts of their incomes, fees and expenses left out.
pub open spec fn gross_of(ledger: Ledger, names: Seq<Seq<char>>) -> Rat
    decreases names.len(),
{
    if names.len() == 0 {
        (0, 1)
    } else {
        let p = account_position(ledger.accounts@, names.last())->0;
        incomes_added(gross_of(ledger, names.drop_last()), ledger.accounts@[p].transactions@)
    }
}

/// Sums the amounts of the incomes of the named accounts (every kind of
/// income; expenses and fees are left out). Fails with the first name that
/// no account has.
pub fn gross_receipts(ledger: &Ledger, names: &Vec<String>) -> (r: Result<Money, String>)
    requires
        ledger.wf(),
    ensures
        r matches Ok(m) ==> m.wf() && rat_eq(m@, gross_of(*ledger, names@.map_values(|n: String| n@)))
            && forall|k: int| 0 <= k < names@.len() ==> account_position(ledger.accounts@, (#[trigger] names@[k])@) is Some,
        r matches Err(n) ==> exists|k: int|
            0 <= k < names@.len() && (#[trigger] names@[k])@ == n@ && account_position(ledger.accounts@, n@) is None,
{
    let ghost v = names@.map_values(|n: String| n@);
    let mut total = Money::zero();
    let mut k: usize = 0;
    while k < names.len()
        invariant
            ledger.wf(),
            v == names@.map_values(|n: String| n@),
            k <= names@.len(),
            total.wf(),
            rat_eq(total@, gross_of(*ledger, v.subrange(0, k as int))),
            forall|j: int| 0 <= j < k ==> account_position(ledger.accounts@, (#[trigger] names@[j])@) is Some,
        decreases names.len() - k,
    {
        let p = match ledger.position_of(names[k].as_str()) {
            Some(p) => p,
            None => {
                return Err(names[k].clone());
            },
        };
        let ghost g = gross_of(*ledger, v.subrange(0, k as int));
        let txns = &ledger.accounts[p].transactions;
        assert(ledger.accounts@[p as int].wf());
        let mut i: usize = 0;
        while i < txns.len()
            invariant
                ledger.accounts@[p as int].wf(),
                *txns == ledger.accounts@[p as int].transactions,
                i <= txns@.len(),
                total.wf(),
                rat_eq(total@, incomes_added(g, txns@.subrange(0, i as int))),
            decreases txns.len() - i,
        {
            let t = &txns[i];
            assert(t.wf());
            proof {
                assert(txns@.subrange(0, i + 1).drop_last() =~= txns@.subrange(0, i as int));
            }
            match &t.meta {
                crate::ledger::TransactionMetadata::Income { .. } => {
                    let ghost r0 = total@;
                    total = total.add(&t.amount);
                    proof {
                        lemma_rat_step(total@, r0, incomes_added(g, txns@.subrange(0, i as int)), t.amount@);
                    }
                },
                crate::ledger::TransactionMetadata::Expense { .. } => {},
            }
            i += 1;
        }
        proof {
            assert(txns@.subrange(0, txns@.len() as int) =~= txns@);
            assert(v.subrange(0, k + 1).drop_last() =~= v.subrange(0, k as int));
            assert(v.subrange(0, k + 1).last() == names@[k as int]@);
        }
        k += 1;
    }
    proof {
        assert(v.subrange(0, names@.len() as int) =~= v);
    }
    Ok(total)
}

/// The gross receipts of the accounts named in a comma-separated list; fails
/// with the first name that no account has.
pub fn info(ledger: &Ledger, accounts: &str) -> (r: Result<Money, String>)
    requires
        ledger.wf(),
    ensures
        r matches Ok(m) ==> m.wf() && rat_eq(m@, gross_of(*ledger, split_at_char(accounts@, ',')))
            && forall|k: int| 0 <= k < split_at_char(accounts@, ',').len()
                ==> account_position(ledger.accounts@, #[trigger] split_at_char(accounts@, ',')[k]) is Some,
        r matches Err(n) ==> split_at_char(accounts@, ',').contains(n@) && account_position(ledger.accounts@, n@) is None,
{
    let names = split_names(accounts);
    let ghost v = names@.map_values(|n: String| n@);
    let r = gross_receipts(ledger, &names);
    proof {
        if r is Ok {
            assert forall|k: int| 0 <= k < v.len() implies account_position(ledger.accounts@, #[trigger] v[k]) is Some by {
                assert(v[k] == names@[k]@);
            }
        } else {
            let n = r->Err_0;
            let k = choose|k: int| 0 <= k < names@.len() && (#[trigger] names@[k])@ == n@ && account_position(ledger.accounts@, n@) is None;
            assert(v[k] == n@);
        }
    }
    r
}

} // verus!
