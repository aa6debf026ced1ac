//! Content fingerprints of imported records, and the choice of the records
//! that a journal does not hold yet.

use crate::journal::{lemma_sort_by_date_laws, sort_transactions, sorted_by_date};
use vstd::seq_lib::to_multiset_contains;
use crate::ledger::{Account, ExpenseKind, IncomeKind, MetaView, Transaction, TransactionMetadata};
use crate::text::{push_str, string_of};
use crypto::digest::Digest;
use crypto::sha2::Sha256;
use vstd::prelude::*;

verus! {

/// The SHA-256 digest of the UTF-8 bytes of a text.
pub uninterp spec fn sha256_of(text: Seq<char>) -> Seq<u8>;

/// Relies on rust-crypto's `Sha256`: `input_str` of the text, then `result`
/// into a buffer of 32 bytes, the length of its output.
#[verifier::external_body]
fn sha256_text(text: &str) -> (r: Vec<u8>)
    ensures
        r@ == sha256_of(text@),
        r@.len() == 32,
{
    let mut hasher = Sha256::new();
    hasher.input_str(text);
    let mut out = vec![0u8; 32];
    hasher.result(&mut out);
    out
}

/// The fields one after the other, with nothing between them.
pub open spec fn joined(fields: Seq<Seq<char>>) -> Seq<char>
    decreases fields.len(),
{
    if fields.len() == 0 {
        Seq::empty()
    } else {
        joined(fields.drop_last()) + fields.last()
    }
}

/// The texts of a list of strings.
pub open spec fn strings_view(s: Seq<String>) -> Seq<Seq<char>> {
    s.map_values(|f: String| f@)
}

/// The bytes of a list of fingerprints.
pub open spec fn ids_view(s: Seq<Vec<u8>>) -> Seq<Seq<u8>> {
    s.map_values(|v: Vec<u8>| v@)
}

/// The digest of the source tag followed by the fields, each as it stands.
pub fn fingerprint(source_tag: &str, fields: &Vec<String>) -> (r: Vec<u8>)
    ensures
        r@ == sha256_of(source_tag@ + joined(strings_view(fields@))),
        r@.len() == 32,
{
    let mut text: Vec<char> = Vec::new();
    push_str(&mut text, source_tag);
    let mut i: usize = 0;
    while i < fields.len()
        invariant
            i <= fields@.len(),
            text@ == source_tag@ + joined(strings_view(fields@.subrange(0, i as int))),
        decreases fields.len() - i,
    {
        push_str(&mut text, fields[i].as_str());
        proof {
            let s = strings_view(fields@.subrange(0, i + 1));
            assert(s.drop_last() =~= strings_view(fields@.subrange(0, i as int)));
        }
        i += 1;
    }
    proof {
        assert(fields@.subrange(0, fields@.len() as int) =~= fields@);
    }
    let s = string_of(&text);
    sha256_text(s.as_str())
}

/// Whether two byte strings are equal.
pub fn same_bytes(a: &Vec<u8>, b: &Vec<u8>) -> (r: bool)
    ensures
        r == (a@ == b@),
{
    if a.len() != b.len() {
        return false;
    }
    let mut i: usize = 0;
    while i < a.len()
        invariant
            a@.len() == b@.len(),
            i <= a@.len(),
            forall|j: int| 0 <= j < i ==> a@[j] == b@[j],
        decreases a.len() - i,
    {
        if a[i] != b[i] {
            assert(a@[i as int] != b@[i as int]);
            return false;
        }
        i += 1;
    }
    assert(a@ =~= b@);
    true
}

/// Whether `candidate` is among `existing`.
pub fn is_known(existing: &Vec<Vec<u8>>, candidate: &Vec<u8>) -> (r: bool)
    ensures
        r == ids_view(existing@).contains(candidate@),
{
    let mut i: usize = 0;
    while i < existing.len()
        invariant
            i <= existing@.len(),
            forall|j: int| 0 <= j < i ==> existing@[j]@ != candidate@,
        decreases existing.len() - i,
    {
        if same_bytes(&existing[i], candidate) {
            assert(ids_view(existing@)[i as int] == candidate@);
            return true;
        }
        i += 1;
    }
    proof {
        if ids_view(existing@).contains(candidate@) {
            let k = choose|k: int| 0 <= k < ids_view(existing@).len() && ids_view(existing@)[k] == candidate@;
            assert(existing@[k]@ == candidate@);
        }
    }
    false
}

/// The fingerprint that a transaction carries: a donation's when `payout`
/// is false, a payout's when it is true.
pub open spec fn id_of(t: Transaction, payout: bool) -> Option<Seq<u8>> {
    match t.meta@ {
        MetaView::Income { donation, .. } => if payout { None } else { donation },
        MetaView::Expense { payout: p, .. } => if payout { p } else { None },
    }
}

/// The fingerprints of one kind in a journal, in order.
pub open spec fn ids_in(s: Seq<Transaction>, payout: bool) -> Seq<Seq<u8>>
    decreases s.len(),
{
    if s.len() == 0 {
        Seq::empty()
    } else {
        match id_of(s.last(), payout) {
            Some(id) => ids_in(s.drop_last(), payout).push(id),
            None => ids_in(s.drop_last(), payout),
        }
    }
}

/// A record is fresh unless its fingerprint was seen.
pub open spec fn is_fresh(t: Transaction, seen: Seq<Seq<u8>>, payout: bool) -> bool {
    match id_of(t, payout) {
        Some(id) => !seen.contains(id),
        None => true,
    }
}

/// The entries of `s` whose flag is set, in order.
pub open spec fn select<T>(s: Seq<T>, m: Seq<bool>) -> Seq<T>
    decreases s.len(),
{
    if s.len() == 0 || m.len() == 0 {
        Seq::empty()
    } else if m.last() {
        select(s.drop_last(), m.drop_last()).push(s.last())
    } else {
        select(s.drop_last(), m.drop_last())
    }
}

/// Which candidates to take: those whose fingerprint is neither known nor
/// carried by a candidate taken before them.
pub open spec fn fresh_mask(c: Seq<Transaction>, known: Seq<Seq<u8>>, payout: bool) -> Seq<bool>
    decreases c.len(),
{
    if c.len() == 0 {
        Seq::empty()
    } else {
        let m = fresh_mask(c.drop_last(), known, payout);
        m.push(is_fresh(c.last(), known + ids_in(select(c.drop_last(), m), payout), payout))
    }
}

/// There is one flag per candidate.
pub proof fn lemma_fresh_mask_len(c: Seq<Transaction>, known: Seq<Seq<u8>>, payout: bool)
    ensures
        fresh_mask(c, known, payout).len() == c.len(),
    decreases c.len(),
{
    if c.len() > 0 {
        lemma_fresh_mask_len(c.drop_last(), known, payout);
    }
}

/// A copy of the bytes.
fn copy_bytes(v: &Vec<u8>) -> (r: Vec<u8>)
    ensures
        r@ == v@,
{
    let mut r: Vec<u8> = Vec::new();
    let mut i: usize = 0;
    while i < v.len()
        invariant
            i <= v@.len(),
            r@ == v@.subrange(0, i as int),
        decreases v.len() - i,
    {
        r.push(v[i]);
        i += 1;
        proof {
            assert(v@.subrange(0, i as int) =~= v@.subrange(0, i - 1).push(v@[i - 1]));
        }
    }
    proof {
        assert(v@.subrange(0, v@.len() as int) =~= v@);
    }
    r
}

/// The fingerprint that a transaction carries, of the given kind.
fn transaction_id(t: &Transaction, payout: bool) -> (r: Option<&Vec<u8>>)
    ensures
        r matches Some(v) ==> id_of(*t, payout) == Some(v@),
        r is None ==> id_of(*t, payout) is None,
{
    match &t.meta {
        TransactionMetadata::Income { kind: IncomeKind::Donation(id), .. } => if payout { None } else { Some(id) },
        TransactionMetadata::Expense { kind: ExpenseKind::Payout(id), .. } => if payout { Some(id) } else { None },
        _ => None,
    }
}

/// The fingerprints of one kind in a journal.
pub fn known_ids(s: &Vec<Transaction>, payout: bool) -> (r: Vec<Vec<u8>>)
    ensures
        ids_view(r@) == ids_in(s@, payout),
{
    let mut r: Vec<Vec<u8>> = Vec::new();
    let mut i: usize = 0;
    while i < s.len()
        invariant
            i <= s@.len(),
            ids_view(r@) == ids_in(s@.subrange(0, i as int), payout),
        decreases s.len() - i,
    {
        let ghost before = r@;
        match transaction_id(&s[i], payout) {
            Some(id) => {
                r.push(copy_bytes(id));
                proof {
                    assert(ids_view(r@) =~= ids_view(before).push(id@));
                }
            },
            None => {},
        }
        proof {
            assert(s@.subrange(0, i + 1).drop_last() =~= s@.subrange(0, i as int));
        }
        i += 1;
    }
    proof {
        assert(s@.subrange(0, s@.len() as int) =~= s@);
    }
    r
}

/// For each candidate, whether to take it: its fingerprint is neither among
/// `known` nor carried by a candidate taken before it.
pub fn fresh_flags(candidates: &Vec<Transaction>, known: &Vec<Vec<u8>>, payout: bool) -> (r: Vec<bool>)
    ensures
        r@ == fresh_mask(candidates@, ids_view(known@), payout),
{
    let ghost k = ids_view(known@);
    let mut seen: Vec<Vec<u8>> = Vec::new();
    let mut i: usize = 0;
    while i < known.len()
        invariant
            i <= known@.len(),
            ids_view(seen@) == ids_view(known@.subrange(0, i as int)),
        decreases known.len() - i,
    {
        let ghost before = seen@;
        seen.push(copy_bytes(&known[i]));
        proof {
            assert(ids_view(seen@) =~= ids_view(before).push(known@[i as int]@));
            assert(ids_view(known@.subrange(0, i + 1)) =~= ids_view(known@.subrange(0, i as int)).push(known@[i as int]@));
        }
        i += 1;
    }
    proof {
        assert(known@.subrange(0, known@.len() as int) =~= known@);
    }
    let mut r: Vec<bool> = Vec::new();
    let mut j: usize = 0;
    while j < candidates.len()
        invariant
            j <= candidates@.len(),
            r@ == fresh_mask(candidates@.subrange(0, j as int), k, payout),
            r@.len() == j,
            ids_view(seen@) == k + ids_in(select(candidates@.subrange(0, j as int), r@), payout),
        decreases candidates.len() - j,
    {
        let ghost c = candidates@.subrange(0, j + 1);
        proof {
            assert(c.drop_last() =~= candidates@.subrange(0, j as int));
        }
        let fresh = match transaction_id(&candidates[j], payout) {
            Some(id) => {
                let f = !is_known(&seen, id);
                if f {
                    let ghost before = seen@;
                    seen.push(copy_bytes(id));
                    proof {
                        assert(ids_view(seen@) =~= ids_view(before).push(id@));
                    }
                }
                f
            },
            None => true,
        };
        let ghost r0 = r@;
        r.push(fresh);
        proof {
            assert(r@.drop_last() =~= r0);
            let prev = select(c.drop_last(), r0);
            if fresh {
                assert(select(c, r@) == prev.push(c.last()));
                assert(prev.push(c.last()).drop_last() =~= prev);
            } else {
                assert(select(c, r@) == prev);
            }
        }
        j += 1;
    }
    proof {
        assert(candidates@.subrange(0, candidates@.len() as int) =~= candidates@);
    }
    r
}

/// The candidates whose flag is set, in order.
pub fn take_selected(candidates: Vec<Transaction>, flags: &Vec<bool>) -> (r: Vec<Transaction>)
    requires
        flags@.len() == candidates@.len(),
    ensures
        r@ == select(candidates@, flags@),
{
    let n = candidates.len();
    let ghost c = candidates@;
    let mut src = candidates;
    let mut out: Vec<Transaction> = Vec::new();
    let mut k: usize = 0;
    while src.len() > 0
        invariant
            n == c.len(),
            flags@.len() == n,
            k + src@.len() == n,
            src@ == c.subrange(k as int, n as int),
            out@ == select(c.subrange(0, k as int), flags@.subrange(0, k as int)),
        decreases src@.len(),
    {
        let t = src.remove(0);
        proof {
            assert(c.subrange(0, k + 1).drop_last() =~= c.subrange(0, k as int));
            assert(flags@.subrange(0, k + 1).drop_last() =~= flags@.subrange(0, k as int));
        }
        if flags[k] {
            out.push(t);
        }
        k += 1;
        proof {
            assert(src@ =~= c.subrange(k as int, n as int));
        }
    }
    proof {
        assert(c.subrange(0, n as int) =~= c);
        assert(flags@.subrange(0, n as int) =~= flags@);
    }
    out
}

/// A journal with the fresh candidates added: they are sorted by date and
/// appended after the journal, which is kept as it was.
pub open spec fn merged(old: Seq<Transaction>, candidates: Seq<Transaction>, payout: bool) -> Seq<Transaction> {
    old + sorted_by_date(select(candidates, fresh_mask(candidates, ids_in(old, payout), payout)))
}

/// A fingerprint is among those of a journal exactly when an entry carries it.
pub proof fn lemma_ids_in_contains(s: Seq<Transaction>, x: Seq<u8>, payout: bool)
    ensures
        ids_in(s, payout).contains(x) <==> exists|j: int| 0 <= j < s.len() && id_of(#[trigger] s[j], payout) == Some(x),
    decreases s.len(),
{
    if s.len() > 0 {
        let p = s.drop_last();
        lemma_ids_in_contains(p, x, payout);
        let r = ids_in(s, payout);
        if ids_in(s, payout).contains(x) {
            let k = choose|k: int| 0 <= k < r.len() && r[k] == x;
            if id_of(s.last(), payout) is Some && k == r.len() - 1 {
                assert(id_of(s[s.len() - 1], payout) == Some(x));
            } else {
                assert(ids_in(p, payout)[k] == x);
                let j = choose|j: int| 0 <= j < p.len() && id_of(#[trigger] p[j], payout) == Some(x);
                assert(s[j] == p[j]);
            }
        }
        if exists|j: int| 0 <= j < s.len() && id_of(#[trigger] s[j], payout) == Some(x) {
            let j = choose|j: int| 0 <= j < s.len() && id_of(#[trigger] s[j], payout) == Some(x);
            if j == s.len() - 1 {
                assert(r[r.len() - 1] == x);
            } else {
                assert(p[j] == s[j]);
                assert(ids_in(p, payout).contains(x));
                let k = choose|k: int| 0 <= k < ids_in(p, payout).len() && ids_in(p, payout)[k] == x;
                assert(r[k] == x);
            }
        }
    }
}

/// The flags of the first `i` candidates do not depend on those after them.
pub proof fn lemma_fresh_mask_prefix(c: Seq<Transaction>, known: Seq<Seq<u8>>, payout: bool, i: int)
    requires
        0 <= i <= c.len(),
    ensures
        fresh_mask(c.subrange(0, i), known, payout) == fresh_mask(c, known, payout).subrange(0, i),
    decreases c.len(),
{
    lemma_fresh_mask_len(c, known, payout);
    if i == c.len() {
        assert(c.subrange(0, i) =~= c);
        assert(fresh_mask(c, known, payout).subrange(0, i) =~= fresh_mask(c, known, payout));
    } else {
        lemma_fresh_mask_prefix(c.drop_last(), known, payout, i);
        assert(c.drop_last().subrange(0, i) =~= c.subrange(0, i));
        lemma_fresh_mask_len(c.drop_last(), known, payout);
        assert(fresh_mask(c.drop_last(), known, payout).subrange(0, i) =~= fresh_mask(c, known, payout).subrange(0, i));
    }
}

/// A candidate whose flag is set is selected.
pub proof fn lemma_select_contains(c: Seq<Transaction>, m: Seq<bool>, i: int)
    requires
        m.len() == c.len(),
        0 <= i < c.len(),
        m[i],
    ensures
        select(c, m).contains(c[i]),
    decreases c.len(),
{
    if i == c.len() - 1 {
        let r = select(c, m);
        assert(r[r.len() - 1] == c[i]);
    } else {
        lemma_select_contains(c.drop_last(), m.drop_last(), i);
        let q = select(c.drop_last(), m.drop_last());
        let k = choose|k: int| 0 <= k < q.len() && q[k] == c[i];
        assert(select(c, m)[k] == c[i]);
    }
}

/// What is selected from a prefix is selected from the whole.
pub proof fn lemma_select_prefix(c: Seq<Transaction>, m: Seq<bool>, i: int, t: Transaction)
    requires
        m.len() == c.len(),
        0 <= i <= c.len(),
        select(c.subrange(0, i), m.subrange(0, i)).contains(t),
    ensures
        select(c, m).contains(t),
    decreases c.len(),
{
    if i == c.len() {
        assert(c.subrange(0, i) =~= c);
        assert(m.subrange(0, i) =~= m);
    } else {
        assert(c.drop_last().subrange(0, i) =~= c.subrange(0, i));
        assert(m.drop_last().subrange(0, i) =~= m.subrange(0, i));
        lemma_select_prefix(c.drop_last(), m.drop_last(), i, t);
        let q = select(c.drop_last(), m.drop_last());
        let k = choose|k: int| 0 <= k < q.len() && q[k] == t;
        assert(select(c, m)[k] == t);
    }
}

proof fn lemma_select_none(c: Seq<Transaction>, known: Seq<Seq<u8>>, payout: bool)
    requires
        forall|i: int| 0 <= i < c.len() ==> ((#[trigger] id_of(c[i], payout)) matches Some(x) && known.contains(x)),
    ensures
        select(c, fresh_mask(c, known, payout)) == Seq::<Transaction>::empty(),
    decreases c.len(),
{
    lemma_fresh_mask_len(c, known, payout);
    if c.len() > 0 {
        lemma_select_none(c.drop_last(), known, payout);
        let x = id_of(c[c.len() - 1], payout)->0;
        let seen = known + ids_in(select(c.drop_last(), fresh_mask(c.drop_last(), known, payout)), payout);
        let k = choose|k: int| 0 <= k < known.len() && known[k] == x;
        assert(seen[k] == x);
        assert(fresh_mask(c, known, payout).drop_last() =~= fresh_mask(c.drop_last(), known, payout));
    }
}

/// Selecting by the same flags keeps two matched lists matched.
pub proof fn lemma_select_match(s: Seq<Transaction>, s2: Seq<Transaction>, m: Seq<bool>)
    requires
        crate::journal::legs_match(s, s2),
        m.len() == s.len(),
    ensures
        crate::journal::legs_match(select(s, m), select(s2, m)),
    decreases s.len(),
{
    if s.len() > 0 {
        assert(crate::journal::legs_match(s.drop_last(), s2.drop_last())) by {
            assert forall|k: int| 0 <= k < s.len() - 1 implies (#[trigger] s.drop_last()[k]).date == s2.drop_last()[k].date
                && s.drop_last()[k].amount@ == s2.drop_last()[k].amount@ by {
                assert(s.drop_last()[k] == s[k]);
                assert(s2.drop_last()[k] == s2[k]);
            }
        }
        lemma_select_match(s.drop_last(), s2.drop_last(), m.drop_last());
        assert(s2.last() == s2[s.len() - 1]);
        let a = select(s.drop_last(), m.drop_last());
        let b = select(s2.drop_last(), m.drop_last());
        if m.last() {
            assert(crate::journal::legs_match(a.push(s.last()), b.push(s2.last())));
        }
    }
}

/// No candidate is taken when every fingerprint is known.
pub proof fn lemma_mask_unset(c: Seq<Transaction>, known: Seq<Seq<u8>>, payout: bool)
    requires
        forall|i: int| 0 <= i < c.len() ==> ((#[trigger] id_of(c[i], payout)) matches Some(x) && known.contains(x)),
    ensures
        forall|k: int| 0 <= k < c.len() ==> !(#[trigger] fresh_mask(c, known, payout)[k]),
    decreases c.len(),
{
    lemma_fresh_mask_len(c, known, payout);
    if c.len() > 0 {
        lemma_mask_unset(c.drop_last(), known, payout);
        let x = id_of(c[c.len() - 1], payout)->0;
        let seen = known + ids_in(select(c.drop_last(), fresh_mask(c.drop_last(), known, payout)), payout);
        let k = choose|k: int| 0 <= k < known.len() && known[k] == x;
        assert(seen[k] == x);
        assert forall|j: int| 0 <= j < c.len() implies !(#[trigger] fresh_mask(c, known, payout)[j]) by {
            if j < c.len() - 1 {
                assert(fresh_mask(c, known, payout)[j] == fresh_mask(c.drop_last(), known, payout)[j]);
            }
        }
    }
}

/// Nothing is selected by flags none of which is set.
pub proof fn lemma_select_unset<T>(s: Seq<T>, m: Seq<bool>)
    requires
        m.len() == s.len(),
        forall|k: int| 0 <= k < m.len() ==> !(#[trigger] m[k]),
    ensures
        select(s, m) == Seq::<T>::empty(),
    decreases s.len(),
{
    if s.len() > 0 {
        lemma_select_unset(s.drop_last(), m.drop_last());
    }
}

/// An element of `a` or of `b` is an element of `a` followed by `b` sorted.
pub proof fn lemma_kept_by_merge(a: Seq<Transaction>, b: Seq<Transaction>, t: Transaction)
    requires
        a.contains(t) || b.contains(t),
    ensures
        (a + sorted_by_date(b)).contains(t),
{
    lemma_sort_by_date_laws(b);
    let ab = a + sorted_by_date(b);
    if a.contains(t) {
        let k = choose|k: int| 0 <= k < a.len() && a[k] == t;
        assert(ab[k] == t);
    } else {
        to_multiset_contains(b, t);
        to_multiset_contains(sorted_by_date(b), t);
        let k = choose|k: int| 0 <= k < sorted_by_date(b).len() && sorted_by_date(b)[k] == t;
        assert(ab[a.len() + k] == t);
    }
}

/// The fingerprint of each candidate is in the journal after a merge.
pub proof fn lemma_candidate_kept(old: Seq<Transaction>, c: Seq<Transaction>, payout: bool, i: int)
    requires
        0 <= i < c.len(),
        id_of(c[i], payout) is Some,
    ensures
        ids_in(merged(old, c, payout), payout).contains(id_of(c[i], payout)->0),
{
    let known = ids_in(old, payout);
    let m = fresh_mask(c, known, payout);
    let chosen = select(c, m);
    let once = merged(old, c, payout);
    lemma_fresh_mask_len(c, known, payout);
    let x = id_of(c[i], payout)->0;
    let mut holder: Transaction = c[i];
    if m[i] {
        lemma_select_contains(c, m, i);
        lemma_kept_by_merge(old, chosen, c[i]);
    } else {
        lemma_fresh_mask_prefix(c, known, payout, i + 1);
        lemma_fresh_mask_prefix(c, known, payout, i);
        let pre = c.subrange(0, i);
        assert(c.subrange(0, i + 1).drop_last() =~= pre);
        assert(m.subrange(0, i + 1).last() == m[i]);
        let earlier = select(pre, m.subrange(0, i));
        assert((known + ids_in(earlier, payout)).contains(x));
        let k = choose|k: int| 0 <= k < (known + ids_in(earlier, payout)).len() && (known + ids_in(earlier, payout))[k] == x;
        if k < known.len() {
            assert(known.contains(x));
            lemma_ids_in_contains(old, x, payout);
            let j = choose|j: int| 0 <= j < old.len() && id_of(#[trigger] old[j], payout) == Some(x);
            holder = old[j];
            lemma_kept_by_merge(old, chosen, old[j]);
        } else {
            assert(ids_in(earlier, payout)[k - known.len()] == x);
            lemma_ids_in_contains(earlier, x, payout);
            let j = choose|j: int| 0 <= j < earlier.len() && id_of(#[trigger] earlier[j], payout) == Some(x);
            holder = earlier[j];
            lemma_select_prefix(c, m, i, earlier[j]);
            lemma_kept_by_merge(old, chosen, earlier[j]);
        }
    }
    assert(once.contains(holder));
    assert(id_of(holder, payout) == Some(x));
    let j = choose|j: int| 0 <= j < once.len() && once[j] == holder;
    lemma_ids_in_contains(once, x, payout);
}

/// Merging the same candidates a second time adds nothing: every candidate
/// carries a fingerprint that the journal holds after the first merge, so
/// importing a file twice leaves the journal as importing it once. The
/// second batch need only carry the same fingerprints as the first.
pub proof fn lemma_merge_twice(old: Seq<Transaction>, c: Seq<Transaction>, again: Seq<Transaction>, payout: bool)
    requires
        again.len() == c.len(),
        forall|i: int| 0 <= i < c.len() ==> (#[trigger] id_of(c[i], payout)) is Some,
        forall|i: int| 0 <= i < c.len() ==> id_of(#[trigger] again[i], payout) == id_of(c[i], payout),
    ensures
        merged(merged(old, c, payout), again, payout) == merged(old, c, payout),
{
    let once = merged(old, c, payout);
    let chosen = select(c, fresh_mask(c, ids_in(old, payout), payout));
    assert forall|i: int| 0 <= i < again.len() implies ((#[trigger] id_of(again[i], payout)) matches Some(x) && ids_in(once, payout).contains(x)) by {
        assert(id_of(c[i], payout) is Some);
        lemma_candidate_kept(old, c, payout, i);
    }
    lemma_select_none(again, ids_in(once, payout), payout);
    assert(sorted_by_date(Seq::<Transaction>::empty()) == Seq::<Transaction>::empty());
    assert(once + Seq::<Transaction>::empty() =~= once);
}

impl Account {
    /// Appends the batch, sorted by date, after the journal.
    pub fn append_sorted(&mut self, batch: Vec<Transaction>)
        ensures
            final(self).transactions@ == old(self).transactions@ + sorted_by_date(batch@),
            final(self).name == old(self).name,
            final(self).opening_date == old(self).opening_date,
            final(self).opening_balance == old(self).opening_balance,
    {
        let mut batch = sort_transactions(batch);
        self.transactions.append(&mut batch);
    }

    /// Adds the candidates whose fingerprint the journal does not hold yet,
    /// nor a candidate before them; returns the flags of those taken.
    pub fn merge_fresh(&mut self, candidates: Vec<Transaction>, payout: bool) -> (r: Vec<bool>)
        ensures
            final(self).transactions@ == merged(old(self).transactions@, candidates@, payout),
            r@ == fresh_mask(candidates@, ids_in(old(self).transactions@, payout), payout),
            final(self).name == old(self).name,
            final(self).opening_date == old(self).opening_date,
            final(self).opening_balance == old(self).opening_balance,
    {
        let known = known_ids(&self.transactions, payout);
        let flags = fresh_flags(&candidates, &known, payout);
        proof {
            lemma_fresh_mask_len(candidates@, ids_view(known@), payout);
        }
        self.append_sorted(take_selected(candidates, &flags));
        flags
    }
}

} // verus!
