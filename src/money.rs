//! Exact rational amounts of money, and their display rounded up to the cent.

use num::bigint::{BigInt, BigUint, Sign};
use num::rational::BigRational;
use num::Integer;
use crate::text::{chars_of, push_chars, string_of};
use vstd::prelude::*;

verus! {

/// The number held by little-endian limbs of 32 bits.
pub open spec fn limbs_value(s: Seq<u32>) -> nat
    decreases s.len(),
{
    if s.len() == 0 {
        0
    } else {
        s[0] as nat + 0x1_0000_0000 * limbs_value(s.drop_first())
    }
}

/// A rational number as (numerator, denominator).
pub type Rat = (int, int);

/// The sum of two fractions, over the product of their denominators.
pub open spec fn rat_add(a: Rat, b: Rat) -> Rat {
    (a.0 * b.1 + b.0 * a.1, a.1 * b.1)
}

/// The negated fraction.
pub open spec fn rat_neg(a: Rat) -> Rat {
    (-a.0, a.1)
}

/// The difference of two fractions.
pub open spec fn rat_sub(a: Rat, b: Rat) -> Rat {
    rat_add(a, rat_neg(b))
}

/// Two fractions with positive denominators name the same number.
pub open spec fn rat_eq(a: Rat, b: Rat) -> bool {
    a.0 * b.1 == b.0 * a.1
}

/// Equal fractions stay equal when the same fraction is added to both.
pub proof fn lemma_rat_add_congruent(a: Rat, b: Rat, c: Rat)
    requires
        rat_eq(a, b),
    ensures
        rat_eq(rat_add(a, c), rat_add(b, c)),
{
    let (a0, a1, b0, b1, c0, c1) = (a.0, a.1, b.0, b.1, c.0, c.1);
    assert((a0 * c1 + c0 * a1) * (b1 * c1) == (a0 * c1) * (b1 * c1) + (c0 * a1) * (b1 * c1)) by (nonlinear_arith);
    assert((a0 * c1) * (b1 * c1) == (a0 * b1) * (c1 * c1)) by (nonlinear_arith);
    assert((c0 * a1) * (b1 * c1) == c0 * a1 * b1 * c1) by (nonlinear_arith);
    assert((b0 * c1 + c0 * b1) * (a1 * c1) == (b0 * c1) * (a1 * c1) + (c0 * b1) * (a1 * c1)) by (nonlinear_arith);
    assert((b0 * c1) * (a1 * c1) == (b0 * a1) * (c1 * c1)) by (nonlinear_arith);
    assert((c0 * b1) * (a1 * c1) == c0 * a1 * b1 * c1) by (nonlinear_arith);
}

/// Equality of fractions is transitive through a fraction with a nonzero denominator.
pub proof fn lemma_rat_eq_trans(a: Rat, b: Rat, c: Rat)
    requires
        b.1 != 0,
        rat_eq(a, b),
        rat_eq(b, c),
    ensures
        rat_eq(a, c),
{
    let (a0, a1, b0, b1, c0, c1) = (a.0, a.1, b.0, b.1, c.0, c.1);
    assert((a0 * c1 - c0 * a1) * b1 == 0) by (nonlinear_arith)
        requires
            a0 * b1 == b0 * a1,
            b0 * c1 == c0 * b1,
    ;
    assert(a0 * c1 - c0 * a1 == 0) by (nonlinear_arith)
        requires
            (a0 * c1 - c0 * a1) * b1 == 0,
            b1 != 0,
    ;
}

/// A running total that stands for `x` and then has `a` added stands for `x + a`.
pub proof fn lemma_rat_step(next: Rat, r: Rat, x: Rat, a: Rat)
    requires
        r.1 > 0,
        a.1 > 0,
        rat_eq(next, rat_add(r, a)),
        rat_eq(r, x),
    ensures
        rat_eq(next, rat_add(x, a)),
{
    lemma_rat_add_congruent(r, x, a);
    assert(r.1 * a.1 > 0) by (nonlinear_arith)
        requires
            r.1 > 0,
            a.1 > 0,
    ;
    lemma_rat_eq_trans(next, rat_add(r, a), rat_add(x, a));
}

/// An exact amount: a sign, and the magnitudes of numerator and denominator.
#[derive(Debug)]
pub struct Money {
    pub negative: bool,
    pub numer: Vec<u32>,
    pub denom: Vec<u32>,
}

impl View for Money {
    type V = Rat;

    open spec fn view(&self) -> Rat {
        let n = limbs_value(self.numer@) as int;
        (if self.negative { -n } else { n }, limbs_value(self.denom@) as int)
    }
}

impl Money {
    /// The denominator is not zero.
    pub open spec fn wf(&self) -> bool {
        self@.1 > 0
    }
}

/// Relies on the `+` of num's `BigRational`: the exact sum, reduced.
#[verifier::external_body]
fn ratio_add(a: &Money, b: &Money) -> (r: Money)
    requires
        a.wf(),
        b.wf(),
    ensures
        r.wf(),
        rat_eq(r@, rat_add(a@, b@)),
{
    let sa = if a.negative { Sign::Minus } else { Sign::Plus };
    let sb = if b.negative { Sign::Minus } else { Sign::Plus };
    let x = BigRational::new(BigInt::from_slice(sa, &a.numer), BigInt::from_slice(Sign::Plus, &a.denom));
    let y = BigRational::new(BigInt::from_slice(sb, &b.numer), BigInt::from_slice(Sign::Plus, &b.denom));
    let s = x + y;
    let (sn, n) = s.numer().to_u32_digits();
    Money { negative: sn == Sign::Minus, numer: n, denom: s.denom().to_u32_digits().1 }
}

/// Relies on the `-` of num's `BigRational`: the exact difference, reduced.
#[verifier::external_body]
fn ratio_sub(a: &Money, b: &Money) -> (r: Money)
    requires
        a.wf(),
        b.wf(),
    ensures
        r.wf(),
        rat_eq(r@, rat_sub(a@, b@)),
{
    let sa = if a.negative { Sign::Minus } else { Sign::Plus };
    let sb = if b.negative { Sign::Minus } else { Sign::Plus };
    let x = BigRational::new(BigInt::from_slice(sa, &a.numer), BigInt::from_slice(Sign::Plus, &a.denom));
    let y = BigRational::new(BigInt::from_slice(sb, &b.numer), BigInt::from_slice(Sign::Plus, &b.denom));
    let s = x - y;
    let (sn, n) = s.numer().to_u32_digits();
    Money { negative: sn == Sign::Minus, numer: n, denom: s.denom().to_u32_digits().1 }
}

/// Relies on the `*` of num's `BigUint`.
#[verifier::external_body]
fn uint_mul(a: &Vec<u32>, b: &Vec<u32>) -> (r: Vec<u32>)
    ensures
        limbs_value(r@) == limbs_value(a@) * limbs_value(b@),
{
    (BigUint::from_slice(a) * BigUint::from_slice(b)).to_u32_digits()
}

/// Relies on `Integer::div_rem` of num's `BigUint`: quotient and remainder.
#[verifier::external_body]
fn uint_div_rem(a: &Vec<u32>, b: &Vec<u32>) -> (r: (Vec<u32>, Vec<u32>))
    requires
        limbs_value(b@) > 0,
    ensures
        limbs_value(r.0@) == limbs_value(a@) / limbs_value(b@),
        limbs_value(r.1@) == limbs_value(a@) % limbs_value(b@),
{
    let (q, m) = BigUint::from_slice(a).div_rem(&BigUint::from_slice(b));
    (q.to_u32_digits(), m.to_u32_digits())
}

/// Relies on `Integer::div_ceil` of num's `BigUint`: the quotient rounded up.
#[verifier::external_body]
fn uint_div_ceil(a: &Vec<u32>, b: &Vec<u32>) -> (r: Vec<u32>)
    requires
        limbs_value(b@) > 0,
    ensures
        limbs_value(r@) == (limbs_value(a@) + limbs_value(b@) - 1) / (limbs_value(b@) as int),
{
    Integer::div_ceil(&BigUint::from_slice(a), &BigUint::from_slice(b)).to_u32_digits()
}

/// Relies on `BigUint::to_str_radix` of num, in base ten.
#[verifier::external_body]
fn uint_decimal_digits(a: &Vec<u32>) -> (r: Vec<char>)
    ensures
        r@ == decimal_text(limbs_value(a@)),
{
    BigUint::from_slice(a).to_str_radix(10).chars().collect()
}

/// Relies on `BigUint::parse_bytes` of num, in base ten.
#[verifier::external_body]
fn uint_from_digits(d: &Vec<char>) -> (r: Vec<u32>)
    requires
        is_digits(d@),
    ensures
        limbs_value(r@) == digits_value(d@),
{
    let s: String = d.iter().collect();
    BigUint::parse_bytes(s.as_bytes(), 10).unwrap().to_u32_digits()
}

/// The character of a decimal digit.
pub open spec fn digit_char(d: int) -> char {
    ((d + 48) as u8) as char
}

/// The decimal numeral of `n`, without leading zeros.
pub open spec fn decimal_text(n: nat) -> Seq<char>
    decreases n,
{
    if n < 10 {
        seq![digit_char(n as int)]
    } else {
        decimal_text(n / 10).push(digit_char((n % 10) as int))
    }
}

/// A decimal digit.
pub open spec fn is_digit(c: char) -> bool {
    '0' <= c && c <= '9'
}

/// A nonempty run of decimal digits.
pub open spec fn is_digits(s: Seq<char>) -> bool {
    s.len() > 0 && forall|i: int| 0 <= i < s.len() ==> is_digit(#[trigger] s[i])
}

/// The number that a run of decimal digits reads as.
pub open spec fn digits_value(s: Seq<char>) -> nat
    decreases s.len(),
{
    if s.len() == 0 {
        0
    } else {
        digits_value(s.drop_last()) * 10 + ((s.last() as int - 48) as nat)
    }
}

/// Ten to the `k`.
pub open spec fn pow10(k: nat) -> nat
    decreases k,
{
    if k == 0 {
        1
    } else {
        10 * pow10((k - 1) as nat)
    }
}

/// `text` with a comma between each group of three digits, counted from the right.
pub open spec fn group_thousands(s: Seq<char>) -> Seq<char>
    decreases s.len(),
{
    if s.len() <= 3 {
        s
    } else {
        group_thousands(s.subrange(0, s.len() - 3)) + seq![','] + s.subrange(s.len() - 3, s.len() as int)
    }
}

/// Hundredths of the amount, rounded toward positive infinity.
pub open spec fn cents_of(v: Rat) -> int {
    if v.0 >= 0 {
        (100 * v.0 + v.1 - 1) / v.1
    } else {
        -((100 * -v.0) / v.1)
    }
}

/// A whole number of cents as dollars: `-$1,234.05`.
pub open spec fn cents_text(c: int) -> Seq<char> {
    let a = if c < 0 { -c } else { c };
    (if c < 0 { seq!['-', '$'] } else { seq!['$'] }) + group_thousands(decimal_text((a / 100) as nat))
        + seq!['.', digit_char((a % 100) / 10), digit_char(a % 10)]
}

/// How an amount is displayed: rounded up to the cent, with a dollar sign and
/// thousands separators.
pub open spec fn currency_text(v: Rat) -> Seq<char> {
    cents_text(cents_of(v))
}

proof fn lemma_limbs_zero(s: Seq<u32>)
    ensures
        (limbs_value(s) == 0) == (forall|i: int| 0 <= i < s.len() ==> s[i] == 0),
    decreases s.len(),
{
    if s.len() > 0 {
        lemma_limbs_zero(s.drop_first());
        if limbs_value(s) == 0 {
            assert forall|i: int| 0 <= i < s.len() implies s[i] == 0 by {
                if i > 0 {
                    assert(s[i] == s.drop_first()[i - 1]);
                }
            }
        } else if forall|j: int| 0 <= j < s.len() ==> s[j] == 0 {
            assert forall|i: int| 0 <= i < s.drop_first().len() implies s.drop_first()[i] == 0 by {
                assert(s[i + 1] == 0);
            }
        }
    }
}

proof fn lemma_limbs_small(s: Seq<u32>)
    requires
        limbs_value(s) < 0x1_0000_0000,
    ensures
        s.len() == 0 ==> limbs_value(s) == 0,
        s.len() > 0 ==> limbs_value(s) == s[0],
{
    if s.len() > 0 {
        assert(limbs_value(s.drop_first()) == 0);
    }
}

proof fn lemma_one_limb(x: u32)
    ensures
        limbs_value(seq![x]) == x,
{
    assert(seq![x].drop_first() =~= Seq::<u32>::empty());
    assert(limbs_value(Seq::<u32>::empty()) == 0);
}

/// Whether the limbs hold zero.
fn limbs_are_zero(v: &Vec<u32>) -> (r: bool)
    ensures
        r == (limbs_value(v@) == 0),
{
    proof {
        lemma_limbs_zero(v@);
    }
    let mut i: usize = 0;
    while i < v.len()
        invariant
            i <= v.len(),
            forall|j: int| 0 <= j < i ==> v@[j] == 0,
        decreases v.len() - i,
    {
        if v[i] != 0 {
            proof {
                lemma_limbs_zero(v@);
                assert(!(forall|j: int| 0 <= j < v@.len() ==> v@[j] == 0));
            }
            return false;
        }
        i += 1;
    }
    proof {
        lemma_limbs_zero(v@);
    }
    true
}

/// The digits `s[..end]` grouped by thousands.
fn group_digits(s: &Vec<char>, end: usize) -> (r: Vec<char>)
    requires
        end <= s.len(),
    ensures
        r@ == group_thousands(s@.subrange(0, end as int)),
    decreases end,
{
    if end <= 3 {
        let mut r: Vec<char> = Vec::new();
        let mut i: usize = 0;
        while i < end
            invariant
                i <= end <= s.len(),
                r@ == s@.subrange(0, i as int),
            decreases end - i,
        {
            r.push(s[i]);
            i += 1;
            proof {
                assert(s@.subrange(0, i as int) =~= s@.subrange(0, i - 1).push(s@[i - 1]));
            }
        }
        r
    } else {
        let mut r = group_digits(s, end - 3);
        r.push(',');
        r.push(s[end - 3]);
        r.push(s[end - 2]);
        r.push(s[end - 1]);
        proof {
            let t = s@.subrange(0, end as int);
            assert(t.subrange(0, t.len() - 3) =~= s@.subrange(0, end - 3));
            assert(r@ =~= group_thousands(t.subrange(0, t.len() - 3)) + seq![','] + t.subrange(
                t.len() - 3,
                t.len() as int,
            ));
        }
        r
    }
}

/// Displays an amount: rounded up to the cent (so `1/3` shows as `$0.34` and
/// `-1/200` as `$0.00`), with a dollar sign, a minus sign in front of it when the
/// cents are negative, and a comma between groups of three digits.
pub fn format_currency(m: &Money) -> (r: String)
    requires
        m.wf(),
    ensures
        r@ == currency_text(m@),
{
    let hundred: Vec<u32> = vec![100u32];
    proof {
        lemma_one_limb(100u32);
        assert(hundred@ =~= seq![100u32]);
    }
    let scaled = uint_mul(&m.numer, &hundred);
    let ghost n = limbs_value(m.numer@) as int;
    let ghost d = limbs_value(m.denom@) as int;
    let cents_abs: Vec<u32>;
    let negative: bool;
    if m.negative {
        let (q, _) = uint_div_rem(&scaled, &m.denom);
        negative = !limbs_are_zero(&q);
        proof {
            if n == 0 {
                vstd::arithmetic::div_mod::lemma_basic_div(d - 1, d);
                vstd::arithmetic::div_mod::lemma_basic_div(0, d);
            }
        }
        cents_abs = q;
    } else {
        cents_abs = uint_div_ceil(&scaled, &m.denom);
        negative = false;
    }
    let ghost c = cents_of(m@);
    assert(c < 0 <==> negative);
    assert(limbs_value(cents_abs@) == if c < 0 { -c } else { c });
    let (whole, rest) = uint_div_rem(&cents_abs, &hundred);
    proof {
        lemma_limbs_small(rest@);
    }
    let rv: u32 = if rest.len() == 0 { 0 } else { rest[0] };
    let digits = uint_decimal_digits(&whole);
    let grouped = group_digits(&digits, digits.len());
    let mut out: Vec<char> = Vec::new();
    if negative {
        out.push('-');
    }
    out.push('$');
    push_chars(&mut out, &grouped);
    out.push('.');
    out.push(((rv / 10 + 48) as u8) as char);
    out.push(((rv % 10 + 48) as u8) as char);
    proof {
        assert(digits@.subrange(0, digits.len() as int) =~= digits@);
        let a = if c < 0 { -c } else { c };
        assert(rv == a % 100);
        assert(a % 10 == (a % 100) % 10) by {
            vstd::arithmetic::div_mod::lemma_mod_mod(a, 10, 10);
        }
        assert(out@ =~= cents_text(c));
    }
    string_of(&out)
}

/// Whether `s[lo..hi]` is a nonempty run of decimal digits.
fn all_digits(s: &Vec<char>, lo: usize, hi: usize) -> (r: bool)
    requires
        lo <= hi <= s.len(),
    ensures
        r == is_digits(s@.subrange(lo as int, hi as int)),
{
    if lo == hi {
        return false;
    }
    let mut i = lo;
    while i < hi
        invariant
            lo <= i <= hi <= s.len(),
            forall|j: int| lo <= j < i ==> is_digit(s@[j]),
        decreases hi - i,
    {
        if !(s[i] >= '0' && s[i] <= '9') {
            assert(s@.subrange(lo as int, hi as int)[i - lo] == s@[i as int]);
            return false;
        }
        i += 1;
    }
    assert forall|j: int| 0 <= j < hi - lo implies is_digit(#[trigger] s@.subrange(lo as int, hi as int)[j]) by {
        assert(s@.subrange(lo as int, hi as int)[j] == s@[lo + j]);
    }
    true
}

/// Whether every character of `s[lo..hi]` is a decimal digit.
fn digit_run(s: &Vec<char>, lo: usize, hi: usize) -> (r: bool)
    requires
        lo <= hi <= s.len(),
    ensures
        r == digit_chars(s@.subrange(lo as int, hi as int)),
{
    if lo == hi {
        return true;
    }
    all_digits(s, lo, hi)
}

/// A copy of `s[lo..hi]` appended to `out`.
fn push_range(out: &mut Vec<char>, s: &Vec<char>, lo: usize, hi: usize)
    requires
        lo <= hi <= s.len(),
    ensures
        final(out)@ == old(out)@ + s@.subrange(lo as int, hi as int),
{
    let mut i = lo;
    while i < hi
        invariant
            lo <= i <= hi <= s.len(),
            out@ == old(out)@ + s@.subrange(lo as int, i as int),
        decreases hi - i,
    {
        out.push(s[i]);
        i += 1;
        proof {
            assert(s@.subrange(lo as int, i as int) =~= s@.subrange(lo as int, i - 1).push(s@[i - 1]));
        }
    }
}

/// `n`, negated when `negative`.
pub open spec fn signed(negative: bool, n: nat) -> int {
    if negative {
        -n
    } else {
        n as int
    }
}

/// `s` splits at `k` into two runs of digits around a decimal point.
pub open spec fn point_at(s: Seq<char>, k: int) -> bool {
    &&& 0 <= k < s.len()
    &&& s.len() >= 2
    &&& s[k] == '.'
    &&& digit_chars(s.subrange(0, k))
    &&& digit_chars(s.subrange(k + 1, s.len() as int))
}

/// Every character of `s` is a decimal digit (`s` may be empty).
pub open spec fn digit_chars(s: Seq<char>) -> bool {
    forall|i: int| 0 <= i < s.len() ==> is_digit(#[trigger] s[i])
}

/// Where the decimal point of `s` stands.
pub open spec fn point_of(s: Seq<char>) -> int {
    choose|k: int| point_at(s, k)
}

/// The exact value of a decimal amount such as `-12.50`, `+5`, `.5` or `5.`:
/// an optional sign, then digits with at most one point among them, and at
/// least one digit.
pub open spec fn amount_value(s: Seq<char>) -> Option<Rat> {
    let negative = s.len() > 0 && s[0] == '-';
    let signed_text = s.len() > 0 && (s[0] == '-' || s[0] == '+');
    let b = if signed_text { s.drop_first() } else { s };
    if is_digits(b) {
        Some((signed(negative, digits_value(b)), 1))
    } else if point_at(b, point_of(b)) {
        let k = point_of(b);
        let frac = b.subrange(k + 1, b.len() as int);
        Some((signed(negative, digits_value(b.subrange(0, k) + frac)), pow10(frac.len()) as int))
    } else {
        None
    }
}

proof fn lemma_pow10_positive(k: nat)
    ensures
        pow10(k) > 0,
    decreases k,
{
    if k > 0 {
        lemma_pow10_positive((k - 1) as nat);
    }
}

proof fn lemma_point_unique(b: Seq<char>, k1: int, k2: int)
    requires
        point_at(b, k1),
        point_at(b, k2),
    ensures
        k1 == k2,
{
    if k1 < k2 {
        assert(b.subrange(0, k2)[k1] == b[k1]);
    } else if k2 < k1 {
        assert(b.subrange(0, k1)[k2] == b[k2]);
    }
}

/// A one followed by `k` zeros reads as ten to the `k`.
proof fn lemma_power_of_ten(k: nat)
    ensures
        is_digits(seq!['1'] + Seq::new(k, |i: int| '0')),
        digits_value(seq!['1'] + Seq::new(k, |i: int| '0')) == pow10(k),
    decreases k,
{
    let s = seq!['1'] + Seq::new(k, |i: int| '0');
    assert forall|i: int| 0 <= i < s.len() implies is_digit(#[trigger] s[i]) by {}
    assert(digits_value(Seq::<char>::empty()) == 0);
    if k == 0 {
        assert(s.drop_last() =~= Seq::<char>::empty());
        assert(s.last() == '1');
    } else {
        lemma_power_of_ten((k - 1) as nat);
        assert(s.drop_last() =~= seq!['1'] + Seq::new((k - 1) as nat, |i: int| '0'));
        assert(s.last() == '0');
    }
}

/// The digits of ten to the `k`.
fn power_of_ten_digits(k: usize) -> (r: Vec<char>)
    ensures
        r@ == seq!['1'] + Seq::new(k as nat, |j: int| '0'),
{
    let mut one: Vec<char> = vec!['1'];
    let mut i: usize = 0;
    while i < k
        invariant
            i <= k,
            one@ == seq!['1'] + Seq::new(i as nat, |j: int| '0'),
        decreases k - i,
    {
        one.push('0');
        i += 1;
        proof {
            assert(one@ =~= seq!['1'] + Seq::new(i as nat, |j: int| '0'));
        }
    }
    one
}

impl Money {
    /// Zero, as `0/1`.
    pub fn zero() -> (r: Money)
        ensures
            r.wf(),
            r@ == (0int, 1int),
    {
        let r = Money { negative: false, numer: Vec::new(), denom: vec![1u32] };
        proof {
            lemma_one_limb(1u32);
            assert(r.denom@ =~= seq![1u32]);
        }
        r
    }

    /// Whether the denominator is not zero.
    pub fn is_valid(&self) -> (r: bool)
        ensures
            r == self.wf(),
    {
        !limbs_are_zero(&self.denom)
    }

    /// The exact sum.
    pub fn add(&self, other: &Money) -> (r: Money)
        requires
            self.wf(),
            other.wf(),
        ensures
            r.wf(),
            rat_eq(r@, rat_add(self@, other@)),
    {
        ratio_add(self, other)
    }

    /// The exact difference.
    pub fn subtract(&self, other: &Money) -> (r: Money)
        requires
            self.wf(),
            other.wf(),
        ensures
            r.wf(),
            rat_eq(r@, rat_sub(self@, other@)),
    {
        ratio_sub(self, other)
    }

    /// A copy of the amount, field for field.
    pub fn duplicate(&self) -> (r: Money)
        ensures
            r@ == self@,
            r.negative == self.negative,
            r.numer@ == self.numer@,
            r.denom@ == self.denom@,
    {
        Money { negative: self.negative, numer: self.numer.clone(), denom: self.denom.clone() }
    }

    /// The amount with its sign flipped.
    pub fn negate(&self) -> (r: Money)
        ensures
            r@ == rat_neg(self@),
    {
        let mut r = self.duplicate();
        r.negative = !self.negative;
        r
    }

    /// Reads a decimal amount such as `100`, `-0.5`, `+5`, `.5` or `1234.00`,
    /// exactly; `None` when the text is not of that form.
    pub fn parse(text: &str) -> (r: Option<Money>)
        ensures
            r matches Some(m) ==> m.wf() && amount_value(text@) == Some(m@),
            r is None ==> amount_value(text@) is None,
    {
        let c = chars_of(text);
        let n = c.len();
        let negative = n > 0 && c[0] == '-';
        let signed_text = n > 0 && (c[0] == '-' || c[0] == '+');
        let start: usize = if signed_text { 1 } else { 0 };
        let ghost b = if signed_text { text@.drop_first() } else { text@ };
        assert(b =~= c@.subrange(start as int, n as int));
        let mut dot = start;
        while dot < n && c[dot] != '.'
            invariant
                start <= dot <= n == c.len(),
                forall|j: int| start <= j < dot ==> c@[j] != '.',
            decreases n - dot,
        {
            dot += 1;
        }
        let mut digits: Vec<char> = Vec::new();
        let mut zeros: usize = 0;
        if dot == n {
            if !all_digits(&c, start, n) {
                proof {
                    assert forall|k: int| !point_at(b, k) by {
                        if 0 <= k < b.len() {
                            assert(b[k] == c@[start + k]);
                        }
                    }
                }
                return None;
            }
            push_range(&mut digits, &c, start, n);
        } else {
            if !(n - start >= 2 && digit_run(&c, start, dot) && digit_run(&c, dot + 1, n)) {
                proof {
                    let k0 = dot - start;
                    assert(b[k0] == '.');
                    assert(!is_digits(b)) by {
                        assert(!is_digit(b[k0]));
                    }
                    assert(b.subrange(0, k0) =~= c@.subrange(start as int, dot as int));
                    assert(b.subrange(k0 + 1, b.len() as int) =~= c@.subrange(dot + 1, n as int));
                    assert forall|k: int| !point_at(b, k) by {
                        if point_at(b, k) {
                            if k < k0 {
                                assert(b[k] == c@[start + k]);
                            } else if k > k0 {
                                assert(b.subrange(0, k)[k0] == b[k0]);
                            }
                        }
                    }
                }
                return None;
            }
            push_range(&mut digits, &c, start, dot);
            push_range(&mut digits, &c, dot + 1, n);
            zeros = n - dot - 1;
        }
        let one = power_of_ten_digits(zeros);
        proof {
            lemma_power_of_ten(zeros as nat);
            lemma_pow10_positive(zeros as nat);
            let k0 = dot - start;
            if dot == n {
                assert(digits@ =~= b);
            } else {
                assert(b[k0] == '.');
                assert(!is_digits(b)) by {
                    assert(!is_digit(b[k0]));
                }
                assert(b.subrange(0, k0) =~= c@.subrange(start as int, dot as int));
                assert(b.subrange(k0 + 1, b.len() as int) =~= c@.subrange(dot + 1, n as int));
                assert(point_at(b, k0));
                let k = point_of(b);
                lemma_point_unique(b, k, k0);
                assert(digits@ =~= b.subrange(0, k0) + b.subrange(k0 + 1, b.len() as int));
            }
            assert forall|j: int| 0 <= j < digits@.len() implies is_digit(#[trigger] digits@[j]) by {
                if dot == n {
                    assert(digits@[j] == c@.subrange(start as int, n as int)[j]);
                } else if j < k0 {
                    assert(digits@[j] == c@.subrange(start as int, dot as int)[j]);
                } else {
                    assert(digits@[j] == c@.subrange(dot + 1, n as int)[j - k0]);
                }
            }
            assert(digits@.len() > 0);
        }
        let numer = uint_from_digits(&digits);
        let denom = uint_from_digits(&one);
        let m = Money { negative, numer, denom };
        proof {
            if dot != n {
                let k = point_of(b);
                assert(k == dot - start);
                assert(b.subrange(k + 1, b.len() as int).len() == zeros);
            }
        }
        Some(m)
    }
}

/// What currency's `Currency::from_str` reads from a text, in hundredths.
pub uninterp spec fn currency_coins_of(text: Seq<char>) -> Option<int>;

/// An optional minus sign followed by decimal digits.
pub open spec fn is_int_text(t: Seq<char>) -> bool {
    is_digits(if t.len() > 0 && t[0] == '-' { t.drop_first() } else { t })
}

/// The integer that such a text reads as.
pub open spec fn int_text_value(t: Seq<char>) -> int {
    let negative = t.len() > 0 && t[0] == '-';
    signed(negative, digits_value(if negative { t.drop_first() } else { t }))
}

/// Whether a decimal digit occurs in `s`.
pub open spec fn has_digit(s: Seq<char>) -> bool
    decreases s.len(),
{
    s.len() > 0 && (is_digit(s.last()) || has_digit(s.drop_last()))
}

/// No `-` follows a decimal digit in `s`.
pub open spec fn no_minus_after_digit(s: Seq<char>) -> bool
    decreases s.len(),
{
    s.len() == 0 || (no_minus_after_digit(s.drop_last()) && !(s.last() == '-' && has_digit(s.drop_last())))
}

/// Whether `s` holds a `.` or a `,`, and how many characters follow the last one.
pub open spec fn delimiter_tail(s: Seq<char>) -> (bool, nat)
    decreases s.len(),
{
    if s.len() == 0 {
        (false, 0)
    } else if s.last() == '.' || s.last() == ',' {
        (true, 0)
    } else {
        let t = delimiter_tail(s.drop_last());
        (t.0, t.1 + 1)
    }
}

/// A text that currency's `Currency::from_str` reads without panicking or
/// printing: no `-` after a digit (a digit string it cannot parse), and
/// fewer than twelve characters after the last `.` or `,` (it scales by a
/// `u32` power of ten of that count less two, which overflows from twelve on).
pub open spec fn currency_text_safe(s: Seq<char>) -> bool {
    &&& no_minus_after_digit(s)
    &&& (delimiter_tail(s).0 ==> delimiter_tail(s).1 < 12)
}

/// Whether currency's `Currency::from_str` reads the text without panicking
/// or printing.
pub fn currency_text_is_safe(text: &str) -> (r: bool)
    ensures
        r == currency_text_safe(text@),
{
    let c = chars_of(text);
    let mut seen_digit = false;
    let mut clean = true;
    let mut delimited = false;
    let mut tail: usize = 0;
    let mut i: usize = 0;
    while i < c.len()
        invariant
            c@ == text@,
            i <= c@.len(),
            tail <= i,
            seen_digit == has_digit(c@.subrange(0, i as int)),
            clean == no_minus_after_digit(c@.subrange(0, i as int)),
            delimiter_tail(c@.subrange(0, i as int)) == (delimited, tail as nat),
        decreases c.len() - i,
    {
        let x = c[i];
        proof {
            assert(c@.subrange(0, i + 1).drop_last() =~= c@.subrange(0, i as int));
        }
        if x == '-' && seen_digit {
            clean = false;
        }
        if x >= '0' && x <= '9' {
            seen_digit = true;
        }
        if x == '.' || x == ',' {
            delimited = true;
            tail = 0;
        } else {
            tail += 1;
        }
        i += 1;
    }
    proof {
        assert(c@.subrange(0, c@.len() as int) =~= text@);
    }
    clean && (!delimited || tail < 12)
}

/// Relies on currency's `Currency::from_str`, and on num's `to_str_radix` in
/// base ten of the number of hundredths that it holds (`value`).
#[verifier::external_body]
fn currency_coins_text(text: &str) -> (r: Option<String>)
    requires
        currency_text_safe(text@),
    ensures
        r matches Some(t) ==> is_int_text(t@) && currency_coins_of(text@) == Some(int_text_value(t@)),
        r is None ==> currency_coins_of(text@) is None,
{
    currency::Currency::from_str(text).ok().map(|c| c.value().to_str_radix(10))
}

impl Money {
    /// Reads an amount the way currency's `Currency::from_str` does (such as
    /// `$1,000.42`), to the cent; `None` for a text that it does not read,
    /// or on which it would fail (see `currency_text_safe`).
    pub fn parse_currency(text: &str) -> (r: Option<Money>)
        ensures
            r matches Some(m) ==> currency_text_safe(text@) && m.wf() && currency_coins_of(text@) == Some(m@.0) && m@.1 == 100,
            r is None ==> !currency_text_safe(text@) || currency_coins_of(text@) is None,
    {
        if !currency_text_is_safe(text) {
            return None;
        }
        match currency_coins_text(text) {
            Some(t) => {
                match Money::parse(t.as_str()) {
                    Some(m) => {
                        let r = Money { negative: m.negative, numer: m.numer, denom: vec![100u32] };
                        proof {
                            lemma_one_limb(100u32);
                            assert(r.denom@ =~= seq![100u32]);
                        }
                        Some(r)
                    },
                    None => None,
                }
            },
            None => None,
        }
    }
}

} // verus!
