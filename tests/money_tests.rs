use backertrack::money::{format_currency, Money};

fn ratio(negative: bool, numer: u32, denom: u32) -> Money {
    Money { negative, numer: vec![numer], denom: vec![denom] }
}

#[test]
fn one_third_rounds_up_to_thirty_four_cents() {
    assert_eq!(format_currency(&ratio(false, 1, 3)), "$0.34");
}

#[test]
fn small_negative_rounds_toward_zero() {
    assert_eq!(format_currency(&ratio(true, 1, 200)), "$0.00");
    assert_eq!(format_currency(&ratio(true, 1, 3)), "-$0.33");
}

#[test]
fn thousands_are_separated() {
    let m = Money::parse("1234567.891").unwrap();
    assert_eq!(format_currency(&m), "$1,234,567.90");
    let n = Money::parse("-50").unwrap();
    assert_eq!(format_currency(&n), "-$50.00");
    assert_eq!(format_currency(&Money::zero()), "$0.00");
    assert_eq!(format_currency(&Money::parse("999.999").unwrap()), "$1,000.00");
}

#[test]
fn parse_reads_decimals_exactly() {
    let m = Money::parse("12.50").unwrap();
    assert!(!m.negative);
    assert_eq!(m.numer, vec![1250]);
    assert_eq!(m.denom, vec![100]);
    let n = Money::parse("-0.5").unwrap();
    assert!(n.negative);
    assert_eq!(n.numer, vec![5]);
    assert_eq!(n.denom, vec![10]);
    assert!(Money::parse("1.2.3").is_none());
    assert!(Money::parse("").is_none());
    assert!(Money::parse("-").is_none());
    assert!(Money::parse("12a").is_none());
    assert!(Money::parse(".").is_none());
    assert!(Money::parse("+").is_none());
    assert!(Money::parse("--5").is_none());
    let a = Money::parse("1.").unwrap();
    assert_eq!((a.negative, a.numer.clone(), a.denom.clone()), (false, vec![1], vec![1]));
    let b = Money::parse(".5").unwrap();
    assert_eq!((b.negative, b.numer.clone(), b.denom.clone()), (false, vec![5], vec![10]));
    let c = Money::parse("+5").unwrap();
    assert_eq!((c.negative, c.numer.clone(), c.denom.clone()), (false, vec![5], vec![1]));
    let d = Money::parse("-.25").unwrap();
    assert_eq!(format_currency(&d), "-$0.25");
}

#[test]
fn add_and_subtract_are_exact() {
    let a = ratio(false, 1, 3);
    let b = ratio(false, 1, 6);
    let s = a.add(&b);
    assert_eq!(s.numer, vec![1]);
    assert_eq!(s.denom, vec![2]);
    let d = b.subtract(&a);
    assert!(d.negative);
    assert_eq!(d.numer, vec![1]);
    assert_eq!(d.denom, vec![6]);
    let n = a.negate();
    assert!(n.negative);
    assert_eq!(format_currency(&n), "-$0.33");
}

#[test]
fn currency_amounts_are_read_to_the_cent() {
    let m = Money::parse_currency("$1,000.42").unwrap();
    assert_eq!(format_currency(&m), "$1,000.42");
    assert_eq!(m.denom, vec![100]);
    let n = Money::parse_currency("-25.00").unwrap();
    assert_eq!(format_currency(&n), "-$25.00");
}
