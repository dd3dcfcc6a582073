use rust_decimal::Decimal;
use sweet_bananza::amount::{Amount, MAX_MANTISSA};

fn dec(a: Amount) -> Decimal {
    Decimal::from_i128_with_scale(a.mantissa, a.scale)
}

#[test]
fn from_parts_checks_range() {
    assert_eq!(Amount::from_parts(15, 1), Some(Amount { mantissa: 15, scale: 1 }));
    assert_eq!(Amount::from_parts(1, 29), None);
    assert_eq!(Amount::from_parts(MAX_MANTISSA + 1, 0), None);
    assert_eq!(Amount::from_parts(-MAX_MANTISSA, 28), Some(Amount { mantissa: -MAX_MANTISSA, scale: 28 }));
}

#[test]
fn zero_and_whole_numbers() {
    assert_eq!(Amount::zero(), Amount { mantissa: 0, scale: 0 });
    assert_eq!(Amount::from_u32(7), Amount { mantissa: 7, scale: 0 });
    assert_eq!(dec(Amount::from_u32(7)), Decimal::from(7u32));
}

#[test]
fn addition_is_decimal_addition() {
    let a = Amount { mantissa: 15, scale: 1 };
    let b = Amount { mantissa: 5, scale: 0 };
    let sum = a.checked_add(b).unwrap();
    assert_eq!(dec(sum), Decimal::new(65, 1));
}

#[test]
fn multiplication_and_division() {
    let bet = Amount { mantissa: 25, scale: 0 };
    let unit = bet.checked_div(Amount::from_u32(10)).unwrap();
    assert_eq!(dec(unit), Decimal::new(25, 1));
    let part = Amount::from_u32(4).checked_mul(unit).unwrap();
    assert_eq!(dec(part), Decimal::from(10u32));
}

#[test]
fn overflow_is_reported() {
    let max = Amount { mantissa: MAX_MANTISSA, scale: 0 };
    assert_eq!(max.checked_add(max), None);
    assert_eq!(max.checked_mul(Amount::from_u32(2)), None);
    assert_eq!(max.checked_div(Amount::zero()), None);
}
