use sprint_planner::DomainError;
use sprint_planner::fixed::{Fixed, parse_fixed};

#[test]
fn parses_whole_numbers() {
    assert_eq!(parse_fixed("0").unwrap().thousandths, 0);
    assert_eq!(parse_fixed("1").unwrap().thousandths, 1000);
    assert_eq!(parse_fixed("42").unwrap().thousandths, 42000);
    assert_eq!(parse_fixed("007").unwrap().thousandths, 7000);
}

#[test]
fn parses_fractions() {
    assert_eq!(parse_fixed("1.5").unwrap().thousandths, 1500);
    assert_eq!(parse_fixed("2.75").unwrap().thousandths, 2750);
    assert_eq!(parse_fixed("0.001").unwrap().thousandths, 1);
    assert_eq!(parse_fixed("1.23").unwrap().thousandths, 1230);
    assert_eq!(parse_fixed("10.050").unwrap().thousandths, 10050);
}

#[test]
fn rejects_malformed_text() {
    assert_eq!(parse_fixed(""), Err(DomainError::ValidationError));
    assert_eq!(parse_fixed("."), Err(DomainError::ValidationError));
    assert_eq!(parse_fixed("1."), Err(DomainError::ValidationError));
    assert_eq!(parse_fixed(".5"), Err(DomainError::ValidationError));
    assert_eq!(parse_fixed("abc"), Err(DomainError::ValidationError));
    assert_eq!(parse_fixed("1.2.3"), Err(DomainError::ValidationError));
    assert_eq!(parse_fixed("1,5"), Err(DomainError::ValidationError));
    assert_eq!(parse_fixed("-1"), Err(DomainError::ValidationError));
    assert_eq!(parse_fixed("1.2345"), Err(DomainError::ValidationError));
    assert_eq!(parse_fixed(" 1"), Err(DomainError::ValidationError));
}

#[test]
fn accepts_the_largest_quantity_and_rejects_beyond() {
    assert_eq!(
        parse_fixed("18446744073709551.615").unwrap().thousandths,
        u64::MAX
    );
    assert_eq!(
        parse_fixed("18446744073709551.616"),
        Err(DomainError::ValidationError)
    );
    assert_eq!(
        parse_fixed("99999999999999999999999"),
        Err(DomainError::ValidationError)
    );
}

#[test]
fn saturating_add_caps_at_the_largest_quantity() {
    let a = Fixed::from_thousandths(u64::MAX - 1);
    let b = Fixed::from_thousandths(5);
    assert_eq!(a.saturating_add(b).thousandths, u64::MAX);
    let c = Fixed::from_thousandths(200);
    assert_eq!(c.saturating_add(b).thousandths, 205);
    assert_eq!(Fixed::zero().thousandths, 0);
}
