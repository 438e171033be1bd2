use food_ingest::food::{Amount, Quantity, Unit};

fn amount(mantissa: u64, scale: usize) -> Amount {
    Amount { mantissa, scale }
}

#[test]
fn empty_string_is_zero() {
    assert_eq!(Amount::parse(""), Some(amount(0, 0)));
}

#[test]
fn lone_dot_is_zero() {
    assert_eq!(Amount::parse("."), Some(amount(0, 0)));
}

#[test]
fn plain_integer() {
    assert_eq!(Amount::parse("360"), Some(amount(360, 0)));
}

#[test]
fn leading_zeros_keep_value() {
    assert_eq!(Amount::parse("007"), Some(amount(7, 0)));
}

#[test]
fn decimal_fraction() {
    assert_eq!(Amount::parse("12.5"), Some(amount(125, 1)));
}

#[test]
fn trailing_dot() {
    assert_eq!(Amount::parse("1."), Some(amount(1, 0)));
}

#[test]
fn leading_dot() {
    assert_eq!(Amount::parse(".5"), Some(amount(5, 1)));
}

#[test]
fn trailing_fraction_zeros_kept() {
    assert_eq!(Amount::parse("0.050"), Some(amount(50, 3)));
}

#[test]
fn letters_are_refused() {
    assert_eq!(Amount::parse("abc"), None);
}

#[test]
fn two_dots_are_refused() {
    assert_eq!(Amount::parse("1.2.3"), None);
}

#[test]
fn only_dots_are_refused() {
    assert_eq!(Amount::parse(".."), None);
}

#[test]
fn negative_is_refused() {
    assert_eq!(Amount::parse("-1"), None);
}

#[test]
fn positive_exponent_scales_the_mantissa() {
    assert_eq!(Amount::parse("1e3"), Some(amount(1000, 0)));
    assert_eq!(Amount::parse("1E3"), Some(amount(1000, 0)));
    assert_eq!(Amount::parse("1.5e1"), Some(amount(15, 0)));
    assert_eq!(Amount::parse("1.5e2"), Some(amount(150, 0)));
    assert_eq!(Amount::parse(".5e+1"), Some(amount(5, 0)));
    assert_eq!(Amount::parse("1.e3"), Some(amount(1000, 0)));
}

#[test]
fn negative_exponent_raises_the_scale() {
    assert_eq!(Amount::parse("1e-3"), Some(amount(1, 3)));
    assert_eq!(Amount::parse("2.5e-1"), Some(amount(25, 2)));
    assert_eq!(Amount::parse("1e-0"), Some(amount(1, 0)));
}

#[test]
fn leading_plus_is_accepted() {
    assert_eq!(Amount::parse("+5"), Some(amount(5, 0)));
    assert_eq!(Amount::parse("+.5"), Some(amount(5, 1)));
    assert_eq!(Amount::parse("+1.5e1"), Some(amount(15, 0)));
    assert_eq!(Amount::parse("+"), None);
    assert_eq!(Amount::parse("+."), None);
}

#[test]
fn malformed_exponents_are_refused() {
    assert_eq!(Amount::parse("1e"), None);
    assert_eq!(Amount::parse("1e+"), None);
    assert_eq!(Amount::parse("1e2e3"), None);
    assert_eq!(Amount::parse("e3"), None);
    assert_eq!(Amount::parse("1e1.5"), None);
    assert_eq!(Amount::parse("1e--2"), None);
}

#[test]
fn exponent_overflow_is_a_machine_limit() {
    assert_eq!(Amount::parse("1e19"), Some(amount(10_000_000_000_000_000_000, 0)));
    assert_eq!(Amount::parse("2e19"), None);
    assert_eq!(Amount::parse("18e18"), Some(amount(18_000_000_000_000_000_000, 0)));
    assert_eq!(Amount::parse("1e99999999999999999999"), None);
    assert_eq!(Amount::parse("1e-99999999999999999999"), None);
    assert_eq!(
        Amount::parse("0e99999999999999999999999999999999999999999"),
        Some(amount(0, 0))
    );
}

#[test]
fn infinities_and_nan_are_refused() {
    assert_eq!(Amount::parse("inf"), None);
    assert_eq!(Amount::parse("infinity"), None);
    assert_eq!(Amount::parse("NaN"), None);
    assert_eq!(Amount::parse("-1e3"), None);
}

#[test]
fn inner_space_is_refused() {
    assert_eq!(Amount::parse("1 2"), None);
}

#[test]
fn largest_mantissa_fits() {
    assert_eq!(
        Amount::parse("18446744073709551615"),
        Some(amount(18446744073709551615, 0))
    );
}

#[test]
fn mantissa_overflow_is_refused() {
    assert_eq!(Amount::parse("18446744073709551616"), None);
    assert_eq!(Amount::parse("99999999999999999999"), None);
}

#[test]
fn render_integer() {
    assert_eq!(amount(5, 0).render(), "5");
    assert_eq!(amount(0, 0).render(), "0");
    assert_eq!(amount(360, 0).render(), "360");
}

#[test]
fn render_fraction() {
    assert_eq!(amount(1250, 2).render(), "12.50");
    assert_eq!(amount(5, 1).render(), "0.5");
    assert_eq!(amount(50, 3).render(), "0.050");
    assert_eq!(amount(0, 2).render(), "0.00");
}

#[test]
fn parse_then_render_keeps_written_form() {
    let a = Amount::parse("12.50").unwrap();
    assert_eq!(a.render(), "12.50");
}

#[test]
fn unit_suffixes() {
    assert_eq!(Unit::Kcal.suffix(), "kcal");
    assert_eq!(Unit::Gram.suffix(), "g");
    assert_eq!(Unit::Milligram.suffix(), "mg");
}

#[test]
fn quantity_render_appends_suffix() {
    assert_eq!(Quantity(amount(105, 1), Unit::Gram).render(), "10.5g");
    assert_eq!(Quantity(amount(360, 0), Unit::Kcal).render(), "360kcal");
    assert_eq!(Quantity(amount(12, 1), Unit::Milligram).render(), "1.2mg");
}
