use service_station::decimal::Decimal;

fn d(hundredths: u64) -> Decimal {
    Decimal { hundredths }
}

#[test]
fn two_decimal_places_pass_through_unchanged() {
    for text in ["1234.56", "0.00", "500.00", "0.07", "10.10", "99999999.99"] {
        let value = Decimal::parse(text).unwrap();
        assert_eq!(value.to_text(), text);
    }
    assert_eq!(Decimal::parse("1234.56"), Some(d(123456)));
}

#[test]
fn parse_reads_whole_numbers_and_one_fraction_digit() {
    assert_eq!(Decimal::parse("5"), Some(d(500)));
    assert_eq!(Decimal::parse("5.5"), Some(d(550)));
    assert_eq!(Decimal::parse("5.05"), Some(d(505)));
    assert_eq!(Decimal::parse("0"), Some(d(0)));
    assert_eq!(Decimal::parse("007.10"), Some(d(710)));
}

#[test]
fn parse_refuses_what_is_no_quantity() {
    for text in [
        "", ".", ".5", "5.", "5.123", "-1.00", "+1.00", "1,50", "1.5.0", " 1.50", "1.50 ", "1e3",
        "abc", "1.a", "1.5a", "١٢.٣٤", "12.3４",
    ] {
        assert_eq!(Decimal::parse(text), None, "{:?}", text);
    }
}

#[test]
fn parse_refuses_what_does_not_fit() {
    assert_eq!(Decimal::parse("184467440737095516.15"), Some(d(u64::MAX)));
    assert_eq!(Decimal::parse("184467440737095516.16"), None);
    assert_eq!(Decimal::parse("184467440737095517"), None);
    assert_eq!(Decimal::parse("99999999999999999999999999999999"), None);
    assert_eq!(Decimal::parse("99999999999999999999999999999999.99"), None);
    assert_eq!(Decimal::parse("0000000000000000000000000000001.5"), Some(d(150)));
}

#[test]
fn to_text_writes_two_fraction_digits() {
    assert_eq!(d(0).to_text(), "0.00");
    assert_eq!(d(7).to_text(), "0.07");
    assert_eq!(d(70).to_text(), "0.70");
    assert_eq!(d(100).to_text(), "1.00");
    assert_eq!(d(123456).to_text(), "1234.56");
    assert_eq!(d(u64::MAX).to_text(), "184467440737095516.15");
}

#[test]
fn reading_the_text_of_a_quantity_gives_it_back() {
    for h in [0u64, 1, 9, 10, 99, 100, 101, 999, 1000, 123456, 50000, u64::MAX - 1, u64::MAX] {
        assert_eq!(Decimal::parse(&d(h).to_text()), Some(d(h)));
    }
}

#[test]
fn units_and_cents_split_the_quantity() {
    assert_eq!(d(123456).units(), 1234);
    assert_eq!(d(123456).cents(), 56);
    assert_eq!(Decimal::zero(), d(0));
    assert_eq!(Decimal::one(), d(100));
}
