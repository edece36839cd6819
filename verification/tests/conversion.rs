use currency_catalog::currency_converter::CurrencyConverter;
use currency_catalog::model::{Currency, Price};

fn default_converter() -> CurrencyConverter {
    CurrencyConverter::new(Currency::Rub, vec![100, 8045, 8865]).unwrap()
}

#[test]
fn converts_zero_for_every_pair() {
    let cc = default_converter();
    let all = [Currency::Rub, Currency::Eur, Currency::Usd];
    for from in all {
        for to in all {
            let r = cc.convert(Price { value: 0, currency: from }, to);
            assert_eq!(r.value, 0);
            assert_eq!(r.currency, to);
        }
    }
}

#[test]
fn self_conversion_is_exact_for_the_quote() {
    let cc = default_converter();
    let r = cc.convert(Price { value: 12345, currency: Currency::Rub }, Currency::Rub);
    assert_eq!(r.value, 12345);
    assert_eq!(r.currency, Currency::Rub);
}

#[test]
fn self_conversion_loses_at_most_one_minor_unit() {
    let cc = default_converter();
    for v in [0i64, 1, 2, 3, 99, 100, 101, 9999, 10000, 123456] {
        let r = cc.convert(Price { value: v, currency: Currency::Eur }, Currency::Eur);
        assert!(v - 1 <= r.value && r.value <= v, "self conversion of {v} gave {}", r.value);
    }
    let r = cc.convert(Price { value: 3, currency: Currency::Eur }, Currency::Eur);
    assert_eq!(r.value, 2);
    let r = cc.convert(Price { value: 10000, currency: Currency::Eur }, Currency::Eur);
    assert_eq!(r.value, 10000);
}

#[test]
fn round_trip_through_the_quote_is_within_one() {
    let cc = default_converter();
    for v in [0i64, 1, 2, 99, 999, 10000, 1_000_000] {
        let there = cc.convert(Price { value: v, currency: Currency::Eur }, Currency::Rub);
        let back = cc.convert(there, Currency::Eur);
        assert!(v - 1 <= back.value && back.value <= v, "round trip of {v} gave {}", back.value);
    }
    let there = cc.convert(Price { value: 999, currency: Currency::Eur }, Currency::Rub);
    assert_eq!(there.value, 80369);
    let back = cc.convert(there, Currency::Eur);
    assert_eq!(back.value, 998);
}

#[test]
fn round_trip_never_gains() {
    let cc = default_converter();
    let all = [Currency::Rub, Currency::Eur, Currency::Usd];
    for from in all {
        for to in all {
            for v in [0i64, 1, 11, 50, 999, 10000, 1_000_000] {
                let there = cc.convert(Price { value: v, currency: from }, to);
                let back = cc.convert(there, from);
                assert!(back.value <= v);
            }
        }
    }
    // Between two non-quote currencies the double truncation can swallow
    // more than one minor unit; this pair is the engine's accepted loss.
    let there = cc.convert(Price { value: 11, currency: Currency::Eur }, Currency::Usd);
    assert_eq!(there.value, 9);
    let back = cc.convert(there, Currency::Eur);
    assert_eq!(back.value, 9);
}

#[test]
fn construction_accepts_an_intact_table() {
    // Rates 1.00, 80.45, 88.65 against the rouble.
    let cc = CurrencyConverter::new(Currency::Rub, vec![100, 8045, 8865]);
    assert!(cc.is_some());
}

#[test]
fn construction_rejects_a_quote_coefficient_other_than_100() {
    // Rate 0.99 for the quote currency itself: a corrupt configuration.
    let cc = CurrencyConverter::new(Currency::Rub, vec![99, 8045, 8865]);
    assert!(cc.is_none());
}

#[test]
fn construction_rejects_a_wrong_length_table() {
    assert!(CurrencyConverter::new(Currency::Rub, vec![100, 8045]).is_none());
    assert!(CurrencyConverter::new(Currency::Rub, vec![100, 8045, 8865, 1]).is_none());
}

#[test]
fn construction_rejects_a_nonpositive_coefficient() {
    assert!(CurrencyConverter::new(Currency::Rub, vec![100, 0, 8865]).is_none());
    assert!(CurrencyConverter::new(Currency::Rub, vec![100, -8045, 8865]).is_none());
}

#[test]
fn converts_one_hundred_eur_to_usd() {
    // 100.00 EUR -> 8045.00 RUB in the quote -> 9075 USD cents.
    let cc = default_converter();
    let r = cc.convert(Price { value: 10000, currency: Currency::Eur }, Currency::Usd);
    assert_eq!(r.value, 9075);
    assert_eq!(r.currency, Currency::Usd);
}

#[test]
fn converts_roubles_to_usd() {
    let cc = default_converter();
    let r = cc.convert(Price { value: 5000, currency: Currency::Rub }, Currency::Usd);
    assert_eq!(r.value, 56);
}

#[test]
fn checked_convert_rejects_what_would_overflow() {
    let cc = default_converter();
    assert!(cc.checked_convert(Price { value: -1, currency: Currency::Eur }, Currency::Usd).is_none());
    assert!(cc.checked_convert(Price { value: i64::MAX, currency: Currency::Eur }, Currency::Usd).is_none());
    let r = cc.checked_convert(Price { value: 10000, currency: Currency::Eur }, Currency::Usd);
    assert_eq!(r.unwrap().value, 9075);
}

#[test]
fn can_convert_is_exact_at_the_overflow_boundary() {
    let cc = default_converter();
    let boundary = i64::MAX / 8045;
    assert!(cc.can_convert(Price { value: boundary, currency: Currency::Eur }));
    assert!(!cc.can_convert(Price { value: boundary + 1, currency: Currency::Eur }));
    assert!(!cc.can_convert(Price { value: -1, currency: Currency::Eur }));
}

#[test]
fn currency_indexes_are_stable() {
    assert_eq!(Currency::Rub.index(), 0);
    assert_eq!(Currency::Eur.index(), 1);
    assert_eq!(Currency::Usd.index(), 2);
}
