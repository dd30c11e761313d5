use localorderbook::PriceLevel;
use localorderbook::decimal::{RawLevel, SCALE, parse_fixed, parse_level, parse_levels};

#[test]
fn parses_integers_exactly() {
    assert_eq!(parse_fixed(b"0"), Some(0));
    assert_eq!(parse_fixed(b"7"), Some(7 * SCALE));
    assert_eq!(parse_fixed(b"100"), Some(100 * SCALE));
    // eleven integer digits are the most accepted
    assert_eq!(parse_fixed(b"99999999999"), Some(99_999_999_999 * SCALE));
    assert_eq!(parse_fixed(b"123456789012"), None);
}

#[test]
fn parses_fractions_exactly() {
    assert_eq!(parse_fixed(b"100.0"), Some(10_000_000_000));
    assert_eq!(parse_fixed(b"99.5"), Some(9_950_000_000));
    assert_eq!(parse_fixed(b"0.00000001"), Some(1));
    assert_eq!(parse_fixed(b"1.12345678"), Some(112_345_678));
    assert_eq!(parse_fixed(b"2.50"), Some(250_000_000));
    // more than eight fraction digits are rejected, not rounded
    assert_eq!(parse_fixed(b"1.123456789"), None);
}

#[test]
fn rejects_malformed_text() {
    assert_eq!(parse_fixed(b""), None);
    assert_eq!(parse_fixed(b"."), None);
    assert_eq!(parse_fixed(b"1."), None);
    assert_eq!(parse_fixed(b".5"), None);
    assert_eq!(parse_fixed(b"1a"), None);
    assert_eq!(parse_fixed(b"a1"), None);
    assert_eq!(parse_fixed(b"1.2.3"), None);
    assert_eq!(parse_fixed(b"-1.0"), None);
    assert_eq!(parse_fixed(b"1,0"), None);
}

fn raw(price: &str, qty: &str) -> RawLevel {
    RawLevel { price: price.as_bytes().to_vec(), qty: qty.as_bytes().to_vec() }
}

#[test]
fn parse_level_needs_both_fields_well_formed() {
    assert_eq!(
        parse_level(&raw("100.0", "2.0")),
        Some(PriceLevel { price: 10_000_000_000, quantity: 200_000_000 })
    );
    assert_eq!(parse_level(&raw("100.x", "2.0")), None);
    assert_eq!(parse_level(&raw("100.0", "")), None);
}

#[test]
fn parse_levels_rejects_bad_ones_and_keeps_going() {
    let batch = vec![
        raw("100.0", "2.0"),
        raw("oops", "1.0"),
        raw("99.5", "1.0"),
        raw("98.0", "nan"),
        raw("97.25", "4.0"),
    ];
    let (levels, rejected) = parse_levels(&batch);
    assert_eq!(rejected, 2);
    assert_eq!(
        levels,
        vec![
            PriceLevel { price: 10_000_000_000, quantity: 200_000_000 },
            PriceLevel { price: 9_950_000_000, quantity: 100_000_000 },
            PriceLevel { price: 9_725_000_000, quantity: 400_000_000 },
        ]
    );
}
