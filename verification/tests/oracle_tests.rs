use lpp::oracle::{MarketOracle, PriceStorage};

#[test]
// we ensure this rounds up (as it calculates needed votes)
fn feeders_needed_rounds_properly() {
    // round up right below 1
    assert_eq!(7, MarketOracle::feeders_needed(3, 255));
    // round up right over 1
    assert_eq!(7, MarketOracle::feeders_needed(3, 254));
    assert_eq!(76, MarketOracle::feeders_needed(30, 254));

    // exact matches don't round
    assert_eq!(17, MarketOracle::feeders_needed(34, 50));
    assert_eq!(12, MarketOracle::feeders_needed(48, 25));
}

#[test]
fn test_remove_invalid_prices() {
    let supported_pairs = vec![
        ("A".to_string(), "B".to_string()),
        ("A".to_string(), "C".to_string()),
        ("B".to_string(), "A".to_string()),
        ("C".to_string(), "D".to_string()),
    ];

    let prices = vec![
        PriceStorage::new("B".into(), 10, "A".into(), 12),
        PriceStorage::new("B".into(), 10, "D".into(), 32),
        PriceStorage::new("B".into(), 10, "B".into(), 12),
    ];

    let filtered = MarketOracle::remove_invalid_prices(supported_pairs, prices);

    assert_eq!(
        vec![PriceStorage::new("B".into(), 10, "A".into(), 12)],
        filtered
    );
}

#[test]
fn remove_invalid_prices_ignores_ascii_case() {
    let supported_pairs = vec![
        ("USDC".to_string(), "usdc".to_string()),
        ("NLS".to_string(), "USDC".to_string()),
    ];

    let prices = vec![
        // same denomination up to ASCII case: dropped
        PriceStorage::new("USDC".into(), 1, "usdc".into(), 1),
        PriceStorage::new("NLS".into(), 10, "USDC".into(), 7),
    ];

    let filtered = MarketOracle::remove_invalid_prices(supported_pairs, prices);
    assert_eq!(vec![PriceStorage::new("NLS".into(), 10, "USDC".into(), 7)], filtered);
}

#[test]
fn price_storage_accessors() {
    let price = PriceStorage::new("B".into(), 10, "A".into(), 12);
    assert_eq!(price.base().symbol, "B".to_string());
    assert_eq!(price.base().amount, 10);
    assert_eq!(price.quote().symbol, "A".to_string());
    assert_eq!(price.quote().amount, 12);
    assert_eq!(price.denom_pair(), ("B".to_string(), "A".to_string()));
}
