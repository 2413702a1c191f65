use revolut_trading::cli::{buy_price_banner, parse_choice, prompt_value, sell_price_banner, Action};

#[test]
fn menu_choices() {
    assert!(matches!(parse_choice("1\n"), Some(Action::Get("/balances"))));
    assert!(matches!(parse_choice("  2 "), Some(Action::Get("/configuration/pairs"))));
    assert!(matches!(parse_choice("3"), Some(Action::PlaceOrder)));
    assert!(matches!(parse_choice("4\r\n"), Some(Action::PlaceSell)));
    assert!(parse_choice("5").is_none());
    assert!(parse_choice("").is_none());
    assert!(parse_choice("1 2").is_none());
}

#[test]
fn prompt_values_are_trimmed_and_non_empty() {
    assert_eq!(prompt_value(" 81.25\n"), Some("81.25".to_string()));
    assert_eq!(prompt_value("\n"), None);
    assert_eq!(prompt_value("   "), None);
}

#[test]
fn price_banners() {
    assert_eq!(buy_price_banner("250.5"), "Spending 250.5 USD");
    assert_eq!(sell_price_banner("3"), "Selling 3 LTC");
}
