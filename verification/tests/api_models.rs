use juno::config::{default_base_url, get_base_url, set_base_url, Configuration};
use juno::errors::Error;
use juno::models::{PriceGet409Response, SwapMode, SwapPost200Response};

#[test]
fn base_url_defaults_until_set() {
    let mut config = Configuration::new();
    assert_eq!(get_base_url(&config), "https://quote-api.jup.ag");
    assert_eq!(default_base_url(), "https://quote-api.jup.ag");

    assert!(set_base_url(&mut config, "https://example.invalid".to_string()).is_ok());
    assert_eq!(get_base_url(&config), "https://example.invalid");
}

#[test]
fn base_url_set_only_once() {
    let mut config = Configuration::new();
    set_base_url(&mut config, "https://one.invalid".to_string()).unwrap();
    let r = set_base_url(&mut config, "https://two.invalid".to_string());
    assert!(matches!(r, Err(Error::BaseUrlAlreadySet)));
    assert_eq!(get_base_url(&config), "https://one.invalid");
}

#[test]
fn swap_mode_defaults_to_exact_in() {
    assert_eq!(SwapMode::default(), SwapMode::ExactIn);
}

#[test]
fn response_models_hold_plain_values() {
    let r = SwapPost200Response { swap_transaction: "AQID".to_string() };
    assert_eq!(r.swap_transaction, "AQID");
    let conflict = PriceGet409Response::default();
    assert!(conflict.data.is_none());
}
