use revolut_trading::api::{
    get_active_order_ids, get_available, order_request, require_success, send_get_output,
    signed_request, trim_trailing_slashes, url_path, ApiError, HttpMethod,
};
use revolut_trading::auth::{sign_request, PrivateKey};
use revolut_trading::json::Json;

fn test_key() -> PrivateKey {
    let mut secret = [0u8; 32];
    for (i, b) in secret.iter_mut().enumerate() {
        *b = (i as u8).wrapping_mul(37).wrapping_add(11);
    }
    PrivateKey::from_secret(secret)
}

fn s(text: &str) -> Json {
    Json::String(text.to_string())
}

fn obj(members: Vec<(&str, Json)>) -> Json {
    Json::Object(members.into_iter().map(|(k, v)| (k.to_string(), v)).collect())
}

fn balance(currency: &str, available: &str) -> Json {
    obj(vec![("available", s(available)), ("currency", s(currency)), ("total", s(available))])
}

#[test]
fn url_path_takes_the_path_after_the_host() {
    assert_eq!(url_path("https://revx.revolut.com/api/1.0/"), "/api/1.0");
    assert_eq!(url_path("https://revx.revolut.com/api/1.0"), "/api/1.0");
    assert_eq!(url_path("https://revx.revolut.com"), "");
    assert_eq!(url_path("https://revx.revolut.com///"), "");
    assert_eq!(url_path("revx.revolut.com/api"), "");
    assert_eq!(url_path("http://a/b://c/d"), "/b://c/d");
    assert_eq!(url_path(""), "");
}

#[test]
fn trailing_slashes_are_trimmed() {
    assert_eq!(trim_trailing_slashes("https://h/api//"), "https://h/api");
    assert_eq!(trim_trailing_slashes("https://h/api"), "https://h/api");
    assert_eq!(trim_trailing_slashes("///"), "");
}

#[test]
fn require_success_accepts_2xx_only() {
    assert!(require_success(200, "x").is_ok());
    assert!(require_success(204, "x").is_ok());
    assert!(require_success(299, "x").is_ok());
    match require_success(404, "Order request") {
        Err(ApiError::RequestFailed { context, status }) => {
            assert_eq!(context, "Order request");
            assert_eq!(status, 404);
        }
        _ => panic!("expected a failure"),
    }
    assert!(require_success(199, "x").is_err());
    assert!(require_success(300, "x").is_err());
}

#[test]
fn available_balance_of_first_matching_entry() {
    let body = Json::Array(vec![
        balance("BTC", "1"),
        balance("USD", "250.5"),
        balance("USD", "999"),
        balance("LTC", "3.25"),
    ]);
    assert_eq!(get_available(&body, "USD").ok(), Some("250.5".to_string()));
    assert_eq!(get_available(&body, "LTC").ok(), Some("3.25".to_string()));
    match get_available(&body, "EUR") {
        Err(ApiError::BalanceNotFound(c)) => assert_eq!(c, "EUR"),
        _ => panic!("expected not found"),
    }
}

#[test]
fn available_balance_errors() {
    // Not an array.
    assert!(get_available(&obj(vec![("data", Json::Array(vec![]))]), "USD").is_err());
    // The first entry for the currency has no text `available`: no fallback.
    let body = Json::Array(vec![
        obj(vec![("currency", s("USD")), ("available", Json::Number("5".into()))]),
        balance("USD", "7"),
    ]);
    assert!(matches!(get_available(&body, "USD"), Err(ApiError::BalanceNotFound(_))));
    // A numeric currency never matches.
    let body = Json::Array(vec![obj(vec![("currency", Json::Number("1".into()))])]);
    assert!(get_available(&body, "1").is_err());
}

#[test]
fn active_order_ids_from_array_or_data() {
    let order = |id: &str| obj(vec![("client_order_id", s(id)), ("state", s("new"))]);
    let body = Json::Array(vec![order("a"), obj(vec![("state", s("new"))]), order("b")]);
    assert_eq!(get_active_order_ids(&body), vec!["a".to_string(), "b".to_string()]);
    let body = obj(vec![("data", Json::Array(vec![order("c")]))]);
    assert_eq!(get_active_order_ids(&body), vec!["c".to_string()]);
    assert!(get_active_order_ids(&obj(vec![("data", s("x"))])).is_empty());
    assert!(get_active_order_ids(&Json::Null).is_empty());
}

#[test]
fn balances_output_keeps_usd_and_ltc() {
    let body = Json::Array(vec![
        balance("BTC", "1"),
        balance("USD", "2"),
        s("odd"),
        balance("LTC", "3"),
    ]);
    match send_get_output("/balances", body) {
        Json::Array(items) => {
            assert_eq!(items.len(), 2);
            let ids: Vec<Option<String>> = items.iter().map(|i| i.field_str("currency")).collect();
            assert_eq!(ids, vec![Some("USD".to_string()), Some("LTC".to_string())]);
        }
        _ => panic!("expected an array"),
    }
    match send_get_output("/balances", obj(vec![])) {
        Json::Array(items) => assert!(items.is_empty()),
        _ => panic!("expected an array"),
    }
    match send_get_output("/configuration/pairs", s("whole")) {
        Json::String(t) => assert_eq!(t, "whole"),
        _ => panic!("expected the body itself"),
    }
}

#[test]
fn buy_orders_carry_a_quote_size() {
    let o = order_request("buy", "100", "80.5", "id-1");
    assert_eq!(o.client_order_id, "id-1");
    assert_eq!(o.symbol, "LTC-USD");
    assert_eq!(o.side, "buy");
    assert_eq!(o.order_configuration.limit.quote_size, Some("100".to_string()));
    assert_eq!(o.order_configuration.limit.base_size, None);
    assert_eq!(o.order_configuration.limit.price, "80.5");
    assert_eq!(o.order_configuration.limit.execution_instructions, vec!["allow_taker".to_string()]);
}

#[test]
fn sell_orders_carry_a_base_size() {
    let o = order_request("sell", "2.5", "90", "id-2");
    assert_eq!(o.side, "sell");
    assert_eq!(o.order_configuration.limit.quote_size, None);
    assert_eq!(o.order_configuration.limit.base_size, Some("2.5".to_string()));
}

#[test]
fn signed_get_request() {
    let key = test_key();
    let r = signed_request("https://h.example/api/1.0/", &key, "GET", "/balances", "", "K", 1700000000000)
        .ok()
        .unwrap();
    assert!(r.method == HttpMethod::Get);
    assert_eq!(r.url, "https://h.example/api/1.0/balances");
    assert!(r.body.is_none());
    let headers: Vec<(&str, &str)> = r.headers.iter().map(|(a, b)| (a.as_str(), b.as_str())).collect();
    assert_eq!(headers.len(), 4);
    assert_eq!(headers[0], ("Accept", "application/json"));
    assert_eq!(headers[1], ("X-Revx-API-Key", "K"));
    assert_eq!(headers[2], ("X-Revx-Timestamp", "1700000000000"));
    let expected = sign_request(&key, "GET", "/api/1.0/balances", "", "", 1700000000000);
    assert_eq!(headers[3], ("X-Revx-Signature", expected.as_str()));
}

#[test]
fn signed_path_is_the_end_of_the_url() {
    let key = test_key();
    for base in ["https://h.example/api/1.0/", "https://h.example", "h.example/x", "http://a/b://c/"] {
        let r = signed_request(base, &key, "GET", "/orders/active", "", "K", 9).ok().unwrap();
        let signed = url_path(base) + "/orders/active";
        assert!(r.url.ends_with(&signed), "{} does not end with {}", r.url, signed);
    }
}

#[test]
fn signed_post_request_has_a_body() {
    let key = test_key();
    let r = signed_request("https://h.example", &key, "POST", "/orders", "{}", "K", 5).ok().unwrap();
    assert!(r.method == HttpMethod::Post);
    assert_eq!(r.url, "https://h.example/orders");
    assert_eq!(r.body, Some("{}".to_string()));
    assert_eq!(r.headers.len(), 5);
    assert_eq!(r.headers[4], ("Content-Type".to_string(), "application/json".to_string()));
    let expected = sign_request(&key, "POST", "/orders", "", "{}", 5);
    assert_eq!(r.headers[3].1, expected);
    let d = signed_request("https://h.example", &key, "DELETE", "/orders", "", "K", 5).ok().unwrap();
    assert!(d.method == HttpMethod::Delete);
}

#[test]
fn unsupported_method_is_refused() {
    let key = test_key();
    match signed_request("https://h", &key, "PUT", "/x", "", "K", 1) {
        Err(ApiError::UnsupportedMethod(m)) => assert_eq!(m, "PUT"),
        _ => panic!("expected a refusal"),
    }
    assert!(signed_request("https://h", &key, "get", "/x", "", "K", 1).is_err());
}
