use fetchpost::config::FetchConfig;
use fetchpost::fetch::validate_url;
use fetchpost::headers::HeaderEntry;
use fetchpost::limiter::LocalLimiter;
use fetchpost::process::{build_http_error_text, build_json_error, process_payload};
use fetchpost::throttle::resolve_throttle;

fn h(name: &str, value: &str) -> HeaderEntry {
    HeaderEntry {
        name: name.to_string(),
        value: value.to_string(),
    }
}

fn cfg_plain() -> FetchConfig {
    FetchConfig {
        timeout_secs: 15,
        max_retries: 3,
        store_error: true,
        cache_error: false,
        pretty: false,
        include_existing_columns: true,
        selector: None,
    }
}

#[test]
fn throttle_follows_exhausted_quota_and_reset() {
    // an exhausted quota with a two-second reset asks for a ~2000 ms wait
    // plus jitter, and allows a retry while the budget lasts
    let headers = vec![h("ratelimit-remaining", "0"), h("ratelimit-reset", "2")];
    let d = resolve_throttle(&headers, false, 0, 5, 15);
    assert!(d.should_retry);
    assert!(2010 <= d.wait_ms && d.wait_ms <= 2029);
}

#[test]
fn throttle_stops_when_budget_is_spent() {
    let headers = vec![h("ratelimit-remaining", "0"), h("ratelimit-reset", "2")];
    let d = resolve_throttle(&headers, false, 5, 5, 15);
    assert!(!d.should_retry);
}

#[test]
fn throttle_abandons_waits_beyond_the_timeout() {
    let headers = vec![h("retry-after", "9999")];
    let d = resolve_throttle(&headers, true, 0, 5, 15);
    assert!(!d.should_retry);
    assert_eq!(d.wait_ms, 0);
}

#[test]
fn throttle_treats_unparseable_retry_after_as_the_timeout() {
    let headers = vec![h("retry-after", "Fri, 01 Jan 2100 00:00:00 GMT")];
    let d = resolve_throttle(&headers, true, 0, 5, 15);
    assert!(d.should_retry);
    assert!(15010 <= d.wait_ms && d.wait_ms <= 15029);
}

#[test]
fn throttle_sleeps_a_second_on_bare_errors() {
    let headers: Vec<HeaderEntry> = Vec::new();
    let d = resolve_throttle(&headers, true, 0, 5, 15);
    assert!(d.should_retry);
    assert!(1010 <= d.wait_ms && d.wait_ms <= 1029);
}

#[test]
fn throttle_is_quiet_on_clean_successes() {
    let headers = vec![h("content-type", "application/json")];
    let d = resolve_throttle(&headers, false, 0, 5, 15);
    assert!(!d.should_retry);
    assert_eq!(d.wait_ms, 0);
}

#[test]
fn throttle_jitter_stays_in_its_band() {
    // the wait is the reset delay plus a 10..30 ms jitter; over many draws
    // it stays in the band and is not constant
    let headers: Vec<HeaderEntry> = Vec::new();
    let mut seen = std::collections::HashSet::new();
    for _ in 0..100 {
        let d = resolve_throttle(&headers, true, 0, 5, 15);
        assert!(1010 <= d.wait_ms && d.wait_ms <= 1029);
        seen.insert(d.wait_ms);
    }
    assert!(seen.len() > 1);
}

#[test]
fn url_validation_normalizes_and_rejects() {
    let cfg = cfg_plain();
    let ok = validate_url(&cfg, "https://example.test/post").unwrap();
    assert_eq!(ok, "https://example.test/post");
    // normalization is visible: case folds and a default port is dropped
    let norm = validate_url(&cfg, "HTTPS://Example.test:443/post").unwrap();
    assert_eq!(norm, "https://example.test/post");
    let settled = validate_url(&cfg, "not a url").unwrap_err();
    assert_eq!(settled.status_code, 404);
    assert!(settled.response.starts_with("Invalid URL: "));
    assert!(validate_url(&cfg, "").is_err());
}

#[test]
fn selector_extracts_and_reports() {
    let body = "{\"form\": {\"zipcode\":\"90210\",\"country\":\"USA\"}}";
    let mut cfg = cfg_plain();
    cfg.selector = Some("\"form\"".to_string());
    let (v, e) = process_payload(&cfg, body);
    assert!(!e);
    assert_eq!(v, "{\"zipcode\":\"90210\",\"country\":\"USA\"}");
    // a selected JSON string comes back bare
    cfg.selector = Some("\"form\".\"zipcode\"".to_string());
    let (v2, e2) = process_payload(&cfg, body);
    assert!(!e2);
    assert_eq!(v2, "90210");
    cfg.selector = Some("\"missing\"".to_string());
    let (v3, e3) = process_payload(&cfg, body);
    assert!(e3);
    assert!(!v3.is_empty());
    let (_, e4) = process_payload(&cfg, "not json");
    assert!(e4);
}

#[test]
fn formatting_minifies_and_prettifies() {
    let mut cfg = cfg_plain();
    let (v, e) = process_payload(&cfg, "{ \"a\" : 1 }");
    assert!(!e);
    assert_eq!(v, "{\"a\":1}");
    cfg.pretty = true;
    let (p, ep) = process_payload(&cfg, "{\"a\":1}");
    assert!(!ep);
    assert!(p.contains('\n'));
    assert_eq!(p, jsonxf::pretty_print("{\"a\":1}").unwrap());
}

#[test]
fn payload_processing_follows_the_flags() {
    let mut cfg = cfg_plain();
    let (v, e) = process_payload(&cfg, "{ \"a\" : 1 }");
    assert!(!e);
    assert_eq!(v, "{\"a\":1}");
    // a payload the formatter does not accept passes through unchanged
    let odd = "\"unterminated";
    let expect = match jsonxf::minimize(odd) {
        Ok(m) => m,
        Err(_) => odd.to_string(),
    };
    let (v2, e2) = process_payload(&cfg, odd);
    assert!(!e2);
    assert_eq!(v2, expect);
    // a selector error with errors stored keeps the engine's message
    cfg.selector = Some("\"x\"".to_string());
    cfg.store_error = false;
    let (v3, e3) = process_payload(&cfg, "{\"a\":1}");
    assert!(e3);
    assert_eq!(v3, "");
}

#[test]
fn error_texts_carry_status_and_reason() {
    assert_eq!(build_http_error_text(503), "HTTP ERROR 503 - Service Unavailable");
    assert_eq!(build_http_error_text(404), "HTTP ERROR 404 - Not Found");
    assert_eq!(build_http_error_text(599), "HTTP ERROR 599 - unknown error");
}

#[test]
fn json_error_objects_escape_their_detail() {
    assert_eq!(
        build_json_error("HTTP ERROR", "said \"no\"\n"),
        "{\"errors\":[{\"title\":\"HTTP ERROR\",\"detail\":\"said \\\"no\\\"\\n\"}]}"
    );
}

#[test]
fn limiter_burst_bounds_immediate_calls() {
    // with one query per second and a burst of five, a tight loop right
    // after creation gets at most the burst (the window is ~zero seconds),
    // and at least one probe succeeds
    let limiter = LocalLimiter::new(1, 5);
    let mut granted = 0u32;
    for _ in 0..1000 {
        if limiter.check() {
            granted += 1;
        }
    }
    assert!(granted >= 1);
    assert!(granted <= 7);
}
