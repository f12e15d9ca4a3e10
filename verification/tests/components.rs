use fetchpost::codec::{decode_response, encode_response};
use fetchpost::config::{check_pretty, check_selector, check_timeout, effective_quota,
    parse_header_arg, ConfigError};
use fetchpost::form::{field_part_kind, persistent_fingerprint, session_fingerprint, FieldPart,
    FormField};
use fetchpost::config::FetchConfig;
use fetchpost::headers::{find_header, find_pair, HeaderEntry};
use fetchpost::limiter::poll_step;
use fetchpost::response::FetchResponse;
use fetchpost::text::{parse_u64, to_dec_string};

#[test]
fn decimal_rendering_and_parsing() {
    assert_eq!(to_dec_string(0), "0");
    assert_eq!(to_dec_string(503), "503");
    assert_eq!(to_dec_string(u64::MAX), "18446744073709551615");
    assert_eq!(parse_u64("0"), Some(0));
    assert_eq!(parse_u64("123"), Some(123));
    assert_eq!(parse_u64("+7"), Some(7));
    assert_eq!(parse_u64("18446744073709551615"), Some(u64::MAX));
    assert_eq!(parse_u64("18446744073709551616"), None);
    assert_eq!(parse_u64(""), None);
    assert_eq!(parse_u64("+"), None);
    assert_eq!(parse_u64("12a"), None);
    assert_eq!(parse_u64("-3"), None);
}

#[test]
fn header_lookup_ignores_ascii_case() {
    let headers = vec![
        HeaderEntry {
            name: "X-RateLimit-Remaining".to_string(),
            value: "7".to_string(),
        },
        HeaderEntry {
            name: "Retry-After".to_string(),
            value: "2".to_string(),
        },
    ];
    assert_eq!(
        find_header(&headers, "x-ratelimit-remaining"),
        Some("7".to_string())
    );
    assert_eq!(find_header(&headers, "retry-after"), Some("2".to_string()));
    assert_eq!(find_header(&headers, "ratelimit-reset"), None);
    // the primary name wins over its fallback twin
    assert_eq!(
        find_pair(&headers, "ratelimit-remaining", "x-ratelimit-remaining"),
        Some("7".to_string())
    );
}

#[test]
fn startup_checks_reject_bad_configuration() {
    assert_eq!(check_timeout(0), Err(ConfigError::TimeoutZero));
    assert_eq!(check_timeout(3601), Err(ConfigError::TimeoutTooLarge));
    assert_eq!(check_timeout(15), Ok(()));
    assert_eq!(effective_quota(0), Ok(u32::MAX));
    assert_eq!(effective_quota(1000), Ok(1000));
    assert_eq!(effective_quota(1001), Err(ConfigError::RateLimitOutOfRange));
    assert_eq!(check_pretty(true, false), Err(ConfigError::PrettyNeedsNewColumn));
    assert_eq!(check_pretty(true, true), Ok(()));
    assert_eq!(check_pretty(false, false), Ok(()));
}

#[test]
fn selector_index_bounds_are_enforced() {
    assert_eq!(check_selector("\"form\""), Ok(()));
    // nineteen digits fit a machine word and pass
    assert_eq!(check_selector("[1234567890123456789]"), Ok(()));
    // twenty digits could not be taken as an index
    assert_eq!(
        check_selector("[12345678901234567890]"),
        Err(ConfigError::SelectorIndexTooLarge)
    );
    // the bound applies to every comma-separated piece
    assert_eq!(
        check_selector("\"a\".[0,99999999999999999999]"),
        Err(ConfigError::SelectorIndexTooLarge)
    );
    assert_eq!(check_selector(""), Ok(()));
}

#[test]
fn header_argument_splits_at_its_only_colon() {
    assert_eq!(
        parse_header_arg(" X-Api-Key : abc "),
        Ok(("X-Api-Key".to_string(), "abc".to_string()))
    );
    assert_eq!(parse_header_arg("no colon"), Err(ConfigError::BadHeaderArg));
    assert_eq!(parse_header_arg("a:b:c"), Err(ConfigError::BadHeaderArg));
}

#[test]
fn fingerprints_separate_distinct_requests() {
    let fields = vec![FormField {
        name: "a".to_string(),
        value: "b".to_string(),
    }];
    let fp = session_fingerprint("https://x.test/", &fields);
    assert_eq!(fp, "15:https://x.test/1:a1:b");
    let other = vec![FormField {
        name: "a".to_string(),
        value: "c".to_string(),
    }];
    assert_ne!(fp, session_fingerprint("https://x.test/", &other));

    let mut cfg = FetchConfig {
        timeout_secs: 15,
        max_retries: 3,
        store_error: false,
        cache_error: false,
        pretty: false,
        include_existing_columns: true,
        selector: Some("\"form\"".to_string()),
    };
    let p1 = persistent_fingerprint("https://x.test/", &fields, &cfg);
    assert_eq!(p1, "15:https://x.test/1:a1:b+6:\"form\"001");
    // every component of the tuple separates the cross-run key
    assert_ne!(p1, persistent_fingerprint("https://y.test/", &fields, &cfg));
    assert_ne!(p1, persistent_fingerprint("https://x.test/", &other, &cfg));
    cfg.store_error = true;
    assert_ne!(p1, persistent_fingerprint("https://x.test/", &fields, &cfg));
    cfg.store_error = false;
    cfg.include_existing_columns = false;
    assert_ne!(p1, persistent_fingerprint("https://x.test/", &fields, &cfg));
    cfg.include_existing_columns = true;
    cfg.selector = Some("\"data\"".to_string());
    assert_ne!(p1, persistent_fingerprint("https://x.test/", &fields, &cfg));
    cfg.selector = Some("\"form\"".to_string());
    cfg.pretty = true;
    let p2 = persistent_fingerprint("https://x.test/", &fields, &cfg);
    assert_ne!(p1, p2);
    cfg.selector = None;
    let p3 = persistent_fingerprint("https://x.test/", &fields, &cfg);
    assert_eq!(p3, "15:https://x.test/1:a1:b-011");
}

#[test]
fn file_fields_attach_only_within_the_size_cap() {
    assert_eq!(
        field_part_kind("file:/tmp/a.bin", Some(10), 100),
        FieldPart::FileAttachment
    );
    assert_eq!(field_part_kind("file:/tmp/a.bin", Some(1000), 100), FieldPart::Text);
    assert_eq!(field_part_kind("file:/tmp/a.bin", Some(0), 100), FieldPart::Text);
    assert_eq!(field_part_kind("file:/tmp/a.bin", None, 100), FieldPart::Text);
    assert_eq!(field_part_kind("plain text", Some(10), 100), FieldPart::Text);
}

#[test]
fn codec_round_trips_a_response() {
    let r = FetchResponse {
        response: "{\"a\": \"x y\", \"n\": 12}".to_string(),
        status_code: 200,
        retries: 2,
    };
    let wire = encode_response(&r);
    assert_eq!(wire, "200 2 21 {\"a\": \"x y\", \"n\": 12}");
    let back = decode_response(&wire).unwrap();
    assert_eq!(back.response, r.response);
    assert_eq!(back.status_code, r.status_code);
    assert_eq!(back.retries, r.retries);
}

#[test]
fn codec_refuses_malformed_values() {
    assert!(decode_response("").is_err());
    assert!(decode_response("garbage").is_err());
    assert!(decode_response("200 0").is_err());
    assert!(decode_response("200 0 5 ab").is_err());
    assert!(decode_response("70000 0 0 ").is_err());
    assert!(decode_response("200 300 0 ").is_err());
    assert!(decode_response("200 0 0 ").is_ok());
}

#[test]
fn poll_step_accounts_sleeps_against_the_timeout() {
    assert_eq!(poll_step(0, 100), (10, true));
    assert_eq!(poll_step(90, 100), (100, true));
    assert_eq!(poll_step(95, 100), (105, false));
}
