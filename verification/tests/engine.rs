use fetchpost::cache::MemoryCache;
use fetchpost::config::FetchConfig;
use fetchpost::fetch::{fetch_record, jsonl_line, RunCounters};
use fetchpost::form::FormField;
use fetchpost::headers::HeaderEntry;
use fetchpost::orchestrator::{settle_with, AttemptOutcome};

fn cfg_base() -> FetchConfig {
    FetchConfig {
        timeout_secs: 15,
        max_retries: 3,
        store_error: false,
        cache_error: false,
        pretty: false,
        include_existing_columns: true,
        selector: None,
    }
}

fn ok_reply(body: &str) -> AttemptOutcome {
    AttemptOutcome::Reply {
        status: 200,
        headers: Vec::new(),
        body: body.to_string(),
    }
}

fn err_reply(status: u16) -> AttemptOutcome {
    AttemptOutcome::Reply {
        status,
        headers: Vec::new(),
        body: String::new(),
    }
}

fn fields_zip() -> Vec<FormField> {
    vec![
        FormField {
            name: "zipcode".to_string(),
            value: "90210".to_string(),
        },
        FormField {
            name: "country".to_string(),
            value: "USA".to_string(),
        },
    ]
}

#[test]
fn idempotent_second_call_is_cached_and_identical() {
    let cfg = cfg_base();
    let mut cache = MemoryCache::new(100);
    let outcomes = vec![ok_reply("{\"a\":1}"), ok_reply("{\"a\":1}"), ok_reply("{\"a\":1}"), ok_reply("{\"a\":1}")];
    let url = "https://example.test/post";
    let fields = fields_zip();

    let (r1, cached1, attempts1) = fetch_record(&mut cache, &cfg, url, &fields, &outcomes);
    assert!(!cached1);
    assert_eq!(attempts1, 1);
    assert_eq!(r1.status_code, 200);

    // the second identical request is answered from the cache: identical
    // response, no attempt consumed
    let (r2, cached2, attempts2) = fetch_record(&mut cache, &cfg, url, &fields, &outcomes);
    assert!(cached2);
    assert_eq!(attempts2, 0);
    assert_eq!(r2.response, r1.response);
    assert_eq!(r2.status_code, r1.status_code);
    assert_eq!(r2.retries, r1.retries);
}

#[test]
fn error_entry_is_evicted_and_refetched() {
    let mut cfg = cfg_base();
    cfg.max_retries = 1;
    cfg.cache_error = false;
    let mut cache = MemoryCache::new(100);
    let outcomes = vec![err_reply(500), err_reply(500)];
    let url = "https://example.test/post";
    let fields = fields_zip();

    let (r1, cached1, attempts1) = fetch_record(&mut cache, &cfg, url, &fields, &outcomes);
    assert!(!cached1);
    assert_eq!(r1.status_code, 500);
    assert_eq!(attempts1, 2);

    // the entry was invalidated, so the identical request attempts the
    // network again instead of hitting the cache
    let (r2, cached2, attempts2) = fetch_record(&mut cache, &cfg, url, &fields, &outcomes);
    assert!(!cached2);
    assert!(attempts2 >= 1);
    assert_eq!(r2.status_code, 500);
}

#[test]
fn cache_error_keeps_error_entries() {
    let mut cfg = cfg_base();
    cfg.max_retries = 0;
    cfg.cache_error = true;
    let mut cache = MemoryCache::new(100);
    let outcomes = vec![err_reply(500)];
    let url = "https://example.test/post";
    let fields = fields_zip();

    let (_r1, _c1, a1) = fetch_record(&mut cache, &cfg, url, &fields, &outcomes);
    assert_eq!(a1, 1);
    let (r2, cached2, a2) = fetch_record(&mut cache, &cfg, url, &fields, &outcomes);
    assert!(cached2);
    assert_eq!(a2, 0);
    assert_eq!(r2.status_code, 500);
}

#[test]
fn error_hit_with_caching_off_is_served_once_then_evicted() {
    // an error entry written while error caching was on is served one more
    // time after the flag flips off, and evicted so the next identical
    // request goes back to the network
    let mut cfg = cfg_base();
    cfg.max_retries = 0;
    cfg.cache_error = true;
    let mut cache = MemoryCache::new(100);
    let outcomes = vec![err_reply(500)];
    let url = "https://example.test/post";
    let fields = fields_zip();
    let (_r, _c, a) = fetch_record(&mut cache, &cfg, url, &fields, &outcomes);
    assert_eq!(a, 1);

    cfg.cache_error = false;
    let (r2, cached2, a2) = fetch_record(&mut cache, &cfg, url, &fields, &outcomes);
    assert!(cached2);
    assert_eq!(a2, 0);
    assert_eq!(r2.status_code, 500);
    assert_eq!(cache.len(), 0);

    let (_r3, cached3, a3) = fetch_record(&mut cache, &cfg, url, &fields, &outcomes);
    assert!(!cached3);
    assert_eq!(a3, 1);
}

#[test]
fn always_5xx_spends_exactly_the_retry_budget() {
    let mut cfg = cfg_base();
    cfg.max_retries = 3;
    let outcomes = vec![
        err_reply(503),
        err_reply(503),
        err_reply(503),
        err_reply(503),
        err_reply(503),
    ];
    let (resp, attempts) = settle_with(&cfg, &outcomes);
    assert_eq!(attempts, 4);
    assert_eq!(resp.status_code, 503);
    assert_eq!(resp.retries, 3);
}

#[test]
fn invalid_url_settles_without_network() {
    let mut cfg = cfg_base();
    cfg.store_error = true;
    cfg.include_existing_columns = true;
    let mut cache = MemoryCache::new(100);
    let outcomes = vec![ok_reply("{}"), ok_reply("{}"), ok_reply("{}"), ok_reply("{}")];
    let (resp, cached, attempts) =
        fetch_record(&mut cache, &cfg, "not a url", &fields_zip(), &outcomes);
    assert!(!cached);
    assert_eq!(attempts, 0);
    assert_eq!(resp.status_code, 404);
    assert_eq!(resp.retries, 0);
    assert!(resp.response.starts_with("Invalid URL"));
    // the unparseable URL never touched the cache
    assert_eq!(cache.len(), 0);
}

#[test]
fn invalid_url_jsonl_mode_wraps_as_json_error() {
    let mut cfg = cfg_base();
    cfg.store_error = true;
    cfg.include_existing_columns = false;
    let mut cache = MemoryCache::new(100);
    let outcomes = vec![ok_reply("{}"), ok_reply("{}"), ok_reply("{}"), ok_reply("{}")];
    let (resp, _cached, attempts) =
        fetch_record(&mut cache, &cfg, "not a url", &fields_zip(), &outcomes);
    assert_eq!(attempts, 0);
    assert_eq!(resp.status_code, 404);
    assert!(resp.response.starts_with("{\"errors\":[{\"title\":\"Invalid URL\",\"detail\":\""));
    assert!(resp.response.ends_with("\"}]}"));
}

#[test]
fn end_to_end_selector_scenario() {
    let mut cfg = cfg_base();
    cfg.selector = Some("\"form\"".to_string());
    let mut cache = MemoryCache::new(100);
    let echo = "{\"form\": {\"zipcode\":\"90210\",\"country\":\"USA\"}}";
    let outcomes = vec![ok_reply(echo), ok_reply(echo), ok_reply(echo), ok_reply(echo)];
    let (resp, cached, attempts) = fetch_record(
        &mut cache,
        &cfg,
        "https://example.test/post",
        &fields_zip(),
        &outcomes,
    );
    assert!(!cached);
    assert_eq!(attempts, 1);
    assert_eq!(resp.status_code, 200);
    assert_eq!(resp.retries, 0);
    assert_eq!(resp.response, "{\"zipcode\":\"90210\",\"country\":\"USA\"}");
}

#[test]
fn empty_url_is_skipped_and_never_cached() {
    let cfg = cfg_base();
    let mut cache = MemoryCache::new(100);
    let outcomes = vec![ok_reply("{}"), ok_reply("{}"), ok_reply("{}"), ok_reply("{}")];
    let (resp, cached, attempts) = fetch_record(&mut cache, &cfg, "", &fields_zip(), &outcomes);
    assert!(!cached);
    assert_eq!(attempts, 0);
    assert_eq!(resp.status_code, 0);
    assert_eq!(resp.response, "");
    assert_eq!(resp.retries, 0);
    assert_eq!(cache.len(), 0);
}

#[test]
fn selector_failure_is_an_error_and_retries() {
    let mut cfg = cfg_base();
    cfg.max_retries = 2;
    cfg.store_error = false;
    cfg.selector = Some("\"missing\"".to_string());
    let body = "{\"a\":1}";
    let outcomes = vec![ok_reply(body), ok_reply(body), ok_reply(body)];
    let (resp, attempts) = settle_with(&cfg, &outcomes);
    assert_eq!(attempts, 3);
    assert_eq!(resp.status_code, 200);
    assert_eq!(resp.retries, 2);
    assert_eq!(resp.response, "");
}

#[test]
fn transport_failure_counts_as_client_error() {
    let mut cfg = cfg_base();
    cfg.max_retries = 1;
    let outcomes = vec![AttemptOutcome::Transport, AttemptOutcome::Transport];
    let (resp, attempts) = settle_with(&cfg, &outcomes);
    assert_eq!(attempts, 2);
    assert_eq!(resp.status_code, 400);
    assert_eq!(resp.retries, 1);
    assert_eq!(resp.response, "");
}

#[test]
fn http_error_descriptor_is_stored_in_column_mode() {
    let mut cfg = cfg_base();
    cfg.max_retries = 0;
    cfg.store_error = true;
    cfg.include_existing_columns = true;
    let outcomes = vec![err_reply(503)];
    let (resp, _attempts) = settle_with(&cfg, &outcomes);
    assert_eq!(resp.response, "HTTP ERROR 503 - Service Unavailable");
}

#[test]
fn http_error_descriptor_is_wrapped_in_jsonl_mode() {
    let mut cfg = cfg_base();
    cfg.max_retries = 0;
    cfg.store_error = true;
    cfg.include_existing_columns = false;
    let outcomes = vec![err_reply(503)];
    let (resp, _attempts) = settle_with(&cfg, &outcomes);
    assert_eq!(
        resp.response,
        "{\"errors\":[{\"title\":\"HTTP ERROR\",\"detail\":\"HTTP ERROR 503 - Service Unavailable\"}]}"
    );
}

#[test]
fn rate_limited_success_reply_retries_with_wait() {
    // a 200 reply that advertises an exhausted quota still triggers the
    // throttle path and is retried
    let mut cfg = cfg_base();
    cfg.max_retries = 1;
    let limited = AttemptOutcome::Reply {
        status: 200,
        headers: vec![HeaderEntry {
            name: "RateLimit-Remaining".to_string(),
            value: "0".to_string(),
        }],
        body: "{\"a\":1}".to_string(),
    };
    let clean = ok_reply("{\"a\":1}");
    let outcomes = vec![limited, clean];
    let (resp, attempts) = settle_with(&cfg, &outcomes);
    assert_eq!(attempts, 2);
    assert_eq!(resp.status_code, 200);
    assert_eq!(resp.retries, 1);
    assert_eq!(resp.response, "{\"a\":1}");
}

#[test]
fn run_counters_abort_at_error_budget() {
    let mut c = RunCounters::new();
    assert!(!c.record_settled(200, 2));
    assert!(!c.record_settled(500, 2));
    assert!(c.record_settled(404, 2));
    assert_eq!(c.success, 1);
    assert_eq!(c.errors, 2);
    // a budget of zero never aborts
    let mut c2 = RunCounters::new();
    assert!(!c2.record_settled(500, 0));
    assert!(!c2.record_settled(500, 0));
}

#[test]
fn jsonl_line_replaces_blank_with_empty_object() {
    assert_eq!(jsonl_line(""), "{}");
    assert_eq!(jsonl_line("{\"a\":1}"), "{\"a\":1}");
}
