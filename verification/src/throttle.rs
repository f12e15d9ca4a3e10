//! The dynamic throttle resolver: reads the server-advertised rate-limit
//! headers of one attempt and decides whether to retry and how long to wait
//! first.
use crate::headers::{find_header, find_pair, has_header, header_num, lookup, pair_lookup,
    parse_header_num, HeaderEntry};
use crate::collab::jitter_ms;
use vstd::prelude::*;

verus! {

/// What one attempt's headers and error classification demand: how many
/// milliseconds to wait before the next attempt, and whether a next attempt
/// should happen at all.
pub struct ThrottleDecision {
    pub wait_ms: u64,
    pub should_retry: bool,
}

/// Whether any recognized rate-limit header is present, ignoring ASCII case.
pub open spec fn has_rate_headers(h: Seq<(Seq<char>, Seq<char>)>) -> bool {
    ||| has_header(h, "ratelimit-remaining"@)
    ||| has_header(h, "x-ratelimit-remaining"@)
    ||| has_header(h, "ratelimit-remaining-second"@)
    ||| has_header(h, "x-ratelimit-remaining-second"@)
    ||| has_header(h, "ratelimit-reset"@)
    ||| has_header(h, "x-ratelimit-reset"@)
    ||| has_header(h, "ratelimit-reset-second"@)
    ||| has_header(h, "x-ratelimit-reset-second"@)
    ||| has_header(h, "retry-after"@)
}

/// Throttling is considered at all only after an error or in the presence of
/// a recognized rate-limit header.
pub open spec fn throttle_triggered(h: Seq<(Seq<char>, Seq<char>)>, error: bool) -> bool {
    error || has_rate_headers(h)
}

/// The remaining quota the headers advertise: the plain pair first, then the
/// `-second` suffixed pair, else the 9999 sentinel; an unparseable value
/// counts as 1.
pub open spec fn remaining_model(h: Seq<(Seq<char>, Seq<char>)>) -> int {
    match pair_lookup(h, "ratelimit-remaining"@, "x-ratelimit-remaining"@) {
        Some(v) => header_num(v, 1),
        None => match pair_lookup(
            h,
            "ratelimit-remaining-second"@,
            "x-ratelimit-remaining-second"@,
        ) {
            Some(v) => header_num(v, 1),
            None => 9999,
        },
    }
}

/// The reset delay the headers advertise, in seconds, before `retry-after`
/// is taken into account: the plain pair first, then the `-second` pair,
/// else 1 after an error and 0 otherwise.
pub open spec fn reset_base_model(h: Seq<(Seq<char>, Seq<char>)>, error: bool) -> int {
    match pair_lookup(h, "ratelimit-reset"@, "x-ratelimit-reset"@) {
        Some(v) => header_num(v, 1),
        None => match pair_lookup(h, "ratelimit-reset-second"@, "x-ratelimit-reset-second"@) {
            Some(v) => header_num(v, 1),
            None => if error {
                1int
            } else {
                0int
            },
        },
    }
}

/// The reset delay after the `retry-after` override: an integer `retry-after`
/// replaces the delay outright, and one that does not parse (an HTTP date,
/// which is out of scope here) stands in as the configured timeout.
pub open spec fn reset_model(h: Seq<(Seq<char>, Seq<char>)>, error: bool, timeout_secs: int) -> int {
    match lookup(h, "retry-after"@) {
        Some(v) => header_num(v, timeout_secs),
        None => reset_base_model(h, error),
    }
}

/// Whether the resolver asks for a wait at all: the advertised quota is
/// nearly spent, or the reset delay is at least a second.
pub open spec fn wait_demanded(h: Seq<(Seq<char>, Seq<char>)>, error: bool, timeout_secs: int) -> bool {
    remaining_model(h) <= 1 || reset_model(h, error, timeout_secs) >= 1
}

/// Whether another attempt should be made: throttling was triggered, the
/// demanded delay fits in the timeout, and the retry budget is not spent.
pub open spec fn retry_model(
    h: Seq<(Seq<char>, Seq<char>)>,
    error: bool,
    retries: u8,
    max_retries: u8,
    timeout_secs: int,
) -> bool {
    &&& throttle_triggered(h, error)
    &&& reset_model(h, error, timeout_secs) <= timeout_secs
    &&& retries < max_retries
}

/// Resolves one attempt's headers into a throttle decision, as the attempt
/// classification and the retry budget stand.
///
/// The wait is the advertised reset delay in milliseconds plus a small random
/// jitter, so only its bounds are stated; a delay beyond the timeout abandons
/// retrying instead of waiting.
pub fn resolve_throttle(
    headers: &Vec<HeaderEntry>,
    error_flag: bool,
    retries: u8,
    max_retries: u8,
    timeout_secs: u64,
) -> (d: ThrottleDecision)
    requires
        1 <= timeout_secs <= 3600,
    ensures
        ({
            let h = headers.deep_view();
            let reset = reset_model(h, error_flag, timeout_secs as int);
            &&& d.should_retry == retry_model(
                h,
                error_flag,
                retries,
                max_retries,
                timeout_secs as int,
            )
            &&& !throttle_triggered(h, error_flag) ==> d.wait_ms == 0
            &&& throttle_triggered(h, error_flag) && reset > timeout_secs ==> d.wait_ms == 0
            &&& throttle_triggered(h, error_flag) && reset <= timeout_secs ==> (if wait_demanded(
                h,
                error_flag,
                timeout_secs as int,
            ) {
                reset * 1000 + 10 <= d.wait_ms <= reset * 1000 + 29
            } else {
                d.wait_ms == 0
            })
        }),
{
    let triggered = error_flag || find_header(headers, "ratelimit-remaining").is_some()
        || find_header(headers, "x-ratelimit-remaining").is_some()
        || find_header(headers, "ratelimit-remaining-second").is_some()
        || find_header(headers, "x-ratelimit-remaining-second").is_some()
        || find_header(headers, "ratelimit-reset").is_some()
        || find_header(headers, "x-ratelimit-reset").is_some()
        || find_header(headers, "ratelimit-reset-second").is_some()
        || find_header(headers, "x-ratelimit-reset-second").is_some()
        || find_header(headers, "retry-after").is_some();
    if !triggered {
        return ThrottleDecision { wait_ms: 0, should_retry: false };
    }
    let remaining: u64 = match find_pair(headers, "ratelimit-remaining", "x-ratelimit-remaining") {
        Some(v) => parse_header_num(&v, 1),
        None => match find_pair(
            headers,
            "ratelimit-remaining-second",
            "x-ratelimit-remaining-second",
        ) {
            Some(v) => parse_header_num(&v, 1),
            None => 9999,
        },
    };
    let reset_base: u64 = match find_pair(headers, "ratelimit-reset", "x-ratelimit-reset") {
        Some(v) => parse_header_num(&v, 1),
        None => match find_pair(headers, "ratelimit-reset-second", "x-ratelimit-reset-second") {
            Some(v) => parse_header_num(&v, 1),
            None => if error_flag {
                1
            } else {
                0
            },
        },
    };
    let reset_secs: u64 = match find_header(headers, "retry-after") {
        Some(v) => parse_header_num(&v, timeout_secs),
        None => reset_base,
    };
    if reset_secs > timeout_secs {
        return ThrottleDecision { wait_ms: 0, should_retry: false };
    }
    let wait_ms: u64 = if remaining <= 1 || reset_secs >= 1 {
        reset_secs * 1000 + jitter_ms()
    } else {
        0
    };
    ThrottleDecision { wait_ms, should_retry: retries < max_retries }
}

} // verus!
