//! The local rate limiter: a token bucket bounding this process to the
//! configured queries per second with a small burst allowance, plus the
//! verified bookkeeping of the polling loop that waits for a token.
use vstd::prelude::*;

verus! {

/// The shared local limiter, sized once at startup and never reset mid-run.
/// It holds governor's direct in-memory limiter; the type is kept opaque
/// because declaring it would drag in its clock, store and middleware
/// parameters and their trait bounds.
#[verifier::external_body]
pub struct LocalLimiter {
    inner: governor::RateLimiter<
        governor::state::direct::NotKeyed,
        governor::state::InMemoryState,
        governor::clock::DefaultClock,
        governor::middleware::NoOpMiddleware,
    >,
}

impl LocalLimiter {
    /// Relies on governor's `RateLimiter::direct`, `Quota::per_second` and
    /// `Quota::allow_burst`: a direct in-memory limiter admitting `qps` cells
    /// per second with a burst of `burst`.
    #[verifier::external_body]
    pub fn new(qps: u32, burst: u32) -> (r: LocalLimiter)
        requires
            qps >= 1,
            burst >= 1,
    {
        let q = core::num::NonZeroU32::new(qps).unwrap();
        let b = core::num::NonZeroU32::new(burst).unwrap();
        LocalLimiter {
            inner: governor::RateLimiter::direct(
                governor::Quota::per_second(q).allow_burst(b),
            ),
        }
    }

    /// Relies on governor's `RateLimiter::check`: a non-blocking probe that
    /// consumes one cell of the budget exactly when it returns true. Whether a
    /// cell is free depends on the clock, so nothing more is promised.
    #[verifier::external_body]
    pub fn check(&self) -> bool {
        self.inner.check().is_ok()
    }
}

/// How long one sleep of the polling loop lasts, in milliseconds.
pub open spec fn poll_sleep_ms() -> int {
    10
}

/// The bucket's capacity in milli-tokens: the burst allowance, scaled.
pub open spec fn bucket_cap(burst: int) -> int {
    burst * 1000
}

/// The milli-tokens available just before the grant at position `i`, for
/// grants at the (nondecreasing) millisecond times `times`: the bucket
/// starts full, refills at `qps` milli-tokens per millisecond, and never
/// holds more than its capacity.
pub open spec fn avail_before(times: Seq<int>, qps: int, burst: int, i: int) -> int
    decreases i,
{
    if i <= 0 {
        bucket_cap(burst)
    } else {
        let refilled = avail_before(times, qps, burst, i - 1) - 1000 + (times[i] - times[i - 1])
            * qps;
        if refilled > bucket_cap(burst) {
            bucket_cap(burst)
        } else {
            refilled
        }
    }
}

/// A quota-respecting backend: every grant it makes finds a whole token in
/// the bucket.
pub open spec fn quota_respecting(times: Seq<int>, qps: int, burst: int) -> bool {
    forall|i: int| 0 <= i < times.len() ==> avail_before(times, qps, burst, i) >= 1000
}

/// The times are in order.
pub open spec fn times_sorted(times: Seq<int>) -> bool {
    forall|i: int, j: int| 0 <= i <= j < times.len() ==> times[i] <= times[j]
}

/// What the bucket holds never exceeds what refilling since grant `i` could
/// have put back: each grant costs a token, and refill is bounded by the
/// elapsed time.
proof fn lemma_avail_bound(times: Seq<int>, qps: int, burst: int, i: int, j: int)
    requires
        0 <= i <= j < times.len(),
        qps >= 0,
    ensures
        avail_before(times, qps, burst, j) <= avail_before(times, qps, burst, i) - 1000 * (j - i)
            + (times[j] - times[i]) * qps,
    decreases j - i,
{
    if i < j {
        lemma_avail_bound(times, qps, burst, i, j - 1);
        assert((times[j] - times[i]) * qps == (times[j] - times[j - 1]) * qps + (times[j - 1]
            - times[i]) * qps) by (nonlinear_arith);
    }
}

/// Rate bound: a quota-respecting backend granting at `qps` tokens per
/// second with a burst of `burst` makes at most `qps * window_secs + burst`
/// grants inside any window of `window_secs` seconds. The first and last
/// grant of the window stand at positions `lo` and `hi`.
pub proof fn lemma_rate_bound(
    times: Seq<int>,
    qps: int,
    burst: int,
    lo: int,
    hi: int,
    window_secs: int,
)
    requires
        0 <= lo <= hi < times.len(),
        qps >= 0,
        burst >= 0,
        times_sorted(times),
        quota_respecting(times, qps, burst),
        times[hi] - times[lo] < window_secs * 1000,
    ensures
        hi - lo + 1 <= qps * window_secs + burst,
{
    lemma_avail_bound(times, qps, burst, lo, hi);
    assert(avail_before(times, qps, burst, hi) >= 1000);
    assert(avail_before(times, qps, burst, lo) <= bucket_cap(burst));
    assert(1000 <= bucket_cap(burst) - 1000 * (hi - lo) + (times[hi] - times[lo]) * qps);
    assert((times[hi] - times[lo]) * qps <= (window_secs * 1000 - 1) * qps) by (nonlinear_arith)
        requires
            qps >= 0,
            times[hi] - times[lo] <= window_secs * 1000 - 1,
    ;
    assert(1000 * (hi - lo + 1) <= 1000 * burst + window_secs * 1000 * qps) by (nonlinear_arith)
        requires
            1000 <= burst * 1000 - 1000 * (hi - lo) + (window_secs * 1000 - 1) * qps,
            qps >= 0,
    ;
    assert(hi - lo + 1 <= burst + window_secs * qps) by (nonlinear_arith)
        requires
            1000 * (hi - lo + 1) <= 1000 * burst + window_secs * 1000 * qps,
    ;
}

/// One turn of the token-polling loop, after a failed probe: account the
/// sleep that is about to happen, and say whether the caller should probe
/// again afterwards or give up and proceed without a token.
pub fn poll_step(waited_ms: u64, timeout_ms: u64) -> (r: (u64, bool))
    requires
        waited_ms <= timeout_ms,
        timeout_ms <= 3_600_000,
    ensures
        r.0 == waited_ms + poll_sleep_ms(),
        r.1 == (r.0 <= timeout_ms),
{
    let w = waited_ms + 10;
    (w, w <= timeout_ms)
}

} // verus!
