//! The per-record fetch driver: consult the cache by fingerprint, validate
//! the URL, run the retry machine on a miss, write the settled response
//! back, and invalidate it at once when it is an error and error caching is
//! off. The run-level tallies live here too.
use crate::cache::{cache_has, cache_lookup, cache_put_model, cache_remove_model, keys_unique,
    lemma_put_lookup, lemma_put_then_remove, MemoryCache};
use crate::collab::{parse_url, url_normal};
use crate::config::FetchConfig;
use crate::form::{session_fp, session_fingerprint, FormField};
use crate::orchestrator::{settle_rel, settle_with, AttemptOutcome};
use crate::process::{build_json_error, json_error_body};
use crate::response::{empty_response_model, FetchResponse, ResponseModel};
use vstd::prelude::*;

verus! {

/// The response a record with an unparseable URL settles with, never having
/// touched the network: a 404-equivalent, with the parser's message kept as
/// plain text or as a JSON error object exactly when errors are stored.
pub open spec fn invalid_url_model(
    store_error: bool,
    include_existing_columns: bool,
    err: Seq<char>,
) -> ResponseModel {
    ResponseModel {
        response: if store_error {
            if include_existing_columns {
                "Invalid URL: "@ + err
            } else {
                json_error_body("Invalid URL"@, err)
            }
        } else {
            Seq::empty()
        },
        status_code: 404,
        retries: 0,
    }
}

/// The cache after a settled response is written under its fingerprint and,
/// when error caching is off and the response is an error, evicted again at
/// once.
pub open spec fn stored_cache_model(
    m: Seq<(Seq<char>, ResponseModel)>,
    cap: int,
    fp: Seq<char>,
    rm: ResponseModel,
    cache_error: bool,
) -> Seq<(Seq<char>, ResponseModel)> {
    let m1 = cache_put_model(m, cap, fp, rm);
    if !cache_error && rm.status_code != 200 {
        cache_remove_model(m1, fp)
    } else {
        m1
    }
}

/// Idempotence: once a request settles with a response the store keeps (a
/// success, or any response when error caching is on), the entry stands
/// under the fingerprint, so an unchanged request tuple is answered from the
/// cache with the identical response and no fresh attempt.
pub proof fn lemma_fetch_idempotent(
    m: Seq<(Seq<char>, ResponseModel)>,
    cap: int,
    fp: Seq<char>,
    rm: ResponseModel,
    cache_error: bool,
)
    requires
        keys_unique(m),
        cap >= 1,
        rm.status_code == 200 || cache_error,
    ensures
        cache_lookup(stored_cache_model(m, cap, fp, rm, cache_error), fp) == Some(rm),
{
    lemma_put_lookup(m, cap, fp, rm);
}

/// Invalidation: with error caching off, a request that settles on an error
/// status leaves no entry behind, so the next identical request misses the
/// cache and attempts the network afresh.
pub proof fn lemma_fetch_invalidation(
    m: Seq<(Seq<char>, ResponseModel)>,
    cap: int,
    fp: Seq<char>,
    rm: ResponseModel,
)
    requires
        keys_unique(m),
        cap >= 1,
        rm.status_code != 200,
    ensures
        !cache_has(stored_cache_model(m, cap, fp, rm, false), fp),
{
    lemma_put_then_remove(m, cap, fp, rm);
}

/// The invalidation rule both cache tiers follow, on writes and on reads: a
/// settled error entry is kept only while error caching is on, as
/// `stored_cache_model` says.
pub fn should_evict(cache_error: bool, status_code: u16) -> (r: bool)
    ensures
        r == (!cache_error && status_code != 200),
{
    !cache_error && status_code != 200
}

/// Validates a URL before any attempt: a parseable one comes back in its
/// normalized absolute form; anything else settles at once with the
/// 404-equivalent response `invalid_url_model` describes.
pub fn validate_url(cfg: &FetchConfig, url: &str) -> (r: Result<String, FetchResponse>)
    ensures
        r matches Ok(u) ==> url_normal(url@) == Ok::<Seq<char>, Seq<char>>(u@),
        r matches Err(resp) ==> url_normal(url@) is Err && resp@ == invalid_url_model(
            cfg.store_error,
            cfg.include_existing_columns,
            url_normal(url@)->Err_0,
        ),
{
    match parse_url(url) {
        Ok(normalized) => Ok(normalized),
        Err(e) => {
            let response = if cfg.store_error {
                if cfg.include_existing_columns {
                    let mut s = String::from_str("Invalid URL: ");
                    s.append(e.as_str());
                    s
                } else {
                    build_json_error("Invalid URL", e.as_str())
                }
            } else {
                String::new()
            };
            Err(FetchResponse { response, status_code: 404, retries: 0 })
        },
    }
}

/// Fetches one record against the in-process cache: an empty or unparseable
/// URL settles at once and bypasses the cache entirely; a hit
/// short-circuits with the stored response (an error entry read with error
/// caching off is served this once and evicted); a miss runs the retry
/// machine over the given attempt outcomes, stores the settled response and
/// invalidates an error entry when error caching is off.
///
/// Hands back the response, whether it came from the cache, and how many
/// attempts were consumed.
pub fn fetch_record(
    cache: &mut MemoryCache,
    cfg: &FetchConfig,
    url: &str,
    fields: &Vec<FormField>,
    outcomes: &Vec<AttemptOutcome>,
) -> (r: (FetchResponse, bool, usize))
    requires
        old(cache).wf(),
        cfg.wf(),
        outcomes.deep_view().len() > cfg.max_retries,
    ensures
        final(cache).wf(),
        final(cache).cap() == old(cache).cap(),
        url@.len() == 0 ==> r.0@ == empty_response_model() && r.1 == false && r.2 == 0
            && final(cache)@ == old(cache)@,
        url@.len() > 0 && url_normal(url@) is Err ==> r.0@ == invalid_url_model(
            cfg.store_error,
            cfg.include_existing_columns,
            url_normal(url@)->Err_0,
        ) && r.1 == false && r.2 == 0 && final(cache)@ == old(cache)@,
        ({
            let fp = session_fp(url@, fields.deep_view());
            let hit = cache_lookup(old(cache)@, fp);
            &&& url@.len() > 0 && url_normal(url@) is Ok && hit is Some ==> r.0@ == hit->0
                && r.1 == true && r.2 == 0 && final(cache)@ == (
            if !cfg.cache_error && hit->0.status_code != 200 {
                cache_remove_model(old(cache)@, fp)
            } else {
                old(cache)@
            })
            &&& url@.len() > 0 && url_normal(url@) is Ok && hit is None ==> {
                &&& r.1 == false
                &&& settle_rel(*cfg, 0, outcomes.deep_view(), r.0@, r.2 as int)
                &&& 1 <= r.2 <= cfg.max_retries + 1
                &&& final(cache)@ == stored_cache_model(
                    old(cache)@,
                    old(cache).cap(),
                    fp,
                    r.0@,
                    cfg.cache_error,
                )
                &&& !cfg.cache_error && r.0@.status_code != 200 ==> !cache_has(
                    final(cache)@,
                    fp,
                )
                &&& cfg.cache_error || r.0@.status_code == 200 ==> cache_lookup(
                    final(cache)@,
                    fp,
                ) == Some(r.0@)
            }
        }),
{
    if url.unicode_len() == 0 {
        return (FetchResponse::empty(), false, 0);
    }
    if let Err(invalid) = validate_url(cfg, url) {
        return (invalid, false, 0);
    }
    let fp = session_fingerprint(url, fields);
    match cache.get(&fp) {
        Some(v) => {
            // an error entry can only have been written while error caching
            // was on; it is still served this once, but evicted so that the
            // next identical request attempts the network afresh
            if should_evict(cfg.cache_error, v.status_code) {
                cache.remove(&fp);
            }
            return (v, true, 0);
        },
        None => {},
    }
    let (resp, attempts): (FetchResponse, usize) = settle_with(cfg, outcomes);
    let stored = resp.clone();
    cache.put(&fp, stored);
    if should_evict(cfg.cache_error, resp.status_code) {
        proof {
            crate::cache::lemma_remove_props(cache@, fp@);
        }
        cache.remove(&fp);
    }
    (resp, false, attempts)
}

/// The run-level tallies: how many records settled as successes and how
/// many as errors.
pub struct RunCounters {
    pub success: u64,
    pub errors: u64,
}

impl RunCounters {
    /// Fresh tallies at the start of a run.
    pub fn new() -> (c: RunCounters)
        ensures
            c.success == 0,
            c.errors == 0,
    {
        RunCounters { success: 0, errors: 0 }
    }

    /// Tallies one settled record — a success exactly on status 200 — and
    /// says whether the run must stop: the error budget is positive and
    /// spent.
    pub fn record_settled(&mut self, status_code: u16, max_errors: u64) -> (abort: bool)
        requires
            old(self).success < u64::MAX,
            old(self).errors < u64::MAX,
        ensures
            status_code == 200 ==> final(self).success == old(self).success + 1
                && final(self).errors == old(self).errors,
            status_code != 200 ==> final(self).errors == old(self).errors + 1
                && final(self).success == old(self).success,
            abort == (max_errors > 0 && final(self).errors >= max_errors),
    {
        if status_code == 200 {
            self.success = self.success + 1;
        } else {
            self.errors = self.errors + 1;
        }
        max_errors > 0 && self.errors >= max_errors
    }
}

/// The line written for a record in line-delimited-JSON mode: the payload
/// itself, or an empty JSON object when the payload is blank.
pub fn jsonl_line(payload: &str) -> (r: String)
    ensures
        payload@.len() == 0 ==> r@ == "{}"@,
        payload@.len() > 0 ==> r@ == payload@,
{
    if payload.is_empty() {
        String::from_str("{}")
    } else {
        payload.to_owned()
    }
}

} // verus!
