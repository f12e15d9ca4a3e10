//! Per-attempt response processing: applying the configured JSON selector or
//! formatting the payload, classifying an attempt as success or error, and
//! shaping the final stored value.
use crate::collab::{eval_selector, minify_json, minify_of, pretty_json, pretty_of, reason_of,
    status_reason};
use crate::config::FetchConfig;
use crate::response::ResponseModel;
use crate::text::{append_escaped, dec_seq, escape_seq, to_dec_string};
use vstd::prelude::*;

verus! {

/// The selector expression a configuration carries, as text.
pub open spec fn sel_of(cfg: FetchConfig) -> Option<Seq<char>> {
    match cfg.selector {
        Some(q) => Some(q@),
        None => None,
    }
}

/// What formatting a payload without a selector yields: the pretty-printed
/// or minified form, or the payload itself when the formatter rejects it.
pub open spec fn formatted_model(pretty: bool, body: Seq<char>) -> Seq<char> {
    if pretty {
        match pretty_of(body) {
            Some(p) => p,
            None => body,
        }
    } else {
        match minify_of(body) {
            Some(m) => m,
            None => body,
        }
    }
}

/// What any selector outcome must look like once shaped: a failure keeps the
/// engine's message only when errors are stored, and is blank otherwise.
/// (What the engine hands back is not a function of the texts alone — it
/// evaluates groups in parallel — so no more than this holds of every call.)
pub open spec fn selector_outcome_ok(store_error: bool, value: Seq<char>, error: bool) -> bool {
    error && !store_error ==> value == Seq::<char>::empty()
}

/// Shapes whatever the selector engine handed back: a selected value is kept
/// as is; a failure counts as an error and keeps the engine's message only
/// when errors are stored.
pub fn shape_selector_result(store_error: bool, outcome: Result<String, String>) -> (r: (
    String,
    bool,
))
    ensures
        outcome matches Ok(s) ==> r.0@ == s@ && r.1 == false,
        outcome matches Err(e) ==> r.1 == true && r.0@ == (if store_error {
            e@
        } else {
            Seq::<char>::empty()
        }),
        selector_outcome_ok(store_error, r.0@, r.1),
{
    match outcome {
        Ok(s) => (s, false),
        Err(e) => if store_error {
            (e, true)
        } else {
            (String::new(), true)
        },
    }
}

/// Applies the selector, or pretty-prints or minifies, as the configuration
/// asks; a payload the formatter rejects passes through unchanged. With a
/// selector configured, the engine decides, and the result is shaped by
/// `shape_selector_result`.
pub fn process_payload(cfg: &FetchConfig, body: &str) -> (r: (String, bool))
    requires
        cfg.selector_ok(),
    ensures
        sel_of(*cfg) is None ==> r.1 == false && r.0@ == formatted_model(cfg.pretty, body@),
        sel_of(*cfg) is Some ==> selector_outcome_ok(cfg.store_error, r.0@, r.1),
{
    match &cfg.selector {
        Some(q) => shape_selector_result(cfg.store_error, eval_selector(q.as_str(), body)),
        None => if cfg.pretty {
            match pretty_json(body) {
                Some(p) => (p, false),
                None => (body.to_owned(), false),
            }
        } else {
            match minify_json(body) {
                Some(m) => (m, false),
                None => (body.to_owned(), false),
            }
        },
    }
}

/// The error descriptor stored for an HTTP failure, when errors are stored:
/// the status in decimal and its canonical reason phrase.
pub open spec fn http_error_text(status: u16) -> Seq<char> {
    "HTTP ERROR "@ + dec_seq(status as nat) + " - "@ + match reason_of(status) {
        Some(r) => r,
        None => "unknown error"@,
    }
}

/// Renders the HTTP error descriptor for a failed status.
pub fn build_http_error_text(status: u16) -> (r: String)
    ensures
        r@ == http_error_text(status),
{
    let mut out = String::from_str("HTTP ERROR ");
    let d = to_dec_string(status as u64);
    out.append(d.as_str());
    out.append(" - ");
    match status_reason(status) {
        Some(reason) => out.append(reason.as_str()),
        None => out.append("unknown error"),
    }
    out
}

/// A structured JSON error object in the API-error shape: one entry with a
/// title and a detail, the detail JSON-escaped.
pub open spec fn json_error_body(title: Seq<char>, detail: Seq<char>) -> Seq<char> {
    "{\"errors\":[{\"title\":\""@ + title + "\",\"detail\":\""@ + escape_seq(detail) + "\"}]}"@
}

/// Builds the JSON error object for a title and a detail text.
pub fn build_json_error(title: &str, detail: &str) -> (r: String)
    ensures
        r@ == json_error_body(title@, detail@),
{
    let mut out = String::from_str("{\"errors\":[{\"title\":\"");
    out.append(title);
    out.append("\",\"detail\":\"");
    append_escaped(&mut out, detail);
    out.append("\"}]}");
    out
}

/// Whether a status classifies as an HTTP error: a 4xx or 5xx code.
pub open spec fn is_error_status(status: u16) -> bool {
    400 <= status <= 599
}

/// How one attempt classifies before throttling is considered.
pub struct AttemptClass {
    pub error: bool,
    pub status: u16,
    pub value: Seq<char>,
}

/// The value stored for a settled attempt, as the output mode and the
/// store-error flag ask: an error keeps its descriptor (plain in column
/// mode, as a JSON error object otherwise) only when errors are stored.
pub open spec fn shaped_model(
    store_error: bool,
    include_existing_columns: bool,
    c: AttemptClass,
    retries: u8,
) -> ResponseModel {
    if c.error {
        if store_error {
            if include_existing_columns {
                ResponseModel { response: c.value, status_code: c.status, retries }
            } else {
                ResponseModel {
                    response: json_error_body("HTTP ERROR"@, c.value),
                    status_code: c.status,
                    retries,
                }
            }
        } else {
            ResponseModel { response: Seq::empty(), status_code: c.status, retries }
        }
    } else {
        ResponseModel { response: c.value, status_code: c.status, retries }
    }
}

} // verus!
