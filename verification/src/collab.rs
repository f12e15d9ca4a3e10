//! The outside collaborators the engine computes with: URL normalization,
//! the JSON-selector engine, the JSON formatter, the reason phrases of HTTP
//! status codes, and the retry jitter. Each is reached through one trusted
//! wrapper; what a call returns is named by an uninterpreted function of its
//! text inputs wherever the result is a function of them alone.
use vstd::prelude::*;

verus! {

/// What parsing a URL yields: its normalized absolute form when the text is
/// a valid URL, else the parser's error message.
pub uninterp spec fn url_normal(s: Seq<char>) -> Result<Seq<char>, Seq<char>>;

/// Relies on url's `Url::parse` and the `Display` of `Url` and of its parse
/// error: parsing either rejects the text with a message or yields its
/// normalized absolute form, and both are functions of the text alone.
#[verifier::external_body]
pub(crate) fn parse_url(s: &str) -> (r: Result<String, String>)
    ensures
        match r {
            Ok(u) => url_normal(s@) == Ok::<Seq<char>, Seq<char>>(u@),
            Err(e) => url_normal(s@) == Err::<Seq<char>, Seq<char>>(e@),
        },
{
    match url::Url::parse(s) {
        Ok(u) => Ok(u.to_string()),
        Err(e) => Err(e.to_string()),
    }
}

/// Relies on serde_json's `from_str` and `to_string` and on jql's `walker`
/// (which compiles the selector and walks the value). The walker converts
/// each bracketed index with an unchecked machine-word parse, so selectors
/// with twenty or more consecutive digits are left out by `requires`; the
/// startup check establishes the bound. The walker also runs the selector's
/// groups in parallel, so which error text comes back — and, for object
/// selections, the key order of the result — can vary between calls on the
/// same inputs: nothing is promised here, and the callers take the observed
/// result as given.
#[verifier::external_body]
pub(crate) fn eval_selector(sel: &str, payload: &str) -> Result<String, String>
    requires
        crate::config::digit_runs_bounded(sel@),
{
    let v: serde_json::Value = match serde_json::from_str(payload) {
        Ok(v) => v,
        Err(e) => return Err(e.to_string()),
    };
    match jql::walker(&v, sel) {
        Ok(serde_json::Value::String(s)) => Ok(s),
        Ok(other) => Ok(other.to_string()),
        Err(e) => Err(e),
    }
}

/// The pretty-printed form of a JSON text, when the formatter accepts it.
pub uninterp spec fn pretty_of(s: Seq<char>) -> Option<Seq<char>>;

/// Relies on jsonxf's `pretty_print`: a reformatting that depends on the text
/// alone.
#[verifier::external_body]
pub(crate) fn pretty_json(s: &str) -> (r: Option<String>)
    ensures
        match r {
            Some(p) => pretty_of(s@) == Some(p@),
            None => pretty_of(s@) is None,
        },
{
    jsonxf::pretty_print(s).ok()
}

/// The minified form of a JSON text, when the formatter accepts it.
pub uninterp spec fn minify_of(s: Seq<char>) -> Option<Seq<char>>;

/// Relies on jsonxf's `minimize`: a reformatting that depends on the text
/// alone.
#[verifier::external_body]
pub(crate) fn minify_json(s: &str) -> (r: Option<String>)
    ensures
        match r {
            Some(m) => minify_of(s@) == Some(m@),
            None => minify_of(s@) is None,
        },
{
    jsonxf::minimize(s).ok()
}

/// The canonical reason phrase of an HTTP status code, where one exists.
pub uninterp spec fn reason_of(code: u16) -> Option<Seq<char>>;

/// Relies on `StatusCode::from_u16` and `StatusCode::canonical_reason` of the
/// http crate, as reqwest re-exports them: the reason phrase is a function of
/// the numeric code alone.
#[verifier::external_body]
pub(crate) fn status_reason(code: u16) -> (r: Option<String>)
    ensures
        match r {
            Some(v) => reason_of(code) == Some(v@),
            None => reason_of(code) is None,
        },
{
    match reqwest::StatusCode::from_u16(code) {
        Ok(s) => s.canonical_reason().map(|t| t.to_string()),
        Err(_) => None,
    }
}

/// Relies on rand's `thread_rng` and `Rng::gen_range`: a draw from the
/// half-open range 10..30. Which number comes back is chance, so only the
/// bounds are stated.
#[verifier::external_body]
pub(crate) fn jitter_ms() -> (r: u64)
    ensures
        10 <= r < 30,
{
    rand::Rng::gen_range(&mut rand::thread_rng(), 10..30)
}

} // verus!
