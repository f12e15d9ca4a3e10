//! The configuration surface the engine consumes, and the startup checks
//! that reject a bad one before any record is touched.
use crate::text::{all_digits, is_digit};
use vstd::prelude::*;

verus! {

/// Why a configuration is refused at startup.
#[derive(PartialEq, Eq, Structural, Clone, Copy, Debug)]
pub enum ConfigError {
    TimeoutZero,
    TimeoutTooLarge,
    RateLimitOutOfRange,
    PrettyNeedsNewColumn,
    BadHeaderArg,
    SelectorIndexTooLarge,
}

/// The per-request knobs the fetch engine reads.
pub struct FetchConfig {
    /// Per-request timeout in seconds; checked to lie in 1..=3600.
    pub timeout_secs: u64,
    /// Retries allowed beyond the first attempt.
    pub max_retries: u8,
    /// Store an error descriptor instead of a blank value on failure.
    pub store_error: bool,
    /// Keep error responses in the cache instead of evicting them.
    pub cache_error: bool,
    /// Pretty-print JSON payloads instead of minifying them.
    pub pretty: bool,
    /// Output mode: true when responses join the existing columns, false for
    /// line-delimited JSON.
    pub include_existing_columns: bool,
    /// The JSON-selector expression, when one is configured.
    pub selector: Option<String>,
}

impl FetchConfig {
    /// The configured selector, when there is one, keeps its bracketed
    /// indexes within the machine; `check_selector` establishes this at
    /// startup.
    pub open spec fn selector_ok(&self) -> bool {
        match self.selector {
            Some(q) => digit_runs_bounded(q@),
            None => true,
        }
    }

    /// A configuration the engine may run with.
    pub open spec fn wf(&self) -> bool {
        &&& 1 <= self.timeout_secs <= 3600
        &&& self.selector_ok()
    }
}

/// No twenty consecutive digits anywhere in the text. Every bracketed index
/// a selector carries is then at most nineteen digits long and fits a
/// 64-bit machine word, so the selector engine's index conversions cannot
/// overflow.
pub open spec fn digit_runs_bounded(s: Seq<char>) -> bool {
    forall|k: int| 0 <= k && k + 20 <= s.len() ==> !all_digits(#[trigger] s.subrange(k, k + 20))
}

/// Refuses a selector that carries twenty or more consecutive digits, which
/// the selector engine could not take as an index.
pub fn check_selector(sel: &str) -> (r: Result<(), ConfigError>)
    ensures
        r is Ok <==> digit_runs_bounded(sel@),
        r is Err ==> r->Err_0 == ConfigError::SelectorIndexTooLarge,
{
    let n = sel.unicode_len();
    if n < 20 {
        return Ok(());
    }
    let mut k: usize = 0;
    while k <= n - 20
        invariant
            0 <= k <= n - 19,
            20 <= n,
            n == sel@.len(),
            forall|t: int| 0 <= t < k ==> !all_digits(#[trigger] sel@.subrange(t, t + 20)),
        decreases n - k,
    {
        let mut j: usize = k;
        let mut all: bool = true;
        while j < k + 20
            invariant
                k <= j <= k + 20,
                k + 20 <= n,
                n == sel@.len(),
                all == all_digits(sel@.subrange(k as int, j as int)),
            decreases k + 20 - j,
        {
            let c = sel.get_char(j) as u32;
            let dig = 48 <= c && c <= 57;
            proof {
                let a = sel@.subrange(k as int, j as int);
                let b = sel@.subrange(k as int, j + 1);
                assert(b.drop_last() =~= a);
                assert(b.last() == sel@[j as int]);
                if all_digits(a) && is_digit(sel@[j as int]) {
                    assert forall|m: int| 0 <= m < b.len() implies is_digit(b[m]) by {
                        if m < b.len() - 1 {
                            assert(b[m] == a[m]);
                        }
                    }
                }
                if all_digits(b) {
                    assert forall|m: int| 0 <= m < a.len() implies is_digit(a[m]) by {
                        assert(a[m] == b[m]);
                    }
                    assert(is_digit(b[b.len() - 1]));
                }
            }
            all = all && dig;
            j = j + 1;
        }
        if all {
            proof {
                assert(all_digits(sel@.subrange(k as int, k + 20)));
            }
            return Err(ConfigError::SelectorIndexTooLarge);
        }
        k = k + 1;
    }
    proof {
        assert forall|t: int| 0 <= t && t + 20 <= sel@.len() implies !all_digits(
            #[trigger] sel@.subrange(t, t + 20),
        ) by {
            assert(t < k);
        }
    }
    Ok(())
}

/// Refuses a timeout of zero or of more than an hour.
pub fn check_timeout(timeout_secs: u64) -> (r: Result<(), ConfigError>)
    ensures
        r is Ok <==> 1 <= timeout_secs <= 3600,
        timeout_secs == 0 ==> r == Result::<(), ConfigError>::Err(ConfigError::TimeoutZero),
        timeout_secs > 3600 ==> r == Result::<(), ConfigError>::Err(ConfigError::TimeoutTooLarge),
{
    if timeout_secs == 0 {
        Err(ConfigError::TimeoutZero)
    } else if timeout_secs > 3600 {
        Err(ConfigError::TimeoutTooLarge)
    } else {
        Ok(())
    }
}

/// The effective queries-per-second quota: 0 means unlimited, 1..=1000 is
/// taken as given, anything else is refused.
pub fn effective_quota(rate_limit: u32) -> (r: Result<u32, ConfigError>)
    ensures
        rate_limit == 0 ==> r == Result::<u32, ConfigError>::Ok(u32::MAX),
        1 <= rate_limit <= 1000 ==> r == Result::<u32, ConfigError>::Ok(rate_limit),
        rate_limit > 1000 ==> r == Result::<u32, ConfigError>::Err(
            ConfigError::RateLimitOutOfRange,
        ),
{
    if rate_limit == 0 {
        Ok(u32::MAX)
    } else if rate_limit <= 1000 {
        Ok(rate_limit)
    } else {
        Err(ConfigError::RateLimitOutOfRange)
    }
}

/// Pretty-printing only makes sense when responses join the existing columns.
pub fn check_pretty(pretty: bool, new_column: bool) -> (r: Result<(), ConfigError>)
    ensures
        r is Ok <==> (!pretty || new_column),
        r is Err ==> r->Err_0 == ConfigError::PrettyNeedsNewColumn,
{
    if pretty && !new_column {
        Err(ConfigError::PrettyNeedsNewColumn)
    } else {
        Ok(())
    }
}

/// How many colons a text holds.
pub open spec fn colon_count(s: Seq<char>) -> int
    decreases s.len(),
{
    if s.len() == 0 {
        0
    } else {
        colon_count(s.drop_last()) + if s.last() == ':' {
            1int
        } else {
            0int
        }
    }
}

/// Whether `c` is an ASCII blank, the kind trimmed from header arguments.
pub open spec fn is_blank(c: char) -> bool {
    c == ' ' || c == '\t'
}

/// `s` without leading and trailing ASCII blanks.
pub open spec fn trimmed(s: Seq<char>) -> Seq<char>
    decreases s.len(),
{
    if s.len() > 0 && is_blank(s[0]) {
        trimmed(s.skip(1))
    } else if s.len() > 0 && is_blank(s.last()) {
        trimmed(s.drop_last())
    } else {
        s
    }
}

fn trim_str(s: &str) -> (r: String)
    ensures
        r@ == trimmed(s@),
{
    let n = s.unicode_len();
    let mut a: usize = 0;
    let mut done: bool = false;
    while !done
        invariant
            0 <= a <= n,
            n == s@.len(),
            forall|j: int| 0 <= j < a ==> is_blank(s@[j]),
            done ==> a == n || !is_blank(s@[a as int]),
        decreases n - a + if done {
            0int
        } else {
            1int
        },
    {
        if a < n {
            let c = s.get_char(a);
            if c == ' ' || c == '\t' {
                a = a + 1;
            } else {
                done = true;
            }
        } else {
            done = true;
        }
    }
    let mut b: usize = n;
    done = false;
    while !done
        invariant
            a <= b <= n,
            n == s@.len(),
            a == n || !is_blank(s@[a as int]),
            forall|j: int| 0 <= j < a ==> is_blank(s@[j]),
            forall|j: int| b <= j < n ==> is_blank(s@[j]),
            done ==> b == a || !is_blank(s@[b - 1]),
        decreases b - a + if done {
            0int
        } else {
            1int
        },
    {
        if b > a {
            let c = s.get_char(b - 1);
            if c == ' ' || c == '\t' {
                b = b - 1;
            } else {
                done = true;
            }
        } else {
            done = true;
        }
    }
    proof {
        lemma_trimmed_frame(s@, a as int, b as int);
    }
    let r = s.substring_char(a, b).to_owned();
    r
}

/// Trimming cuts exactly the blank margin: whenever everything before `a`
/// and everything from `b` on is blank, and the ends inside are not, the
/// trimmed text is the piece between them.
proof fn lemma_trimmed_frame(s: Seq<char>, a: int, b: int)
    requires
        0 <= a <= b <= s.len(),
        forall|j: int| 0 <= j < a ==> is_blank(s[j]),
        forall|j: int| b <= j < s.len() ==> is_blank(s[j]),
        a < b ==> !is_blank(s[a]),
        a < b ==> !is_blank(s[b - 1]),
        a == b ==> a == s.len() || !is_blank(s[a]) || a == 0,
    ensures
        trimmed(s) == s.subrange(a, b),
    decreases s.len(),
{
    if s.len() == 0 {
        assert(trimmed(s) =~= s.subrange(a, b));
    } else if is_blank(s[0]) {
        assert(a > 0 || a < b && !is_blank(s[a]) || a == b);
        if a == 0 {
            if a < b {
                assert(!is_blank(s[a]));
                assert(false);
            } else {
                // a == b == 0: everything from 0 on is blank
                lemma_trimmed_frame(s.skip(1), 0, 0);
                assert(trimmed(s) == trimmed(s.skip(1)));
                assert(trimmed(s.skip(1)) =~= s.skip(1).subrange(0, 0));
                assert(trimmed(s) =~= s.subrange(a, b));
            }
        } else {
            lemma_trimmed_frame(s.skip(1), a - 1, b - 1);
            assert(s.skip(1).subrange(a - 1, b - 1) =~= s.subrange(a, b));
        }
    } else if is_blank(s.last()) {
        assert(b < s.len() || a < b && !is_blank(s[b - 1]) || a == b);
        if b == s.len() {
            if a < b {
                assert(false);
            } else {
                assert(a == b == s.len());
                assert(a == s.len() || !is_blank(s[a]) || a == 0);
                assert(0 < a < s.len() ==> is_blank(s[a]));
                assert(a == s.len() || a == 0);
                if a == 0 {
                    assert(s.len() > 0 && is_blank(s[(s.len() - 1) as int]));
                    assert(b <= 0 < s.len() ==> is_blank(s[0]));
                    assert(false);
                }
                assert(false);
            }
        } else {
            lemma_trimmed_frame(s.drop_last(), a, b);
            assert(s.drop_last().subrange(a, b) =~= s.subrange(a, b));
        }
    } else {
        // nothing to trim at either end
        assert(a == 0 || is_blank(s[0]));
        assert(a == 0);
        assert(b == s.len() || a < b && !is_blank(s[b - 1]) || a == b);
        if b < s.len() {
            assert(is_blank(s[(s.len() - 1) as int]));
            assert(false);
        }
        assert(trimmed(s) == s);
        assert(s.subrange(a, b) =~= s);
    }
}

/// Splits a `key:value` header argument at its only colon and trims both
/// sides; any other shape is refused, as a malformed argument is fatal at
/// startup.
pub fn parse_header_arg(s: &str) -> (r: Result<(String, String), ConfigError>)
    ensures
        r is Ok <==> colon_count(s@) == 1,
        r is Err ==> r->Err_0 == ConfigError::BadHeaderArg,
        r matches Ok(kv) ==> exists|p: int|
            0 <= p < s@.len() && s@[p] == ':' && kv.0@ == trimmed(s@.take(p)) && kv.1@ == trimmed(
                s@.skip(p + 1),
            ),
{
    let n = s.unicode_len();
    let mut pos: usize = 0;
    let mut found: bool = false;
    let mut count: usize = 0;
    let mut i: usize = 0;
    while i < n
        invariant
            0 <= i <= n,
            n == s@.len(),
            count == colon_count(s@.take(i as int)),
            count <= i,
            found <==> count >= 1,
            found ==> 0 <= pos < i && s@[pos as int] == ':' && colon_count(
                s@.take(pos as int),
            ) == 0,
        decreases n - i,
    {
        let c = s.get_char(i);
        proof {
            assert(s@.take(i + 1).drop_last() =~= s@.take(i as int));
        }
        if c == ':' {
            if !found {
                pos = i;
                found = true;
            }
            count = count + 1;
        }
        i = i + 1;
    }
    proof {
        assert(s@.take(n as int) =~= s@);
    }
    if count != 1 {
        return Err(ConfigError::BadHeaderArg);
    }
    let key = trim_str(s.substring_char(0, pos));
    let val = trim_str(s.substring_char(pos + 1, n));
    proof {
        assert(s@.subrange(0, pos as int) =~= s@.take(pos as int));
        assert(s@.subrange(pos + 1, n as int) =~= s@.skip(pos + 1));
        assert(0 <= pos < s@.len() && s@[pos as int] == ':' && key@ == trimmed(
            s@.take(pos as int),
        ) && val@ == trimmed(s@.skip(pos + 1)));
    }
    Ok((key, val))
}

} // verus!
