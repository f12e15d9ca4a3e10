//! Response headers as plain name/value pairs, with the case-insensitive
//! lookup and the primary/fallback resolution that throttling needs.
use crate::text::{parse_u64, parsed_u64, parses_as_u64, seq_ieq, str_ieq};
use vstd::prelude::*;

verus! {

/// One response header, as handed back by the HTTP client.
pub struct HeaderEntry {
    pub name: String,
    pub value: String,
}

impl View for HeaderEntry {
    type V = (Seq<char>, Seq<char>);

    open spec fn view(&self) -> (Seq<char>, Seq<char>) {
        (self.name@, self.value@)
    }
}

impl DeepView for HeaderEntry {
    type V = (Seq<char>, Seq<char>);

    open spec fn deep_view(&self) -> (Seq<char>, Seq<char>) {
        self.view()
    }
}

/// The value of the first header whose name matches `name`, ignoring ASCII
/// case, as `HeaderMap` lookups do.
pub open spec fn lookup(h: Seq<(Seq<char>, Seq<char>)>, name: Seq<char>) -> Option<Seq<char>>
    decreases h.len(),
{
    if h.len() == 0 {
        None
    } else if seq_ieq(h[0].0, name) {
        Some(h[0].1)
    } else {
        lookup(h.skip(1), name)
    }
}

/// Whether some header matches `name`, ignoring ASCII case.
pub open spec fn has_header(h: Seq<(Seq<char>, Seq<char>)>, name: Seq<char>) -> bool {
    lookup(h, name) is Some
}

/// Finds the first header named `name` (ASCII-case-insensitively) and hands
/// its value back.
pub fn find_header(headers: &Vec<HeaderEntry>, name: &str) -> (r: Option<String>)
    ensures
        match r {
            Some(v) => lookup(headers.deep_view(), name@) == Some(v@),
            None => lookup(headers.deep_view(), name@) is None,
        },
{
    let n = headers.len();
    let mut i: usize = 0;
    proof {
        assert(headers.deep_view().skip(0) =~= headers.deep_view());
    }
    while i < n
        invariant
            0 <= i <= n,
            n == headers.len(),
            lookup(headers.deep_view(), name@) == lookup(headers.deep_view().skip(i as int), name@),
        decreases n - i,
    {
        proof {
            assert(headers.deep_view().skip(i as int)[0] == headers[i as int]@);
        }
        if str_ieq(headers[i].name.as_str(), name) {
            let v = headers[i].value.clone();
            return Some(v);
        }
        proof {
            assert(headers.deep_view().skip(i as int).skip(1) =~= headers.deep_view().skip(
                i + 1,
            ));
        }
        i = i + 1;
    }
    proof {
        assert(headers.deep_view().skip(n as int) =~= Seq::<(Seq<char>, Seq<char>)>::empty());
    }
    None
}

/// The header value to use for one throttling quantity: the primary name,
/// else its `x-` twin.
pub open spec fn pair_lookup(
    h: Seq<(Seq<char>, Seq<char>)>,
    primary: Seq<char>,
    fallback: Seq<char>,
) -> Option<Seq<char>> {
    match lookup(h, primary) {
        Some(v) => Some(v),
        None => lookup(h, fallback),
    }
}

/// Resolves a primary/fallback header pair to a value.
pub fn find_pair(headers: &Vec<HeaderEntry>, primary: &str, fallback: &str) -> (r: Option<String>)
    ensures
        match r {
            Some(v) => pair_lookup(headers.deep_view(), primary@, fallback@) == Some(v@),
            None => pair_lookup(headers.deep_view(), primary@, fallback@) is None,
        },
{
    match find_header(headers, primary) {
        Some(v) => Some(v),
        None => find_header(headers, fallback),
    }
}

/// The number a header value denotes, with `fallback` standing in when the
/// value is not a decimal `u64`, as the header readings below want it.
pub open spec fn header_num(v: Seq<char>, fallback: int) -> int {
    if parses_as_u64(v) {
        parsed_u64(v)
    } else {
        fallback
    }
}

/// Parses a header value as a decimal `u64`, falling back when it does not
/// parse.
pub fn parse_header_num(v: &String, fallback: u64) -> (r: u64)
    ensures
        r == header_num(v@, fallback as int),
{
    match parse_u64(v.as_str()) {
        Some(n) => n,
        None => fallback,
    }
}

} // verus!
