//! Character-level text helpers: decimal rendering and parsing,
//! ASCII-case-insensitive comparison, and JSON string escaping.
//!
//! Everything here is stated over `Seq<char>` views; the only outside call is
//! `String::push`, wrapped below.
use vstd::prelude::*;

verus! {

/// Relies on std's `String::push`: appends the given character to the string.
#[verifier::external_body]
pub(crate) fn push_char(s: &mut String, c: char)
    ensures
        final(s)@ == old(s)@.push(c),
{
    s.push(c);
}

/// The code point of `c`, lowered if `c` is an ASCII capital letter.
pub open spec fn lower_code(c: char) -> int {
    if 65 <= c as int && c as int <= 90 {
        c as int + 32
    } else {
        c as int
    }
}

/// ASCII-case-insensitive equality of two character sequences.
pub open spec fn seq_ieq(a: Seq<char>, b: Seq<char>) -> bool {
    &&& a.len() == b.len()
    &&& forall|i: int| 0 <= i < a.len() ==> lower_code(a[i]) == lower_code(b[i])
}

/// ASCII-case-insensitive equality of two strings.
pub fn str_ieq(a: &str, b: &str) -> (r: bool)
    ensures
        r == seq_ieq(a@, b@),
{
    let alen = a.unicode_len();
    let blen = b.unicode_len();
    if alen != blen {
        return false;
    }
    let mut i: usize = 0;
    while i < alen
        invariant
            0 <= i <= alen,
            alen == a@.len(),
            alen == b@.len(),
            forall|j: int| 0 <= j < i ==> lower_code(a@[j]) == lower_code(b@[j]),
        decreases alen - i,
    {
        let ca = a.get_char(i) as u32;
        let cb = b.get_char(i) as u32;
        let la = if 65 <= ca && ca <= 90 { ca + 32 } else { ca };
        let lb = if 65 <= cb && cb <= 90 { cb + 32 } else { cb };
        if la != lb {
            return false;
        }
        i = i + 1;
    }
    true
}

/// Whether `c` is an ASCII decimal digit.
pub open spec fn is_digit(c: char) -> bool {
    48 <= c as int && c as int <= 57
}

/// The numeric value of a digit character.
pub open spec fn digit_val(c: char) -> int {
    c as int - 48
}

/// Every character of `s` is a decimal digit.
pub open spec fn all_digits(s: Seq<char>) -> bool {
    forall|i: int| 0 <= i < s.len() ==> is_digit(s[i])
}

/// The number denoted by a sequence of decimal digits, most significant first.
pub open spec fn dec_val(s: Seq<char>) -> int
    decreases s.len(),
{
    if s.len() == 0 {
        0
    } else {
        dec_val(s.drop_last()) * 10 + digit_val(s.last())
    }
}

/// The canonical decimal rendering of `n`, without leading zeros.
pub open spec fn dec_seq(n: nat) -> Seq<char>
    decreases n,
{
    if n < 10 {
        seq![(48 + n) as char]
    } else {
        dec_seq(n / 10).push((48 + n % 10) as char)
    }
}

pub proof fn lemma_dec_seq_digits(n: nat)
    ensures
        all_digits(dec_seq(n)),
        dec_seq(n).len() >= 1,
    decreases n,
{
    if n >= 10 {
        lemma_dec_seq_digits(n / 10);
        assert forall|i: int| 0 <= i < dec_seq(n).len() implies is_digit(dec_seq(n)[i]) by {
            if i < dec_seq(n).len() - 1 {
                assert(dec_seq(n)[i] == dec_seq(n / 10)[i]);
            }
        }
    }
}

/// Rendering then reading back a number gives the number itself.
pub proof fn lemma_dec_round_trip(n: nat)
    ensures
        dec_val(dec_seq(n)) == n,
    decreases n,
{
    if n < 10 {
        assert(dec_seq(n).drop_last() =~= Seq::<char>::empty());
        assert(digit_val((48 + n) as char) == n);
        assert(dec_seq(n).last() == (48 + n) as char);
        assert(dec_val(dec_seq(n)) == dec_val(dec_seq(n).drop_last()) * 10 + digit_val(
            dec_seq(n).last(),
        ));
        assert(dec_val(Seq::<char>::empty()) == 0);
    } else {
        lemma_dec_round_trip(n / 10);
        assert(dec_seq(n).drop_last() =~= dec_seq(n / 10));
        assert(dec_seq(n).last() == (48 + (n % 10)) as char);
        assert(dec_val(dec_seq(n)) == (n / 10) * 10 + (n % 10));
        assert(n == (n / 10) * 10 + (n % 10)) by (nonlinear_arith);
    }
}

fn digit_char(d: u64) -> (c: char)
    requires
        d < 10,
    ensures
        c as int == 48 + d,
{
    match d {
        0 => '0',
        1 => '1',
        2 => '2',
        3 => '3',
        4 => '4',
        5 => '5',
        6 => '6',
        7 => '7',
        8 => '8',
        _ => '9',
    }
}

/// Renders `n` in decimal, as `dec_seq` describes.
pub fn to_dec_string(n: u64) -> (r: String)
    ensures
        r@ == dec_seq(n as nat),
    decreases n,
{
    if n < 10 {
        let mut s = String::new();
        push_char(&mut s, digit_char(n));
        assert(s@ =~= dec_seq(n as nat));
        s
    } else {
        let mut s = to_dec_string(n / 10);
        push_char(&mut s, digit_char(n % 10));
        s
    }
}

/// The number a digit sequence denotes never shrinks when digits are appended.
pub proof fn lemma_dec_val_prefix_le(s: Seq<char>, i: int)
    requires
        all_digits(s),
        0 <= i <= s.len(),
    ensures
        dec_val(s.take(i)) <= dec_val(s),
        dec_val(s) >= 0,
    decreases s.len() - i,
{
    if i == s.len() {
        assert(s.take(i) =~= s);
        lemma_dec_val_nonneg(s);
    } else {
        lemma_dec_val_prefix_le(s, i + 1);
        lemma_dec_val_nonneg(s.take(i));
        assert(s.take(i + 1).drop_last() =~= s.take(i));
        assert(dec_val(s.take(i + 1)) == dec_val(s.take(i)) * 10 + digit_val(s[i]));
    }
}

proof fn lemma_dec_val_nonneg(s: Seq<char>)
    requires
        all_digits(s),
    ensures
        dec_val(s) >= 0,
    decreases s.len(),
{
    if s.len() > 0 {
        lemma_dec_val_nonneg(s.drop_last());
    }
}

/// The digit sequence of `s` with a possible single leading `+` stripped,
/// mirroring what `u64` accepts in decimal.
pub open spec fn strip_plus(s: Seq<char>) -> Seq<char> {
    if s.len() > 0 && s[0] == '+' {
        s.skip(1)
    } else {
        s
    }
}

/// Whether `s` denotes a `u64`: at least one digit after an optional `+`,
/// and a value that fits.
pub open spec fn parses_as_u64(s: Seq<char>) -> bool {
    &&& strip_plus(s).len() > 0
    &&& all_digits(strip_plus(s))
    &&& dec_val(strip_plus(s)) <= u64::MAX
}

/// The value `s` denotes, when `parses_as_u64(s)` holds.
pub open spec fn parsed_u64(s: Seq<char>) -> int {
    dec_val(strip_plus(s))
}

/// Reads a decimal `u64` the way `str::parse::<u64>` does: an optional
/// leading `+`, then one or more digits, rejecting overflow.
pub fn parse_u64(s: &str) -> (r: Option<u64>)
    ensures
        r is Some <==> parses_as_u64(s@),
        r is Some ==> r->0 == parsed_u64(s@),
{
    let n = s.unicode_len();
    let start: usize = if n > 0 && s.get_char(0) == '+' {
        1
    } else {
        0
    };
    let ghost t = strip_plus(s@);
    assert(t =~= s@.subrange(start as int, n as int));
    if start >= n {
        return None;
    }
    let mut acc: u64 = 0;
    let mut i: usize = start;
    while i < n
        invariant
            start <= i <= n,
            n == s@.len(),
            start < n,
            t == strip_plus(s@),
            t =~= s@.subrange(start as int, n as int),
            all_digits(t.take(i - start)),
            acc == dec_val(t.take(i - start)),
        decreases n - i,
    {
        let c = s.get_char(i) as u32;
        if c < 48 || c > 57 {
            assert(!is_digit(s@[i as int]));
            assert(t[i - start] == s@[i as int]);
            return None;
        }
        let d: u64 = (c - 48) as u64;
        assert(is_digit(t[i - start]) && digit_val(t[i - start]) == d);
        if acc > (u64::MAX - d) / 10 {
            // any continuation only enlarges the value, so it cannot fit
            proof {
                let full = t;
                assert(t.take(i - start + 1).drop_last() =~= t.take(i - start));
                assert(dec_val(t.take(i - start + 1)) == acc * 10 + d);
                if parses_as_u64(s@) {
                    lemma_dec_val_prefix_le(full, i - start + 1);
                }
            }
            return None;
        }
        acc = acc * 10 + d;
        assert(t.take(i - start + 1).drop_last() =~= t.take(i - start));
        i = i + 1;
    }
    assert(t.take(n - start) =~= t);
    Some(acc)
}

/// A hexadecimal digit character for a value below 16.
pub open spec fn hex_digit(d: int) -> char {
    if d < 10 {
        (48 + d) as char
    } else {
        (87 + d) as char
    }
}

fn hex_digit_char(d: u32) -> (c: char)
    requires
        d < 16,
    ensures
        c == hex_digit(d as int),
{
    match d {
        0 => '0',
        1 => '1',
        2 => '2',
        3 => '3',
        4 => '4',
        5 => '5',
        6 => '6',
        7 => '7',
        8 => '8',
        9 => '9',
        10 => 'a',
        11 => 'b',
        12 => 'c',
        13 => 'd',
        14 => 'e',
        _ => 'f',
    }
}

/// How one character appears inside a JSON string literal.
pub open spec fn esc_char(c: char) -> Seq<char> {
    if c == '"' {
        seq!['\\', '"']
    } else if c == '\\' {
        seq!['\\', '\\']
    } else if c as int == 8 {
        seq!['\\', 'b']
    } else if c as int == 12 {
        seq!['\\', 'f']
    } else if c == '\n' {
        seq!['\\', 'n']
    } else if c == '\r' {
        seq!['\\', 'r']
    } else if c == '\t' {
        seq!['\\', 't']
    } else if (c as int) < 32 {
        seq!['\\', 'u', '0', '0', hex_digit((c as int) / 16), hex_digit((c as int) % 16)]
    } else {
        seq![c]
    }
}

/// The body of a JSON string literal holding the text `s`.
pub open spec fn escape_seq(s: Seq<char>) -> Seq<char>
    decreases s.len(),
{
    if s.len() == 0 {
        Seq::empty()
    } else {
        escape_seq(s.drop_last()) + esc_char(s.last())
    }
}

/// Appends the JSON-escaped form of `s` to `out`.
pub fn append_escaped(out: &mut String, s: &str)
    ensures
        final(out)@ == old(out)@ + escape_seq(s@),
{
    let n = s.unicode_len();
    let mut i: usize = 0;
    assert(old(out)@ + escape_seq(s@.take(0)) =~= old(out)@);
    while i < n
        invariant
            0 <= i <= n,
            n == s@.len(),
            out@ == old(out)@ + escape_seq(s@.take(i as int)),
        decreases n - i,
    {
        let c = s.get_char(i);
        let u = c as u32;
        if c == '"' {
            out.append("\\\"");
            proof {
                reveal_strlit("\\\"");
            }
        } else if c == '\\' {
            out.append("\\\\");
            proof {
                reveal_strlit("\\\\");
            }
        } else if u == 8 {
            out.append("\\b");
            proof {
                reveal_strlit("\\b");
            }
        } else if u == 12 {
            out.append("\\f");
            proof {
                reveal_strlit("\\f");
            }
        } else if c == '\n' {
            out.append("\\n");
            proof {
                reveal_strlit("\\n");
            }
        } else if c == '\r' {
            out.append("\\r");
            proof {
                reveal_strlit("\\r");
            }
        } else if c == '\t' {
            out.append("\\t");
            proof {
                reveal_strlit("\\t");
            }
        } else if u < 32 {
            out.append("\\u00");
            proof {
                reveal_strlit("\\u00");
            }
            push_char(out, hex_digit_char(u / 16));
            push_char(out, hex_digit_char(u % 16));
        } else {
            push_char(out, c);
        }
        proof {
            assert(s@.take(i + 1).drop_last() =~= s@.take(i as int));
            assert(s@.take(i + 1).last() == s@[i as int]);
            assert(escape_seq(s@.take(i + 1)) == escape_seq(s@.take(i as int)) + esc_char(
                s@[i as int],
            ));
            assert(out@ =~= old(out)@ + escape_seq(s@.take(i + 1)));
        }
        i = i + 1;
    }
    assert(s@.take(n as int) =~= s@);
}

} // verus!
