//! The wire form of a settled response for the distributed cache: status,
//! retries and payload length in decimal, then the payload itself. Reading
//! back what was written yields the original exactly; anything else is a
//! deserialization failure, which the operator must treat as fatal.
use crate::response::{FetchResponse, ResponseModel};
use crate::text::{all_digits, dec_seq, dec_val, is_digit, lemma_dec_round_trip,
    lemma_dec_seq_digits, push_char, to_dec_string};
use vstd::prelude::*;

verus! {

/// A stored value that could not be read back.
#[derive(PartialEq, Eq, Structural, Clone, Copy, Debug)]
pub enum CacheDecodeError {
    Malformed,
}

/// The encoded form: `status retries length payload`, the numbers in
/// decimal.
pub open spec fn enc_model(rm: ResponseModel) -> Seq<char> {
    dec_seq(rm.status_code as nat) + seq![' '] + dec_seq(rm.retries as nat) + seq![' ']
        + dec_seq(rm.response.len() as nat) + seq![' '] + rm.response
}

/// How many digits the text opens with.
pub open spec fn digit_prefix_len(s: Seq<char>) -> int
    decreases s.len(),
{
    if s.len() == 0 || !is_digit(s[0]) {
        0
    } else {
        1 + digit_prefix_len(s.skip(1))
    }
}

/// Reads one number off the front: at least one digit, a value that fits a
/// machine word, and a blank after it; hands back the value and the rest.
pub open spec fn split_num(s: Seq<char>) -> Option<(int, Seq<char>)> {
    let d = digit_prefix_len(s);
    if d >= 1 && d < s.len() && s[d] == ' ' && dec_val(s.take(d)) <= u64::MAX {
        Some((dec_val(s.take(d)), s.skip(d + 1)))
    } else {
        None
    }
}

/// What a stored text decodes to: the three numbers in range, and a payload
/// of exactly the announced length.
pub open spec fn dec_model(s: Seq<char>) -> Option<ResponseModel> {
    match split_num(s) {
        None => None,
        Some((status, s1)) => if status > u16::MAX {
            None
        } else {
            match split_num(s1) {
                None => None,
                Some((retries, s2)) => if retries > u8::MAX {
                    None
                } else {
                    match split_num(s2) {
                        None => None,
                        Some((len, s3)) => if s3.len() == len {
                            Some(
                                ResponseModel {
                                    response: s3,
                                    status_code: status as u16,
                                    retries: retries as u8,
                                },
                            )
                        } else {
                            None
                        },
                    }
                },
            }
        },
    }
}

/// Writes a response in the wire form.
pub fn encode_response(r: &FetchResponse) -> (s: String)
    ensures
        s@ == enc_model(r@),
{
    let mut out = to_dec_string(r.status_code as u64);
    push_char(&mut out, ' ');
    let d1 = to_dec_string(r.retries as u64);
    out.append(d1.as_str());
    push_char(&mut out, ' ');
    let d2 = to_dec_string(r.response.as_str().unicode_len() as u64);
    out.append(d2.as_str());
    push_char(&mut out, ' ');
    out.append(r.response.as_str());
    proof {
        assert(out@ =~= enc_model(r@));
    }
    out
}

/// The digit prefix of all-digit text followed by a non-digit is exactly
/// that text.
pub proof fn lemma_digit_prefix_concat(s: Seq<char>, rest: Seq<char>)
    requires
        all_digits(s),
        rest.len() > 0,
        !is_digit(rest[0]),
    ensures
        digit_prefix_len(s + rest) == s.len(),
    decreases s.len(),
{
    if s.len() == 0 {
        assert(s + rest =~= rest);
    } else {
        assert(is_digit((s + rest)[0]));
        assert((s + rest).skip(1) =~= s.skip(1) + rest);
        assert(all_digits(s.skip(1)));
        lemma_digit_prefix_concat(s.skip(1), rest);
    }
}

/// Reading a number off an encoded `number blank rest` text yields the
/// number and the rest.
proof fn lemma_split_enc(n: nat, rest: Seq<char>)
    requires
        n <= u64::MAX,
    ensures
        split_num(dec_seq(n) + seq![' '] + rest) == Some((n as int, rest)),
{
    let s = dec_seq(n) + seq![' '] + rest;
    lemma_dec_seq_digits(n);
    assert(!is_digit(' '));
    assert((seq![' '] + rest).len() > 0 && (seq![' '] + rest)[0] == ' ');
    assert(s =~= dec_seq(n) + (seq![' '] + rest));
    lemma_digit_prefix_concat(dec_seq(n), seq![' '] + rest);
    let d = digit_prefix_len(s);
    assert(d == dec_seq(n).len());
    assert(s[d] == ' ');
    assert(s.take(d) =~= dec_seq(n));
    lemma_dec_round_trip(n);
    assert(s.skip(d + 1) =~= rest);
}

/// Round trip: decoding an encoded response yields the response itself, for
/// any response a machine can hold.
pub proof fn lemma_codec_round_trip(rm: ResponseModel)
    requires
        rm.response.len() <= u64::MAX,
    ensures
        dec_model(enc_model(rm)) == Some(rm),
{
    let rest2 = dec_seq(rm.response.len() as nat) + seq![' '] + rm.response;
    let rest1 = dec_seq(rm.retries as nat) + seq![' '] + rest2;
    assert(enc_model(rm) =~= dec_seq(rm.status_code as nat) + seq![' '] + rest1);
    lemma_split_enc(rm.status_code as nat, rest1);
    lemma_split_enc(rm.retries as nat, rest2);
    lemma_split_enc(rm.response.len() as nat, rm.response);
}

/// The region the digit prefix spans holds digits alone.
proof fn lemma_digit_prefix_digits(s: Seq<char>)
    ensures
        0 <= digit_prefix_len(s) <= s.len(),
        all_digits(s.take(digit_prefix_len(s))),
        digit_prefix_len(s) < s.len() ==> !is_digit(s[digit_prefix_len(s)]),
    decreases s.len(),
{
    if s.len() == 0 || !is_digit(s[0]) {
    } else {
        lemma_digit_prefix_digits(s.skip(1));
        let d = digit_prefix_len(s);
        assert(d == 1 + digit_prefix_len(s.skip(1)));
        assert(s.take(d).skip(1) =~= s.skip(1).take(d - 1));
        assert forall|j: int| 0 <= j < d implies is_digit(s.take(d)[j]) by {
            if j == 0 {
            } else {
                assert(s.take(d)[j] == s.skip(1).take(d - 1)[j - 1]);
            }
        }
        if d < s.len() {
            assert(s[d] == s.skip(1)[d - 1]);
        }
    }
}

/// Reads one decimal number and the blank after it, from `start` on;
/// nothing is read when the text there does not open with `number blank`.
fn read_num(s: &str, start: usize) -> (r: Option<(u64, usize)>)
    requires
        start <= s@.len(),
    ensures
        match r {
            Some(p) => split_num(s@.skip(start as int)) == Some(
                (p.0 as int, s@.skip(p.1 as int)),
            ) && start < p.1 <= s@.len(),
            None => split_num(s@.skip(start as int)) is None,
        },
{
    let ghost t = s@.skip(start as int);
    let n = s.unicode_len();
    let mut i: usize = start;
    let mut acc: u64 = 0;
    proof {
        lemma_digit_prefix_digits(t);
    }
    let ghost dp = digit_prefix_len(t);
    let mut done: bool = false;
    while !done && i < n
        invariant
            start <= i <= n,
            n == s@.len(),
            t == s@.skip(start as int),
            dp == digit_prefix_len(t),
            0 <= dp <= t.len(),
            all_digits(t.take(dp)),
            dp < t.len() ==> !is_digit(t[dp]),
            i - start <= dp,
            forall|j: int| 0 <= j < i - start ==> is_digit(t[j]),
            acc == dec_val(t.take(i - start)),
            done ==> i - start == dp,
        decreases n - i + if done {
            0int
        } else {
            1int
        },
    {
        let c = s.get_char(i) as u32;
        proof {
            assert(t[i - start] == s@[i as int]);
        }
        if c < 48 || c > 57 {
            proof {
                assert(!is_digit(t[i - start]));
                lemma_prefix_stops(t, i - start);
            }
            done = true;
        } else {
            let d: u64 = (c - 48) as u64;
            proof {
                assert(is_digit(t[i - start]) && crate::text::digit_val(t[i - start]) == d);
                assert(t.take(i - start + 1).drop_last() =~= t.take(i - start));
            }
            if acc > (u64::MAX - d) / 10 {
                // the number cannot fit, so the whole read fails
                proof {
                    assert(dec_val(t.take(i - start + 1)) == acc * 10 + d);
                    assert(i - start + 1 <= dp) by {
                        assert(is_digit(t[i - start]));
                        if i - start == dp {
                            assert(false);
                        }
                    }
                    crate::text::lemma_dec_val_prefix_le(t.take(dp), i - start + 1);
                    assert(dec_val(t.take(dp).take(i - start + 1)) == dec_val(
                        t.take(i - start + 1),
                    )) by {
                        assert(t.take(dp).take(i - start + 1) =~= t.take(i - start + 1));
                    }
                    assert(dec_val(t.take(dp)) > u64::MAX);
                }
                return None;
            }
            acc = acc * 10 + d;
            i = i + 1;
            proof {
                assert(i - start <= dp) by {
                    assert(is_digit(t[i - 1 - start]));
                    if i - 1 - start == dp {
                        assert(false);
                    }
                }
            }
        }
    }
    proof {
        if !done {
            assert(i == n);
            assert(i - start == t.len());
            assert(dp == t.len()) by {
                if dp < t.len() {
                    assert(is_digit(t[dp]));
                }
            }
        }
        assert(i - start == dp);
    }
    // a valid read needs at least one digit and a blank after the number
    if i == start {
        proof {
            assert(digit_prefix_len(t) == 0);
        }
        return None;
    }
    if i >= n {
        return None;
    }
    let c = s.get_char(i);
    if c != ' ' {
        proof {
            assert(t[dp] == s@[i as int]);
        }
        return None;
    }
    proof {
        assert(t[dp] == ' ');
        assert(t.skip(dp + 1) =~= s@.skip(i + 1));
    }
    Some((acc, i + 1))
}

/// Reads a stored value back; a text that is not the wire form of a
/// response is refused, and the caller must treat that as fatal.
pub fn decode_response(s: &str) -> (r: Result<FetchResponse, CacheDecodeError>)
    ensures
        r matches Ok(v) ==> dec_model(s@) == Some(v@),
        r is Err ==> dec_model(s@) is None,
{
    proof {
        assert(s@.skip(0) =~= s@);
    }
    let (status64, p1) = match read_num(s, 0) {
        Some(p) => p,
        None => {
            return Err(CacheDecodeError::Malformed);
        },
    };
    if status64 > 65535 {
        return Err(CacheDecodeError::Malformed);
    }
    let (retries64, p2) = match read_num(s, p1) {
        Some(p) => p,
        None => {
            return Err(CacheDecodeError::Malformed);
        },
    };
    if retries64 > 255 {
        return Err(CacheDecodeError::Malformed);
    }
    let (len64, p3) = match read_num(s, p2) {
        Some(p) => p,
        None => {
            return Err(CacheDecodeError::Malformed);
        },
    };
    let n = s.unicode_len();
    if (n - p3) as u64 != len64 {
        return Err(CacheDecodeError::Malformed);
    }
    let payload = s.substring_char(p3, n).to_owned();
    proof {
        assert(s@.subrange(p3 as int, n as int) =~= s@.skip(p3 as int));
    }
    Ok(FetchResponse { response: payload, status_code: status64 as u16, retries: retries64 as u8 })
}

/// Where the first non-digit stands, the digit prefix ends.
proof fn lemma_prefix_stops(t: Seq<char>, d: int)
    requires
        0 <= d <= t.len(),
        forall|j: int| 0 <= j < d ==> is_digit(t[j]),
        d < t.len() ==> !is_digit(t[d]),
    ensures
        digit_prefix_len(t) == d,
    decreases d,
{
    if d == 0 {
        if t.len() > 0 {
            assert(!is_digit(t[0]));
        }
    } else {
        assert(is_digit(t[0]));
        assert forall|j: int| 0 <= j < d - 1 implies is_digit(t.skip(1)[j]) by {
            assert(t.skip(1)[j] == t[j + 1]);
        }
        assert(d - 1 < t.skip(1).len() ==> !is_digit(t.skip(1)[d - 1]));
        lemma_prefix_stops(t.skip(1), d - 1);
    }
}

} // verus!
