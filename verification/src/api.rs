//! MediaWiki API requests: URL building, and when to try a request again.

use vstd::prelude::*;

use crate::text::{chars_of, push_all, string_from_chars};

verus! {

// ---------------------------------------------------------------------------
// Percent-encoding (the `NON_ALPHANUMERIC` set of the percent-encoding crate)
// ---------------------------------------------------------------------------

/// Upper-case hexadecimal digit of `n < 16`.
pub open spec fn hex_upper(n: nat) -> char {
    if n < 10 {
        ((48 + n) as u32) as char
    } else {
        ((55 + n) as u32) as char
    }
}

pub open spec fn is_ascii_alnum_byte(b: u8) -> bool {
    (0x30 <= b <= 0x39) || (0x41 <= b <= 0x5a) || (0x61 <= b <= 0x7a)
}

/// Every byte that is not an ASCII letter or digit written as `%XX`.
pub open spec fn percent_encode_bytes(b: Seq<u8>) -> Seq<char>
    decreases b.len(),
{
    if b.len() == 0 {
        Seq::empty()
    } else {
        (if is_ascii_alnum_byte(b[0]) {
            seq![(b[0] as u32) as char]
        } else {
            seq!['%', hex_upper((b[0] / 16) as nat), hex_upper((b[0] % 16) as nat)]
        }) + percent_encode_bytes(b.drop_first())
    }
}

/// The UTF-8 bytes of `s`, percent-encoded.
pub open spec fn percent_encoded(s: Seq<char>) -> Seq<char> {
    percent_encode_bytes(vstd::utf8::encode_utf8(s))
}

/// Percent-encodes everything but ASCII letters and digits.
///
/// Calls `percent_encoding::utf8_percent_encode` with the `NON_ALPHANUMERIC`
/// set. The crate writes each byte of the UTF-8 text that is not an ASCII
/// letter or digit as `%` and two upper-case hex digits (its
/// `percent_encode_byte` table) and copies the others; that is the claim.
#[verifier::external_body]
pub fn url_encode(s: &str) -> (res: String)
    ensures
        res@ == percent_encoded(s@),
{
    percent_encoding::utf8_percent_encode(s, percent_encoding::NON_ALPHANUMERIC).to_string()
}

/// Query parameters from the `k`-th on, as `key=value` joined by `&`, the
/// values percent-encoded.
pub open spec fn query_from(params: Seq<(Seq<char>, Seq<char>)>, k: int) -> Seq<char>
    decreases params.len() - k,
{
    if k < 0 || k >= params.len() {
        Seq::empty()
    } else {
        (if k > 0 {
            seq!['&']
        } else {
            Seq::empty()
        }) + params[k].0 + seq!['='] + percent_encoded(params[k].1) + query_from(params, k + 1)
    }
}

pub open spec fn params_view(v: Seq<(String, String)>) -> Seq<(Seq<char>, Seq<char>)> {
    v.map_values(|p: (String, String)| (p.0@, p.1@))
}

/// A request URL: the endpoint, `?`, the parameters, and `&format=json`.
pub open spec fn api_url_text(base: Seq<char>, params: Seq<(Seq<char>, Seq<char>)>) -> Seq<char> {
    base + seq!['?'] + query_from(params, 0) + "&format=json"@
}

/// Build a single API URL for the endpoint `base`.
pub fn api_url(base: &str, params: &Vec<(String, String)>) -> (res: String)
    ensures
        res@ == api_url_text(base@, params_view(params@)),
{
    let ghost pv = params_view(params@);
    let mut out = chars_of(base);
    out.push('?');
    let ghost head = out@;
    let mut k: usize = 0;
    while k < params.len()
        invariant
            pv == params_view(params@),
            k <= params@.len(),
            out@ + query_from(pv, k as int) == head + query_from(pv, 0),
        decreases params@.len() - k,
    {
        let ghost before = out@;
        assert(pv[k as int] == (params@[k as int].0@, params@[k as int].1@));
        if k > 0 {
            out.push('&');
        }
        let key = chars_of(params[k].0.as_str());
        push_all(&mut out, key.as_slice());
        out.push('=');
        let enc = url_encode(params[k].1.as_str());
        let ev = chars_of(enc.as_str());
        push_all(&mut out, ev.as_slice());
        assert(out@ + query_from(pv, k + 1) =~= before + query_from(pv, k as int));
        k = k + 1;
    }
    assert(out@ =~= out@ + query_from(pv, k as int));
    let tail = chars_of("&format=json");
    push_all(&mut out, tail.as_slice());
    string_from_chars(out.as_slice())
}


// ---------------------------------------------------------------------------
// Retrying a request
// ---------------------------------------------------------------------------

/// How many times a request is tried.
pub fn request_attempts() -> (res: u32)
    ensures
        res == 3,
{
    3
}

/// `2` to the power `n`.
pub open spec fn doubling(n: nat) -> nat
    decreases n,
{
    if n == 0 {
        1
    } else {
        2 * doubling((n - 1) as nat)
    }
}

/// The pause after a failed attempt: 200 ms, doubled for each attempt
/// before it.
pub open spec fn backoff_ms(attempt: nat) -> nat {
    200 * doubling(attempt)
}

/// An answer that asks to be tried again: too many requests, or a server
/// error.
pub open spec fn retryable_status(status: u16) -> bool {
    status == 429 || (500 <= status && status <= 599)
}

pub open spec fn success_status(status: u16) -> bool {
    200 <= status && status <= 299
}

/// What follows an attempt at a request.
pub enum AttemptOutcome {
    /// The answer is read as JSON.
    Parse,
    /// Pause this long, then try again (or give up after the last attempt).
    Retry { backoff_ms: u64 },
    /// The request failed for good.
    Fail,
}

/// What follows attempt number `attempt` (from 0) whose answer had the
/// HTTP status `status`, or none when no answer came.
pub fn after_attempt(attempt: u32, status: Option<u16>) -> (res: AttemptOutcome)
    requires
        attempt < 3,
    ensures
        match status {
            Some(s) => if success_status(s) {
                res is Parse
            } else if retryable_status(s) {
                res == AttemptOutcome::Retry { backoff_ms: backoff_ms(attempt as nat) as u64 }
            } else {
                res is Fail
            },
            None => res == AttemptOutcome::Retry { backoff_ms: backoff_ms(attempt as nat) as u64 },
        },
{
    let b: u64 = if attempt == 0 {
        200
    } else if attempt == 1 {
        400
    } else {
        800
    };
    assert(b == backoff_ms(attempt as nat)) by {
        reveal_with_fuel(doubling, 3);
    }
    match status {
        Some(s) => {
            if 200 <= s && s <= 299 {
                AttemptOutcome::Parse
            } else if s == 429 || (500 <= s && s <= 599) {
                AttemptOutcome::Retry { backoff_ms: b }
            } else {
                AttemptOutcome::Fail
            }
        },
        None => AttemptOutcome::Retry { backoff_ms: b },
    }
}

/// The rate limit a client is built with: the requested requests per
/// second, at least one.
pub fn effective_rate(req_per_sec: u32) -> (res: u32)
    ensures
        res == if req_per_sec == 0 { 1 } else { req_per_sec },
        res >= 1,
{
    if req_per_sec == 0 { 1 } else { req_per_sec }
}

} // verus!
