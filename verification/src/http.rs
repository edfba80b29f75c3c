//! The retry policy shared by the network clients: which answers are retried, and how long
//! to wait before the next attempt.
use vstd::prelude::*;
use crate::text::{chars_of, parse_u64, parse_unsigned};

verus! {

/// Backoff in milliseconds before retry `attempt` (1-based): 200ms, then 800ms, plus a
/// sub-100ms jitter taken from the clock's sub-second nanoseconds.
pub fn retry_wait_ms(attempt: u32, subsec_nanos: u32) -> (r: u64)
    ensures
        r == (if attempt <= 1 { 200int } else { 800int }) + (subsec_nanos % 100) as int,
{
    let base: u64 = if attempt <= 1 { 200 } else { 800 };
    base + (subsec_nanos % 100) as u64
}

/// Reads the sub-second nanoseconds of the wall clock (`SystemTime::now` since the Unix
/// epoch; 0 when the clock is before it). The value depends on the time; the contract states
/// what holds of every outcome.
#[verifier::external_body]
fn clock_subsec_nanos() -> (r: u32)
    ensures
        r < 1_000_000_000,
{
    std::time::SystemTime::now().duration_since(std::time::UNIX_EPOCH).map(|d| d.subsec_nanos()).unwrap_or(0)
}

/// Backoff in milliseconds before retry `attempt`: 200 then 800, plus a clock jitter below
/// 100 so concurrent hunts do not march in step.
pub fn retry_wait(attempt: u32) -> (r: u64)
    ensures
        (if attempt <= 1 { 200int } else { 800int }) <= r < (if attempt <= 1 { 300int } else { 900int }),
{
    retry_wait_ms(attempt, clock_subsec_nanos())
}

/// Too many requests, or a server error.
pub open spec fn retryable(status: u16) -> bool {
    status == 429 || (500 <= status && status <= 599)
}

pub fn is_retryable(status: u16) -> (r: bool)
    ensures
        r == retryable(status),
{
    status == 429 || (500 <= status && status <= 599)
}

/// The wait a `Retry-After` header asks for, in whole seconds, capped at 30 and given in
/// milliseconds; `None` when it is absent or not a number of seconds.
pub open spec fn asked_wait(header: Option<Seq<char>>) -> Option<nat> {
    match header {
        Some(h) => match parse_unsigned(h, u64::MAX as nat) {
            Some(s) => Some((if s < 30 { s } else { 30 }) * 1000),
            None => None,
        },
        None => None,
    }
}

pub fn retry_after_ms(header: Option<&str>) -> (r: Option<u64>)
    ensures
        match asked_wait(crate::dlna::http::opt_text(header)) {
            Some(w) => r == Some(w as u64),
            None => r is None,
        },
{
    match header {
        Some(h) => match parse_u64(chars_of(h).as_slice()) {
            Some(s) => Some((if s < 30 { s } else { 30 }) * 1000),
            None => None,
        },
        None => None,
    }
}

/// After an answer with `status` on attempt `attempt` of `attempts`: the wait before the next
/// attempt, or `None` to return the answer as it is. Only retryable answers are retried, and
/// never past the last attempt; `Retry-After` is honoured, else the backoff ladder.
pub fn after_status(status: u16, attempt: u32, attempts: u32, retry_after: Option<&str>) -> (r: Option<u64>)
    ensures
        !(retryable(status) && attempt < attempts) ==> r is None,
        retryable(status) && attempt < attempts ==> match asked_wait(crate::dlna::http::opt_text(retry_after)) {
            Some(w) => r == Some(w as u64),
            None => r matches Some(w) && (if attempt <= 1 { 200int } else { 800int }) <= w
                < (if attempt <= 1 { 300int } else { 900int }),
        },
{
    if !(is_retryable(status) && attempt < attempts) {
        return None;
    }
    match retry_after_ms(retry_after) {
        Some(w) => Some(w),
        None => Some(retry_wait(attempt)),
    }
}

/// After a transport failure: a timeout is retried (with the backoff ladder) only when the
/// request is safe to repeat and attempts remain; anything else fails.
pub fn after_transport_error(is_timeout: bool, retry_on_timeout: bool, attempt: u32, attempts: u32) -> (r: bool)
    ensures
        r == (is_timeout && retry_on_timeout && attempt < attempts),
{
    is_timeout && retry_on_timeout && attempt < attempts
}

pub open spec fn pow2(n: nat) -> nat
    decreases n,
{
    if n == 0 { 1 } else { 2 * pow2((n - 1) as nat) }
}

proof fn lemma_pow2_mono(n: nat, m: nat)
    requires
        n <= m,
    ensures
        pow2(n) <= pow2(m),
    decreases m,
{
    if n < m {
        lemma_pow2_mono(n, (m - 1) as nat);
    }
}

/// The metadata and language-model clients' wait before the next attempt, in milliseconds:
/// `base_ms` doubled per attempt so far, or the `Retry-After` seconds when longer.
pub fn provider_wait_ms(base_ms: u64, attempt: u32, retry_after: Option<&str>) -> (r: u128)
    requires
        1 <= attempt <= 32,
    ensures
        r as int == (match crate::dlna::http::opt_text(retry_after) {
            Some(h) => match parse_unsigned(h, u64::MAX as nat) {
                Some(s) => if s * 1000 > base_ms * pow2((attempt - 1) as nat) { (s * 1000) as int } else { base_ms * pow2((attempt - 1) as nat) },
                None => base_ms * pow2((attempt - 1) as nat),
            },
            None => base_ms * pow2((attempt - 1) as nat),
        }),
{
    let mut f: u128 = 1;
    let mut k: u32 = 1;
    while k < attempt
        invariant
            1 <= k <= attempt <= 32,
            f == pow2((k - 1) as nat),
            f <= 0x1_0000_0000,
        decreases attempt - k,
    {
        proof {
            lemma_pow2_mono(k as nat, 31);
            assert(pow2(31) == 0x8000_0000) by {
                reveal_with_fuel(pow2, 32);
            }
        }
        f = f * 2;
        k = k + 1;
    }
    assert(base_ms * f <= 0xFFFF_FFFF_FFFF_FFFF * 0x1_0000_0000) by (nonlinear_arith)
        requires base_ms <= 0xFFFF_FFFF_FFFF_FFFF, f <= 0x1_0000_0000;
    let backoff: u128 = (base_ms as u128) * f;
    let asked = match retry_after {
        Some(h) => parse_u64(chars_of(h).as_slice()),
        None => None,
    };
    match asked {
        Some(s) => {
            let w = (s as u128) * 1000;
            if w > backoff { w } else { backoff }
        },
        None => backoff,
    }
}

} // verus!
