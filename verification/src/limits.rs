use vstd::prelude::*;

use vstd::string::StringExecFns;

use crate::error::AppError;

verus! {

/// What the rate limiter decides for one request of a client.
pub struct RateStep {
    /// The tokens the client has left afterwards.
    pub tokens: usize,
    /// Whether the bucket was refilled, so that its clock restarts now.
    pub refilled: bool,
    /// Whether the request goes on; otherwise it is answered with
    /// `AppError::TooManyRequests`.
    pub admitted: bool,
}

/// The decision of the token bucket for a request that comes
/// `elapsed_secs` seconds after the bucket's clock last started, when the
/// client holds `tokens`: once `refill_secs` have passed the bucket is full
/// again (`max_tokens`); the request is admitted while a token is left, and
/// takes one.
pub open spec fn rate_step_spec(tokens: usize, elapsed_secs: u64, max_tokens: usize, refill_secs: u64) -> RateStep {
    let refilled = elapsed_secs >= refill_secs;
    let available = if refilled {
        max_tokens
    } else {
        tokens
    };
    if available == 0 {
        RateStep { tokens: available, refilled, admitted: false }
    } else {
        RateStep { tokens: (available - 1) as usize, refilled, admitted: true }
    }
}

/// Decides one request of a client for the rate limiter.
pub fn rate_limit_step(tokens: usize, elapsed_secs: u64, max_tokens: usize, refill_secs: u64) -> (r:
    RateStep)
    ensures
        r == rate_step_spec(tokens, elapsed_secs, max_tokens, refill_secs),
        r.refilled <==> elapsed_secs >= refill_secs,
        r.admitted <==> (if elapsed_secs >= refill_secs {
            max_tokens
        } else {
            tokens
        }) > 0,
        r.admitted ==> r.tokens == (if elapsed_secs >= refill_secs {
            max_tokens
        } else {
            tokens
        }) - 1,
        !r.admitted ==> r.tokens == 0,
{
    let refilled = elapsed_secs >= refill_secs;
    let available = if refilled {
        max_tokens
    } else {
        tokens
    };
    if available == 0 {
        RateStep { tokens: available, refilled, admitted: false }
    } else {
        RateStep { tokens: available - 1, refilled, admitted: true }
    }
}

/// What one step of the token bucket does. Once `refill_secs` have passed
/// since the bucket's clock last started (`elapsed_secs >= refill_secs`,
/// however long past), the bucket is refilled to `max_tokens` whatever was
/// left, and the request takes one of those tokens if there is one. Before
/// that, nothing is refilled: a request is admitted exactly when the client
/// holds a token, and it takes one; a refused request leaves the client
/// with none.
pub proof fn law_rate_step(tokens: usize, elapsed_secs: u64, max_tokens: usize, refill_secs: u64)
    ensures
        ({
            let r = rate_step_spec(tokens, elapsed_secs, max_tokens, refill_secs);
            &&& r.refilled <==> elapsed_secs >= refill_secs
            &&& elapsed_secs >= refill_secs ==> (r.admitted <==> max_tokens > 0)
            &&& elapsed_secs >= refill_secs && max_tokens > 0 ==> r.tokens == max_tokens - 1
            &&& elapsed_secs < refill_secs ==> (r.admitted <==> tokens > 0)
            &&& elapsed_secs < refill_secs && tokens > 0 ==> r.tokens == tokens - 1
            &&& !r.admitted ==> r.tokens == 0
        }),
{
}

/// The tokens left and the number of requests admitted after a run of
/// requests of one client, the `i`-th coming `elapsed[i]` seconds after the
/// bucket's clock last started.
pub open spec fn rate_run(tokens: usize, elapsed: Seq<u64>, max_tokens: usize, refill_secs: u64) -> (
    usize,
    nat,
)
    decreases elapsed.len(),
{
    if elapsed.len() == 0 {
        (tokens, 0)
    } else {
        let step = rate_step_spec(tokens, elapsed[0], max_tokens, refill_secs);
        let rest = rate_run(step.tokens, elapsed.drop_first(), max_tokens, refill_secs);
        (rest.0, rest.1 + if step.admitted {
            1nat
        } else {
            0nat
        })
    }
}

/// Between two refills a client gets through exactly as many requests as
/// it holds tokens, or all of them if they are fewer: of `n` requests that
/// all come before the refill time, `min(n, tokens)` are admitted.
pub proof fn lemma_admitted_between_refills(
    tokens: usize,
    elapsed: Seq<u64>,
    max_tokens: usize,
    refill_secs: u64,
)
    requires
        forall|i: int| 0 <= i < elapsed.len() ==> #[trigger] elapsed[i] < refill_secs,
    ensures
        rate_run(tokens, elapsed, max_tokens, refill_secs).1 == if elapsed.len() <= tokens {
            elapsed.len()
        } else {
            tokens as nat
        },
        rate_run(tokens, elapsed, max_tokens, refill_secs).0 == if elapsed.len() <= tokens {
            (tokens - elapsed.len()) as usize
        } else {
            0usize
        },
    decreases elapsed.len(),
{
    if elapsed.len() > 0 {
        let rest = elapsed.drop_first();
        assert(elapsed[0] < refill_secs);
        let step = rate_step_spec(tokens, elapsed[0], max_tokens, refill_secs);
        assert forall|i: int| 0 <= i < rest.len() implies #[trigger] rest[i] < refill_secs by {
            assert(rest[i] == elapsed[i + 1]);
        }
        lemma_admitted_between_refills(step.tokens, rest, max_tokens, refill_secs);
    }
}

/// The key under which the rate limiter keeps a client's bucket: the
/// client's IP address as text, or `anon` when the address is unknown.
pub fn client_key(ip: Option<String>) -> (r: String)
    ensures
        r@ == match ip {
            Some(a) => a@,
            None => "anon"@,
        },
{
    match ip {
        Some(a) => a,
        None => String::from_str("anon"),
    }
}

/// The largest upload, in bytes.
pub const MAX_UPLOAD_BYTES: usize = 10 * 1024 * 1024;

/// The byte count of an upload after a chunk of `chunk_len` bytes was
/// written to it, or `AppError::BadRequest("File too large")` once it passes
/// `MAX_UPLOAD_BYTES`.
pub fn upload_progress(total: usize, chunk_len: usize) -> (r: Result<usize, AppError>)
    requires
        total + chunk_len <= usize::MAX,
    ensures
        total + chunk_len <= MAX_UPLOAD_BYTES ==> r == Ok::<usize, AppError>((total + chunk_len) as usize),
        total + chunk_len > MAX_UPLOAD_BYTES ==> (r matches Err(AppError::BadRequest(m)) && m@
            == "File too large"@),
{
    let new_total = total + chunk_len;
    if new_total > MAX_UPLOAD_BYTES {
        Err(AppError::BadRequest(String::from_str("File too large")))
    } else {
        Ok(new_total)
    }
}

} // verus!
