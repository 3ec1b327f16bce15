//! Bounded retries with exponential backoff.
//!
//! Waits start at a fixed base, double after every failure, and are capped
//! at a fixed ceiling.  Waiting itself is the host's business (a real
//! suspension, never a spin); this module decides how often to try and how
//! long each wait is, and is exercised here against a script of per-attempt
//! outcomes.

use vstd::prelude::*;

use crate::util;

verus! {

/// The first wait after a failure, in milliseconds.
pub const BASE_DELAY_MS: u64 = 100;

/// The longest wait between attempts, in milliseconds.
pub const MAX_DELAY_MS: u64 = 5000;

/// The wait after the failure of attempt `i` (counting from zero): the base
/// delay doubled `i` times, capped at the ceiling.
pub open spec fn delay_after(i: nat) -> u64
    decreases i,
{
    if i == 0 {
        BASE_DELAY_MS
    } else if 2 * delay_after((i - 1) as nat) > MAX_DELAY_MS {
        MAX_DELAY_MS
    } else {
        (2 * delay_after((i - 1) as nat)) as u64
    }
}

/// The total wait across the first `k` failures.
pub open spec fn backoff_wait_sum(k: nat) -> nat
    decreases k,
{
    if k == 0 {
        0
    } else {
        (backoff_wait_sum((k - 1) as nat) + delay_after((k - 1) as nat)) as nat
    }
}

/// Each wait is the doubling sequence value capped at the ceiling.
pub proof fn lemma_delay_closed_form(i: nat)
    ensures
        delay_after(i) == if BASE_DELAY_MS * vstd::arithmetic::power2::pow2(i) > MAX_DELAY_MS {
            MAX_DELAY_MS as int
        } else {
            BASE_DELAY_MS * vstd::arithmetic::power2::pow2(i)
        },
        delay_after(i) <= MAX_DELAY_MS,
    decreases i,
{
    vstd::arithmetic::power2::lemma2_to64();
    if i > 0 {
        lemma_delay_closed_form((i - 1) as nat);
        vstd::arithmetic::power2::lemma_pow2_unfold(i);
        assert(vstd::arithmetic::power2::pow2(i) == 2 * vstd::arithmetic::power2::pow2(
            (i - 1) as nat,
        ));
    }
}

/// No sequence of waits outruns the ceiling times the attempt count.
pub proof fn lemma_backoff_wait_sum_bound(k: nat)
    ensures
        backoff_wait_sum(k) <= k * MAX_DELAY_MS,
    decreases k,
{
    if k > 0 {
        lemma_backoff_wait_sum_bound((k - 1) as nat);
        lemma_delay_closed_form((k - 1) as nat);
        assert((k - 1) * MAX_DELAY_MS + MAX_DELAY_MS == k * MAX_DELAY_MS) by (nonlinear_arith);
    }
}

/// The number of failures before the first success among the first `bound`
/// outcomes (`bound` when there is none).
pub open spec fn leading_failures(script: Seq<Result<u64, Seq<char>>>, bound: nat) -> nat
    decreases bound,
{
    if bound == 0 {
        0
    } else if script.len() == 0 {
        0
    } else if script[0] is Ok {
        0
    } else {
        1 + leading_failures(script.drop_first(), (bound - 1) as nat)
    }
}

/// How a retried operation ended.
#[derive(Debug)]
pub enum RetryOutcome {
    /// The operation succeeded on some attempt.
    Success { value: u64, attempts: u8, waited_ms: u64 },
    /// Every allowed attempt failed.
    GaveUp { attempts: u8, waited_ms: u64, message: String },
}

/// The view of one scripted attempt outcome.
pub open spec fn attempt_view(r: Result<u64, String>) -> Result<u64, Seq<char>> {
    match r {
        Ok(v) => Ok(v),
        Err(s) => Err(s@),
    }
}

/// The message reported when every attempt failed.
pub open spec fn gave_up_message(max_attempts: u8, last_error: Seq<char>) -> Seq<char> {
    "Operation failed after "@ + util::dec_digits(max_attempts as nat) + " retries: "@
        + last_error
}

/// Runs an operation, scripted by its per-attempt outcomes, under the
/// backoff policy: after each failure but the last allowed one, wait the
/// next delay of the doubling sequence; stop at the first success.
///
/// With `k` leading failures and `k < max_attempts`, this succeeds after
/// `k + 1` attempts having waited the sum of the first `k` capped doubling
/// delays; otherwise it gives up after `max_attempts` attempts.
pub fn retry_with_backoff_scripted(script: &Vec<Result<u64, String>>, max_attempts: u8) -> (r:
    RetryOutcome)
    requires
        max_attempts >= 1,
        script@.len() >= max_attempts,
    ensures
        ({
            let k = leading_failures(script@.map_values(|a: Result<u64, String>| attempt_view(a)), max_attempts as nat);
            if k < max_attempts {
                &&& r matches RetryOutcome::Success { value, attempts, waited_ms }
                &&& Ok::<u64, Seq<char>>(value) == attempt_view(script@[k as int])
                &&& attempts == k + 1
                &&& waited_ms == backoff_wait_sum(k)
            } else {
                &&& r matches RetryOutcome::GaveUp { attempts, waited_ms, message }
                &&& attempts == max_attempts
                &&& waited_ms == backoff_wait_sum((max_attempts - 1) as nat)
                &&& attempt_view(script@[max_attempts - 1]) matches Err(e)
                &&& message@ == gave_up_message(max_attempts, e)
            }
        }),
{
    let ghost views = script@.map_values(|a: Result<u64, String>| attempt_view(a));
    let mut attempt: u8 = 0;
    let mut waited: u64 = 0;
    let mut delay: u64 = BASE_DELAY_MS;
    loop
        invariant
            views == script@.map_values(|a: Result<u64, String>| attempt_view(a)),
            script@.len() >= max_attempts,
            1 <= max_attempts,
            0 <= attempt < max_attempts,
            delay == delay_after(attempt as nat),
            waited == backoff_wait_sum(attempt as nat),
            leading_failures(views, max_attempts as nat) >= attempt,
            forall|q: int| 0 <= q < attempt ==> views[q] is Err,
        decreases max_attempts - attempt,
    {
        proof {
            lemma_backoff_wait_sum_bound(attempt as nat);
            lemma_delay_closed_form(attempt as nat);
            assert((attempt as nat) * MAX_DELAY_MS <= 255 * MAX_DELAY_MS) by (nonlinear_arith)
                requires attempt <= 255;
        }
        match &script[attempt as usize] {
            Ok(v) => {
                proof {
                    lemma_leading_failures_at(views, max_attempts as nat, attempt as nat);
                }
                return RetryOutcome::Success {
                    value: *v,
                    attempts: attempt + 1,
                    waited_ms: waited,
                };
            },
            Err(e) => {
                if attempt + 1 >= max_attempts {
                    proof {
                        lemma_leading_failures_all(views, max_attempts as nat);
                    }
                    let mut message = String::from_str("Operation failed after ");
                    let digits = util::u64_to_string(max_attempts as u64);
                    message.append(digits.as_str());
                    message.append(" retries: ");
                    message.append(e.as_str());
                    assert(message@ =~= gave_up_message(max_attempts, views[max_attempts - 1]->Err_0));
                    return RetryOutcome::GaveUp {
                        attempts: max_attempts,
                        waited_ms: waited,
                        message,
                    };
                }
                waited = waited + delay;
                if delay > MAX_DELAY_MS / 2 {
                    delay = MAX_DELAY_MS;
                } else {
                    delay = delay * 2;
                }
                attempt = attempt + 1;
                proof {
                    lemma_leading_failures_ge(views, max_attempts as nat, attempt as nat);
                }
            },
        }
    }
}

/// When the first `k` outcomes fail and outcome `k` succeeds, there are
/// exactly `k` leading failures within any bound beyond `k`.
proof fn lemma_leading_failures_at(script: Seq<Result<u64, Seq<char>>>, bound: nat, k: nat)
    requires
        k < bound,
        k < script.len(),
        forall|q: int| 0 <= q < k ==> script[q] is Err,
        script[k as int] is Ok,
    ensures
        leading_failures(script, bound) == k,
    decreases k,
{
    if k > 0 {
        lemma_leading_failures_at(script.drop_first(), (bound - 1) as nat, (k - 1) as nat);
    }
}

/// When the first `bound` outcomes all fail, the count of leading failures
/// is the whole bound.
proof fn lemma_leading_failures_all(script: Seq<Result<u64, Seq<char>>>, bound: nat)
    requires
        bound <= script.len(),
        forall|q: int| 0 <= q < bound ==> script[q] is Err,
    ensures
        leading_failures(script, bound) == bound,
    decreases bound,
{
    if bound > 0 {
        lemma_leading_failures_all(script.drop_first(), (bound - 1) as nat);
    }
}

/// When the first `k` outcomes fail, there are at least `k` leading
/// failures within any bound of at least `k`.
proof fn lemma_leading_failures_ge(script: Seq<Result<u64, Seq<char>>>, bound: nat, k: nat)
    requires
        k <= bound,
        k <= script.len(),
        forall|q: int| 0 <= q < k ==> script[q] is Err,
    ensures
        leading_failures(script, bound) >= k,
    decreases k,
{
    if k > 0 {
        lemma_leading_failures_ge(script.drop_first(), (bound - 1) as nat, (k - 1) as nat);
    }
}

} // verus!
