//! Retrying network operations: which failures are worth another try, and how
//! long to wait before it.
use vstd::prelude::*;
use crate::text::{
    contains_str, has_sub, lemma_views_push, lowercase, occurs_at, str_to_string, to_lowercase, views,
};

verus! {

/// How the wait between attempts grows.
pub enum RetryStrategy {
    /// The same number of seconds every time.
    Fixed(u64),
    /// The initial number of seconds, doubled after each attempt.
    Exponential(u64),
    /// The step in seconds, times the attempt number.
    Linear(u64),
}

/// `2` to the power `n`.
pub open spec fn two_pow(n: nat) -> nat
    decreases n,
{
    if n == 0 {
        1
    } else {
        2 * two_pow((n - 1) as nat)
    }
}

/// The seconds to wait after the failed attempt number `attempt` (counted from 1).
pub open spec fn delay_secs(strategy: RetryStrategy, attempt: nat) -> int {
    match strategy {
        RetryStrategy::Fixed(d) => d as int,
        RetryStrategy::Exponential(initial) => initial * two_pow((attempt - 1) as nat),
        RetryStrategy::Linear(step) => step * attempt,
    }
}

/// The wait after attempt `attempt` is computed without leaving `u64`.
pub open spec fn delay_fits(strategy: RetryStrategy, attempt: nat) -> bool {
    match strategy {
        RetryStrategy::Exponential(initial) => two_pow((attempt - 1) as nat) <= u64::MAX
            && initial * two_pow((attempt - 1) as nat) <= u64::MAX,
        _ => delay_secs(strategy, attempt) <= u64::MAX,
    }
}

/// Powers of two grow with the exponent.
pub proof fn lemma_two_pow_monotone(a: nat, b: nat)
    requires
        a <= b,
    ensures
        1 <= two_pow(a) <= two_pow(b),
    decreases b,
{
    if b > a {
        lemma_two_pow_monotone(a, (b - 1) as nat);
    } else if a > 0 {
        lemma_two_pow_monotone((a - 1) as nat, (a - 1) as nat);
    }
}

/// The seconds to wait after a failed attempt.
pub fn retry_delay(strategy: &RetryStrategy, attempt: u32) -> (r: u64)
    requires
        1 <= attempt,
        delay_fits(*strategy, attempt as nat),
    ensures
        r == delay_secs(*strategy, attempt as nat),
{
    match strategy {
        RetryStrategy::Fixed(d) => *d,
        RetryStrategy::Exponential(initial) => {
            let mut p: u64 = 1;
            let mut k: u32 = 1;
            while k < attempt
                invariant
                    1 <= k <= attempt,
                    p == two_pow((k - 1) as nat),
                    two_pow((attempt - 1) as nat) <= u64::MAX,
                decreases attempt - k,
            {
                proof {
                    lemma_two_pow_monotone(k as nat, (attempt - 1) as nat);
                }
                p = p * 2;
                k = k + 1;
            }
            *initial * p
        },
        RetryStrategy::Linear(step) => {
            let a = attempt as u64;
            *step * a
        },
    }
}

/// Whether `2` to the power `n` fits in `u64`.
pub fn two_pow_fits(n: u32) -> (r: bool)
    ensures
        r == (two_pow(n as nat) <= u64::MAX),
{
    let mut p: u64 = 1;
    let mut k: u32 = 0;
    while k < n
        invariant
            k <= n,
            p == two_pow(k as nat),
        decreases n - k,
    {
        if p > u64::MAX / 2 {
            proof {
                assert(two_pow((k + 1) as nat) == 2 * two_pow(k as nat));
                lemma_two_pow_monotone((k + 1) as nat, n as nat);
            }
            return false;
        }
        p = p * 2;
        k = k + 1;
    }
    true
}

/// Whether the wait after failed attempt `attempt` can be computed within
/// `u64` (the condition of [`retry_delay`]).
pub fn wait_fits(strategy: &RetryStrategy, attempt: u32) -> (r: bool)
    requires
        1 <= attempt,
    ensures
        r == delay_fits(*strategy, attempt as nat),
{
    match strategy {
        RetryStrategy::Fixed(_) => true,
        RetryStrategy::Exponential(initial) => {
            if !two_pow_fits(attempt - 1) {
                return false;
            }
            let p = retry_delay(&RetryStrategy::Exponential(1), attempt);
            proof {
                lemma_two_pow_monotone(0, (attempt - 1) as nat);
                assert(p == two_pow((attempt - 1) as nat));
            }
            let x = *initial;
            let ok = x <= u64::MAX / p;
            proof {
                lemma_fits_div(x as int, p as int, u64::MAX as int);
            }
            ok
        },
        RetryStrategy::Linear(step) => {
            let a = attempt as u64;
            let x = *step;
            let ok = x <= u64::MAX / a;
            proof {
                lemma_fits_div(x as int, a as int, u64::MAX as int);
            }
            ok
        },
    }
}

/// `x * p` stays within `m` exactly when `x` is at most `m / p`.
proof fn lemma_fits_div(x: int, p: int, m: int)
    requires
        x >= 0,
        p >= 1,
        m >= 0,
    ensures
        (x <= m / p) == (x * p <= m),
{
    vstd::arithmetic::div_mod::lemma_fundamental_div_mod(m, p);
    if x <= m / p {
        assert(x * p <= (m / p) * p) by (nonlinear_arith)
            requires
                x <= m / p,
                p >= 1,
        ;
        assert((m / p) * p == p * (m / p)) by (nonlinear_arith);
    } else {
        assert(x * p >= (m / p + 1) * p) by (nonlinear_arith)
            requires
                x >= m / p + 1,
                p >= 1,
        ;
        assert((m / p + 1) * p == p * (m / p) + p) by (nonlinear_arith);
        assert(m % p < p) by {
            vstd::arithmetic::div_mod::lemma_mod_pos_bound(m, p);
        }
    }
}

/// Whether the doubling retry loop can go on after failed attempt `attempt`
/// of at most `max_attempts` (the condition of [`doubling_retry_delay`]).
pub fn doubling_fits(attempt: u32, max_attempts: u32) -> (r: bool)
    ensures
        r == (attempt < max_attempts ==> two_pow(attempt as nat) <= u64::MAX),
{
    if attempt < max_attempts {
        two_pow_fits(attempt)
    } else {
        true
    }
}

/// When to retry an operation and how long to wait in between.
pub struct RetryConfig {
    /// How many times the operation runs at most.
    pub max_attempts: u32,
    /// How the wait grows.
    pub strategy: RetryStrategy,
    /// Words in an error message that make the failure worth another try,
    /// compared without regard to case.
    pub retryable_keywords: Vec<String>,
}

/// The words that mark a network failure by default.
pub open spec fn default_keywords() -> Seq<Seq<char>> {
    seq![
        "Connection refused"@,
        "Network is unreachable"@,
        "Timeout"@,
        "reset by peer"@,
        "Could not resolve"@,
        "Temporary failure"@,
        "Network error"@,
    ]
}

fn push_word(v: &mut Vec<String>, s: &str)
    ensures
        views(final(v)@) == views(old(v)@).push(s@),
{
    let ghost before = v@;
    let c = str_to_string(s);
    v.push(c);
    proof {
        lemma_views_push(before, c);
    }
}

impl Default for RetryConfig {
    /// Three attempts, waiting 1, then 2 seconds, on the usual network failures.
    fn default() -> (r: Self)
        ensures
            r.max_attempts == 3,
            r.strategy == RetryStrategy::Exponential(1),
            views(r.retryable_keywords@) == default_keywords(),
    {
        let mut v: Vec<String> = Vec::new();
        push_word(&mut v, "Connection refused");
        push_word(&mut v, "Network is unreachable");
        push_word(&mut v, "Timeout");
        push_word(&mut v, "reset by peer");
        push_word(&mut v, "Could not resolve");
        push_word(&mut v, "Temporary failure");
        push_word(&mut v, "Network error");
        assert(views(v@) =~= default_keywords());
        RetryConfig { max_attempts: 3, strategy: RetryStrategy::Exponential(1), retryable_keywords: v }
    }
}

/// An error is worth another try when, both in lower case, it contains one of
/// the keywords.
pub open spec fn retryable(keywords: Seq<Seq<char>>, error: Seq<char>) -> bool {
    exists|i: int| 0 <= i < keywords.len() && #[trigger] has_sub(lowercase(error), lowercase(keywords[i]))
}

/// Whether an error message is worth another try.
pub fn is_retryable(keywords: &Vec<String>, error: &str) -> (r: bool)
    ensures
        r == retryable(views(keywords@), error@),
{
    let ghost ks = views(keywords@);
    let e = to_lowercase(error);
    let mut i: usize = 0;
    while i < keywords.len()
        invariant
            i <= ks.len(),
            ks == views(keywords@),
            e@ == lowercase(error@),
            forall|k: int| 0 <= k < i ==> !#[trigger] has_sub(lowercase(error@), lowercase(ks[k])),
        decreases ks.len() - i,
    {
        let w = to_lowercase(keywords[i].as_str());
        if contains_str(e.as_str(), w.as_str()) {
            assert(has_sub(lowercase(error@), lowercase(ks[i as int])));
            return true;
        }
        i = i + 1;
    }
    false
}

/// What to do after an attempt failed.
#[derive(Debug, PartialEq, Eq, Clone, Copy)]
pub enum RetryAction {
    /// The error is not a network failure: give up with it.
    NotRetryable,
    /// That was the last attempt: give up with the error.
    Exhausted,
    /// Wait this many seconds, then try again.
    WaitThenRetry(u64),
}

/// The action after failed attempt `attempt` of at most `max_attempts`.
pub open spec fn failure_action(
    max_attempts: u32,
    strategy: RetryStrategy,
    attempt: nat,
    retryable: bool,
) -> RetryAction {
    if !retryable {
        RetryAction::NotRetryable
    } else if attempt == max_attempts {
        RetryAction::Exhausted
    } else {
        RetryAction::WaitThenRetry(delay_secs(strategy, attempt) as u64)
    }
}

/// What to do after attempt `attempt` failed with an error that is, or is not,
/// worth another try (see [`is_retryable`]). The operation thus runs at most
/// `max_attempts` times.
pub fn after_failure(config: &RetryConfig, attempt: u32, retryable: bool) -> (r: RetryAction)
    requires
        1 <= attempt <= config.max_attempts,
        retryable && attempt < config.max_attempts ==> delay_fits(config.strategy, attempt as nat),
    ensures
        r == failure_action(config.max_attempts, config.strategy, attempt as nat, retryable),
        r is WaitThenRetry ==> attempt < config.max_attempts,
{
    if !retryable {
        RetryAction::NotRetryable
    } else if attempt == config.max_attempts {
        RetryAction::Exhausted
    } else {
        RetryAction::WaitThenRetry(retry_delay(&config.strategy, attempt))
    }
}

/// The error when the operation never ran because no attempt was allowed.
pub fn no_attempt_error() -> (r: String)
    ensures
        r@ == "Unknown error"@,
{
    str_to_string("Unknown error")
}

/// The plain retry loop that waits 1 second after the first failure and
/// doubles the wait each time: after failed attempt `attempt`, the wait before
/// the next one, or `None` when that was the last of `max_attempts`.
pub fn doubling_retry_delay(attempt: u32, max_attempts: u32) -> (r: Option<u64>)
    requires
        1 <= attempt,
        attempt < max_attempts ==> two_pow(attempt as nat) <= u64::MAX,
    ensures
        attempt >= max_attempts ==> r is None,
        attempt < max_attempts ==> r == Some(two_pow((attempt - 1) as nat) as u64),
{
    if attempt >= max_attempts {
        None
    } else {
        proof {
            lemma_two_pow_monotone((attempt - 1) as nat, attempt as nat);
        }
        Some(retry_delay(&RetryStrategy::Exponential(1), attempt))
    }
}

/// The words on which a failed connectivity check of `host` is retried: an
/// unreachable network, a refused connection, a timeout, and the check's own
/// failure message.
pub open spec fn connectivity_keywords(host: Seq<char>) -> Seq<Seq<char>> {
    seq!["Network is unreachable"@, "Connection refused"@, "Timeout"@, "Cannot reach "@ + host]
}

/// The retry settings of the connectivity check of `host`: a fixed wait, and
/// its own failure ([`unreachable_message`]) is among the failures retried.
pub fn internet_check_config(max_attempts: u32, delay_secs: u64, host: &str) -> (r: RetryConfig)
    ensures
        r.max_attempts == max_attempts,
        r.strategy == RetryStrategy::Fixed(delay_secs),
        views(r.retryable_keywords@) == connectivity_keywords(host@),
        retryable(views(r.retryable_keywords@), "Cannot reach "@ + host@),
{
    let mut v: Vec<String> = Vec::new();
    push_word(&mut v, "Network is unreachable");
    push_word(&mut v, "Connection refused");
    push_word(&mut v, "Timeout");
    let ghost before = v@;
    let m = unreachable_message(host);
    v.push(m);
    proof {
        lemma_views_push(before, m);
        lemma_failed_check_retryable(host@);
    }
    RetryConfig { max_attempts, strategy: RetryStrategy::Fixed(delay_secs), retryable_keywords: v }
}

/// The failure message of a check is among the words it is retried on.
proof fn lemma_failed_check_retryable(host: Seq<char>)
    ensures
        retryable(connectivity_keywords(host), "Cannot reach "@ + host),
{
    let k = connectivity_keywords(host);
    let e = "Cannot reach "@ + host;
    let l = lowercase(e);
    assert(k[3] == e);
    assert(l.subrange(0, l.len() as int) =~= l);
    assert(occurs_at(l, l, 0));
    assert(has_sub(lowercase(e), lowercase(k[3])));
}

/// A failed connectivity check is checked again after the fixed wait, until
/// the last allowed attempt.
pub proof fn law_failed_check_is_retried(host: Seq<char>, max_attempts: u32, delay_secs: u64, attempt: nat)
    requires
        1 <= attempt < max_attempts,
    ensures
        failure_action(
            max_attempts,
            RetryStrategy::Fixed(delay_secs),
            attempt,
            retryable(connectivity_keywords(host), "Cannot reach "@ + host),
        ) == RetryAction::WaitThenRetry(delay_secs),
        failure_action(
            max_attempts,
            RetryStrategy::Fixed(delay_secs),
            max_attempts as nat,
            retryable(connectivity_keywords(host), "Cannot reach "@ + host),
        ) == RetryAction::Exhausted,
{
    lemma_failed_check_retryable(host);
}

/// The hosts tried in turn before an installation, each with two attempts
/// two seconds apart.
pub fn internet_hosts() -> (r: Vec<String>)
    ensures
        views(r@) == seq!["archlinux.org"@, "github.com"@, "google.com"@],
{
    let mut v: Vec<String> = Vec::new();
    push_word(&mut v, "archlinux.org");
    push_word(&mut v, "github.com");
    push_word(&mut v, "google.com");
    v
}

/// The error of one failed connectivity check.
pub fn unreachable_message(host: &str) -> (r: String)
    ensures
        r@ == "Cannot reach "@ + host@,
{
    crate::text::concat("Cannot reach ", host)
}

/// The error when no host could be reached.
pub fn no_connection_message() -> (r: String)
    ensures
        r@ == "No internet connection available after trying multiple hosts"@,
{
    str_to_string("No internet connection available after trying multiple hosts")
}

// ---------------------------------------------------------------------------
// Laws of the waits
// ---------------------------------------------------------------------------

/// With the exponential strategy each wait is twice the one before.
pub proof fn law_exponential_doubles(initial: u64, attempt: nat)
    requires
        attempt >= 1,
    ensures
        delay_secs(RetryStrategy::Exponential(initial), attempt + 1) == 2 * delay_secs(
            RetryStrategy::Exponential(initial),
            attempt,
        ),
        delay_secs(RetryStrategy::Exponential(initial), 1) == initial,
{
    assert(two_pow(attempt) == 2 * two_pow((attempt - 1) as nat));
    assert(two_pow(0) == 1);
    assert(initial * 1 == initial);
    assert(initial * (2 * two_pow((attempt - 1) as nat)) == 2 * (initial * two_pow(
        (attempt - 1) as nat,
    ))) by (nonlinear_arith);
}

/// With the linear strategy each wait is one step longer than the one before.
pub proof fn law_linear_steps(step: u64, attempt: nat)
    ensures
        delay_secs(RetryStrategy::Linear(step), attempt + 1) == delay_secs(
            RetryStrategy::Linear(step),
            attempt,
        ) + step,
{
    assert(step * (attempt + 1) == step * attempt + step) by (nonlinear_arith);
}

/// With the fixed strategy every wait is the same.
pub proof fn law_fixed_constant(d: u64, a: nat, b: nat)
    ensures
        delay_secs(RetryStrategy::Fixed(d), a) == delay_secs(RetryStrategy::Fixed(d), b),
{
}

/// Whatever the strategy, a later attempt never waits less than an earlier one.
pub proof fn law_waits_never_shrink(strategy: RetryStrategy, a: nat, b: nat)
    requires
        1 <= a <= b,
    ensures
        delay_secs(strategy, a) <= delay_secs(strategy, b),
{
    match strategy {
        RetryStrategy::Fixed(d) => {},
        RetryStrategy::Exponential(initial) => {
            lemma_two_pow_monotone((a - 1) as nat, (b - 1) as nat);
            let x = two_pow((a - 1) as nat);
            let y = two_pow((b - 1) as nat);
            assert(initial * x <= initial * y) by (nonlinear_arith)
                requires
                    x <= y,
                    initial >= 0,
            ;
        },
        RetryStrategy::Linear(step) => {
            assert(step * a <= step * b) by (nonlinear_arith)
                requires
                    a <= b,
                    step >= 0,
            ;
        },
    }
}

/// An operation is tried at most `max_attempts` times: after the last attempt
/// no failure leads to another one, and a failure that is not worth a retry
/// ends the loop at once.
pub proof fn law_attempts_bounded(config_max: u32, strategy: RetryStrategy, attempt: nat, retryable: bool)
    requires
        1 <= attempt <= config_max,
    ensures
        failure_action(config_max, strategy, attempt, retryable) is WaitThenRetry ==> attempt
            < config_max && retryable,
        attempt == config_max ==> !(failure_action(config_max, strategy, attempt, retryable) is WaitThenRetry),
        !retryable ==> failure_action(config_max, strategy, attempt, retryable) == RetryAction::NotRetryable,
{
}

} // verus!
