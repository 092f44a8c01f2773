use dotfiles_installer::net::{doubling_fits, two_pow_fits, wait_fits};
use dotfiles_installer::net::{
    after_failure, doubling_retry_delay, internet_check_config, internet_hosts, is_retryable,
    no_attempt_error, no_connection_message, retry_delay, unreachable_message, RetryAction,
    RetryConfig, RetryStrategy,
};

fn s(x: &str) -> String {
    x.to_string()
}

/// Runs an operation under the retry decisions, without waiting; returns the
/// result, the number of calls and the waits asked for.
fn run<T>(config: &RetryConfig, mut op: impl FnMut() -> Result<T, String>) -> (Result<T, String>, u32, Vec<u64>) {
    let mut waits = Vec::new();
    let mut calls = 0;
    for attempt in 1..=config.max_attempts {
        calls += 1;
        match op() {
            Ok(x) => return (Ok(x), calls, waits),
            Err(e) => {
                let retry = is_retryable(&config.retryable_keywords, &e);
                match after_failure(config, attempt, retry) {
                    RetryAction::WaitThenRetry(d) => waits.push(d),
                    _ => return (Err(e), calls, waits),
                }
            }
        }
    }
    (Err(no_attempt_error()), calls, waits)
}

fn retry_me() -> RetryConfig {
    RetryConfig { max_attempts: 3, strategy: RetryStrategy::Fixed(1), retryable_keywords: vec![s("retry me")] }
}

#[test]
fn test_retry_success_on_second_attempt() {
    let mut attempts = 0;
    let (result, calls, waits) = run(&retry_me(), || {
        attempts += 1;
        if attempts < 2 { Err(s("retry me")) } else { Ok(42) }
    });
    assert_eq!(result, Ok(42));
    assert_eq!(calls, 2);
    assert_eq!(waits, vec![1]);
}

#[test]
fn test_retry_fails_after_max_attempts() {
    let (result, calls, waits) = run(&retry_me(), || -> Result<(), String> { Err(s("retry me")) });
    assert!(result.is_err());
    assert_eq!(calls, 3);
    assert_eq!(waits, vec![1, 1]);
}

#[test]
fn test_non_retryable_error() {
    let (result, calls, _) = run(&retry_me(), || -> Result<(), String> { Err(s("fatal error")) });
    assert_eq!(result, Err(s("fatal error")));
    assert_eq!(calls, 1);
}

#[test]
fn no_attempt_allowed() {
    let c = RetryConfig { max_attempts: 0, strategy: RetryStrategy::Fixed(1), retryable_keywords: vec![] };
    let (result, calls, _) = run(&c, || -> Result<(), String> { Ok(()) });
    assert_eq!(result, Err(s("Unknown error")));
    assert_eq!(calls, 0);
}

#[test]
fn default_configuration() {
    let c = RetryConfig::default();
    assert_eq!(c.max_attempts, 3);
    assert!(matches!(c.strategy, RetryStrategy::Exponential(1)));
    assert_eq!(c.retryable_keywords.len(), 7);
    assert!(is_retryable(&c.retryable_keywords, "ssh: CONNECTION REFUSED by host"));
    assert!(is_retryable(&c.retryable_keywords, "Connection reset by peer"));
    assert!(is_retryable(&c.retryable_keywords, "timeout while fetching"));
    assert!(!is_retryable(&c.retryable_keywords, "permission denied"));
    assert_eq!(after_failure(&c, 1, true), RetryAction::WaitThenRetry(1));
    assert_eq!(after_failure(&c, 2, true), RetryAction::WaitThenRetry(2));
    assert_eq!(after_failure(&c, 3, true), RetryAction::Exhausted);
    assert_eq!(after_failure(&c, 2, false), RetryAction::NotRetryable);
}

#[test]
fn waits_of_each_strategy() {
    let e = RetryStrategy::Exponential(1);
    assert_eq!((1..=4).map(|a| retry_delay(&e, a)).collect::<Vec<_>>(), vec![1, 2, 4, 8]);
    let e3 = RetryStrategy::Exponential(3);
    assert_eq!(retry_delay(&e3, 5), 48);
    let l = RetryStrategy::Linear(3);
    assert_eq!((1..=3).map(|a| retry_delay(&l, a)).collect::<Vec<_>>(), vec![3, 6, 9]);
    let f = RetryStrategy::Fixed(5);
    assert_eq!((1..=3).map(|a| retry_delay(&f, a)).collect::<Vec<_>>(), vec![5, 5, 5]);
    assert_eq!(retry_delay(&RetryStrategy::Exponential(1), 64), 1u64 << 63);
}

#[test]
fn doubling_waits() {
    assert_eq!(doubling_retry_delay(1, 3), Some(1));
    assert_eq!(doubling_retry_delay(2, 3), Some(2));
    assert_eq!(doubling_retry_delay(3, 3), None);
    assert_eq!(doubling_retry_delay(5, 3), None);
}

#[test]
fn connectivity_check() {
    let c = internet_check_config(2, 2, "archlinux.org");
    assert_eq!(c.max_attempts, 2);
    assert!(matches!(c.strategy, RetryStrategy::Fixed(2)));
    assert_eq!(
        c.retryable_keywords,
        vec![s("Network is unreachable"), s("Connection refused"), s("Timeout"), s("Cannot reach archlinux.org")]
    );
    let e = unreachable_message("archlinux.org");
    assert_eq!(e, s("Cannot reach archlinux.org"));
    assert!(is_retryable(&c.retryable_keywords, &e));
    assert_eq!(internet_hosts(), vec![s("archlinux.org"), s("github.com"), s("google.com")]);
    assert_eq!(
        no_connection_message(),
        s("No internet connection available after trying multiple hosts")
    );
}

#[test]
fn failed_check_is_checked_again() {
    let c = internet_check_config(2, 2, "github.com");
    let mut checks = 0;
    let (result, calls, waits) = run(&c, || {
        checks += 1;
        if checks < 2 { Err(unreachable_message("github.com")) } else { Ok(()) }
    });
    assert_eq!(result, Ok(()));
    assert_eq!(calls, 2);
    assert_eq!(waits, vec![2]);
    let (result, calls, waits) = run(&c, || -> Result<(), String> { Err(unreachable_message("github.com")) });
    assert_eq!(result, Err(s("Cannot reach github.com")));
    assert_eq!(calls, 2);
    assert_eq!(waits, vec![2]);
}

#[test]
fn overflow_checks() {
    assert!(two_pow_fits(63));
    assert!(!two_pow_fits(64));
    assert!(wait_fits(&RetryStrategy::Exponential(1), 64));
    assert!(!wait_fits(&RetryStrategy::Exponential(2), 64));
    assert!(!wait_fits(&RetryStrategy::Exponential(0), 65));
    assert!(wait_fits(&RetryStrategy::Linear(u64::MAX / 3), 3));
    assert!(!wait_fits(&RetryStrategy::Linear(u64::MAX / 3 + 1), 3));
    assert!(wait_fits(&RetryStrategy::Fixed(u64::MAX), 1000));
    assert!(doubling_fits(63, 64));
    assert!(!doubling_fits(64, 65));
    assert!(doubling_fits(70, 3));
}
