use kronox::error::{ApiError, ServiceError};
use kronox::service::{
    acquire_lock, after_failure, cache_decision, first_attempt, is_stale, lock_key, release_lock,
    stale_cutoff, staleness_step, Attempt, CacheDecision, LastUpdated, RefreshLocks, STALE_AFTER,
};

#[test]
fn a_key_is_locked_once_until_released() {
    let mut locks = RefreshLocks::new();
    assert!(acquire_lock(&mut locks, "p.A,p.B"));
    assert!(!acquire_lock(&mut locks, "p.A,p.B"));
    assert!(acquire_lock(&mut locks, "p.C"));
    release_lock(&mut locks, "p.A,p.B");
    assert!(acquire_lock(&mut locks, "p.A,p.B"));
    assert!(!acquire_lock(&mut locks, "p.C"));
    release_lock(&mut locks, "never held");
    assert!(!acquire_lock(&mut locks, "p.C"));
}

#[test]
fn lock_key_joins_ids_with_commas() {
    assert_eq!(lock_key(&["p.A".to_owned(), "p.B".to_owned()]), "p.A,p.B");
    assert_eq!(lock_key(&["only".to_owned()]), "only");
    assert_eq!(lock_key(&[]), "");
}

#[test]
fn stale_after_six_hours() {
    assert_eq!(STALE_AFTER, 6 * 3600 * 2_000_000_000);
    assert_eq!(stale_cutoff(STALE_AFTER + 5), 5);
}

#[test]
fn first_record_that_is_not_fresh_decides() {
    let cutoff = 1000;
    assert_eq!(staleness_step(&LastUpdated::At(1001), cutoff), None);
    assert_eq!(staleness_step(&LastUpdated::At(1000), cutoff), None);
    assert_eq!(staleness_step(&LastUpdated::At(999), cutoff), Some(true));
    assert!(!is_stale(&[LastUpdated::At(1000)], cutoff));
    assert_eq!(staleness_step(&LastUpdated::Never, cutoff), Some(true));
    assert_eq!(staleness_step(&LastUpdated::Failed, cutoff), Some(false));

    assert!(!is_stale(&[], cutoff));
    assert!(!is_stale(&[LastUpdated::At(2000), LastUpdated::At(3000)], cutoff));
    assert!(is_stale(&[LastUpdated::At(2000), LastUpdated::At(10)], cutoff));
    assert!(is_stale(&[LastUpdated::Never, LastUpdated::Failed], cutoff));
    assert!(!is_stale(&[LastUpdated::Failed, LastUpdated::Never], cutoff));
}

#[test]
fn cache_is_used_only_when_it_holds_events() {
    assert!(matches!(cache_decision(0), CacheDecision::FetchAndStore));
    assert!(matches!(cache_decision(3), CacheDecision::ServeCached));
}

#[test]
fn failover_tries_each_url_once_in_order() {
    let mut tried = Vec::new();
    let mut attempt = first_attempt(3);
    while let Attempt::Try(i) = attempt {
        tried.push(i);
        attempt = after_failure(i, 3);
    }
    assert_eq!(tried, vec![0, 1, 2]);
    assert!(matches!(first_attempt(0), Attempt::GiveUp));
}

#[test]
fn service_errors_map_to_api_errors() {
    assert!(matches!(ApiError::from(ServiceError::Upstream), ApiError::Upstream));
    assert!(matches!(ApiError::from(ServiceError::Db), ApiError::Internal));
}
