use argon2::password_hash::{PasswordHasher, SaltString};
use argon2::{Algorithm, Argon2, Params, Version};
use class_scheduler::credentials::{
    conclude_verification, verify_master_password, verify_stored_hash, AuthError, RateLimiter,
};

fn hash_of(password: &str) -> String {
    let hasher = Argon2::new(Algorithm::Argon2id, Version::V0x13, Params::new(8, 1, 1, None).unwrap());
    let salt = SaltString::from_b64("c29tZXNhbHRzb21lc2FsdA").unwrap();
    hasher.hash_password(password.as_bytes(), &salt).unwrap().to_string()
}

fn limiter_after(failures: u32) -> RateLimiter {
    let mut limiter = RateLimiter::new();
    for _ in 0..failures {
        limiter.record_failed_attempt();
    }
    limiter
}

#[test]
fn a_fresh_record_lets_every_attempt_through() {
    let mut limiter = RateLimiter::new();
    assert_eq!(limiter.failed_attempts(), None);
    assert_eq!(limiter.check_rate_limit(0, 0), Ok(()));
    assert_eq!(limiter.check_rate_limit(u64::MAX, 999_999_999), Ok(()));
    assert_eq!(limiter.failed_attempts(), None);
}

#[test]
fn each_failed_attempt_doubles_the_wait() {
    let mut limiter = limiter_after(1);
    assert_eq!(limiter.failed_attempts(), Some(1));
    assert_eq!(limiter.check_rate_limit(0, 0), Err(2));
    assert_eq!(limiter.check_rate_limit(1, 999_999_999), Err(1));
    assert_eq!(limiter.check_rate_limit(2, 0), Ok(()));
    let mut limiter = limiter_after(3);
    assert_eq!(limiter.check_rate_limit(0, 500), Err(8));
    assert_eq!(limiter.check_rate_limit(5, 0), Err(3));
    assert_eq!(limiter.check_rate_limit(7, 999_999_999), Err(1));
    assert_eq!(limiter.check_rate_limit(8, 0), Ok(()));
    assert_eq!(limiter.failed_attempts(), Some(3));
    let mut limiter = limiter_after(9);
    assert_eq!(limiter.check_rate_limit(100, 0), Err(412));
    assert_eq!(limiter.check_rate_limit(512, 0), Ok(()));
}

#[test]
fn failed_attempts_are_forgotten_after_ten_minutes() {
    let mut limiter = limiter_after(12);
    assert_eq!(limiter.check_rate_limit(600, 0), Err(3496));
    assert_eq!(limiter.failed_attempts(), Some(12));
    assert_eq!(limiter.check_rate_limit(600, 1), Ok(()));
    assert_eq!(limiter.failed_attempts(), Some(0));
    let mut limiter = limiter_after(12);
    assert_eq!(limiter.check_rate_limit(601, 0), Ok(()));
    assert_eq!(limiter.failed_attempts(), Some(0));
    assert_eq!(limiter.check_rate_limit(0, 0), Err(1));
    assert_eq!(limiter.check_rate_limit(1, 0), Ok(()));
}

#[test]
fn the_wait_stops_growing_when_it_no_longer_fits() {
    let mut limiter = limiter_after(63);
    assert_eq!(limiter.check_rate_limit(600, 0), Err((1u64 << 63) - 600));
    let mut limiter = limiter_after(64);
    assert_eq!(limiter.check_rate_limit(600, 0), Err(u64::MAX - 600));
    let mut limiter = limiter_after(70);
    assert_eq!(limiter.check_rate_limit(0, 0), Err(u64::MAX));
}

#[test]
fn clearing_wipes_the_record() {
    let mut limiter = limiter_after(2);
    assert!(limiter.clear_failed_attempts());
    assert_eq!(limiter.failed_attempts(), None);
    assert!(!limiter.clear_failed_attempts());
    assert_eq!(limiter.check_rate_limit(0, 0), Ok(()));
}

#[test]
fn the_outcome_of_a_test_decides_the_record() {
    let mut limiter = limiter_after(2);
    assert_eq!(conclude_verification(&mut limiter, Ok(false)), Err(AuthError::InvalidPassword));
    assert_eq!(limiter.failed_attempts(), Some(3));
    assert_eq!(
        conclude_verification(&mut limiter, Err("broken".to_string())),
        Err(AuthError::UnreadableHash("broken".to_string()))
    );
    assert_eq!(limiter.failed_attempts(), Some(3));
    assert_eq!(conclude_verification(&mut limiter, Ok(true)), Ok(()));
    assert_eq!(limiter.failed_attempts(), None);
    assert_eq!(conclude_verification(&mut limiter, Ok(false)), Err(AuthError::InvalidPassword));
    assert_eq!(limiter.failed_attempts(), Some(1));
}

#[test]
fn the_right_password_is_accepted_and_clears_the_record() {
    let stored = hash_of("hunter42");
    let mut limiter = limiter_after(1);
    assert_eq!(verify_stored_hash(&mut limiter, Some(&stored), "hunter42"), Ok(()));
    assert_eq!(limiter.failed_attempts(), None);
}

#[test]
fn a_wrong_password_is_refused_and_put_on_record() {
    let stored = hash_of("hunter42");
    let mut limiter = RateLimiter::new();
    assert_eq!(verify_stored_hash(&mut limiter, Some(&stored), "hunter43"), Err(AuthError::InvalidPassword));
    assert_eq!(limiter.failed_attempts(), Some(1));
    assert_eq!(verify_stored_hash(&mut limiter, Some(&stored), ""), Err(AuthError::InvalidPassword));
    assert_eq!(limiter.failed_attempts(), Some(2));
}

#[test]
fn a_missing_or_broken_hash_is_reported_and_not_put_on_record() {
    let mut limiter = limiter_after(1);
    assert_eq!(verify_stored_hash(&mut limiter, None, "hunter42"), Err(AuthError::NotSetUp));
    assert_eq!(limiter.failed_attempts(), Some(1));
    let broken = verify_stored_hash(&mut limiter, Some("not a hash"), "hunter42");
    assert!(matches!(broken, Err(AuthError::UnreadableHash(_))));
    assert_eq!(limiter.failed_attempts(), Some(1));
    assert_eq!(
        verify_stored_hash(&mut limiter, Some(""), "hunter42"),
        Err(AuthError::UnreadableHash("password hash string missing field".to_string()))
    );
}

#[test]
fn an_attempt_too_early_is_held_back_before_the_password_is_tested() {
    let stored = hash_of("hunter42");
    let mut limiter = limiter_after(2);
    assert_eq!(verify_master_password(&mut limiter, 1, 0, Some(&stored), "hunter42"), Err(AuthError::RateLimited(3)));
    assert_eq!(limiter.failed_attempts(), Some(2));
    assert_eq!(verify_master_password(&mut limiter, 4, 0, Some(&stored), "wrong"), Err(AuthError::InvalidPassword));
    assert_eq!(limiter.failed_attempts(), Some(3));
    assert_eq!(verify_master_password(&mut limiter, 7, 0, Some(&stored), "hunter42"), Err(AuthError::RateLimited(1)));
    assert_eq!(verify_master_password(&mut limiter, 8, 0, None, "hunter42"), Err(AuthError::NotSetUp));
    assert_eq!(verify_master_password(&mut limiter, 8, 0, Some(&stored), "hunter42"), Ok(()));
    assert_eq!(limiter.failed_attempts(), None);
}

#[test]
fn errors_say_what_went_wrong() {
    assert_eq!(AuthError::RateLimited(42).message(), "Too many failed attempts. Please wait 42 seconds.");
    assert_eq!(AuthError::NotSetUp.message(), "Master password not set up. Please set a master password first.");
    assert_eq!(
        AuthError::UnreadableHash("value malformed".to_string()).message(),
        "Failed to parse stored password hash: value malformed"
    );
    assert_eq!(AuthError::InvalidPassword.message(), "Invalid master password.");
}
