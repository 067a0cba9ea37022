//! Guards the master password: a count of failed attempts that makes the next attempt
//! wait longer each time, and the test of a password against its stored hash.

use argon2::PasswordVerifier;
use vstd::prelude::*;
use vstd::string::*;
use crate::text::{decimal, decimal_text};

verus! {

/// Seconds after which the failed attempts on record no longer count.
pub const FORGET_AFTER_SECS: u64 = 600;

/// The seconds to wait after `count` failed attempts: two to the power `count`, and the
/// longest time there is once that no longer fits in 64 bits.
pub open spec fn delay_seconds(count: u32) -> u64 {
    if count < 64 {
        1u64 << count
    } else {
        u64::MAX
    }
}

/// More time has passed than failed attempts are kept for.
pub open spec fn is_forgotten(elapsed_secs: u64, elapsed_nanos: u32) -> bool {
    elapsed_secs > FORGET_AFTER_SECS || (elapsed_secs == FORGET_AFTER_SECS && elapsed_nanos > 0)
}

/// The failed attempts that count once the given time has passed since the last one.
pub open spec fn counted_attempts(count: u32, elapsed_secs: u64, elapsed_nanos: u32) -> u32 {
    if is_forgotten(elapsed_secs, elapsed_nanos) {
        0
    } else {
        count
    }
}

/// Why the master password was not accepted.
#[derive(Debug, PartialEq, Eq)]
pub enum AuthError {
    /// Too many failed attempts: the seconds still to wait.
    RateLimited(u64),
    /// No master password has been set up.
    NotSetUp,
    /// The stored hash cannot be read: what is wrong with it.
    UnreadableHash(String),
    /// The password is not the master password.
    InvalidPassword,
}

/// The value of an [`AuthError`].
pub enum AuthErrorView {
    RateLimited(u64),
    NotSetUp,
    UnreadableHash(Seq<char>),
    InvalidPassword,
}

impl View for AuthError {
    type V = AuthErrorView;

    open spec fn view(&self) -> AuthErrorView {
        match self {
            AuthError::RateLimited(wait) => AuthErrorView::RateLimited(*wait),
            AuthError::NotSetUp => AuthErrorView::NotSetUp,
            AuthError::UnreadableHash(reason) => AuthErrorView::UnreadableHash(reason@),
            AuthError::InvalidPassword => AuthErrorView::InvalidPassword,
        }
    }
}

/// What an error says.
pub open spec fn error_text(error: AuthErrorView) -> Seq<char> {
    match error {
        AuthErrorView::RateLimited(wait) => "Too many failed attempts. Please wait "@ + decimal(wait as nat)
            + " seconds."@,
        AuthErrorView::NotSetUp => "Master password not set up. Please set a master password first."@,
        AuthErrorView::UnreadableHash(reason) => "Failed to parse stored password hash: "@ + reason,
        AuthErrorView::InvalidPassword => "Invalid master password."@,
    }
}

impl AuthError {
    /// What the error says.
    pub fn message(&self) -> (text: String)
        ensures
            text@ == error_text(self@),
    {
        match self {
            AuthError::RateLimited(wait) => {
                let mut text = String::from_str("Too many failed attempts. Please wait ");
                let seconds = decimal_text(*wait);
                text.append(seconds.as_str());
                text.append(" seconds.");
                text
            },
            AuthError::NotSetUp => String::from_str(
                "Master password not set up. Please set a master password first.",
            ),
            AuthError::UnreadableHash(reason) => {
                let mut text = String::from_str("Failed to parse stored password hash: ");
                text.append(reason.as_str());
                text
            },
            AuthError::InvalidPassword => String::from_str("Invalid master password."),
        }
    }
}

/// The failed attempts on record: none, or their count. The time of the last failed
/// attempt is kept by whoever holds the clock.
pub struct RateLimiter {
    failed_attempts: Option<u32>,
}

impl View for RateLimiter {
    type V = Option<u32>;

    closed spec fn view(&self) -> Option<u32> {
        self.failed_attempts
    }
}

/// What is on record after one more failed attempt.
pub open spec fn one_more(attempts: Option<u32>) -> Option<u32> {
    match attempts {
        Some(count) => if count < u32::MAX {
            Some((count + 1) as u32)
        } else {
            Some(count)
        },
        None => Some(1),
    }
}

/// What is on record after an attempt was let through or held back, once the given time
/// has passed since the last failed attempt.
pub open spec fn after_check(attempts: Option<u32>, elapsed_secs: u64, elapsed_nanos: u32) -> Option<u32> {
    match attempts {
        Some(count) => Some(counted_attempts(count, elapsed_secs, elapsed_nanos)),
        None => None,
    }
}

/// The seconds that an attempt still has to wait, if it has to wait at all.
pub open spec fn wait_for(attempts: Option<u32>, elapsed_secs: u64, elapsed_nanos: u32) -> Option<u64> {
    match attempts {
        Some(count) => {
            let delay = delay_seconds(counted_attempts(count, elapsed_secs, elapsed_nanos));
            if elapsed_secs < delay {
                Some((delay - elapsed_secs) as u64)
            } else {
                None
            }
        },
        None => None,
    }
}

impl RateLimiter {
    /// A record without failed attempts.
    pub fn new() -> (limiter: RateLimiter)
        ensures
            limiter@ is None,
    {
        RateLimiter { failed_attempts: None }
    }

    /// The failed attempts on record, if any.
    pub fn failed_attempts(&self) -> (attempts: Option<u32>)
        ensures
            attempts == self@,
    {
        self.failed_attempts
    }

    /// Whether an attempt may be made now, `elapsed_secs` seconds and `elapsed_nanos`
    /// nanoseconds after the last failed attempt.
    ///
    /// Without failed attempts on record it may. Failed attempts older than ten minutes
    /// no longer count, though the record stays. After `n` failed attempts that count,
    /// an attempt has to wait until two to the power `n` seconds have passed; an attempt
    /// that comes earlier is held back with the whole seconds that it still has to wait.
    pub fn check_rate_limit(&mut self, elapsed_secs: u64, elapsed_nanos: u32) -> (allowed: Result<(), u64>)
        ensures
            final(self)@ == after_check(old(self)@, elapsed_secs, elapsed_nanos),
            match wait_for(old(self)@, elapsed_secs, elapsed_nanos) {
                Some(wait) => allowed == Err::<(), u64>(wait),
                None => allowed is Ok,
            },
    {
        match self.failed_attempts {
            Some(recorded) => {
                let count: u32 = if elapsed_secs > FORGET_AFTER_SECS || (elapsed_secs == FORGET_AFTER_SECS
                    && elapsed_nanos > 0) {
                    0
                } else {
                    recorded
                };
                self.failed_attempts = Some(count);
                let delay_seconds: u64 = if count < 64 {
                    1u64 << count
                } else {
                    u64::MAX
                };
                if elapsed_secs < delay_seconds {
                    Err(delay_seconds - elapsed_secs)
                } else {
                    Ok(())
                }
            },
            None => Ok(()),
        }
    }

    /// Puts one more failed attempt on record.
    pub fn record_failed_attempt(&mut self)
        ensures
            final(self)@ == one_more(old(self)@),
    {
        let count: u32 = match self.failed_attempts {
            Some(count) => count,
            None => 0,
        };
        self.failed_attempts = Some(if count < u32::MAX {
            count + 1
        } else {
            count
        });
    }

    /// Wipes the record after a successful attempt; tells whether there was anything on it.
    pub fn clear_failed_attempts(&mut self) -> (cleared: bool)
        ensures
            final(self)@ is None,
            cleared == old(self)@ is Some,
    {
        let cleared = self.failed_attempts.is_some();
        self.failed_attempts = None;
        cleared
    }
}

/// What comes of testing a password against a stored hash with Argon2: whether the
/// password is the one that was hashed, or what is wrong with the stored hash if it is
/// no hash in the PHC string format.
pub uninterp spec fn hash_outcome(password: Seq<char>, stored_hash: Seq<char>) -> Result<bool, Seq<char>>;

/// `argon2::PasswordHash::new` and, on the hash it reads, `verify_password` of
/// `argon2::Argon2::default()`. The contract claims only that the outcome is a function
/// of the password and the stored hash: `Err` with the text of the error if the stored
/// hash cannot be read, else whether the verification succeeded. The work takes the
/// memory and time that the parameters in the stored hash ask for.
#[verifier::external_body]
fn check_against_hash(password: &str, stored_hash: &str) -> (outcome: Result<bool, String>)
    ensures
        match outcome {
            Ok(matches) => hash_outcome(password@, stored_hash@) == Ok::<bool, Seq<char>>(matches),
            Err(reason) => hash_outcome(password@, stored_hash@) == Err::<bool, Seq<char>>(reason@),
        },
{
    match argon2::PasswordHash::new(stored_hash) {
        Ok(parsed_hash) => Ok(argon2::Argon2::default().verify_password(password.as_bytes(), &parsed_hash).is_ok()),
        Err(error) => Err(error.to_string()),
    }
}

/// What is on record after a password was tested with the given outcome.
pub open spec fn after_outcome(attempts: Option<u32>, outcome: Result<bool, Seq<char>>) -> Option<u32> {
    match outcome {
        Ok(true) => None,
        Ok(false) => one_more(attempts),
        Err(_) => attempts,
    }
}

/// What the test of a password comes to.
pub open spec fn verdict(outcome: Result<bool, Seq<char>>) -> Result<(), AuthErrorView> {
    match outcome {
        Ok(true) => Ok(()),
        Ok(false) => Err(AuthErrorView::InvalidPassword),
        Err(reason) => Err(AuthErrorView::UnreadableHash(reason)),
    }
}

/// The value of the result of a verification.
pub open spec fn result_view(result: Result<(), AuthError>) -> Result<(), AuthErrorView> {
    match result {
        Ok(()) => Ok(()),
        Err(error) => Err(error@),
    }
}

/// The value of the outcome of a test.
pub open spec fn outcome_view(outcome: Result<bool, String>) -> Result<bool, Seq<char>> {
    match outcome {
        Ok(matches) => Ok(matches),
        Err(reason) => Err(reason@),
    }
}

/// Draws the conclusion from the test of a password against the stored hash.
///
/// A password that matches is accepted, and the record of failed attempts is wiped. One
/// that does not match is refused and put on record. If the stored hash could not be
/// read, that is reported and the record stays as it is.
pub fn conclude_verification(limiter: &mut RateLimiter, outcome: Result<bool, String>) -> (result: Result<
    (),
    AuthError,
>)
    ensures
        final(limiter)@ == after_outcome(old(limiter)@, outcome_view(outcome)),
        result_view(result) == verdict(outcome_view(outcome)),
{
    match outcome {
        Ok(true) => {
            limiter.clear_failed_attempts();
            Ok(())
        },
        Ok(false) => {
            limiter.record_failed_attempt();
            Err(AuthError::InvalidPassword)
        },
        Err(reason) => Err(AuthError::UnreadableHash(reason)),
    }
}

/// Tests a password against the stored hash of the master password, if there is one,
/// and keeps the record of failed attempts.
pub fn verify_stored_hash(limiter: &mut RateLimiter, stored_hash: Option<&str>, master_password: &str) -> (result:
    Result<(), AuthError>)
    ensures
        match stored_hash {
            Some(hash) => {
                &&& final(limiter)@ == after_outcome(old(limiter)@, hash_outcome(master_password@, hash@))
                &&& result_view(result) == verdict(hash_outcome(master_password@, hash@))
            },
            None => final(limiter)@ == old(limiter)@ && result_view(result) == Err::<(), AuthErrorView>(
                AuthErrorView::NotSetUp,
            ),
        },
{
    match stored_hash {
        Some(hash) => {
            let outcome = check_against_hash(master_password, hash);
            conclude_verification(limiter, outcome)
        },
        None => Err(AuthError::NotSetUp),
    }
}

/// Verifies the master password `elapsed_secs` seconds and `elapsed_nanos` nanoseconds
/// after the last failed attempt.
///
/// An attempt that comes too early after failed attempts is held back before anything
/// is tested. Else the password is tested against the stored hash as
/// [`verify_stored_hash`] does.
pub fn verify_master_password(
    limiter: &mut RateLimiter,
    elapsed_secs: u64,
    elapsed_nanos: u32,
    stored_hash: Option<&str>,
    master_password: &str,
) -> (result: Result<(), AuthError>)
    ensures
        match wait_for(old(limiter)@, elapsed_secs, elapsed_nanos) {
            Some(wait) => {
                &&& final(limiter)@ == after_check(old(limiter)@, elapsed_secs, elapsed_nanos)
                &&& result_view(result) == Err::<(), AuthErrorView>(AuthErrorView::RateLimited(wait))
            },
            None => match stored_hash {
                Some(hash) => {
                    &&& final(limiter)@ == after_outcome(
                        after_check(old(limiter)@, elapsed_secs, elapsed_nanos),
                        hash_outcome(master_password@, hash@),
                    )
                    &&& result_view(result) == verdict(hash_outcome(master_password@, hash@))
                },
                None => {
                    &&& final(limiter)@ == after_check(old(limiter)@, elapsed_secs, elapsed_nanos)
                    &&& result_view(result) == Err::<(), AuthErrorView>(AuthErrorView::NotSetUp)
                },
            },
        },
{
    match limiter.check_rate_limit(elapsed_secs, elapsed_nanos) {
        Err(wait) => Err(AuthError::RateLimited(wait)),
        Ok(()) => verify_stored_hash(limiter, stored_hash, master_password),
    }
}

} // verus!
