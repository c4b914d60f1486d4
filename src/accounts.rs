//! Account requests: signing up and logging in.

use vstd::prelude::*;
use crate::board::EngineError;
use crate::identity::{issue_token, issued_claims, jwt_signed, TOKEN_LIFETIME};
use crate::records::User;

verus! {

/// The fewest characters a new password may have.
pub const MIN_PASSWORD_CHARS: usize = 12;

/// A request to open an account.
#[derive(Debug)]
pub struct Signup {
    pub email: String,
    pub password: String,
    pub display_name: String,
}

/// A request to log in.
#[derive(Debug)]
pub struct Login {
    pub email: String,
    pub password: String,
}

/// Whether `password` matches the bcrypt hash `hash`.
pub uninterp spec fn bcrypt_matches(password: Seq<char>, hash: Seq<char>) -> bool;

/// Relies on `bcrypt::verify`: whether the password hashes, with the salt
/// and cost recorded in `hash`, to `hash`; a malformed hash matches nothing.
#[verifier::external_body]
fn password_matches(password: &str, hash: &str) -> (r: bool)
    ensures
        r == bcrypt_matches(password@, hash@),
{
    bcrypt::verify(password, hash).unwrap_or(false)
}

/// Relies on `bcrypt::hash`: a hash of the password with a fresh random salt
/// at the given cost; `None` when bcrypt refuses the cost. Nothing is known
/// of the text, which depends on the salt drawn.
#[verifier::external_body]
fn hash_password(password: &str, cost: u32) -> (r: Option<String>) {
    bcrypt::hash(password, cost).ok()
}

/// Checks a signup request: signups must be enabled and the password must
/// have at least `MIN_PASSWORD_CHARS` characters. Either failure gives
/// `Invalid`.
pub fn check_signup(signup: &Signup, signups_enabled: bool) -> (r: Result<(), EngineError>)
    ensures
        r is Ok <==> signups_enabled && signup.password@.len() >= MIN_PASSWORD_CHARS,
        r is Err ==> r == Err::<(), EngineError>(EngineError::Invalid),
{
    if !signups_enabled {
        return Err(EngineError::Invalid);
    }
    if signup.password.as_str().unicode_len() < MIN_PASSWORD_CHARS {
        return Err(EngineError::Invalid);
    }
    Ok(())
}

/// Checks a signup request and, when it passes, hashes its password with
/// bcrypt at `cost` for storage. A failed check, or a cost that bcrypt
/// refuses, gives `Invalid`.
pub fn signup_password_hash(signup: &Signup, signups_enabled: bool, cost: u32) -> (r: Result<
    String,
    EngineError,
>)
    ensures
        !(signups_enabled && signup.password@.len() >= MIN_PASSWORD_CHARS) ==> r == Err::<
            String,
            EngineError,
        >(EngineError::Invalid),
        r is Err ==> r == Err::<String, EngineError>(EngineError::Invalid),
{
    check_signup(signup, signups_enabled)?;
    match hash_password(signup.password.as_str(), cost) {
        Some(h) => Ok(h),
        None => Err(EngineError::Invalid),
    }
}

/// Logs `user` in with the password of `request` at `now`: the password
/// must match the stored hash and the account must be enabled, else
/// `Unauthorized`. On success it gives a token signed with `secret`;
/// `Invalid` when no token can be issued at `now`.
pub fn login(user: &User, request: &Login, secret: &str, now: i64) -> (r: Result<String, EngineError>)
    ensures
        !bcrypt_matches(request.password@, user.password@) || !user.enabled ==> r == Err::<
            String,
            EngineError,
        >(EngineError::Unauthorized),
        bcrypt_matches(request.password@, user.password@) && user.enabled ==> {
            let signed = jwt_signed(issued_claims(*user, now), secret@);
            if now + TOKEN_LIFETIME <= i64::MAX && signed is Some {
                r is Ok && r.unwrap()@ == signed.unwrap()
            } else {
                r == Err::<String, EngineError>(EngineError::Invalid)
            }
        },
{
    if !password_matches(request.password.as_str(), user.password.as_str()) {
        return Err(EngineError::Unauthorized);
    }
    if !user.enabled {
        return Err(EngineError::Unauthorized);
    }
    match issue_token(user, secret, now) {
        Some(t) => Ok(t),
        None => Err(EngineError::Invalid),
    }
}

} // verus!
