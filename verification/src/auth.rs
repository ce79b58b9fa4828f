//! Checking and storing passwords, and minting session tokens.

use vstd::prelude::*;
use crate::error::EngineError;
use crate::records::views;
use crate::session::SessionDirectory;
use crate::users::{find_by_login, find_by_pin, user_named, worker_with_pin, User, UserView};

verus! {

/// The error type of the `bcrypt` crate.
#[verifier::external_type_specification]
#[verifier::external_body]
pub struct ExBcryptError(bcrypt::BcryptError);

/// What `bcrypt::verify` makes of a password and a stored hash: whether
/// they match, or `None` where the hash cannot be read.
pub uninterp spec fn bcrypt_verdict(password: Seq<char>, hash: Seq<char>) -> Option<bool>;

/// `bcrypt::verify`: splits the stored hash into cost, salt and digest,
/// hashes the password with that cost and salt, and compares. The result
/// depends on the two texts alone; the contract gives it its name, `Err`
/// standing for a hash that is malformed or names a cost that is not
/// allowed.
#[verifier::external_body]
fn bcrypt_verify(password: &str, hash: &str) -> (r: Result<bool, bcrypt::BcryptError>)
    ensures
        match r {
            Ok(matches) => bcrypt_verdict(password@, hash@) == Some(matches),
            Err(_) => bcrypt_verdict(password@, hash@) is None,
        },
{
    bcrypt::verify(password, hash)
}

/// `bcrypt::hash`: hashes the password with a salt drawn from the operating
/// system's randomness. Nothing is claimed of the result.
#[verifier::external_body]
fn bcrypt_hash(password: &str, cost: u32) -> (r: Result<String, bcrypt::BcryptError>) {
    bcrypt::hash(password, cost)
}

/// `uuid::Uuid::new_v4`, written in its hyphenated form: a random token.
/// Nothing is claimed of the result. The call panics where the operating
/// system gives no random bytes.
#[verifier::external_body]
pub(crate) fn fresh_uuid() -> (r: String) {
    uuid::Uuid::new_v4().to_string()
}

/// The work factor with which passwords are hashed.
pub const PASSWORD_COST: u32 = 12;

/// Whether a login with `password` is accepted for the user that the
/// lookup gave: there must be a user, the user must have a stored hash,
/// and the password must match it.
pub open spec fn credentials_accepted(user: Option<UserView>, password: Seq<char>) -> bool {
    &&& user is Some
    &&& user->0.password_hash is Some
    &&& bcrypt_verdict(password, user->0.password_hash->0) == Some(true)
}

/// What a password check gave decides the login: only a match lets the
/// user in.
pub fn login_outcome(checked: Option<bool>) -> (r: Result<(), EngineError>)
    ensures
        r is Ok <==> checked == Some(true),
        r is Err ==> r == Err::<(), EngineError>(EngineError::Unauthorized),
{
    match checked {
        Some(true) => Ok(()),
        _ => Err(EngineError::Unauthorized),
    }
}

/// Checks a password against the user that the lookup gave. A missing
/// user, a user without a stored hash, a hash that cannot be read and a
/// password that does not match are all refused as unauthorized.
pub fn check_credentials(user: Option<&User>, password: &str) -> (r: Result<(), EngineError>)
    ensures
        r is Ok <==> credentials_accepted(
            match user {
                Some(u) => Some(u@),
                None => None,
            },
            password@,
        ),
        r is Err ==> r == Err::<(), EngineError>(EngineError::Unauthorized),
{
    let user = match user {
        Some(u) => u,
        None => {
            return Err(EngineError::Unauthorized);
        },
    };
    let hash = match &user.password_hash {
        Some(h) => h,
        None => {
            return Err(EngineError::Unauthorized);
        },
    };
    let checked = match bcrypt_verify(password, hash.as_str()) {
        Ok(matches) => Some(matches),
        Err(_) => None,
    };
    login_outcome(checked)
}

/// A password is stored only where one was given and is not empty.
pub open spec fn password_given(password: Option<Seq<char>>) -> bool {
    password is Some && password->0.len() > 0
}

/// The hash to store for a password: none where no password was given,
/// the result of hashing otherwise. A failure of the hashing is reported
/// as a failure of the storage.
pub fn stored_password(password: &Option<String>) -> (r: Result<Option<String>, EngineError>)
    ensures
        !password_given(crate::records::opt_chars(*password)) ==> r == Ok::<
            Option<String>,
            EngineError,
        >(None),
        password_given(crate::records::opt_chars(*password)) ==> match r {
            Ok(stored) => stored is Some,
            Err(e) => e == EngineError::PersistenceError,
        },
{
    match password {
        None => Ok(None),
        Some(p) => {
            if p.as_str().is_empty() {
                Ok(None)
            } else {
                match bcrypt_hash(p.as_str(), PASSWORD_COST) {
                    Ok(h) => Ok(Some(h)),
                    Err(_) => Err(EngineError::PersistenceError),
                }
            }
        },
    }
}

/// Logs a user in by name and password: the first active user with that
/// login must have a stored hash that the password matches. On success a
/// session is opened for the user under a new token, which is returned;
/// a refused login opens none.
pub fn login_user(
    users: &Vec<User>,
    sessions: &mut SessionDirectory,
    username: &str,
    password: &str,
) -> (r: Result<String, EngineError>)
    ensures
        r is Ok <==> credentials_accepted(user_named(views(users@), username@), password@),
        match r {
            Ok(token) => final(sessions)@ == old(sessions)@.insert(
                token@,
                user_named(views(users@), username@)->0,
            ),
            Err(e) => e == EngineError::Unauthorized && final(sessions)@ == old(sessions)@,
        },
{
    let found = find_by_login(users, username);
    match check_credentials(found, password) {
        Err(e) => Err(e),
        Ok(()) => {
            let user = found.unwrap();
            Ok(sessions.open(user.duplicate()))
        },
    }
}

/// Logs a worker in by PIN: the first active worker with that PIN gets a
/// session under a new token, which is returned; an unknown PIN opens
/// none.
pub fn login_worker(users: &Vec<User>, sessions: &mut SessionDirectory, pin: &str) -> (r: Result<
    String,
    EngineError,
>)
    ensures
        r is Ok <==> worker_with_pin(views(users@), pin@) is Some,
        match r {
            Ok(token) => final(sessions)@ == old(sessions)@.insert(
                token@,
                worker_with_pin(views(users@), pin@)->0,
            ),
            Err(e) => e == EngineError::Unauthorized && final(sessions)@ == old(sessions)@,
        },
{
    match find_by_pin(users, pin) {
        None => Err(EngineError::Unauthorized),
        Some(user) => Ok(sessions.open(user.duplicate())),
    }
}

} // verus!
