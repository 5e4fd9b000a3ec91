//! Administrator authentication: the stored settings it reads (remote
//! access flag, user name, password hash, signing secret, revocation time),
//! the checks on credentials, and the checks on session-token claims.
//!
//! The settings store and token signing live outside the library; the
//! functions here take what was read from the store and decide.
use vstd::prelude::*;
use crate::text::{
    is_space, lead_ws, trail_ws, trim_start, str_chars, chars_eq, chars_eq_str, trim, trim_chars, lower, lower_chars, string_from_chars,
    to_owned_string, push_str, parse_i64_chars, parse_i64_spec,
};

use crate::chat::{JsonValue, Jv, jv, jv_entries, obj_get, obj_set, set_entry, get_entry, str_value, value_from_tree, tree_from_value};
use crate::passthrough::{int_number, int_value, number_i64, number_i64_exec};

verus! {

pub const ADMIN_REMOTE_ACCESS_ENABLED_KEY: &'static str = "admin.remote_access.enabled";
pub const ADMIN_AUTH_USERNAME_KEY: &'static str = "admin.auth.username";
pub const ADMIN_AUTH_PASSWORD_HASH_KEY: &'static str = "admin.auth.password_hash";
pub const ADMIN_AUTH_JWT_SECRET_KEY: &'static str = "admin.auth.jwt_secret";
pub const ADMIN_AUTH_REVOKE_BEFORE_KEY: &'static str = "admin.auth.revoke_before";

/// Longest lifetime of a session token: seven days, in seconds.
pub const JWT_TTL_SECS: i64 = 604800;

/// The user name used when none is stored.
pub open spec fn default_username() -> Seq<char> {
    seq!['a', 'd', 'm', 'i', 'n']
}

/// The claims of an administrator session token.
pub struct AdminJwtClaims {
    pub sub: String,
    pub iat: i64,
    pub exp: i64,
    pub jti: String,
}

/// Why an authentication step failed.
pub enum AdminAuthError {
    /// No settings store is configured.
    StorageNotConfigured,
    EmptyPassword,
    EmptyUsername,
    SecretNotInitialized,
    SecretEmpty,
    /// The password hashing library failed; its message.
    HashFailed(String),
    /// The password check could not be made; the library's message.
    VerifyFailed(String),
    InvalidTimestamps,
    LifetimeTooLong,
    Revoked,
    /// The token's signature, format or expiry failed; the reason.
    InvalidToken(String),
}

impl AdminAuthError {
    /// The message the administrator sees.
    pub fn message(&self) -> (s: String)
        ensures
            match self {
                AdminAuthError::HashFailed(m) => s@ == "Failed to hash password: "@ + m@,
                AdminAuthError::VerifyFailed(m) => s@ == "Failed to verify password: "@ + m@,
                AdminAuthError::StorageNotConfigured => s@ == "Values storage not configured"@,
                AdminAuthError::EmptyPassword => s@ == "Password cannot be empty"@,
                AdminAuthError::EmptyUsername => s@ == "Username cannot be empty"@,
                AdminAuthError::SecretNotInitialized => s@ == "JWT secret not initialized"@,
                AdminAuthError::SecretEmpty => s@ == "JWT secret is empty"@,
                AdminAuthError::InvalidTimestamps => s@ == "Invalid token timestamps"@,
                AdminAuthError::LifetimeTooLong => s@ == "Token lifetime exceeds 7 days"@,
                AdminAuthError::Revoked => s@ == "Token revoked"@,
                AdminAuthError::InvalidToken(m) => s@ == "Invalid token: "@ + m@,
            },
    {
        match self {
            AdminAuthError::StorageNotConfigured => to_owned_string("Values storage not configured"),
            AdminAuthError::EmptyPassword => to_owned_string("Password cannot be empty"),
            AdminAuthError::EmptyUsername => to_owned_string("Username cannot be empty"),
            AdminAuthError::SecretNotInitialized => to_owned_string("JWT secret not initialized"),
            AdminAuthError::SecretEmpty => to_owned_string("JWT secret is empty"),
            AdminAuthError::HashFailed(m) => {
                let mut s = to_owned_string("Failed to hash password: ");
                push_str(&mut s, m.as_str());
                s
            },
            AdminAuthError::VerifyFailed(m) => {
                let mut s = to_owned_string("Failed to verify password: ");
                push_str(&mut s, m.as_str());
                s
            },
            AdminAuthError::InvalidTimestamps => to_owned_string("Invalid token timestamps"),
            AdminAuthError::LifetimeTooLong => to_owned_string("Token lifetime exceeds 7 days"),
            AdminAuthError::Revoked => to_owned_string("Token revoked"),
            AdminAuthError::InvalidToken(m) => {
                let mut s = to_owned_string("Invalid token: ");
                push_str(&mut s, m.as_str());
                s
            },
        }
    }
}

// ---------------------------------------------------------------------------
// Stored settings
// ---------------------------------------------------------------------------

/// A stored flag reads as "on": after trimming and ASCII lower-casing it is
/// one of `1`, `true`, `yes`, `on`.
pub open spec fn flag_on(v: Seq<char>) -> bool {
    let t = lower(trim(v));
    t == "1"@ || t == "true"@ || t == "yes"@ || t == "on"@
}

/// Whether remote access is enabled, from the stored flag (`None` when the
/// flag, or the store itself, is missing).
pub fn is_remote_access_enabled(stored: Option<&str>) -> (b: bool)
    ensures
        b == match stored {
            Some(v) => flag_on(v@),
            None => false,
        },
{
    match stored {
        None => false,
        Some(v) => {
            let c = str_chars(v);
            let t = trim_chars(&c);
            let l = lower_chars(&t);
            chars_eq_str(&l, "1") || chars_eq_str(&l, "true") || chars_eq_str(&l, "yes")
                || chars_eq_str(&l, "on")
        },
    }
}

/// The stored text for the remote access flag.
pub fn remote_access_value(enabled: bool) -> (s: &'static str)
    ensures
        s@ == if enabled { "true"@ } else { "false"@ },
{
    if enabled {
        "true"
    } else {
        "false"
    }
}

/// The administrator's user name: the stored name, trimmed, or `admin`
/// when none (or only white space) is stored. `stored` is `None` when no
/// settings store is configured, and then so is the result.
pub fn get_admin_username(stored: Option<Option<&str>>) -> (r: Option<String>)
    ensures
        match stored {
            None => r is None,
            Some(Some(v)) if trim(v@).len() > 0 => r matches Some(n) && n@ == trim(v@),
            Some(_) => r matches Some(n) && n@ == default_username(),
        },
{
    match stored {
        None => None,
        Some(value) => {
            if let Some(v) = value {
                let c = str_chars(v);
                let t = trim_chars(&c);
                if t.len() > 0 {
                    return Some(string_from_chars(&t));
                }
            }
            let n = to_owned_string("admin");
            proof {
                reveal_strlit("admin");
                assert(n@ =~= default_username());
            }
            Some(n)
        },
    }
}

/// Whether a password hash is stored (something other than white space).
pub fn has_admin_password(stored: Option<&str>) -> (b: bool)
    ensures
        b == match stored {
            Some(v) => trim(v@).len() > 0,
            None => false,
        },
{
    match stored {
        None => false,
        Some(v) => {
            let c = str_chars(v);
            let t = trim_chars(&c);
            t.len() > 0
        },
    }
}

/// The user name to store for a requested name: the name trimmed, refused
/// when nothing but white space is left.
pub fn validated_username(username: &str) -> (r: Result<String, AdminAuthError>)
    ensures
        trim(username@).len() == 0 <==> r matches Err(AdminAuthError::EmptyUsername),
        trim(username@).len() > 0 ==> (r matches Ok(n) && n@ == trim(username@)),
{
    let c = str_chars(username);
    let t = trim_chars(&c);
    if t.len() == 0 {
        Err(AdminAuthError::EmptyUsername)
    } else {
        Ok(string_from_chars(&t))
    }
}

/// The signing secret from its stored text: trimmed, and neither missing
/// nor empty.
pub fn jwt_secret_value(stored: Option<&str>) -> (r: Result<String, AdminAuthError>)
    ensures
        match stored {
            None => r matches Err(AdminAuthError::SecretNotInitialized),
            Some(v) => if trim(v@).len() == 0 {
                r matches Err(AdminAuthError::SecretEmpty)
            } else {
                r matches Ok(s) && s@ == trim(v@)
            },
        },
{
    match stored {
        None => Err(AdminAuthError::SecretNotInitialized),
        Some(v) => {
            let c = str_chars(v);
            let t = trim_chars(&c);
            if t.len() == 0 {
                Err(AdminAuthError::SecretEmpty)
            } else {
                Ok(string_from_chars(&t))
            }
        },
    }
}

/// A stored setting that is missing or blank.
pub open spec fn blank_setting(stored: Option<Seq<char>>) -> bool {
    match stored {
        Some(v) => trim(v).len() == 0,
        None => true,
    }
}

/// Which authentication settings must be created before use: the user name
/// (then stored as `admin`) and the signing secret (then a fresh random
/// one), each when missing or blank.
pub fn missing_auth_material(stored_username: Option<&str>, stored_secret: Option<&str>) -> (r: (bool, bool))
    ensures
        r.0 == blank_setting(opt_str(stored_username)),
        r.1 == blank_setting(opt_str(stored_secret)),
{
    let u = match stored_username {
        Some(v) => {
            let c = str_chars(v);
            trim_chars(&c).len() == 0
        },
        None => true,
    };
    let s = match stored_secret {
        Some(v) => {
            let c = str_chars(v);
            trim_chars(&c).len() == 0
        },
        None => true,
    };
    (u, s)
}

// ---------------------------------------------------------------------------
// Passwords
// ---------------------------------------------------------------------------

#[verifier::external_type_specification]
#[verifier::external_body]
pub struct ExBcryptError(bcrypt::BcryptError);

/// What `bcrypt::verify(password, hash)` gives: `Some(b)` for `Ok(b)`,
/// `None` for an error (a malformed hash).
pub uninterp spec fn bcrypt_verify_result(password: Seq<char>, hash: Seq<char>) -> Option<bool>;

/// `bcrypt::hash` at the library's default cost. The salt is random, so
/// nothing names the hash itself; what the crate's source shows of it is
/// that `bcrypt::verify` of the same password against it gives `true`.
#[verifier::external_body]
fn bcrypt_hash(password: &str) -> (r: Result<String, bcrypt::BcryptError>)
    ensures
        r matches Ok(h) ==> bcrypt_verify_result(password@, h@) == Some(true),
{
    bcrypt::hash(password, bcrypt::DEFAULT_COST)
}

/// `bcrypt::verify`: whether `password` matches the stored `hash`.
#[verifier::external_body]
fn bcrypt_verify(password: &str, hash: &str) -> (r: Result<bool, bcrypt::BcryptError>)
    ensures
        match r {
            Ok(b) => bcrypt_verify_result(password@, hash@) == Some(b),
            Err(_) => bcrypt_verify_result(password@, hash@) is None,
        },
{
    bcrypt::verify(password, hash)
}

/// The message of a bcrypt error (its `Display` text).
#[verifier::external_body]
fn bcrypt_error_text(e: &bcrypt::BcryptError) -> String {
    e.to_string()
}

/// The hash to store for a new administrator password. An empty password is
/// refused; otherwise the result, when hashing succeeds, verifies against the
/// same password.
pub fn admin_password_hash(password: &str) -> (r: Result<String, AdminAuthError>)
    ensures
        password@.len() == 0 <==> r matches Err(AdminAuthError::EmptyPassword),
        r matches Ok(h) ==> bcrypt_verify_result(password@, h@) == Some(true),
        password@.len() > 0 ==> (r is Ok || r is Err && r->Err_0 is HashFailed),
{
    if password.is_empty() {
        return Err(AdminAuthError::EmptyPassword);
    }
    match bcrypt_hash(password) {
        Ok(h) => Ok(h),
        Err(e) => Err(AdminAuthError::HashFailed(bcrypt_error_text(&e))),
    }
}

/// Whether a login name is the administrator's: both trimmed, the stored
/// name being `admin` when none is stored.
pub open spec fn username_matches(username: Seq<char>, stored: Option<Seq<char>>) -> bool {
    trim(username) == trim(match stored {
        Some(s) => s,
        None => default_username(),
    })
}

/// The view of an optional stored text.
pub open spec fn opt_str(o: Option<&str>) -> Option<Seq<char>> {
    match o {
        Some(s) => Some(s@),
        None => None,
    }
}

/// The verdict on login credentials: `Some(false)` when the name differs
/// or no hash is stored; otherwise what the password check gives, `None`
/// when it cannot be made.
pub open spec fn credentials_verdict(
    username: Seq<char>,
    password: Seq<char>,
    stored_username: Option<Seq<char>>,
    stored_hash: Option<Seq<char>>,
) -> Option<bool> {
    if !username_matches(username, stored_username) {
        Some(false)
    } else {
        match stored_hash {
            None => Some(false),
            Some(h) => bcrypt_verify_result(password, h),
        }
    }
}

/// Checks login credentials against the stored user name and password hash.
pub fn verify_admin_credentials(
    username: &str,
    password: &str,
    stored_username: Option<&str>,
    stored_hash: Option<&str>,
) -> (r: Result<bool, AdminAuthError>)
    ensures
        match credentials_verdict(username@, password@, opt_str(stored_username), opt_str(stored_hash)) {
            Some(b) => r matches Ok(x) && x == b,
            None => r matches Err(AdminAuthError::VerifyFailed(_)),
        },
{
    let given = str_chars(username);
    let given_t = trim_chars(&given);
    let expected = match stored_username {
        Some(s) => str_chars(s),
        None => {
            let a = str_chars("admin");
            proof {
                reveal_strlit("admin");
                assert(a@ =~= default_username());
            }
            a
        },
    };
    let expected_t = trim_chars(&expected);
    if !chars_eq(&given_t, &expected_t) {
        return Ok(false);
    }
    match stored_hash {
        None => Ok(false),
        Some(h) => match bcrypt_verify(password, h) {
            Ok(b) => Ok(b),
            Err(e) => Err(AdminAuthError::VerifyFailed(bcrypt_error_text(&e))),
        },
    }
}

// ---------------------------------------------------------------------------
// Session tokens
// ---------------------------------------------------------------------------

/// The claims of a token issued to `username` at `now` (seconds): valid for
/// seven days, identified by `jti`.
pub fn admin_jwt_claims(username: &str, now: i64, jti: String) -> (c: AdminJwtClaims)
    requires
        now <= i64::MAX - JWT_TTL_SECS,
    ensures
        c.sub@ == username@,
        c.iat == now,
        c.exp == now + JWT_TTL_SECS,
        c.jti == jti,
{
    AdminJwtClaims { sub: to_owned_string(username), iat: now, exp: now + JWT_TTL_SECS, jti }
}

/// The verdict on the claims of a token whose signature and expiry were
/// checked: its lifetime must be positive and at most seven days, and it
/// must have been issued after the stored revocation time, if one is stored
/// and reads as a number.
pub open spec fn claims_verdict(iat: i64, exp: i64, revoke_before: Option<Seq<char>>) -> Option<AdminAuthError> {
    if exp <= iat {
        Some(AdminAuthError::InvalidTimestamps)
    } else if exp - iat > JWT_TTL_SECS {
        Some(AdminAuthError::LifetimeTooLong)
    } else {
        match revoke_before {
            Some(t) => match parse_i64_spec(trim(t)) {
                Some(rb) if iat <= rb => Some(AdminAuthError::Revoked),
                _ => None,
            },
            None => None,
        }
    }
}

/// Checks the claims of a decoded token against the lifetime limit and the
/// stored revocation time.
pub fn check_admin_jwt_claims(claims: &AdminJwtClaims, revoke_before: Option<&str>) -> (r: Result<(), AdminAuthError>)
    ensures
        match claims_verdict(claims.iat, claims.exp, opt_str(revoke_before)) {
            None => r is Ok,
            Some(AdminAuthError::InvalidTimestamps) => r matches Err(AdminAuthError::InvalidTimestamps),
            Some(AdminAuthError::LifetimeTooLong) => r matches Err(AdminAuthError::LifetimeTooLong),
            Some(_) => r matches Err(AdminAuthError::Revoked),
        },
{
    if claims.exp <= claims.iat {
        return Err(AdminAuthError::InvalidTimestamps);
    }
    let ttl: i128 = (claims.exp as i128) - (claims.iat as i128);
    if ttl > JWT_TTL_SECS as i128 {
        return Err(AdminAuthError::LifetimeTooLong);
    }
    if let Some(t) = revoke_before {
        let c = str_chars(t);
        let tc = trim_chars(&c);
        if let Some(rb) = parse_i64_chars(&tc) {
            if claims.iat <= rb {
                return Err(AdminAuthError::Revoked);
            }
        }
    }
    Ok(())
}

// ---------------------------------------------------------------------------
// Signed session tokens
// ---------------------------------------------------------------------------

/// The signing secret a stored text gives: trimmed, when not blank.
pub open spec fn secret_of(stored: Option<Seq<char>>) -> Option<Seq<char>> {
    match stored {
        Some(v) => if trim(v).len() == 0 { None } else { Some(trim(v)) },
        None => None,
    }
}

/// The JSON claims object of a token.
pub open spec fn claims_json(sub: Seq<char>, iat: i64, exp: i64, jti: Seq<char>) -> Jv {
    Jv::Obj(obj_set(obj_set(obj_set(obj_set(Seq::empty(), "sub"@, Jv::Str(sub)), "iat"@, int_number(iat)), "exp"@, int_number(exp)), "jti"@, Jv::Str(jti)))
}

/// What `jsonwebtoken::encode` gives for a claims object signed with HS256
/// and a secret.
pub uninterp spec fn jwt_hs256(claims: Jv, secret: Seq<char>) -> Seq<char>;

/// `jsonwebtoken::encode` with an HS256 header (`typ` "JWT") and the
/// secret's bytes as key: claims that the token is the named one. As the
/// crate's source shows, HMAC signing never fails and serialising a
/// `serde_json::Value` never fails, so a token always comes back.
#[verifier::external_body]
fn jwt_encode_hs256(claims: &JsonValue, secret: &str) -> (r: Option<String>)
    ensures
        r is Some,
        r matches Some(t) ==> t@ == jwt_hs256(jv(*claims), secret@),
{
    let header = jsonwebtoken::Header::new(jsonwebtoken::Algorithm::HS256);
    let key = jsonwebtoken::EncodingKey::from_secret(secret.as_bytes());
    jsonwebtoken::encode(&header, &value_from_tree(claims), &key).ok()
}

/// What `jsonwebtoken::decode` accepts of a token with HS256, the secret's
/// bytes as key and no expiry check: the claims object, or `None` when the
/// format, algorithm or signature is wrong or the `exp` claim is missing.
pub uninterp spec fn jwt_hs256_claims(token: Seq<char>, secret: Seq<char>) -> Option<Jv>;

/// `jsonwebtoken::decode` into a JSON value with `Validation::new(HS256)`
/// and `validate_exp` off (expiry is checked against a given time by the
/// caller): claims that the result is the named claims object; the error
/// text is the crate's message.
#[verifier::external_body]
fn jwt_decode_hs256(token: &str, secret: &str) -> (r: Result<JsonValue, String>)
    ensures
        match r {
            Ok(v) => jwt_hs256_claims(token@, secret@) == Some(jv(v)),
            Err(_) => jwt_hs256_claims(token@, secret@) is None,
        },
{
    let mut validation = jsonwebtoken::Validation::new(jsonwebtoken::Algorithm::HS256);
    validation.validate_exp = false;
    let key = jsonwebtoken::DecodingKey::from_secret(secret.as_bytes());
    match jsonwebtoken::decode::<serde_json::Value>(token, &key, &validation) {
        Ok(data) => Ok(tree_from_value(&data.claims)),
        Err(e) => Err(e.to_string()),
    }
}

/// The claims a decoded object holds: text `sub` and `jti`, integer `iat`
/// and `exp`.
pub open spec fn claims_of(v: Jv) -> Option<(Seq<char>, i64, i64, Seq<char>)> {
    match v {
        Jv::Obj(o) => match (obj_get(o, "sub"@), number_i64(obj_get(o, "iat"@)), number_i64(obj_get(o, "exp"@)), obj_get(o, "jti"@)) {
            (Some(Jv::Str(sub)), Some(iat), Some(exp), Some(Jv::Str(jti))) => Some((sub, iat as i64, exp as i64, jti)),
            _ => None,
        },
        _ => None,
    }
}

fn claims_tree(c: &AdminJwtClaims) -> (v: JsonValue)
    ensures
        jv(v) == claims_json(c.sub@, c.iat, c.exp, c.jti@),
{
    let mut es: Vec<(String, JsonValue)> = Vec::new();
    proof {
        assert(jv_entries(es@) =~= Seq::<(Seq<char>, Jv)>::empty());
    }
    set_entry(&mut es, "sub", JsonValue::Str(to_owned_string(c.sub.as_str())));
    set_entry(&mut es, "iat", int_value(c.iat));
    set_entry(&mut es, "exp", int_value(c.exp));
    set_entry(&mut es, "jti", JsonValue::Str(to_owned_string(c.jti.as_str())));
    JsonValue::Object(es)
}

/// Issues a session token for `username` at `now` (seconds) with
/// identifier `jti`: the claims of `admin_jwt_claims`, signed with HS256 and
/// the stored secret.
pub fn issue_admin_jwt(stored_secret: Option<&str>, username: &str, now: i64, jti: String) -> (r: Result<(String, AdminJwtClaims), AdminAuthError>)
    requires
        now <= i64::MAX - JWT_TTL_SECS,
    ensures
        match stored_secret {
            None => r matches Err(AdminAuthError::SecretNotInitialized),
            Some(v) => match secret_of(Some(v@)) {
                None => r matches Err(AdminAuthError::SecretEmpty),
                Some(secret) => r matches Ok(p) && {
                    &&& p.1.sub@ == username@
                    &&& p.1.iat == now
                    &&& p.1.exp == now + JWT_TTL_SECS
                    &&& p.1.jti == jti
                    &&& p.0@ == jwt_hs256(claims_json(username@, now, (now + JWT_TTL_SECS) as i64, jti@), secret)
                },
            },
        },
{
    let claims = admin_jwt_claims(username, now, jti);
    let secret = match jwt_secret_value(stored_secret) {
        Ok(s) => s,
        Err(e) => { return Err(e); },
    };
    let tree = claims_tree(&claims);
    match jwt_encode_hs256(&tree, secret.as_str()) {
        Some(t) => Ok((t, claims)),
        None => Err(AdminAuthError::InvalidToken(to_owned_string("signing failed"))),
    }
}

fn claims_from(v: &JsonValue) -> (r: Option<AdminJwtClaims>)
    ensures
        match claims_of(jv(*v)) {
            Some(c) => r matches Some(x) && x.sub@ == c.0 && x.iat == c.1 && x.exp == c.2 && x.jti@ == c.3,
            None => r is None,
        },
{
    match v {
        JsonValue::Object(o) => {
            let sub = match str_value(get_entry(o, "sub")) {
                Some(s) => to_owned_string(s),
                None => { return None; },
            };
            let iat = match number_i64_exec(get_entry(o, "iat")) {
                Some(n) => n,
                None => { return None; },
            };
            let exp = match number_i64_exec(get_entry(o, "exp")) {
                Some(n) => n,
                None => { return None; },
            };
            let jti = match str_value(get_entry(o, "jti")) {
                Some(s) => to_owned_string(s),
                None => { return None; },
            };
            Some(AdminJwtClaims { sub, iat, exp, jti })
        },
        _ => None,
    }
}

/// Validates a session token at `now` (seconds): the stored secret, the
/// token's HS256 signature and format, its claims, its expiry with five
/// seconds of leeway, then the lifetime and revocation checks.
pub fn validate_admin_jwt(stored_secret: Option<&str>, revoke_before: Option<&str>, token: &str, now: i64) -> (r: Result<AdminJwtClaims, AdminAuthError>)
    ensures
        match stored_secret {
            None => r matches Err(AdminAuthError::SecretNotInitialized),
            Some(v) => match secret_of(Some(v@)) {
                None => r matches Err(AdminAuthError::SecretEmpty),
                Some(secret) => match jwt_hs256_claims(token@, secret) {
                    None => r matches Err(AdminAuthError::InvalidToken(_)),
                    Some(j) => match claims_of(j) {
                        None => r matches Err(AdminAuthError::InvalidToken(_)),
                        Some(c) => if c.2 + 5 < now {
                            r matches Err(AdminAuthError::InvalidToken(m)) && m@ == "ExpiredSignature"@
                        } else {
                            match claims_verdict(c.1, c.2, opt_str(revoke_before)) {
                                None => r matches Ok(x) && x.sub@ == c.0 && x.iat == c.1 && x.exp == c.2 && x.jti@ == c.3,
                                Some(AdminAuthError::InvalidTimestamps) => r matches Err(AdminAuthError::InvalidTimestamps),
                                Some(AdminAuthError::LifetimeTooLong) => r matches Err(AdminAuthError::LifetimeTooLong),
                                Some(_) => r matches Err(AdminAuthError::Revoked),
                            }
                        },
                    },
                },
            },
        },
{
    let secret = match jwt_secret_value(stored_secret) {
        Ok(s) => s,
        Err(e) => { return Err(e); },
    };
    let tree = match jwt_decode_hs256(token, secret.as_str()) {
        Ok(t) => t,
        Err(m) => { return Err(AdminAuthError::InvalidToken(m)); },
    };
    let claims = match claims_from(&tree) {
        Some(c) => c,
        None => { return Err(AdminAuthError::InvalidToken(to_owned_string("claims are missing or malformed"))); },
    };
    if (claims.exp as i128) + 5 < (now as i128) {
        proof {
            reveal_strlit("ExpiredSignature");
        }
        return Err(AdminAuthError::InvalidToken(to_owned_string("ExpiredSignature")));
    }
    match check_admin_jwt_claims(&claims, revoke_before) {
        Ok(()) => Ok(claims),
        Err(e) => Err(e),
    }
}

/// The token in an `Authorization` header value: after trimming, the text
/// following `Bearer ` or `bearer `, trimmed and not empty.
pub open spec fn bearer_token(header: Seq<char>) -> Option<Seq<char>> {
    let v = trim(header);
    let b = "Bearer "@;
    let l = "bearer "@;
    let rest = if v.len() >= 7 && v.take(7) == b {
        Some(v.skip(7))
    } else if v.len() >= 7 && v.take(7) == l {
        Some(v.skip(7))
    } else {
        None
    };
    match rest {
        Some(r) if trim(r).len() > 0 => Some(trim(r)),
        _ => None,
    }
}

/// Extracts the bearer token from an `Authorization` header value (`None`
/// when the header is absent).
pub fn extract_bearer_token(header: Option<&str>) -> (r: Option<String>)
    ensures
        match header {
            None => r is None,
            Some(h) => match bearer_token(h@) {
                Some(t) => r matches Some(s) && s@ == t,
                None => r is None,
            },
        },
{
    let h = match header {
        None => { return None; },
        Some(h) => h,
    };
    let c = str_chars(h);
    let v = trim_chars(&c);
    let pre = str_chars("Bearer ");
    let pre_l = str_chars("bearer ");
    proof {
        reveal_strlit("Bearer ");
        reveal_strlit("bearer ");
    }
    if v.len() < 7 {
        return None;
    }
    let head = crate::text::slice_chars(&v, 0, 7);
    proof {
        assert(head@ =~= v@.take(7));
    }
    if !chars_eq(&head, &pre) && !chars_eq(&head, &pre_l) {
        return None;
    }
    let rest = crate::text::slice_chars(&v, 7, v.len());
    proof {
        assert(rest@ =~= v@.skip(7));
    }
    let t = trim_chars(&rest);
    if t.len() == 0 {
        return None;
    }
    Some(string_from_chars(&t))
}

// ---------------------------------------------------------------------------
// The authentication endpoints
// ---------------------------------------------------------------------------

/// What an authentication request asks for.
#[derive(Debug, Clone, Copy, PartialEq, Eq)]
pub enum AuthEndpoint {
    Preflight,
    Status,
    Login,
    Logout,
    ChangePassword,
    RemoteAccess,
    RevokeAll,
    MethodNotAllowed,
    NotFound,
}

/// The endpoint of a request below `/api/auth`, by path and method.
pub open spec fn auth_endpoint_spec(path: Seq<char>, method: Seq<char>) -> AuthEndpoint {
    if method == "OPTIONS"@ {
        AuthEndpoint::Preflight
    } else if path == "/api/auth/status"@ {
        if method == "GET"@ { AuthEndpoint::Status } else { AuthEndpoint::MethodNotAllowed }
    } else if path == "/api/auth/login"@ {
        if method == "POST"@ { AuthEndpoint::Login } else { AuthEndpoint::MethodNotAllowed }
    } else if path == "/api/auth/logout"@ {
        if method == "POST"@ { AuthEndpoint::Logout } else { AuthEndpoint::MethodNotAllowed }
    } else if path == "/api/auth/passwd"@ {
        if method == "POST"@ { AuthEndpoint::ChangePassword } else { AuthEndpoint::MethodNotAllowed }
    } else if path == "/api/auth/remote"@ {
        if method == "POST"@ { AuthEndpoint::RemoteAccess } else { AuthEndpoint::MethodNotAllowed }
    } else if path == "/api/auth/revoke-all"@ {
        if method == "POST"@ { AuthEndpoint::RevokeAll } else { AuthEndpoint::MethodNotAllowed }
    } else {
        AuthEndpoint::NotFound
    }
}

/// Classifies a request below `/api/auth`.
pub fn auth_endpoint(path: &str, method: &str) -> (e: AuthEndpoint)
    ensures
        e == auth_endpoint_spec(path@, method@),
{
    let p = str_chars(path);
    let m = str_chars(method);
    let post = chars_eq_str(&m, "POST");
    if chars_eq_str(&m, "OPTIONS") {
        AuthEndpoint::Preflight
    } else if chars_eq_str(&p, "/api/auth/status") {
        if chars_eq_str(&m, "GET") { AuthEndpoint::Status } else { AuthEndpoint::MethodNotAllowed }
    } else if chars_eq_str(&p, "/api/auth/login") {
        if post { AuthEndpoint::Login } else { AuthEndpoint::MethodNotAllowed }
    } else if chars_eq_str(&p, "/api/auth/logout") {
        if post { AuthEndpoint::Logout } else { AuthEndpoint::MethodNotAllowed }
    } else if chars_eq_str(&p, "/api/auth/passwd") {
        if post { AuthEndpoint::ChangePassword } else { AuthEndpoint::MethodNotAllowed }
    } else if chars_eq_str(&p, "/api/auth/remote") {
        if post { AuthEndpoint::RemoteAccess } else { AuthEndpoint::MethodNotAllowed }
    } else if chars_eq_str(&p, "/api/auth/revoke-all") {
        if post { AuthEndpoint::RevokeAll } else { AuthEndpoint::MethodNotAllowed }
    } else {
        AuthEndpoint::NotFound
    }
}

/// A refused authentication request: HTTP status and message.
pub struct AuthRefusal {
    pub status: u16,
    pub message: &'static str,
}

/// Logging in is possible only with remote access on; otherwise 403.
pub fn login_allowed(remote_enabled: bool) -> (r: Result<(), AuthRefusal>)
    ensures
        r is Ok <==> remote_enabled,
        r matches Err(e) ==> e.status == 403 && e.message@ == "Remote admin access is not enabled"@,
{
    if remote_enabled {
        Ok(())
    } else {
        Err(AuthRefusal { status: 403, message: "Remote admin access is not enabled" })
    }
}

/// A password change needs a password; otherwise 400.
pub fn password_change_allowed(password: &str) -> (r: Result<(), AuthRefusal>)
    ensures
        r is Ok <==> password@.len() > 0,
        r matches Err(e) ==> e.status == 400 && e.message@ == "Password cannot be empty"@,
{
    if password.is_empty() {
        Err(AuthRefusal { status: 400, message: "Password cannot be empty" })
    } else {
        Ok(())
    }
}

/// Remote access may be switched on only once a password is set; otherwise
/// 400. Switching it off is always allowed.
pub fn remote_toggle_allowed(enabled: bool, has_password: bool) -> (r: Result<(), AuthRefusal>)
    ensures
        r is Ok <==> (!enabled || has_password),
        r matches Err(e) ==> e.status == 400
            && e.message@ == "Cannot enable remote access without setting a password first"@,
{
    if enabled && !has_password {
        Err(AuthRefusal { status: 400, message: "Cannot enable remote access without setting a password first" })
    } else {
        Ok(())
    }
}

/// The `Authorization` header value sent back with a token.
pub fn bearer_header(token: &str) -> (s: String)
    ensures
        s@ == "Bearer "@ + token@,
{
    let mut s = to_owned_string("Bearer ");
    push_str(&mut s, token);
    s
}

// ---------------------------------------------------------------------------
// Laws
// ---------------------------------------------------------------------------

/// A password stored through `admin_password_hash` is accepted afterwards
/// for the administrator's name.
pub proof fn lemma_set_password_then_verify(username: Seq<char>, stored: Option<Seq<char>>, password: Seq<char>, hash: Seq<char>)
    requires
        bcrypt_verify_result(password, hash) == Some(true),
        username_matches(username, stored),
    ensures
        credentials_verdict(username, password, stored, Some(hash)) == Some(true),
{
}

/// Credentials with another name than the administrator's are refused,
/// whatever the password.
pub proof fn lemma_wrong_user_refused(username: Seq<char>, password: Seq<char>, stored: Option<Seq<char>>, hash: Option<Seq<char>>)
    requires
        !username_matches(username, stored),
    ensures
        credentials_verdict(username, password, stored, hash) == Some(false),
{
}

/// A token is never accepted when issued at or before the revocation time.
pub proof fn lemma_revoked_before_is_refused(iat: i64, exp: i64, revoke_before: Seq<char>, rb: int)
    requires
        parse_i64_spec(trim(revoke_before)) == Some(rb),
        iat <= rb,
    ensures
        claims_verdict(iat, exp, Some(revoke_before)) is Some,
{
}

/// The token that a login answer carries in its `Authorization` header is
/// read back as that token.
pub proof fn lemma_bearer_header_round_trip(token: Seq<char>)
    requires
        token.len() > 0,
        !is_space(token[0]),
        !is_space(token.last()),
    ensures
        bearer_token("Bearer "@ + token) == Some(token),
{
    reveal_strlit("Bearer ");
    let h = "Bearer "@ + token;
    assert(h[0] == 'B');
    assert(h.last() == token.last());
    assert(lead_ws(h) == 0);
    assert(trail_ws(h) == 0);
    assert(trim_start(h) =~= h);
    assert(trim(h) =~= h);
    assert(h.take(7) =~= "Bearer "@);
    assert(h.skip(7) =~= token);
    assert(lead_ws(token) == 0);
    assert(trail_ws(token) == 0);
    assert(trim_start(token) =~= token);
    assert(trim(token) =~= token);
}

/// Freshly issued claims pass the lifetime checks: positive and at most
/// seven days.
pub proof fn lemma_issued_claims_lifetime(now: i64)
    requires
        now <= i64::MAX - JWT_TTL_SECS,
    ensures
        claims_verdict(now, (now + JWT_TTL_SECS) as i64, None) is None,
{
}

} // verus!
