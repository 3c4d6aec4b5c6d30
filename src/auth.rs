use vstd::prelude::*;

verus! {

/// Whether `validator` accepts the text as an email address (HTML5 form
/// rules, with internationalized domains); it depends on the text alone.
pub uninterp spec fn email_accepted(s: Seq<char>) -> bool;

/// Relies on `validator::ValidateEmail::validate_email` for `&str`: a check
/// of the text alone, which rejects an empty text and one without `@`.
#[verifier::external_body]
fn validate_email_text(s: &str) -> (r: bool)
    ensures
        r == email_accepted(s@),
        s@.len() == 0 || !s@.contains('@') ==> !r,
{
    validator::ValidateEmail::validate_email(&s)
}

/// UNIX timestamp of `chrono::DateTime::<Utc>::MIN_UTC`, the start of
/// year -262143.
pub const MIN_UTC_TIMESTAMP: i64 = -8334601228800;

/// UNIX timestamp of the last whole second of `chrono::DateTime::<Utc>::MAX_UTC`,
/// the end of year 262142.
pub const MAX_UTC_TIMESTAMP: i64 = 8210266876799;

/// Whether `chrono` can represent the UNIX timestamp `secs` (whole seconds)
/// as a date and time.
pub open spec fn timestamp_representable(secs: int) -> bool {
    MIN_UTC_TIMESTAMP <= secs <= MAX_UTC_TIMESTAMP
}

/// Relies on `chrono::DateTime::from_timestamp(secs, 0)`, which is `None`
/// exactly for timestamps outside `MIN_UTC ..= MAX_UTC`.
#[verifier::external_body]
fn utc_timestamp_in_range(secs: i64) -> (r: bool)
    ensures
        r == timestamp_representable(secs as int),
{
    chrono::DateTime::from_timestamp(secs, 0).is_some()
}

/// Number of characters of `s` is at least `min`.
fn has_min_chars(s: &str, min: usize) -> (r: bool)
    ensures
        r == (s@.len() >= min),
{
    s.unicode_len() >= min
}

/// Registration by email.
pub struct RegisterInput {
    pub name: String,
    pub email: String,
    pub password: String,
}

impl RegisterInput {
    /// A name of at least 2 characters, an accepted email address and a
    /// password of at least 4 characters.
    pub open spec fn valid(&self) -> bool {
        &&& self.name@.len() >= 2
        &&& email_accepted(self.email@)
        &&& self.password@.len() >= 4
    }

    pub fn validate(&self) -> (r: bool)
        ensures
            r == self.valid(),
    {
        has_min_chars(self.name.as_str(), 2) && validate_email_text(self.email.as_str()) && has_min_chars(
            self.password.as_str(),
            4,
        )
    }
}

/// Confirmation of a registration, by the token sent in the email.
pub struct ConfirmInput {
    pub token: String,
}

/// Login by email and password.
pub struct LoginInput {
    pub email: String,
    pub password: String,
}

impl LoginInput {
    /// An accepted email address and a password of at least 8 characters.
    pub open spec fn valid(&self) -> bool {
        email_accepted(self.email@) && self.password@.len() >= 8
    }

    pub fn validate(&self) -> (r: bool)
        ensures
            r == self.valid(),
    {
        validate_email_text(self.email.as_str()) && has_min_chars(self.password.as_str(), 8)
    }
}

/// Tokens handed to a client that has authenticated.
pub struct AuthToken {
    /// Lifetime of the access token, in seconds.
    pub expires_in: i32,
    pub access_token: String,
    pub refresh_token: String,
}

/// Claims of an access token; times are UNIX timestamps in seconds.
pub struct Claims {
    pub sub: String,
    pub exp: i64,
    pub iat: i64,
}

impl Claims {
    pub fn new(sub: &str, iat: i64, exp: i64) -> (r: Claims)
        ensures
            r.sub@ == sub@,
            r.iat == iat,
            r.exp == exp,
    {
        Claims { sub: sub.to_owned(), iat, exp }
    }

    /// The token has expired at `now`: its expiry lies before `now`, and an
    /// expiry that cannot be represented as a date counts as the earliest one.
    pub fn is_expired(&self, now: i64) -> (r: bool)
        ensures
            r == (!timestamp_representable(self.exp as int) || self.exp < now),
    {
        !utc_timestamp_in_range(self.exp) || self.exp < now
    }
}

} // verus!
