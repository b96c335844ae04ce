use vstd::prelude::*;
use crate::ids::{uuid_string, uuid_text};
use crate::models::Claims;

verus! {

/// Issues access tokens signed with a shared secret.
#[derive(Debug, Clone)]
pub struct TokenService {
    secret: String,
    expiration_hours: i64,
}

/// The expiry, in seconds since the Unix epoch, of a token issued at `now`
/// and valid for `hours` hours.
pub open spec fn expiry_of(now: i64, hours: i64) -> int {
    now + hours * 3600
}

impl TokenService {
    pub closed spec fn secret_view(&self) -> Seq<char> {
        self.secret@
    }

    pub closed spec fn hours(&self) -> i64 {
        self.expiration_hours
    }

    /// A service signing with `secret`, issuing tokens valid for `expiration_hours`.
    pub fn new(secret: String, expiration_hours: i64) -> (r: TokenService)
        ensures
            r.secret_view() == secret@,
            r.hours() == expiration_hours,
    {
        TokenService { secret, expiration_hours }
    }

    /// The signing secret.
    pub fn secret(&self) -> (r: &str)
        ensures
            r@ == self.secret_view(),
    {
        self.secret.as_str()
    }

    /// How long issued tokens stay valid, in hours.
    pub fn expiration_hours(&self) -> (r: i64)
        ensures
            r == self.hours(),
    {
        self.expiration_hours
    }

    /// The claims of a token issued at `now` (seconds since the Unix epoch)
    /// to the given user; `None` when the expiry is not a time a token can
    /// carry (negative, or beyond the machine's range).
    pub fn claims_for(&self, user_id: u128, username: String, now: i64) -> (r: Option<Claims>)
        ensures
            r is Some <==> 0 <= expiry_of(now, self.hours()) <= i64::MAX && expiry_of(now, self.hours()) <= usize::MAX,
            r matches Some(c) ==> c.sub@ == uuid_text(user_id) && c.username@ == username@ && c.exp as int == expiry_of(
                now,
                self.hours(),
            ),
    {
        let h = self.expiration_hours as i128;
        let exp = now as i128 + h * 3600;
        if exp < 0 || exp > i64::MAX as i128 || exp > usize::MAX as i128 {
            return None;
        }
        Some(Claims { sub: uuid_string(user_id), username, exp: exp as usize })
    }
}

} // verus!
