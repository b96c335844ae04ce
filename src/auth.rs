use vstd::prelude::*;
use vstd::string::*;
use crate::error::AppError;
use crate::ids::uuid_text;
use crate::models::{Claims, LoginRequest, RegisterRequest, User};
use crate::token::{expiry_of, TokenService};
use crate::users::{UserModel, UserStorage};

verus! {

/// The bcrypt work factor used for new password hashes.
pub const BCRYPT_COST: u32 = 12;

/// What checking `password` against the bcrypt hash `hash` gives: `None`
/// when the hash is malformed.
pub uninterp spec fn bcrypt_verdict(password: Seq<char>, hash: Seq<char>) -> Option<bool>;

/// Relies on `bcrypt::hash`, which salts with fresh randomness and writes
/// `$2b$cost$salt+hash`; `bcrypt::verify` re-reads salt and cost from that
/// text and accepts the same password. It fails only on a cost outside the
/// accepted range or when no randomness is available.
#[verifier::external_body]
fn bcrypt_hash(password: &str, cost: u32) -> (r: Option<String>)
    ensures
        r matches Some(h) ==> bcrypt_verdict(password@, h@) == Some(true),
{
    bcrypt::hash(password, cost).ok()
}

/// Relies on `bcrypt::verify`: the verdict depends on the password and the
/// hash alone.
#[verifier::external_body]
fn bcrypt_verify(password: &str, hash: &str) -> (r: Option<bool>)
    ensures
        r == bcrypt_verdict(password@, hash@),
{
    bcrypt::verify(password, hash).ok()
}

/// A stored password matches the one given at login.
pub open spec fn password_accepted(allow_plaintext: bool, given: Seq<char>, stored: Seq<char>) -> bool {
    if allow_plaintext {
        given == stored
    } else {
        bcrypt_verdict(given, stored) == Some(true)
    }
}

/// Registration and login over the account store.
pub struct AuthService {
    pub user_storage: UserStorage,
    pub token_service: TokenService,
    pub allow_plaintext: bool,
}

impl AuthService {
    /// A service over `user_storage`, issuing tokens with `token_service`;
    /// passwords are stored as given when `allow_plaintext`, else hashed.
    pub fn new(user_storage: UserStorage, token_service: TokenService, allow_plaintext: bool) -> (r: AuthService)
        ensures
            r.user_storage == user_storage,
            r.token_service == token_service,
            r.allow_plaintext == allow_plaintext,
    {
        AuthService { user_storage, token_service, allow_plaintext }
    }

    /// Creates an account with identifier `id` at time `now`. A taken
    /// username is refused; the password is stored as given, or as a bcrypt
    /// hash when plaintext passwords are not allowed.
    pub fn register(&mut self, req: RegisterRequest, id: u128, now: i64) -> (r: Result<User, AppError>)
        requires
            old(self).user_storage.wf(),
        ensures
            final(self).user_storage.wf(),
            final(self).allow_plaintext == old(self).allow_plaintext,
            final(self).token_service == old(self).token_service,
            (exists|k: u128| #[trigger] old(self).user_storage@.contains_key(k)
                && old(self).user_storage@[k].username == req.username@) ==> (r matches Err(e) && e is UserAlreadyExists),
            r is Err ==> final(self).user_storage@ == old(self).user_storage@,
            r matches Ok(u) ==> {
                &&& u.id == id
                &&& u.username@ == req.username@
                &&& u.created_at == now
                &&& old(self).allow_plaintext ==> u.password@ == req.password@
                &&& !old(self).allow_plaintext ==> bcrypt_verdict(req.password@, u.password@) == Some(true)
                &&& final(self).user_storage@ == old(self).user_storage@.insert(id, u@)
            },
            old(self).allow_plaintext && !old(self).user_storage@.contains_key(id) && (forall|k: u128|
                #[trigger] old(self).user_storage@.contains_key(k) ==> old(self).user_storage@[k].username
                    != req.username@) ==> r is Ok,
    {
        if self.user_storage.get_by_username(req.username.as_str()).is_some() {
            return Err(AppError::UserAlreadyExists);
        }
        let password = if self.allow_plaintext {
            req.password
        } else {
            match bcrypt_hash(req.password.as_str(), BCRYPT_COST) {
                Some(h) => h,
                None => {
                    return Err(AppError::Internal(String::from_str("password hashing failed")));
                },
            }
        };
        let user = User::new(id, req.username, password, now);
        let copy = User { id: user.id, username: user.username.clone(), password: user.password.clone(), created_at: user.created_at };
        self.user_storage.create(user)?;
        Ok(copy)
    }

    /// Checks a login at time `now` (seconds since the Unix epoch) and
    /// returns the account with the claims of its new token. An unknown
    /// username and a wrong password both fail as `AuthenticationFailed`.
    pub fn login(&self, req: LoginRequest, now: i64) -> (r: Result<(User, Claims), AppError>)
        requires
            self.user_storage.wf(),
        ensures
            (forall|k: u128| #[trigger] self.user_storage@.contains_key(k) ==> self.user_storage@[k].username
                != req.username@) ==> (r matches Err(e) && e is AuthenticationFailed),
            r matches Ok(res) ==> {
                &&& self.user_storage@.contains_key(res.0.id)
                &&& self.user_storage@[res.0.id] == res.0@
                &&& res.0.username@ == req.username@
                &&& password_accepted(self.allow_plaintext, req.password@, res.0.password@)
                &&& res.1.sub@ == uuid_text(res.0.id)
                &&& res.1.username@ == req.username@
                &&& res.1.exp as int == expiry_of(now, self.token_service.hours())
            },
            !self.allow_plaintext ==> forall|k: u128| #[trigger] self.user_storage@.contains_key(k)
                && self.user_storage@[k].username == req.username@ && bcrypt_verdict(
                req.password@,
                self.user_storage@[k].password,
            ) == Some(false) ==> (r matches Err(e) && e is AuthenticationFailed),
            self.allow_plaintext ==> (r matches Err(e) && e is AuthenticationFailed) == (forall|k: u128|
                #[trigger] self.user_storage@.contains_key(k) && self.user_storage@[k].username == req.username@
                    ==> self.user_storage@[k].password != req.password@),
    {
        let user = match self.user_storage.get_by_username(req.username.as_str()) {
            Some(u) => u,
            None => {
                return Err(AppError::AuthenticationFailed);
            },
        };
        let valid = if self.allow_plaintext {
            user.password == req.password
        } else {
            proof {
                assert forall|k: u128| #[trigger] self.user_storage@.contains_key(k) && self.user_storage@[k].username
                    == req.username@ implies k == user.id by {
                    if k != user.id {
                        crate::users::lemma_usernames_unique(&self.user_storage, k, user.id);
                    }
                }
            }
            match bcrypt_verify(req.password.as_str(), user.password.as_str()) {
                Some(v) => v,
                None => {
                    return Err(AppError::Internal(String::from_str("stored password hash is malformed")));
                },
            }
        };
        if !valid {
            proof {
                if self.allow_plaintext {
                    assert forall|k: u128| #[trigger] self.user_storage@.contains_key(k) && self.user_storage@[k].username
                        == req.username@ implies self.user_storage@[k].password != req.password@ by {
                        if k != user.id {
                            crate::users::lemma_usernames_unique(&self.user_storage, k, user.id);
                        }
                    }
                }
            }
            return Err(AppError::AuthenticationFailed);
        }
        let name = user.username.clone();
        match self.token_service.claims_for(user.id, name, now) {
            Some(c) => Ok((user, c)),
            None => Err(AppError::Internal(String::from_str("token expiry out of range"))),
        }
    }
}

} // verus!
