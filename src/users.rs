use vstd::prelude::*;
use vstd::string::*;
use crate::config::{blank, is_blank};
use crate::error::AppError;
use crate::models::User;

verus! {

/// The mathematical value of a [`User`].
pub ghost struct UserModel {
    pub id: u128,
    pub username: Seq<char>,
    pub password: Seq<char>,
    pub created_at: i64,
}

impl View for User {
    type V = UserModel;

    open spec fn view(&self) -> UserModel {
        UserModel { id: self.id, username: self.username@, password: self.password@, created_at: self.created_at }
    }
}

fn copy_user(u: &User) -> (r: User)
    ensures
        r@ == u@,
{
    User { id: u.id, username: u.username.clone(), password: u.password.clone(), created_at: u.created_at }
}

/// No two accounts of `m` share a username.
pub open spec fn usernames_unique(m: Map<u128, UserModel>) -> bool {
    forall|a: u128, b: u128| #[trigger] m.contains_key(a) && #[trigger] m.contains_key(b) && a != b ==> m[a].username != m[b].username
}

/// `a` was created after `b`, or at the same time with a larger identifier.
pub open spec fn user_newer(a: UserModel, b: UserModel) -> bool {
    a.created_at > b.created_at || (a.created_at == b.created_at && a.id > b.id)
}

/// The account store: accounts by identifier, usernames unique.
pub struct UserStorage {
    users: Vec<User>,
    accounts: Ghost<Map<u128, UserModel>>,
}

impl View for UserStorage {
    type V = Map<u128, UserModel>;

    closed spec fn view(&self) -> Map<u128, UserModel> {
        self.accounts@
    }
}

impl UserStorage {
    pub closed spec fn wf(&self) -> bool {
        &&& forall|i: int, j: int| 0 <= i < j < self.users@.len() ==> self.users@[i].id != self.users@[j].id
            && self.users@[i].username@ != self.users@[j].username@
        &&& forall|i: int| 0 <= i < self.users@.len() ==> #[trigger] self.accounts@.contains_key(self.users@[i].id)
            && self.accounts@[self.users@[i].id] == self.users@[i]@
        &&& forall|id: u128| #[trigger] self.accounts@.contains_key(id) ==> exists|i: int| 0 <= i < self.users@.len() && #[trigger] self.users@[i].id == id
        &&& self.accounts@.dom().finite()
        &&& self.accounts@.dom().len() == self.users@.len()
    }

    proof fn lemma_unique(&self)
        requires
            self.wf(),
        ensures
            usernames_unique(self@),
            forall|id: u128| #[trigger] self@.contains_key(id) ==> self@[id].id == id,
    {
        assert forall|a: u128, b: u128| #[trigger] self@.contains_key(a) && #[trigger] self@.contains_key(b) && a != b implies self@[a].username != self@[b].username by {
            let i = choose|i: int| 0 <= i < self.users@.len() && #[trigger] self.users@[i].id == a;
            let j = choose|j: int| 0 <= j < self.users@.len() && #[trigger] self.users@[j].id == b;
            assert(self.accounts@.contains_key(self.users@[i].id));
            assert(self.accounts@.contains_key(self.users@[j].id));
            if i > j {
                assert(self.users@[j].username@ != self.users@[i].username@);
            }
        }
        assert forall|id: u128| #[trigger] self@.contains_key(id) implies self@[id].id == id by {
            let i = choose|i: int| 0 <= i < self.users@.len() && #[trigger] self.users@[i].id == id;
            assert(self.accounts@.contains_key(self.users@[i].id));
        }
    }

    /// No accounts yet.
    pub fn new() -> (r: UserStorage)
        ensures
            r.wf(),
            r@ == Map::<u128, UserModel>::empty(),
    {
        UserStorage { users: Vec::new(), accounts: Ghost(Map::empty()) }
    }

    /// Position of the account with identifier `id`.
    fn position_of_id(&self, id: u128) -> (r: Option<usize>)
        requires
            self.wf(),
        ensures
            r is None <==> !self@.contains_key(id),
            r matches Some(i) ==> i < self.users@.len() && self.users@[i as int].id == id,
    {
        let mut i: usize = 0;
        while i < self.users.len()
            invariant
                self.wf(),
                i <= self.users@.len(),
                forall|j: int| 0 <= j < i ==> #[trigger] self.users@[j].id != id,
            decreases self.users@.len() - i,
        {
            if self.users[i].id == id {
                assert(self.accounts@.contains_key(self.users@[i as int].id));
                return Some(i);
            }
            i = i + 1;
        }
        proof {
            if self@.contains_key(id) {
                let j = choose|j: int| 0 <= j < self.users@.len() && #[trigger] self.users@[j].id == id;
                assert(self.users@[j].id == id);
            }
        }
        None
    }

    /// Position of the account called `username`.
    fn position_of_name(&self, username: &String) -> (r: Option<usize>)
        requires
            self.wf(),
        ensures
            r is None <==> forall|id: u128| #[trigger] self@.contains_key(id) ==> self@[id].username != username@,
            r matches Some(i) ==> i < self.users@.len() && self.users@[i as int].username@ == username@,
    {
        let mut i: usize = 0;
        while i < self.users.len()
            invariant
                self.wf(),
                i <= self.users@.len(),
                forall|j: int| 0 <= j < i ==> (#[trigger] self.users@[j]).username@ != username@,
            decreases self.users@.len() - i,
        {
            if self.users[i].username == *username {
                proof {
                    assert(self.accounts@.contains_key(self.users@[i as int].id));
                    assert(self@.contains_key(self.users@[i as int].id));
                    assert(self@[self.users@[i as int].id].username == username@);
                }
                return Some(i);
            }
            i = i + 1;
        }
        proof {
            assert forall|id: u128| #[trigger] self@.contains_key(id) implies self@[id].username != username@ by {
                let j = choose|j: int| 0 <= j < self.users@.len() && #[trigger] self.users@[j].id == id;
                assert(self.accounts@.contains_key(self.users@[j].id));
                assert(self.users@[j].username@ != username@);
            }
        }
        None
    }

    /// Stores a new account; an identifier or a username already in use is
    /// refused and nothing changes.
    pub fn create(&mut self, user: User) -> (r: Result<(), AppError>)
        requires
            old(self).wf(),
        ensures
            final(self).wf(),
            old(self)@.contains_key(user.id) ==> (r matches Err(e) && e is DuplicateId) && final(self)@ == old(self)@,
            !old(self)@.contains_key(user.id) && (exists|id: u128| #[trigger] old(self)@.contains_key(id)
                && old(self)@[id].username == user.username@) ==> (r matches Err(e) && e is UserAlreadyExists)
                && final(self)@ == old(self)@,
            !old(self)@.contains_key(user.id) && (forall|id: u128| #[trigger] old(self)@.contains_key(id)
                ==> old(self)@[id].username != user.username@) ==> r is Ok && final(self)@ == old(self)@.insert(
                user.id,
                user@,
            ),
    {
        if self.position_of_id(user.id).is_some() {
            return Err(AppError::DuplicateId);
        }
        match self.position_of_name(&user.username) {
            Some(i) => {
                assert(self.accounts@.contains_key(self.users@[i as int].id));
                return Err(AppError::UserAlreadyExists);
            },
            None => {},
        }
        let ghost old_users = self.users@;
        let ghost old_accounts = self.accounts@;
        let ghost uv = user@;
        proof {
            assert forall|i: int| 0 <= i < old_users.len() implies old_users[i].id != uv.id && old_users[i].username@ != uv.username by {
                assert(old_accounts.contains_key(old_users[i].id));
            }
        }
        self.users.push(user);
        self.accounts = Ghost(old_accounts.insert(uv.id, uv));
        proof {
            let nu = self.users@;
            let na = self.accounts@;
            assert(nu[old_users.len() as int]@ == uv);
            assert forall|i: int| 0 <= i < nu.len() implies #[trigger] na.contains_key(nu[i].id) && na[nu[i].id] == nu[i]@ by {
                if i < old_users.len() {
                    assert(nu[i] == old_users[i]);
                    assert(old_accounts.contains_key(old_users[i].id));
                }
            }
            assert forall|id: u128| #[trigger] na.contains_key(id) implies exists|i: int| 0 <= i < nu.len() && #[trigger] nu[i].id == id by {
                if id == uv.id {
                    assert(nu[old_users.len() as int].id == id);
                } else {
                    assert(old_accounts.contains_key(id));
                    let i = choose|i: int| 0 <= i < old_users.len() && #[trigger] old_users[i].id == id;
                    assert(nu[i].id == id);
                }
            }
            assert(!old_accounts.dom().contains(uv.id));
            assert(na.dom() == old_accounts.dom().insert(uv.id));
        }
        Ok(())
    }

    /// The account with identifier `id`.
    pub fn get(&self, id: u128) -> (r: Option<User>)
        requires
            self.wf(),
        ensures
            r is Some <==> self@.contains_key(id),
            r matches Some(u) ==> u@ == self@[id],
    {
        match self.position_of_id(id) {
            Some(i) => {
                assert(self.accounts@.contains_key(self.users@[i as int].id));
                Some(copy_user(&self.users[i]))
            },
            None => None,
        }
    }

    /// The account called `username`.
    pub fn get_by_username(&self, username: &str) -> (r: Option<User>)
        requires
            self.wf(),
        ensures
            r is None <==> forall|id: u128| #[trigger] self@.contains_key(id) ==> self@[id].username != username@,
            r matches Some(u) ==> self@.contains_key(u.id) && self@[u.id] == u@ && u.username@ == username@,
    {
        let key = String::from_str(username);
        match self.position_of_name(&key) {
            Some(i) => {
                assert(self.accounts@.contains_key(self.users@[i as int].id));
                Some(copy_user(&self.users[i]))
            },
            None => None,
        }
    }

    /// Replaces the account with the same identifier; an unknown identifier,
    /// or a username held by another account, is refused and nothing changes.
    pub fn update(&mut self, user: User) -> (r: Result<(), AppError>)
        requires
            old(self).wf(),
        ensures
            final(self).wf(),
            !old(self)@.contains_key(user.id) ==> (r matches Err(e) && e is NotFound) && final(self)@ == old(self)@,
            old(self)@.contains_key(user.id) && (exists|id: u128| #[trigger] old(self)@.contains_key(id) && id != user.id
                && old(self)@[id].username == user.username@) ==> (r matches Err(e) && e is UserAlreadyExists)
                && final(self)@ == old(self)@,
            old(self)@.contains_key(user.id) && (forall|id: u128| #[trigger] old(self)@.contains_key(id) && id != user.id
                ==> old(self)@[id].username != user.username@) ==> r is Ok && final(self)@ == old(self)@.insert(
                user.id,
                user@,
            ),
    {
        proof {
            self.lemma_unique();
        }
        let p = match self.position_of_id(user.id) {
            Some(p) => p,
            None => {
                return Err(AppError::NotFound);
            },
        };
        match self.position_of_name(&user.username) {
            Some(q) => {
                if q != p {
                    assert(self.accounts@.contains_key(self.users@[q as int].id));
                    return Err(AppError::UserAlreadyExists);
                }
            },
            None => {},
        }
        let ghost old_users = self.users@;
        let ghost old_accounts = self.accounts@;
        let ghost uv = user@;
        proof {
            assert forall|i: int| 0 <= i < old_users.len() && i != p implies old_users[i].id != uv.id && old_users[i].username@ != uv.username by {
                assert(old_accounts.contains_key(old_users[i].id));
                if old_users[i].username@ == uv.username {
                    assert(self.users@[i].username@ == user.username@);
                }
            }
        }
        self.users.set(p, user);
        self.accounts = Ghost(old_accounts.insert(uv.id, uv));
        proof {
            let nu = self.users@;
            let na = self.accounts@;
            assert(nu[p as int]@ == uv);
            assert forall|i: int| 0 <= i < nu.len() implies #[trigger] na.contains_key(nu[i].id) && na[nu[i].id] == nu[i]@ by {
                if i != p {
                    assert(nu[i] == old_users[i]);
                    assert(old_accounts.contains_key(old_users[i].id));
                }
            }
            assert forall|i: int, j: int| 0 <= i < j < nu.len() implies nu[i].id != nu[j].id && nu[i].username@ != nu[j].username@ by {
                if i != p && j != p {
                    assert(nu[i] == old_users[i] && nu[j] == old_users[j]);
                }
            }
            assert forall|id: u128| #[trigger] na.contains_key(id) implies exists|i: int| 0 <= i < nu.len() && #[trigger] nu[i].id == id by {
                if id == uv.id {
                    assert(nu[p as int].id == id);
                } else {
                    assert(old_accounts.contains_key(id));
                    let i = choose|i: int| 0 <= i < old_users.len() && #[trigger] old_users[i].id == id;
                    assert(nu[i].id == id);
                }
            }
            assert(old_accounts.dom().contains(uv.id));
            assert(na.dom() =~= old_accounts.dom());
        }
        Ok(())
    }

    /// Renames an account: a missing or blank name leaves it as it is; a
    /// name held by another account is refused.
    pub fn update_username(&mut self, id: u128, username: Option<String>) -> (r: Result<User, AppError>)
        requires
            old(self).wf(),
        ensures
            final(self).wf(),
            !old(self)@.contains_key(id) ==> (r matches Err(e) && e is NotFound) && final(self)@ == old(self)@,
            old(self)@.contains_key(id) && (username matches Some(n) ==> is_blank(n@)) ==> (r matches Ok(u)
                && u@ == old(self)@[id]) && final(self)@ == old(self)@,
            old(self)@.contains_key(id) && (username matches Some(n) && !is_blank(n@)) ==> {
                let n = username->0@;
                if exists|k: u128| #[trigger] old(self)@.contains_key(k) && k != id && old(self)@[k].username == n {
                    (r matches Err(e) && e is UserAlreadyExists) && final(self)@ == old(self)@
                } else {
                    r matches Ok(u) && u@ == (UserModel { username: n, ..old(self)@[id] }) && final(self)@ == old(
                        self,
                    )@.insert(id, u@)
                }
            },
    {
        proof {
            self.lemma_unique();
        }
        let mut user = match self.get(id) {
            Some(u) => u,
            None => {
                return Err(AppError::NotFound);
            },
        };
        match username {
            Some(n) => {
                if blank(n.as_str()) {
                    return Ok(user);
                }
                user.username = n;
            },
            None => {
                return Ok(user);
            },
        }
        let copy = copy_user(&user);
        self.update(user)?;
        Ok(copy)
    }

    /// Removes the account with identifier `id`, returning it.
    pub fn delete(&mut self, id: u128) -> (r: Option<User>)
        requires
            old(self).wf(),
        ensures
            final(self).wf(),
            final(self)@ == old(self)@.remove(id),
            r is Some <==> old(self)@.contains_key(id),
            r matches Some(u) ==> u@ == old(self)@[id],
    {
        let p = match self.position_of_id(id) {
            Some(p) => p,
            None => {
                assert(self.accounts@.remove(id) =~= self.accounts@);
                return None;
            },
        };
        let ghost old_users = self.users@;
        let ghost old_accounts = self.accounts@;
        assert(old_accounts.contains_key(old_users[p as int].id));
        let removed = self.users.remove(p);
        self.accounts = Ghost(old_accounts.remove(id));
        proof {
            let nu = self.users@;
            let na = self.accounts@;
            assert forall|k: int| 0 <= k < nu.len() implies #[trigger] nu[k] == (if k < p { old_users[k] } else { old_users[k + 1] }) by {}
            assert forall|i: int, j: int| 0 <= i < j < nu.len() implies nu[i].id != nu[j].id && nu[i].username@ != nu[j].username@ by {
                let oi = if i < p { i } else { i + 1 };
                let oj = if j < p { j } else { j + 1 };
                assert(oi < oj);
            }
            assert forall|i: int| 0 <= i < nu.len() implies #[trigger] na.contains_key(nu[i].id) && na[nu[i].id] == nu[i]@ by {
                let oi = if i < p { i } else { i + 1 };
                assert(old_accounts.contains_key(old_users[oi].id));
                assert(old_users[oi].id != id);
            }
            assert forall|x: u128| #[trigger] na.contains_key(x) implies exists|i: int| 0 <= i < nu.len() && #[trigger] nu[i].id == x by {
                assert(old_accounts.contains_key(x));
                let i = choose|i: int| 0 <= i < old_users.len() && #[trigger] old_users[i].id == x;
                if i < p {
                    assert(nu[i].id == x);
                } else {
                    assert(i != p);
                    assert(nu[i - 1].id == x);
                }
            }
            assert(na.dom() == old_accounts.dom().remove(id));
        }
        Some(removed)
    }

    /// How many accounts are stored.
    pub fn count(&self) -> (r: usize)
        requires
            self.wf(),
        ensures
            r == self@.dom().len(),
    {
        self.users.len()
    }

    /// Every account, newest first.
    pub fn list_all(&self) -> (r: Vec<User>)
        requires
            self.wf(),
        ensures
            forall|j: int| 0 <= j < r@.len() ==> #[trigger] self@.contains_key(r@[j].id) && self@[r@[j].id] == r@[j]@,
            forall|id: u128| #[trigger] self@.contains_key(id) ==> exists|j: int| 0 <= j < r@.len() && #[trigger] r@[j].id == id,
            forall|a: int, b: int| 0 <= a < b < r@.len() ==> user_newer(#[trigger] r@[a]@, #[trigger] r@[b]@),
    {
        let mut out: Vec<User> = Vec::new();
        let mut i: usize = 0;
        while i < self.users.len()
            invariant
                self.wf(),
                i <= self.users@.len(),
                forall|t: int| 0 <= t < out@.len() ==> exists|j: int| 0 <= j < i && #[trigger] out@[t]@ == self.users@[j]@,
                forall|j: int| 0 <= j < i ==> exists|t: int| 0 <= t < out@.len() && #[trigger] out@[t].id == (#[trigger] self.users@[j]).id,
                forall|a: int, b: int| 0 <= a < b < out@.len() ==> user_newer(#[trigger] out@[a]@, #[trigger] out@[b]@),
            decreases self.users@.len() - i,
        {
            let u = copy_user(&self.users[i]);
            let ghost uv = u@;
            proof {
                assert forall|t: int| 0 <= t < out@.len() implies out@[t].id != uv.id by {
                    let j = choose|j: int| 0 <= j < i && #[trigger] out@[t]@ == self.users@[j]@;
                    assert(self.users@[j].id != self.users@[i as int].id);
                }
            }
            let mut q: usize = 0;
            while q < out.len() && !(u.created_at > out[q].created_at || (u.created_at == out[q].created_at && u.id > out[q].id))
                invariant
                    q <= out@.len(),
                    u@ == uv,
                    forall|t: int| 0 <= t < q ==> user_newer(#[trigger] out@[t]@, uv),
                    forall|t: int| 0 <= t < out@.len() ==> out@[t].id != uv.id,
                decreases out@.len() - q,
            {
                q = q + 1;
            }
            let ghost before = out@;
            out.insert(q, u);
            proof {
                assert forall|k: int| 0 <= k < out@.len() implies #[trigger] out@[k] == (if k < q {
                    before[k]
                } else if k == q {
                    out@[q as int]
                } else {
                    before[k - 1]
                }) by {}
                assert(out@[q as int]@ == uv);
                assert forall|t: int| 0 <= t < out@.len() implies exists|j: int| 0 <= j < i + 1 && #[trigger] out@[t]@ == self.users@[j]@ by {
                    if t == q {
                        assert(out@[t]@ == self.users@[i as int]@);
                    } else {
                        let bt = if t < q { t } else { t - 1 };
                        assert(out@[t] == before[bt]);
                        let j = choose|j: int| 0 <= j < i && #[trigger] before[bt]@ == self.users@[j]@;
                        assert(out@[t]@ == self.users@[j]@);
                    }
                }
                assert forall|j: int| 0 <= j < i + 1 implies exists|t: int| 0 <= t < out@.len() && #[trigger] out@[t].id == (#[trigger] self.users@[j]).id by {
                    if j == i {
                        assert(out@[q as int].id == self.users@[j].id);
                    } else {
                        let t = choose|t: int| 0 <= t < before.len() && #[trigger] before[t].id == self.users@[j].id;
                        if t < q {
                            assert(out@[t].id == self.users@[j].id);
                        } else {
                            assert(out@[t + 1].id == self.users@[j].id);
                        }
                    }
                }
                assert forall|a: int, b: int| 0 <= a < b < out@.len() implies user_newer(#[trigger] out@[a]@, #[trigger] out@[b]@) by {
                    if b < q {
                        assert(user_newer(before[a]@, before[b]@));
                    } else if b == q {
                        assert(user_newer(before[a]@, uv));
                    } else if a < q {
                        assert(user_newer(before[a]@, uv));
                        assert(user_newer(uv, before[q as int]@));
                        if q < b - 1 {
                            assert(user_newer(before[q as int]@, before[b - 1]@));
                        }
                    } else if a == q {
                        assert(user_newer(uv, before[q as int]@));
                        if q < b - 1 {
                            assert(user_newer(before[q as int]@, before[b - 1]@));
                        }
                    } else {
                        assert(user_newer(before[a - 1]@, before[b - 1]@));
                    }
                }
            }
            i = i + 1;
        }
        proof {
            assert forall|j: int| 0 <= j < out@.len() implies #[trigger] self@.contains_key(out@[j].id) && self@[out@[j].id] == out@[j]@ by {
                let k = choose|k: int| 0 <= k < self.users@.len() && #[trigger] out@[j]@ == self.users@[k]@;
                assert(self.accounts@.contains_key(self.users@[k].id));
            }
            assert forall|id: u128| #[trigger] self@.contains_key(id) implies exists|j: int| 0 <= j < out@.len() && #[trigger] out@[j].id == id by {
                let k = choose|k: int| 0 <= k < self.users@.len() && #[trigger] self.users@[k].id == id;
                let t = choose|t: int| 0 <= t < out@.len() && #[trigger] out@[t].id == self.users@[k].id;
            }
        }
        out
    }
}

/// Two distinct accounts of a well-formed store have distinct usernames.
pub proof fn lemma_usernames_unique(store: &UserStorage, a: u128, b: u128)
    requires
        store.wf(),
        store@.contains_key(a),
        store@.contains_key(b),
        a != b,
    ensures
        store@[a].username != store@[b].username,
{
    store.lemma_unique();
}

} // verus!
