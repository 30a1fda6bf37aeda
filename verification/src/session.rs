//! The identity resolver: maps opaque session tokens to identities over
//! a user read-model, with login, expiry checking and logout.

use vstd::prelude::*;
use rand::Rng;
use rand::distributions::Alphanumeric;
use crate::model::AccessError;
use crate::model::Identity;

verus! {

/// Seconds a fresh session stays valid: seven days.
pub const SESSION_TTL_SECS: i64 = 604800;

/// A login session. Expiry is checked at read time against a caller
/// clock; expired rows are never purged by this core.
#[derive(Debug, PartialEq)]
pub struct Session {
    pub id: u64,
    pub user_id: u64,
    pub token: String,
    pub expires_at: i64,
    pub created_at: i64,
}

impl Clone for Session {
    fn clone(&self) -> (r: Self)
        ensures
            r == *self,
    {
        Session {
            id: self.id,
            user_id: self.user_id,
            token: self.token.clone(),
            expires_at: self.expires_at,
            created_at: self.created_at,
        }
    }
}

/// The user read-model the resolver consumes: login credentials and
/// the role assignment, which may be absent for roleless accounts.
#[derive(Debug, PartialEq)]
pub struct UserAccount {
    pub id: u64,
    pub username: String,
    pub email: String,
    pub password_hash: String,
    pub role_id: Option<u64>,
}

impl Clone for UserAccount {
    fn clone(&self) -> (r: Self)
        ensures
            r == *self,
    {
        UserAccount {
            id: self.id,
            username: self.username.clone(),
            email: self.email.clone(),
            password_hash: self.password_hash.clone(),
            role_id: self.role_id,
        }
    }
}

// ---------------------------------------------------------------------
// Outside calls the resolver depends on
// ---------------------------------------------------------------------

/// What bcrypt's check of a password against a stored hash yields; the
/// outcome is a function of the two strings alone.
pub uninterp spec fn bcrypt_matches(password: Seq<char>, hash: Seq<char>) -> bool;

/// Whether bcrypt accepts this stored string as one of its hashes: 60
/// ASCII characters of the expected shape with an admissible cost.
/// Whether `bcrypt::verify` errors depends on this string alone.
pub uninterp spec fn bcrypt_hash_wf(hash: Seq<char>) -> bool;

#[verifier::external_type_specification]
#[verifier::external_body]
pub struct ExBcryptError(bcrypt::BcryptError);

/// Relies on bcrypt::verify: it parses the salt and cost out of the
/// stored hash — erring exactly when that string is not a well-formed
/// bcrypt hash, whatever the password — then recomputes the hash from
/// the password and compares, a deterministic function of its two
/// arguments.
#[verifier::external_body]
fn verify_password(password: &String, hash: &String) -> (r: Result<bool, bcrypt::BcryptError>)
    ensures
        (r is Ok) <==> bcrypt_hash_wf(hash@),
        r matches Ok(b) ==> b == bcrypt_matches(password@, hash@),
{
    bcrypt::verify(password.as_str(), hash.as_str())
}

/// A character rand's `Alphanumeric` distribution can produce.
pub open spec fn is_token_char(c: char) -> bool {
    ('A' <= c && c <= 'Z') || ('a' <= c && c <= 'z') || ('0' <= c && c <= '9')
}

/// Relies on rand's `Alphanumeric` distribution: every sample is drawn
/// from A-Z, a-z and 0-9, and exactly 64 are taken.
#[verifier::external_body]
fn fresh_token() -> (t: String)
    ensures
        t@.len() == 64,
        forall|i: int| 0 <= i < t@.len() ==> is_token_char(#[trigger] t@[i]),
{
    rand::thread_rng().sample_iter(&Alphanumeric).take(64).map(char::from).collect()
}

/// Relies on chrono::Utc::now for the current time as Unix seconds;
/// nothing is assumed of the value.
#[verifier::external_body]
fn now_unix() -> i64 {
    chrono::Utc::now().timestamp()
}

// ---------------------------------------------------------------------
// Spec helpers
// ---------------------------------------------------------------------

/// Some user row carries this id.
pub open spec fn has_user(us: Seq<UserAccount>, id: u64) -> bool {
    exists|i: int| 0 <= i < us.len() && us[i].id == id
}

/// The index of the user row with this id (unique in a well-formed store).
pub open spec fn idx_of_user(us: Seq<UserAccount>, id: u64) -> int {
    choose|i: int| 0 <= i < us.len() && us[i].id == id
}

/// The user row with this id (meaningful only under `has_user`).
pub open spec fn spec_user(us: Seq<UserAccount>, id: u64) -> UserAccount {
    us[idx_of_user(us, id)]
}

/// The login identifier names this user, by username or email.
pub open spec fn user_matches(u: UserAccount, identity: Seq<char>) -> bool {
    u.username@ == identity || u.email@ == identity
}

/// Some user row answers to this login identifier.
pub open spec fn some_user_matches(us: Seq<UserAccount>, identity: Seq<char>) -> bool {
    exists|i: int| 0 <= i < us.len() && user_matches(us[i], identity)
}

/// The first user row answering to this login identifier sits at
/// position `i`.
pub open spec fn first_user_match_at(us: Seq<UserAccount>, identity: Seq<char>, i: int) -> bool {
    &&& 0 <= i < us.len()
    &&& user_matches(us[i], identity)
    &&& forall|j: int| 0 <= j < i ==> !user_matches(us[j], identity)
}

/// At most one position is the first match for an identifier.
pub proof fn lemma_first_user_match_unique(
    us: Seq<UserAccount>,
    identity: Seq<char>,
    i1: int,
    i2: int,
)
    requires
        first_user_match_at(us, identity, i1),
        first_user_match_at(us, identity, i2),
    ensures
        i1 == i2,
{
    if i1 < i2 {
        assert(!user_matches(us[i1], identity));
    } else if i2 < i1 {
        assert(!user_matches(us[i2], identity));
    }
}

/// The session carries this token and is strictly unexpired at `now`.
pub open spec fn session_live(s: Session, token: Seq<char>, now: i64) -> bool {
    s.token@ == token && s.expires_at > now
}

/// Some stored session carries this token and is strictly unexpired.
pub open spec fn has_live_session(ss: Seq<Session>, token: Seq<char>, now: i64) -> bool {
    exists|k: int| 0 <= k < ss.len() && session_live(ss[k], token, now)
}

// ---------------------------------------------------------------------
// The store
// ---------------------------------------------------------------------

/// Owns session lifecycle over a user read-model. Resolution is
/// read-only; a session deleted concurrently simply fails the next
/// resolve with `Unauthenticated`.
pub struct SessionStore {
    pub users: Vec<UserAccount>,
    pub sessions: Vec<Session>,
    /// Source of fresh session row ids.
    pub next_session_id: u64,
}

impl SessionStore {
    /// User ids are unique and every session belongs to a known user.
    pub open spec fn wf(self) -> bool {
        &&& forall|i: int, j: int|
            0 <= i < j < self.users@.len() ==> self.users@[i].id != self.users@[j].id
        &&& forall|k: int|
            0 <= k < self.sessions@.len() ==> has_user(
                self.users@,
                #[trigger] self.sessions@[k].user_id,
            )
    }

    /// An empty resolver.
    pub fn new() -> (s: SessionStore)
        ensures
            s.wf(),
            s.users@.len() == 0,
            s.sessions@.len() == 0,
            s.next_session_id == 0,
    {
        SessionStore { users: Vec::new(), sessions: Vec::new(), next_session_id: 0 }
    }

    /// Registers a user in the read-model; `Conflict` when the id is
    /// already present.
    pub fn add_user(&mut self, user: UserAccount) -> (r: Result<(), AccessError>)
        requires
            old(self).wf(),
        ensures
            final(self).wf(),
            (r is Ok) <==> !has_user(old(self).users@, user.id),
            r is Err ==> r == Err::<(), AccessError>(AccessError::Conflict) && *final(self)
                == *old(self),
            r is Ok ==> final(self).users@ == old(self).users@.push(user) && final(self).sessions@
                == old(self).sessions@ && final(self).next_session_id == old(
                self,
            ).next_session_id,
    {
        let n = self.users.len();
        for i in 0..n
            invariant
                *self == *old(self),
                old(self).wf(),
                n == self.users@.len(),
                forall|j: int| 0 <= j < i ==> self.users@[j].id != user.id,
        {
            if self.users[i].id == user.id {
                return Err(AccessError::Conflict);
            }
        }
        self.users.push(user);
        proof {
            let us0 = old(self).users@;
            let us1 = self.users@;
            assert forall|k: int| 0 <= k < self.sessions@.len() implies has_user(
                us1,
                #[trigger] self.sessions@[k].user_id,
            ) by {
                assert(has_user(us0, self.sessions@[k].user_id));
                let w = choose|w: int| 0 <= w < us0.len() && us0[w].id == self.sessions@[k].user_id;
                assert(us1[w].id == self.sessions@[k].user_id);
            }
        }
        Ok(())
    }

    /// The position of the first user answering to this login
    /// identifier, if any.
    fn find_user_index(&self, identity: &String) -> (r: Option<usize>)
        ensures
            match r {
                Some(i) => first_user_match_at(self.users@, identity@, i as int),
                None => !some_user_matches(self.users@, identity@),
            },
    {
        let n = self.users.len();
        for i in 0..n
            invariant
                n == self.users@.len(),
                forall|j: int| 0 <= j < i ==> !user_matches(self.users@[j], identity@),
        {
            if self.users[i].username == *identity || self.users[i].email == *identity {
                return Some(i);
            }
        }
        None
    }

    /// The first user answering to this login identifier, by username
    /// or email, if any.
    pub fn find_user_by_identify(&self, identity: &String) -> (r: Option<UserAccount>)
        ensures
            (r is Some) <==> some_user_matches(self.users@, identity@),
            r matches Some(u) ==> exists|i: int|
                #[trigger] first_user_match_at(self.users@, identity@, i) && self.users@[i] == u,
    {
        match self.find_user_index(identity) {
            Some(i) => Some(self.users[i].clone()),
            None => None,
        }
    }

    /// Opens a session for a user: a fresh 64-character random token
    /// with a seven-day expiry from `now`. `NotFound` when the user is
    /// not in the read-model.
    pub fn create_session(&mut self, user_id: u64, now: i64) -> (r: Result<Session, AccessError>)
        requires
            old(self).wf(),
            now <= i64::MAX - SESSION_TTL_SECS,
            old(self).next_session_id < u64::MAX,
        ensures
            final(self).wf(),
            (r is Ok) <==> has_user(old(self).users@, user_id),
            r is Err ==> r == Err::<Session, AccessError>(AccessError::NotFound) && *final(self)
                == *old(self),
            r matches Ok(s) ==> {
                &&& s.id == old(self).next_session_id
                &&& s.user_id == user_id
                &&& s.expires_at == now + SESSION_TTL_SECS
                &&& s.created_at == now
                &&& s.token@.len() == 64
                &&& (forall|i: int| 0 <= i < s.token@.len() ==> is_token_char(#[trigger] s.token@[i]))
                &&& final(self).sessions@ == old(self).sessions@.push(s)
                &&& final(self).users@ == old(self).users@
                &&& final(self).next_session_id == old(self).next_session_id + 1
            },
    {
        let n = self.users.len();
        let mut found = false;
        for i in 0..n
            invariant
                *self == *old(self),
                old(self).wf(),
                n == self.users@.len(),
                found <==> exists|j: int| 0 <= j < i && self.users@[j].id == user_id,
        {
            if self.users[i].id == user_id {
                found = true;
            }
        }
        if !found {
            return Err(AccessError::NotFound);
        }
        let token = fresh_token();
        let s = Session {
            id: self.next_session_id,
            user_id,
            token,
            expires_at: now + SESSION_TTL_SECS,
            created_at: now,
        };
        let returned = s.clone();
        self.next_session_id = self.next_session_id + 1;
        self.sessions.push(s);
        Ok(returned)
    }

    /// Logs a user in by username or email: checks the password
    /// against the stored bcrypt hash and opens a session. An unknown
    /// identifier or a failed password check is `Unauthenticated`; a
    /// stored hash that is not a well-formed bcrypt hash is
    /// `StorageFailure`, never conflated with a failed check. Success
    /// is owed: whenever the first matching user's stored hash is
    /// well-formed and the password verifies against it, a session is
    /// opened.
    pub fn login(&mut self, identity: &String, password: &String, now: i64) -> (r: Result<
        Session,
        AccessError,
    >)
        requires
            old(self).wf(),
            now <= i64::MAX - SESSION_TTL_SECS,
            old(self).next_session_id < u64::MAX,
        ensures
            final(self).wf(),
            final(self).users@ == old(self).users@,
            r is Err ==> *final(self) == *old(self) && (r == Err::<Session, AccessError>(
                AccessError::Unauthenticated,
            ) || r == Err::<Session, AccessError>(AccessError::StorageFailure)),
            (r is Ok) <==> (exists|i: int|
                #[trigger] first_user_match_at(old(self).users@, identity@, i) && bcrypt_hash_wf(
                    old(self).users@[i].password_hash@,
                ) && bcrypt_matches(password@, old(self).users@[i].password_hash@)),
            (r == Err::<Session, AccessError>(AccessError::StorageFailure)) <==> (exists|i: int|
                #[trigger] first_user_match_at(old(self).users@, identity@, i) && !bcrypt_hash_wf(
                    old(self).users@[i].password_hash@,
                )),
            (r == Err::<Session, AccessError>(AccessError::Unauthenticated)) <==> (
            !some_user_matches(old(self).users@, identity@) || (exists|i: int|
                #[trigger] first_user_match_at(old(self).users@, identity@, i) && bcrypt_hash_wf(
                    old(self).users@[i].password_hash@,
                ) && !bcrypt_matches(password@, old(self).users@[i].password_hash@))),
            r matches Ok(s) ==> exists|i: int|
                {
                    &&& #[trigger] first_user_match_at(old(self).users@, identity@, i)
                    &&& bcrypt_hash_wf(old(self).users@[i].password_hash@)
                    &&& bcrypt_matches(password@, old(self).users@[i].password_hash@)
                    &&& s.user_id == old(self).users@[i].id
                    &&& s.id == old(self).next_session_id
                    &&& s.expires_at == now + SESSION_TTL_SECS
                    &&& s.created_at == now
                    &&& s.token@.len() == 64
                    &&& final(self).sessions@ == old(self).sessions@.push(s)
                    &&& final(self).next_session_id == old(self).next_session_id + 1
                },
    {
        let idx = match self.find_user_index(identity) {
            Some(i) => i,
            None => {
                return Err(AccessError::Unauthenticated);
            },
        };
        proof {
            assert(first_user_match_at(old(self).users@, identity@, idx as int));
            assert forall|i: int|
                #[trigger] first_user_match_at(old(self).users@, identity@, i) implies i
                == idx as int by {
                lemma_first_user_match_unique(old(self).users@, identity@, i, idx as int);
            }
        }
        let checked = verify_password(password, &self.users[idx].password_hash);
        let ok = match checked {
            Ok(b) => b,
            Err(_) => {
                return Err(AccessError::StorageFailure);
            },
        };
        if !ok {
            return Err(AccessError::Unauthenticated);
        }
        let user_id = self.users[idx].id;
        self.create_session(user_id, now)
    }

    /// Looks a token up against an explicit clock value: the first
    /// stored session with this token whose expiry is strictly in the
    /// future of `now`, or nothing.
    pub fn validate_session_at(&self, token: &String, now: i64) -> (r: Option<Session>)
        ensures
            (r is Some) <==> has_live_session(self.sessions@, token@, now),
            r matches Some(s) ==> exists|k: int|
                {
                    &&& 0 <= k < self.sessions@.len()
                    &&& self.sessions@[k] == s
                    &&& session_live(s, token@, now)
                    &&& forall|j: int|
                        0 <= j < k ==> !session_live(self.sessions@[j], token@, now)
                },
    {
        let n = self.sessions.len();
        for k in 0..n
            invariant
                n == self.sessions@.len(),
                forall|j: int| 0 <= j < k ==> !session_live(self.sessions@[j], token@, now),
        {
            if self.sessions[k].token == *token && self.sessions[k].expires_at > now {
                return Some(self.sessions[k].clone());
            }
        }
        None
    }

    /// Looks a token up against the wall clock. The clock value is
    /// drawn inside the call, so only this much holds of every
    /// outcome: anything returned is a stored session carrying the
    /// token, not yet expired at the sampled instant.
    pub fn validate_session(&self, token: &String) -> (r: Option<Session>)
        ensures
            r matches Some(s) ==> s.token@ == token@ && exists|k: int|
                0 <= k < self.sessions@.len() && self.sessions@[k] == s,
    {
        let now = now_unix();
        self.validate_session_at(token, now)
    }

    /// Resolves a token to an identity against an explicit clock value.
    /// Succeeds exactly when a stored session carries the token and is
    /// strictly unexpired at `now`; everything else is
    /// `Unauthenticated`, with no grace window.
    pub fn resolve_at(&self, token: &String, now: i64) -> (r: Result<Identity, AccessError>)
        requires
            self.wf(),
        ensures
            (r is Ok) <==> has_live_session(self.sessions@, token@, now),
            r is Err ==> r == Err::<Identity, AccessError>(AccessError::Unauthenticated),
            r matches Ok(ident) ==> exists|k: int|
                {
                    &&& 0 <= k < self.sessions@.len()
                    &&& session_live(self.sessions@[k], token@, now)
                    &&& forall|j: int|
                        0 <= j < k ==> !session_live(self.sessions@[j], token@, now)
                    &&& ident.user_id == self.sessions@[k].user_id
                    &&& has_user(self.users@, ident.user_id)
                    &&& ident.role_id == spec_user(self.users@, ident.user_id).role_id
                },
    {
        let session = match self.validate_session_at(token, now) {
            Some(s) => s,
            None => {
                return Err(AccessError::Unauthenticated);
            },
        };
        let uidx_opt = self.find_user_index_by_id(session.user_id);
        let uidx = uidx_opt.unwrap();
        Ok(Identity { user_id: session.user_id, role_id: self.users[uidx].role_id })
    }

    /// Resolves a token against the wall clock. The clock value is
    /// drawn inside the call, so only this much holds of every outcome:
    /// a resolved identity comes from a stored session carrying the
    /// token, with the role the user read-model assigns.
    pub fn resolve(&self, token: &String) -> (r: Result<Identity, AccessError>)
        requires
            self.wf(),
        ensures
            r is Err ==> r == Err::<Identity, AccessError>(AccessError::Unauthenticated),
            r matches Ok(ident) ==> exists|k: int|
                {
                    &&& 0 <= k < self.sessions@.len()
                    &&& self.sessions@[k].token@ == token@
                    &&& ident.user_id == self.sessions@[k].user_id
                    &&& has_user(self.users@, ident.user_id)
                    &&& ident.role_id == spec_user(self.users@, ident.user_id).role_id
                },
    {
        let now = now_unix();
        self.resolve_at(token, now)
    }

    /// The position of the user row with this id, if it exists.
    fn find_user_index_by_id(&self, id: u64) -> (r: Option<usize>)
        ensures
            match r {
                Some(i) => i < self.users@.len() && self.users@[i as int].id == id && (self.wf()
                    ==> i as int == idx_of_user(self.users@, id)),
                None => !has_user(self.users@, id),
            },
    {
        let n = self.users.len();
        for i in 0..n
            invariant
                n == self.users@.len(),
                forall|j: int| 0 <= j < i ==> self.users@[j].id != id,
        {
            if self.users[i].id == id {
                proof {
                    if self.wf() {
                        lemma_user_at(self.users@, i as int);
                    }
                }
                return Some(i);
            }
        }
        None
    }

    /// Logs a token out: deletes every session row carrying it and
    /// reports how many were removed. Deleting an absent token is a
    /// no-op, not an error.
    pub fn delete_session(&mut self, token: &String) -> (count: u64)
        requires
            old(self).wf(),
        ensures
            final(self).wf(),
            final(self).sessions@ == old(self).sessions@.filter(
                |s: Session| s.token@ != token@,
            ),
            count == old(self).sessions@.len() - final(self).sessions@.len(),
            final(self).users@ == old(self).users@,
            final(self).next_session_id == old(self).next_session_id,
    {
        let ghost pre = *self;
        let mut kept: Vec<Session> = Vec::new();
        let n = self.sessions.len();
        for i in 0..n
            invariant
                *self == pre,
                n == self.sessions@.len(),
                kept@ == self.sessions@.take(i as int).filter(|s: Session| s.token@ != token@),
                kept@.len() <= i,
        {
            if !(self.sessions[i].token == *token) {
                kept.push(self.sessions[i].clone());
            }
            proof {
                crate::store::lemma_filter_take_step(
                    self.sessions@,
                    |s: Session| s.token@ != token@,
                    i as int,
                );
            }
        }
        proof {
            assert(self.sessions@.take(n as int) =~= self.sessions@);
        }
        let removed = (n - kept.len()) as u64;
        self.sessions = kept;
        proof {
            crate::store::lemma_filter_elements(
                pre.sessions@,
                |s: Session| s.token@ != token@,
                |a: Session, b: Session| true,
            );
            assert forall|k: int| 0 <= k < self.sessions@.len() implies has_user(
                self.users@,
                #[trigger] self.sessions@[k].user_id,
            ) by {
                assert(self.sessions@[k] == pre.sessions@.filter(|s: Session| s.token@ != token@)[
                    k
                ]);
                let j = choose|j: int|
                    0 <= j < pre.sessions@.len() && pre.sessions@[j] == self.sessions@[k];
                assert(has_user(pre.users@, pre.sessions@[j].user_id));
            }
        }
        removed
    }
}

/// With unique user ids, the row at any index is exactly what the
/// id-based lookup returns.
pub proof fn lemma_user_at(us: Seq<UserAccount>, i: int)
    requires
        forall|a: int, b: int| 0 <= a < b < us.len() ==> us[a].id != us[b].id,
        0 <= i < us.len(),
    ensures
        has_user(us, us[i].id),
        idx_of_user(us, us[i].id) == i,
        spec_user(us, us[i].id) == us[i],
{
    assert(has_user(us, us[i].id));
    let w = idx_of_user(us, us[i].id);
    assert(0 <= w < us.len() && us[w].id == us[i].id);
    if w < i {
        assert(us[w].id != us[i].id);
    } else if i < w {
        assert(us[i].id != us[w].id);
    }
}

} // verus!
