//! The session manager: decides on every invocation whether the
//! credentials held in the store are usable, expired, or absent, persists
//! the outcome of a login exchange atomically, and removes all session
//! state on logout. It works against any storage capability, so the state
//! machine can be exercised against a plain in-memory store.

use vstd::prelude::*;
use vstd::string::*;
use crate::bring::{AuthError, LoginInfo};
use crate::dec::{dec_str, parse_i64, parse_i64_spec};

verus! {

/// Reserved store key holding the bearer credential.
pub const AUTH_TOKEN: &'static str = "auth_token";

/// Reserved store key holding the target list id.
pub const LIST_UUID: &'static str = "list_uuid";

/// Reserved store key holding the string-encoded Unix second after which
/// the token is stale.
pub const EXPIRATION_TIMESTAMP: &'static str = "expiration_timestamp";

/// Reserved store key holding the last used login identity.
pub const USERNAME: &'static str = "username";

/// The storage capability the session manager needs: get, insert and
/// remove on a mapping from string keys to string values.
pub trait Storage: Sized {
    /// The stored mapping.
    spec fn contents(&self) -> Map<Seq<char>, Seq<char>>;

    /// The implementation's internal well-formedness.
    spec fn inv(&self) -> bool;

    /// Stores `value` under `key`, overwriting any existing value.
    fn insert(&mut self, key: String, value: String)
        requires
            old(self).inv(),
        ensures
            final(self).inv(),
            final(self).contents() == old(self).contents().insert(key@, value@),
    ;

    /// Pure lookup of a key's stored value.
    fn get(&self, key: &str) -> (r: Option<&String>)
        requires
            self.inv(),
        ensures
            match r {
                Some(v) => self.contents().contains_key(key@) && v@ == self.contents()[key@],
                None => !self.contents().contains_key(key@),
            },
    ;

    /// Deletes the entry for `key`; no-op when the key is absent.
    fn remove(&mut self, key: &str)
        requires
            old(self).inv(),
        ensures
            final(self).inv(),
            final(self).contents() == old(self).contents().remove(key@),
    ;
}

/// A resolved session: the bearer-prefixed token and the target list id.
pub struct AuthInfo {
    pub auth_token: String,
    pub list_uuid: String,
}

/// True when the mapping holds a non-empty value under `key`.
pub open spec fn has_value(m: Map<Seq<char>, Seq<char>>, key: Seq<char>) -> bool {
    m.contains_key(key) && m[key].len() > 0
}

/// A session is complete when both the token and the list id are present
/// and non-empty; a present-but-empty value counts as absent.
pub open spec fn complete(m: Map<Seq<char>, Seq<char>>) -> bool {
    has_value(m, "auth_token"@) && has_value(m, "list_uuid"@)
}

/// The stored expiration instant, when it is present and parses as a
/// base-10 integer.
pub open spec fn expiry(m: Map<Seq<char>, Seq<char>>) -> Option<i64> {
    if m.contains_key("expiration_timestamp"@) {
        parse_i64_spec(m["expiration_timestamp"@])
    } else {
        None
    }
}

/// The four logical states the stored credentials can be in at a given
/// instant.
pub enum SessionState {
    /// Token or list id missing or empty: authentication is required.
    NoCredentials,
    /// Complete and strictly before the stored expiration instant.
    Authenticated,
    /// Complete, but the expiration instant has been reached or passed.
    Expired,
    /// Complete with a missing or unparsable expiration: the conservative
    /// policy forces a refresh.
    Authenticating,
}

/// Classifies the stored credentials at instant `now`. The expiry trigger
/// is `now >= stored instant`: an exactly-equal instant counts as
/// expired.
pub open spec fn session_state(m: Map<Seq<char>, Seq<char>>, now: int) -> SessionState {
    if !complete(m) {
        SessionState::NoCredentials
    } else {
        match expiry(m) {
            None => SessionState::Authenticating,
            Some(t) => if t <= now {
                SessionState::Expired
            } else {
                SessionState::Authenticated
            },
        }
    }
}

/// The mapping with all four reserved session keys removed.
pub open spec fn without_session(m: Map<Seq<char>, Seq<char>>) -> Map<Seq<char>, Seq<char>> {
    m.remove("username"@).remove("expiration_timestamp"@).remove("list_uuid"@).remove(
        "auth_token"@,
    )
}

/// The mapping after a successful login at identity `username` persisted
/// the returned credentials.
pub open spec fn with_session(
    m: Map<Seq<char>, Seq<char>>,
    username: Seq<char>,
    login: LoginInfo,
) -> Map<Seq<char>, Seq<char>> {
    m.insert("auth_token"@, login.auth_token@).insert("list_uuid"@, login.list_uuid@).insert(
        "username"@,
        username,
    ).insert("expiration_timestamp"@, dec_str(login.expiration_timestamp as int))
}

/// Removing the session keys is idempotent: a second logout changes
/// nothing.
pub proof fn lemma_logout_idempotent(m: Map<Seq<char>, Seq<char>>)
    ensures
        without_session(without_session(m)) == without_session(m),
{
    assert(without_session(without_session(m)) =~= without_session(m));
}

/// After a logout, whatever the store held before, authentication is
/// required.
pub proof fn lemma_logout_clears_session(m: Map<Seq<char>, Seq<char>>, now: int)
    ensures
        session_state(without_session(m), now) is NoCredentials,
{
}

/// A successfully persisted login with a non-empty token and list id
/// yields a session that is fresh strictly before its expiration instant
/// and expired from that instant on.
pub proof fn lemma_login_establishes_session(
    m: Map<Seq<char>, Seq<char>>,
    username: Seq<char>,
    login: LoginInfo,
    now: int,
)
    requires
        login.auth_token@.len() > 0,
        login.list_uuid@.len() > 0,
    ensures
        login.expiration_timestamp > now ==> session_state(with_session(m, username, login), now)
            is Authenticated,
        login.expiration_timestamp <= now ==> session_state(with_session(m, username, login), now)
            is Expired,
{
    reveal_strlit("auth_token");
    reveal_strlit("list_uuid");
    reveal_strlit("username");
    reveal_strlit("expiration_timestamp");
    assert("auth_token"@.len() == 10);
    assert("list_uuid"@.len() == 9);
    assert("username"@.len() == 8);
    assert("expiration_timestamp"@.len() == 20);
    let m2 = with_session(m, username, login);
    assert(m2["auth_token"@] == login.auth_token@);
    assert(m2["list_uuid"@] == login.list_uuid@);
    assert(m2["expiration_timestamp"@] == dec_str(login.expiration_timestamp as int));
    crate::dec::lemma_dec_round_trip(login.expiration_timestamp);
}

/// Relies on chrono::Local::now and chrono::DateTime::timestamp: the
/// current wall-clock instant as Unix seconds. Nothing is assumed of the
/// value.
#[verifier::external_body]
fn current_timestamp() -> i64 {
    chrono::Local::now().timestamp()
}

/// Session-lifecycle logic over a storage capability.
pub struct UserManagement<S: Storage> {
    pub storage: S,
}

impl<S: Storage> UserManagement<S> {
    /// Wraps a storage capability for session management.
    pub fn new(storage: S) -> (r: Self)
        ensures
            r.storage == storage,
    {
        UserManagement { storage }
    }

    /// The session the store holds at instant `now`, when it is complete
    /// and fresh: the stored token re-wrapped as an HTTP bearer value,
    /// and the target list id. `None` means authentication is required.
    pub fn stored_session(&self, now: i64) -> (r: Option<AuthInfo>)
        requires
            self.storage.inv(),
        ensures
            (r is Some) == (session_state(self.storage.contents(), now as int)
                is Authenticated),
            match r {
                Some(a) => a.auth_token@ == "Bearer "@ + self.storage.contents()["auth_token"@]
                    && a.list_uuid@ == self.storage.contents()["list_uuid"@],
                None => true,
            },
    {
        let token = match self.storage.get(AUTH_TOKEN) {
            Some(v) => {
                if v.as_str().is_empty() {
                    return None;
                }
                v.clone()
            },
            None => {
                return None;
            },
        };
        let uuid = match self.storage.get(LIST_UUID) {
            Some(v) => {
                if v.as_str().is_empty() {
                    return None;
                }
                v.clone()
            },
            None => {
                return None;
            },
        };
        let expiration = match self.storage.get(EXPIRATION_TIMESTAMP) {
            Some(v) => v.clone(),
            None => {
                return None;
            },
        };
        match parse_i64(expiration.as_str()) {
            None => None,
            Some(t) => {
                if t <= now {
                    None
                } else {
                    let bearer = String::from_str("Bearer ").concat(token.as_str());
                    Some(AuthInfo { auth_token: bearer, list_uuid: uuid })
                }
            },
        }
    }

    /// Resolves the stored credentials against the current wall clock.
    pub fn use_stored_login(&self) -> (r: Option<AuthInfo>)
        requires
            self.storage.inv(),
        ensures
            match r {
                Some(a) => exists|now: int|
                    session_state(self.storage.contents(), now) is Authenticated
                        && a.auth_token@ == "Bearer "@ + self.storage.contents()["auth_token"@]
                        && a.list_uuid@ == self.storage.contents()["list_uuid"@],
                None => true,
            },
    {
        let now = current_timestamp();
        let r = self.stored_session(now);
        proof {
            if r is Some {
                assert(session_state(self.storage.contents(), now as int) is Authenticated);
            }
        }
        r
    }

    /// The stored login identity, reused to skip re-prompting.
    pub fn stored_username(&self) -> (r: Option<String>)
        requires
            self.storage.inv(),
        ensures
            match r {
                Some(u) => self.storage.contents().contains_key("username"@) && u@
                    == self.storage.contents()["username"@],
                None => !self.storage.contents().contains_key("username"@),
            },
    {
        match self.storage.get(USERNAME) {
            Some(v) => Some(v.clone()),
            None => None,
        }
    }

    /// Applies the outcome of a login collaborator call. A successful
    /// exchange persists all four reserved keys and yields the bearer
    /// session; a failure leaves the store exactly as it was and
    /// surfaces the error, so no partial credential set is ever
    /// persisted.
    pub fn complete_login(&mut self, username: &str, outcome: Result<LoginInfo, AuthError>) -> (r:
        Result<AuthInfo, AuthError>)
        requires
            old(self).storage.inv(),
        ensures
            final(self).storage.inv(),
            match outcome {
                Ok(li) => final(self).storage.contents() == with_session(
                    old(self).storage.contents(),
                    username@,
                    li,
                ) && (r matches Ok(a) && a.auth_token@ == "Bearer "@ + li.auth_token@
                    && a.list_uuid@ == li.list_uuid@),
                Err(e) => final(self).storage.contents() == old(self).storage.contents() && (
                r matches Err(e2) && e2 == e),
            },
    {
        match outcome {
            Ok(li) => {
                self.storage.insert(String::from_str(AUTH_TOKEN), li.auth_token.clone());
                self.storage.insert(String::from_str(LIST_UUID), li.list_uuid.clone());
                self.storage.insert(String::from_str(USERNAME), String::from_str(username));
                self.storage.insert(
                    String::from_str(EXPIRATION_TIMESTAMP),
                    crate::dec::i64_to_string(li.expiration_timestamp),
                );
                let bearer = String::from_str("Bearer ").concat(li.auth_token.as_str());
                Ok(AuthInfo { auth_token: bearer, list_uuid: li.list_uuid })
            },
            Err(e) => Err(e),
        }
    }

    /// Removes all four reserved session keys unconditionally; idempotent
    /// and silent when they are already absent.
    pub fn logout(&mut self)
        requires
            old(self).storage.inv(),
        ensures
            final(self).storage.inv(),
            final(self).storage.contents() == without_session(old(self).storage.contents()),
    {
        self.storage.remove(USERNAME);
        self.storage.remove(EXPIRATION_TIMESTAMP);
        self.storage.remove(LIST_UUID);
        self.storage.remove(AUTH_TOKEN);
    }
}

} // verus!
