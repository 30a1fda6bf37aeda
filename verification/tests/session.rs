use pbac_core::model::AccessError;
use pbac_core::session::Session;
use pbac_core::session::SessionStore;
use pbac_core::session::UserAccount;
use pbac_core::session::SESSION_TTL_SECS;

const NOW: i64 = 1_700_000_000;

fn user(id: u64, username: &str, password: &str, role_id: Option<u64>) -> UserAccount {
    UserAccount {
        id,
        username: username.to_string(),
        email: format!("{}@example.com", username),
        password_hash: bcrypt::hash(password, 4).unwrap(),
        role_id,
    }
}

#[test]
fn resolve_rejects_token_expired_one_second_ago() {
    let store = SessionStore {
        users: vec![user(1, "ada", "pw", None)],
        sessions: vec![Session {
            id: 0,
            user_id: 1,
            token: "abc".to_string(),
            expires_at: NOW - 1,
            created_at: NOW - 100,
        }],
        next_session_id: 1,
    };
    let r = store.resolve_at(&"abc".to_string(), NOW);
    assert_eq!(r.unwrap_err(), AccessError::Unauthenticated);
}

#[test]
fn resolve_requires_strictly_future_expiry() {
    let store = SessionStore {
        users: vec![user(1, "ada", "pw", None)],
        sessions: vec![Session {
            id: 0,
            user_id: 1,
            token: "abc".to_string(),
            expires_at: NOW,
            created_at: NOW - 100,
        }],
        next_session_id: 1,
    };
    // Expiring exactly now is already invalid: no grace window.
    assert!(store.resolve_at(&"abc".to_string(), NOW).is_err());
    assert!(store.resolve_at(&"abc".to_string(), NOW - 1).is_ok());
}

#[test]
fn resolve_yields_user_and_role() {
    let store = SessionStore {
        users: vec![user(1, "ada", "pw", Some(9))],
        sessions: vec![Session {
            id: 0,
            user_id: 1,
            token: "tok".to_string(),
            expires_at: NOW + 60,
            created_at: NOW,
        }],
        next_session_id: 1,
    };
    let ident = store.resolve_at(&"tok".to_string(), NOW).unwrap();
    assert_eq!(ident.user_id, 1);
    assert_eq!(ident.role_id, Some(9));
}

#[test]
fn resolve_unknown_token_is_unauthenticated() {
    let mut store = SessionStore::new();
    store.add_user(user(1, "ada", "pw", None)).unwrap();
    let r = store.resolve_at(&"nope".to_string(), NOW);
    assert_eq!(r.unwrap_err(), AccessError::Unauthenticated);
}

#[test]
fn create_session_issues_week_long_alphanumeric_token() {
    let mut store = SessionStore::new();
    store.add_user(user(1, "ada", "pw", None)).unwrap();
    let s = store.create_session(1, NOW).unwrap();
    assert_eq!(s.user_id, 1);
    assert_eq!(s.created_at, NOW);
    assert_eq!(s.expires_at, NOW + SESSION_TTL_SECS);
    assert_eq!(s.expires_at - s.created_at, 604_800);
    assert_eq!(s.token.chars().count(), 64);
    assert!(s.token.chars().all(|c| c.is_ascii_alphanumeric()));
    // The fresh session resolves.
    assert!(store.resolve_at(&s.token, NOW).is_ok());
}

#[test]
fn create_session_for_unknown_user_is_not_found() {
    let mut store = SessionStore::new();
    let r = store.create_session(5, NOW);
    assert_eq!(r.unwrap_err(), AccessError::NotFound);
}

#[test]
fn login_success_opens_session() {
    let mut store = SessionStore::new();
    store.add_user(user(1, "ada", "correct horse", Some(3))).unwrap();
    let s = store.login(&"ada".to_string(), &"correct horse".to_string(), NOW).unwrap();
    assert_eq!(s.user_id, 1);
    assert_eq!(s.expires_at, NOW + SESSION_TTL_SECS);
    let ident = store.resolve_at(&s.token, NOW).unwrap();
    assert_eq!(ident.user_id, 1);
    assert_eq!(ident.role_id, Some(3));
}

#[test]
fn login_by_email_also_works() {
    let mut store = SessionStore::new();
    store.add_user(user(1, "ada", "pw", None)).unwrap();
    let s = store.login(&"ada@example.com".to_string(), &"pw".to_string(), NOW);
    assert!(s.is_ok());
}

#[test]
fn login_wrong_password_is_unauthenticated() {
    let mut store = SessionStore::new();
    store.add_user(user(1, "ada", "right", None)).unwrap();
    let r = store.login(&"ada".to_string(), &"wrong".to_string(), NOW);
    assert_eq!(r.unwrap_err(), AccessError::Unauthenticated);
    assert!(store.sessions.is_empty());
}

#[test]
fn login_unknown_user_is_unauthenticated() {
    let mut store = SessionStore::new();
    let r = store.login(&"ghost".to_string(), &"pw".to_string(), NOW);
    assert_eq!(r.unwrap_err(), AccessError::Unauthenticated);
}

#[test]
fn login_with_unparseable_stored_hash_is_a_storage_failure() {
    let mut store = SessionStore::new();
    store
        .add_user(UserAccount {
            id: 1,
            username: "ada".to_string(),
            email: "ada@example.com".to_string(),
            password_hash: "not a bcrypt hash".to_string(),
            role_id: None,
        })
        .unwrap();
    let r = store.login(&"ada".to_string(), &"pw".to_string(), NOW);
    assert_eq!(r.unwrap_err(), AccessError::StorageFailure);
}

#[test]
fn delete_session_is_idempotent() {
    let mut store = SessionStore::new();
    store.add_user(user(1, "ada", "pw", None)).unwrap();
    let s = store.create_session(1, NOW).unwrap();
    assert_eq!(store.delete_session(&s.token), 1);
    assert_eq!(store.delete_session(&s.token), 0);
    assert!(store.validate_session_at(&s.token, NOW).is_none());
}

#[test]
fn validate_session_at_returns_the_matching_row() {
    let mut store = SessionStore::new();
    store.add_user(user(1, "ada", "pw", None)).unwrap();
    let s = store.create_session(1, NOW).unwrap();
    let found = store.validate_session_at(&s.token, NOW).unwrap();
    assert_eq!(found, s);
    assert!(store.validate_session_at(&s.token, NOW + SESSION_TTL_SECS).is_none());
}

#[test]
fn wall_clock_lookup_sees_a_fresh_session() {
    let mut store = SessionStore::new();
    store.add_user(user(1, "ada", "pw", Some(4))).unwrap();
    let now = chrono::Utc::now().timestamp();
    let s = store.create_session(1, now).unwrap();
    // A session opened just now is a week from expiry, so the
    // wall-clock variants see it.
    let found = store.validate_session(&s.token).unwrap();
    assert_eq!(found, s);
    let ident = store.resolve(&s.token).unwrap();
    assert_eq!(ident.user_id, 1);
    assert_eq!(ident.role_id, Some(4));
    // An expired row stays invisible to the wall clock.
    store.sessions[0].expires_at = now - 1;
    assert!(store.validate_session(&s.token).is_none());
    assert!(store.resolve(&s.token).is_err());
}

#[test]
fn find_user_by_identify_matches_username_or_email() {
    let mut store = SessionStore::new();
    store.add_user(user(1, "ada", "pw", None)).unwrap();
    store.add_user(user(2, "bob", "pw", None)).unwrap();
    assert_eq!(store.find_user_by_identify(&"bob".to_string()).unwrap().id, 2);
    assert_eq!(store.find_user_by_identify(&"ada@example.com".to_string()).unwrap().id, 1);
    assert!(store.find_user_by_identify(&"carol".to_string()).is_none());
}

#[test]
fn add_user_rejects_duplicate_id() {
    let mut store = SessionStore::new();
    store.add_user(user(1, "ada", "pw", None)).unwrap();
    let r = store.add_user(user(1, "imposter", "pw", None));
    assert_eq!(r.unwrap_err(), AccessError::Conflict);
}
