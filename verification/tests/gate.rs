use pbac_core::gate::authorize_action;
use pbac_core::gate::can_edit;
use pbac_core::gate::check_role_level;
use pbac_core::gate::edit_policy;
use pbac_core::model::AccessError;
use pbac_core::model::AuthContext;
use pbac_core::model::CreatePolicyPayload;
use pbac_core::model::Effect;
use pbac_core::model::Identity;
use pbac_core::model::SetEditorPayload;
use pbac_core::model::Subject;
use pbac_core::model::UpdatePolicyPayload;
use pbac_core::session::SessionStore;
use pbac_core::session::UserAccount;
use pbac_core::store::PolicyStore;

const NOW: i64 = 1_700_000_000;

fn ctx() -> AuthContext {
    AuthContext { department: None, location: None, time: NOW, resource_owner_id: None }
}

fn store_with_roles() -> (PolicyStore, u64, u64) {
    let mut store = PolicyStore::new();
    let admin = store.add_role("admin".to_string(), 0, None, 0);
    let manager = store.add_role("manager".to_string(), 5, None, 0);
    (store, admin.id, manager.id)
}

#[test]
fn role_level_check_honours_privilege_ordering() {
    let (store, admin_id, manager_id) = store_with_roles();
    let admin = Identity { user_id: 1, role_id: Some(admin_id) };
    let manager = Identity { user_id: 2, role_id: Some(manager_id) };
    let roleless = Identity { user_id: 3, role_id: None };
    assert!(check_role_level(&store, &admin, 0));
    assert!(!check_role_level(&store, &manager, 0));
    assert!(check_role_level(&store, &manager, 5));
    assert!(check_role_level(&store, &manager, 9));
    assert!(!check_role_level(&store, &roleless, 9));
}

#[test]
fn top_tier_may_always_edit() {
    let (mut store, admin_id, _) = store_with_roles();
    let p = store
        .create_policy(
            &CreatePolicyPayload { policy_number: 1, name: "P".to_string(), description: None },
            0,
        )
        .unwrap();
    let admin = Identity { user_id: 1, role_id: Some(admin_id) };
    assert!(can_edit(&store, &admin, p.id));
}

#[test]
fn delegation_grants_editing_at_or_above_the_floor() {
    let (mut store, _, manager_id) = store_with_roles();
    let p = store
        .create_policy(
            &CreatePolicyPayload { policy_number: 1, name: "P".to_string(), description: None },
            0,
        )
        .unwrap();
    let manager = Identity { user_id: 2, role_id: Some(manager_id) };
    // No delegation yet: the manager (level 5) may not edit.
    assert!(!can_edit(&store, &manager, p.id));
    // A floor below the manager's privilege does not help.
    store.set_policy_editor_level(p.id, &SetEditorPayload { role_level: 4 }).unwrap();
    assert!(!can_edit(&store, &manager, p.id));
    // A floor at the manager's own level grants editing.
    store.set_policy_editor_level(p.id, &SetEditorPayload { role_level: 5 }).unwrap();
    assert!(can_edit(&store, &manager, p.id));
    // The delegation is per policy.
    let q = store
        .create_policy(
            &CreatePolicyPayload { policy_number: 2, name: "Q".to_string(), description: None },
            0,
        )
        .unwrap();
    assert!(!can_edit(&store, &manager, q.id));
    // A roleless caller is never granted editing.
    let roleless = Identity { user_id: 3, role_id: None };
    assert!(!can_edit(&store, &roleless, p.id));
}

#[test]
fn edit_policy_enforces_the_gate() {
    let (mut store, admin_id, manager_id) = store_with_roles();
    let p = store
        .create_policy(
            &CreatePolicyPayload { policy_number: 1, name: "P".to_string(), description: None },
            0,
        )
        .unwrap();
    let manager = Identity { user_id: 2, role_id: Some(manager_id) };
    let denied = edit_policy(
        &mut store,
        &manager,
        p.id,
        &UpdatePolicyPayload { name: "Blocked".to_string(), description: None },
        1,
    );
    assert_eq!(denied.unwrap_err(), AccessError::Forbidden);
    assert_eq!(store.get_policy(p.id).unwrap().name, "P");
    let admin = Identity { user_id: 1, role_id: Some(admin_id) };
    let updated = edit_policy(
        &mut store,
        &admin,
        p.id,
        &UpdatePolicyPayload { name: "Renamed".to_string(), description: None },
        1,
    )
    .unwrap();
    assert_eq!(updated.name, "Renamed");
    assert_eq!(updated.current_version, 2);
}

fn seeded_world() -> (PolicyStore, SessionStore, String) {
    let (mut policies, _, manager_id) = store_with_roles();
    let p = policies
        .create_policy(
            &CreatePolicyPayload {
                policy_number: 1,
                name: "Leave reads".to_string(),
                description: None,
            },
            0,
        )
        .unwrap();
    policies
        .add_rule(p.id, Effect::Allow, "leave_request".to_string(), "read".to_string(), None)
        .unwrap();
    assert_eq!(policies.activate(p.id), 1);
    policies.bind(p.id, Subject::Role, manager_id, 0).unwrap();
    let mut sessions = SessionStore::new();
    sessions
        .add_user(UserAccount {
            id: 10,
            username: "mona".to_string(),
            email: "mona@example.com".to_string(),
            password_hash: bcrypt::hash("pw", 4).unwrap(),
            role_id: Some(manager_id),
        })
        .unwrap();
    let session = sessions.create_session(10, NOW).unwrap();
    (policies, sessions, session.token)
}

#[test]
fn authorize_action_grants_live_token_with_matching_rule() {
    let (policies, sessions, token) = seeded_world();
    let r = authorize_action(
        &policies,
        &sessions,
        &token,
        &"read".to_string(),
        &"leave_request".to_string(),
        &ctx(),
        NOW,
    );
    assert_eq!(r.unwrap().user_id, 10);
}

#[test]
fn authorize_action_forbids_unmatched_request() {
    let (policies, sessions, token) = seeded_world();
    let r = authorize_action(
        &policies,
        &sessions,
        &token,
        &"update".to_string(),
        &"leave_request".to_string(),
        &ctx(),
        NOW,
    );
    assert_eq!(r.unwrap_err(), AccessError::Forbidden);
}

#[test]
fn authorize_action_rejects_missing_and_expired_tokens() {
    let (policies, sessions, token) = seeded_world();
    let missing = authorize_action(
        &policies,
        &sessions,
        &"bogus".to_string(),
        &"read".to_string(),
        &"leave_request".to_string(),
        &ctx(),
        NOW,
    );
    assert_eq!(missing.unwrap_err(), AccessError::Unauthenticated);
    let expired = authorize_action(
        &policies,
        &sessions,
        &token,
        &"read".to_string(),
        &"leave_request".to_string(),
        &ctx(),
        NOW + 700_000,
    );
    assert_eq!(expired.unwrap_err(), AccessError::Unauthenticated);
}
