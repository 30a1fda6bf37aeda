use pbac_core::model::AccessError;
use pbac_core::model::CreatePolicyPayload;
use pbac_core::model::Effect;
use pbac_core::model::PolicyStatus;
use pbac_core::model::SetEditorPayload;
use pbac_core::model::Subject;
use pbac_core::model::UpdatePolicyPayload;
use pbac_core::store::PolicyStore;

fn payload(policy_number: i32, name: &str) -> CreatePolicyPayload {
    CreatePolicyPayload { policy_number, name: name.to_string(), description: None }
}

#[test]
fn create_policy_starts_as_draft_version_one() {
    let mut store = PolicyStore::new();
    let p = store.create_policy(&payload(7, "Baseline"), 1000).unwrap();
    assert_eq!(p.policy_number, 7);
    assert_eq!(p.name, "Baseline");
    assert_eq!(p.status, PolicyStatus::Draft);
    assert!(!p.is_archived);
    assert_eq!(p.current_version, 1);
    assert_eq!(p.created_at, 1000);
    let history = store.get_policy_versions(p.id);
    assert_eq!(history.len(), 1);
    assert_eq!(history[0].version, 1);
    assert_eq!(history[0].name, "Baseline");
    assert_eq!(history[0].policy_id, p.id);
}

#[test]
fn create_policy_rejects_duplicate_number() {
    let mut store = PolicyStore::new();
    store.create_policy(&payload(7, "First"), 0).unwrap();
    let r = store.create_policy(&payload(7, "Second"), 1);
    assert_eq!(r.unwrap_err(), AccessError::Conflict);
    assert_eq!(store.list_policies().len(), 1);
}

#[test]
fn rule_mutation_is_draft_only() {
    let mut store = PolicyStore::new();
    let p = store.create_policy(&payload(1, "Rules"), 0).unwrap();
    let added = store
        .add_rule(p.id, Effect::Allow, "leave_request".to_string(), "read".to_string(), None)
        .unwrap();
    assert_eq!(store.activate(p.id), 1);
    let on_active = store.add_rule(
        p.id,
        Effect::Deny,
        "leave_request".to_string(),
        "read".to_string(),
        None,
    );
    assert_eq!(on_active.unwrap_err(), AccessError::PolicyImmutable);
    assert_eq!(store.remove_rule(added.id).unwrap_err(), AccessError::PolicyImmutable);
    assert_eq!(store.archive_policy(p.id, 5), 1);
    let on_archived = store.add_rule(
        p.id,
        Effect::Deny,
        "leave_request".to_string(),
        "read".to_string(),
        None,
    );
    assert_eq!(on_archived.unwrap_err(), AccessError::PolicyImmutable);
    assert_eq!(store.remove_rule(added.id).unwrap_err(), AccessError::PolicyImmutable);
}

#[test]
fn rule_mutation_succeeds_on_draft() {
    let mut store = PolicyStore::new();
    let p = store.create_policy(&payload(1, "Rules"), 0).unwrap();
    let added = store
        .add_rule(p.id, Effect::Allow, "report".to_string(), "read".to_string(), None)
        .unwrap();
    assert_eq!(added.policy_id, p.id);
    assert!(store.remove_rule(added.id).is_ok());
    assert_eq!(store.remove_rule(added.id).unwrap_err(), AccessError::NotFound);
}

#[test]
fn add_rule_to_missing_policy_is_not_found() {
    let mut store = PolicyStore::new();
    let r = store.add_rule(99, Effect::Allow, "*".to_string(), "*".to_string(), None);
    assert_eq!(r.unwrap_err(), AccessError::NotFound);
}

#[test]
fn activate_affects_draft_only() {
    let mut store = PolicyStore::new();
    let p = store.create_policy(&payload(1, "Lifecycle"), 0).unwrap();
    assert_eq!(store.activate(p.id), 1);
    assert_eq!(store.get_policy(p.id).unwrap().status, PolicyStatus::Active);
    // Already active: zero rows affected, not an error.
    assert_eq!(store.activate(p.id), 0);
    assert_eq!(store.get_policy(p.id).unwrap().status, PolicyStatus::Active);
    assert_eq!(store.archive_policy(p.id, 9), 1);
    assert_eq!(store.activate(p.id), 0);
    assert_eq!(store.get_policy(p.id).unwrap().status, PolicyStatus::Archived);
    // Unknown policy: zero rows affected.
    assert_eq!(store.activate(12345), 0);
}

#[test]
fn archive_works_from_any_status_and_sets_the_flag() {
    let mut store = PolicyStore::new();
    let draft = store.create_policy(&payload(1, "From draft"), 0).unwrap();
    assert_eq!(store.archive_policy(draft.id, 50), 1);
    let archived = store.get_policy(draft.id).unwrap();
    assert_eq!(archived.status, PolicyStatus::Archived);
    assert!(archived.is_archived);
    assert_eq!(archived.updated_at, 50);
    // Archiving again still reports one affected row, as a plain update.
    assert_eq!(store.archive_policy(draft.id, 60), 1);
    // Missing policy: zero rows.
    assert_eq!(store.archive_policy(999, 60), 0);
}

#[test]
fn version_monotonicity_over_three_updates() {
    let mut store = PolicyStore::new();
    let p = store.create_policy(&payload(1, "v1"), 0).unwrap();
    let mut updated = p.clone();
    for step in 0..3u64 {
        let name = format!("v{}", step + 2);
        updated = store
            .update_policy(
                p.id,
                &UpdatePolicyPayload { name, description: None },
                10 + step as i64,
            )
            .unwrap();
    }
    assert_eq!(updated.current_version, 4);
    assert_eq!(updated.name, "v4");
    let history = store.get_policy_versions(p.id);
    assert_eq!(history.len(), 4);
    for (k, row) in history.iter().enumerate() {
        assert_eq!(row.policy_id, p.id);
        assert_eq!(row.version, 4 - k as i32);
        assert_eq!(row.name, format!("v{}", 4 - k));
    }
}

#[test]
fn update_policy_missing_is_not_found() {
    let mut store = PolicyStore::new();
    let r = store.update_policy(
        5,
        &UpdatePolicyPayload { name: "x".to_string(), description: None },
        0,
    );
    assert_eq!(r.unwrap_err(), AccessError::NotFound);
}

#[test]
fn draft_only_configuration_locks_content_after_activation() {
    let mut store = PolicyStore::new();
    store.set_draft_only_content_edits(true);
    let p = store.create_policy(&payload(1, "Locked"), 0).unwrap();
    store
        .update_policy(p.id, &UpdatePolicyPayload { name: "Still a draft".to_string(), description: None }, 1)
        .unwrap();
    assert_eq!(store.activate(p.id), 1);
    let r = store.update_policy(
        p.id,
        &UpdatePolicyPayload { name: "Too late".to_string(), description: None },
        2,
    );
    assert_eq!(r.unwrap_err(), AccessError::PolicyImmutable);
}

#[test]
fn bind_is_idempotent() {
    let mut store = PolicyStore::new();
    let p = store.create_policy(&payload(1, "Bound"), 0).unwrap();
    let first = store.bind(p.id, Subject::Role, 7, 100).unwrap();
    // The second call is a no-op, not an error, returning the same row.
    let second = store.bind(p.id, Subject::Role, 7, 200).unwrap();
    assert_eq!(first, second);
    assert_eq!(store.bindings.len(), 1);
}

#[test]
fn bind_missing_policy_is_not_found() {
    let mut store = PolicyStore::new();
    let r = store.bind(3, Subject::User, 1, 0);
    assert_eq!(r.unwrap_err(), AccessError::NotFound);
}

#[test]
fn assign_policy_to_role_counts_written_rows() {
    let mut store = PolicyStore::new();
    let p = store.create_policy(&payload(1, "Assigned"), 0).unwrap();
    assert_eq!(store.assign_policy_to_role(7, p.id, 0).unwrap(), 1);
    assert_eq!(store.assign_policy_to_role(7, p.id, 0).unwrap(), 0);
    assert_eq!(
        store.assign_policy_to_role(7, 999, 0).unwrap_err(),
        AccessError::NotFound
    );
}

#[test]
fn remove_policy_from_role_counts_deleted_rows() {
    let mut store = PolicyStore::new();
    let p = store.create_policy(&payload(1, "Revoked"), 0).unwrap();
    assert_eq!(store.assign_policy_to_role(7, p.id, 0).unwrap(), 1);
    assert_eq!(store.remove_policy_from_role(7, p.id), 1);
    assert_eq!(store.remove_policy_from_role(7, p.id), 0);
}

#[test]
fn unbind_deletes_by_id() {
    let mut store = PolicyStore::new();
    let p = store.create_policy(&payload(1, "Unbound"), 0).unwrap();
    let b = store.bind(p.id, Subject::User, 4, 0).unwrap();
    assert!(store.unbind(b.id).is_ok());
    assert_eq!(store.unbind(b.id).unwrap_err(), AccessError::NotFound);
    assert_eq!(store.bindings.len(), 0);
}

#[test]
fn set_policy_editor_level_is_idempotent_per_pair() {
    let mut store = PolicyStore::new();
    let p = store.create_policy(&payload(1, "Delegated"), 0).unwrap();
    assert_eq!(
        store.set_policy_editor_level(p.id, &SetEditorPayload { role_level: 3 }).unwrap(),
        1
    );
    assert_eq!(
        store.set_policy_editor_level(p.id, &SetEditorPayload { role_level: 3 }).unwrap(),
        0
    );
    assert_eq!(
        store.set_policy_editor_level(p.id, &SetEditorPayload { role_level: 5 }).unwrap(),
        1
    );
    assert_eq!(
        store.set_policy_editor_level(42, &SetEditorPayload { role_level: 3 }).unwrap_err(),
        AccessError::NotFound
    );
}

#[test]
fn delete_policy_cascades_dependents() {
    let mut store = PolicyStore::new();
    let keep = store.create_policy(&payload(1, "Keep"), 0).unwrap();
    let gone = store.create_policy(&payload(2, "Gone"), 0).unwrap();
    store
        .add_rule(keep.id, Effect::Allow, "*".to_string(), "*".to_string(), None)
        .unwrap();
    store
        .add_rule(gone.id, Effect::Deny, "*".to_string(), "*".to_string(), None)
        .unwrap();
    store.bind(gone.id, Subject::Role, 7, 0).unwrap();
    store.bind(keep.id, Subject::Role, 7, 0).unwrap();
    store.set_policy_editor_level(gone.id, &SetEditorPayload { role_level: 3 }).unwrap();
    assert_eq!(store.delete_policy(gone.id), 1);
    assert!(store.get_policy(gone.id).is_none());
    assert!(store.get_policy(keep.id).is_some());
    assert!(store.rules.iter().all(|r| r.policy_id == keep.id));
    assert!(store.bindings.iter().all(|b| b.policy_id == keep.id));
    assert!(store.editor_permissions.is_empty());
    assert_eq!(store.get_policy_versions(gone.id).len(), 0);
    assert_eq!(store.get_policy_versions(keep.id).len(), 1);
    // Deleting again affects nothing.
    assert_eq!(store.delete_policy(gone.id), 0);
}

#[test]
fn list_policies_for_role_filters_by_binding() {
    let mut store = PolicyStore::new();
    let a = store.create_policy(&payload(1, "A"), 0).unwrap();
    let b = store.create_policy(&payload(2, "B"), 0).unwrap();
    store.bind(a.id, Subject::Role, 7, 0).unwrap();
    store.bind(b.id, Subject::Role, 8, 0).unwrap();
    let for_seven = store.list_policies_for_role(7);
    assert_eq!(for_seven.len(), 1);
    assert_eq!(for_seven[0].id, a.id);
}

#[test]
fn default_configuration_allows_versioned_edits_after_activation() {
    let mut store = PolicyStore::new();
    let p = store.create_policy(&payload(1, "Open"), 0).unwrap();
    assert_eq!(store.activate(p.id), 1);
    let updated = store
        .update_policy(p.id, &UpdatePolicyPayload { name: "Edited while active".to_string(), description: None }, 1)
        .unwrap();
    assert_eq!(updated.current_version, 2);
    assert_eq!(updated.status, PolicyStatus::Active);
    assert_eq!(store.archive_policy(p.id, 2), 1);
    let again = store
        .update_policy(p.id, &UpdatePolicyPayload { name: "Edited while archived".to_string(), description: None }, 3)
        .unwrap();
    assert_eq!(again.current_version, 3);
}

#[test]
fn version_histories_stay_separate_per_policy() {
    let mut store = PolicyStore::new();
    let a = store.create_policy(&payload(1, "A"), 0).unwrap();
    let b = store.create_policy(&payload(2, "B"), 0).unwrap();
    store
        .update_policy(a.id, &UpdatePolicyPayload { name: "A2".to_string(), description: None }, 1)
        .unwrap();
    store
        .update_policy(b.id, &UpdatePolicyPayload { name: "B2".to_string(), description: None }, 1)
        .unwrap();
    store
        .update_policy(a.id, &UpdatePolicyPayload { name: "A3".to_string(), description: None }, 2)
        .unwrap();
    let for_a = store.get_policy_versions(a.id);
    let for_b = store.get_policy_versions(b.id);
    assert_eq!(for_a.len(), 3);
    assert_eq!(for_b.len(), 2);
    assert_eq!(for_a[0].name, "A3");
    assert_eq!(for_b[0].name, "B2");
    assert!(for_a.iter().all(|v| v.policy_id == a.id));
    assert!(for_b.iter().all(|v| v.policy_id == b.id));
}

#[test]
fn list_roles_orders_by_ascending_level() {
    let mut store = PolicyStore::new();
    let manager = store.add_role("manager".to_string(), 5, Some("line".to_string()), 0);
    let admin = store.add_role("admin".to_string(), 0, None, 0);
    let hr = store.add_role("hr".to_string(), 2, None, 0);
    let roles = store.list_roles();
    assert_eq!(roles.len(), 3);
    assert_eq!(roles[0], admin);
    assert_eq!(roles[1], hr);
    assert_eq!(roles[2], manager);
}

#[test]
fn list_policies_orders_by_policy_number() {
    let mut store = PolicyStore::new();
    let second = store.create_policy(&payload(20, "Second"), 0).unwrap();
    let first = store.create_policy(&payload(10, "First"), 0).unwrap();
    let listed = store.list_policies();
    assert_eq!(listed.len(), 2);
    assert_eq!(listed[0], first);
    assert_eq!(listed[1], second);
}
