use pbac_core::engine::authorize;
use pbac_core::engine::evaluate;
use pbac_core::engine::rule_applies;
use pbac_core::model::AuthContext;
use pbac_core::model::CreatePolicyPayload;
use pbac_core::model::Effect;
use pbac_core::model::Identity;
use pbac_core::model::PolicyRule;
use pbac_core::model::Reason;
use pbac_core::model::Subject;
use pbac_core::store::PolicyStore;

fn rule(id: u64, policy_id: u64, effect: Effect, resource: &str, action: &str) -> PolicyRule {
    PolicyRule {
        id,
        policy_id,
        effect,
        resource: resource.to_string(),
        action: action.to_string(),
        conditions: None,
    }
}

fn ctx() -> AuthContext {
    AuthContext { department: None, location: None, time: 0, resource_owner_id: None }
}

#[test]
fn deny_overrides_allow() {
    let rules = vec![
        rule(1, 10, Effect::Allow, "leave_request", "read"),
        rule(2, 20, Effect::Deny, "leave_request", "read"),
        rule(3, 30, Effect::Allow, "leave_request", "read"),
    ];
    let d = evaluate(&rules, &"read".to_string(), &"leave_request".to_string());
    assert!(!d.allowed);
    assert_eq!(d.reason, Reason::RuleDeny);
    assert_eq!(d.policy_id, Some(20));
}

#[test]
fn default_deny_when_nothing_matches() {
    let rules = vec![
        rule(1, 10, Effect::Allow, "payslip", "read"),
        rule(2, 20, Effect::Deny, "report", "update"),
    ];
    let d = evaluate(&rules, &"read".to_string(), &"leave_request".to_string());
    assert!(!d.allowed);
    assert_eq!(d.reason, Reason::DefaultDeny);
    assert_eq!(d.policy_id, None);
}

#[test]
fn default_deny_on_empty_rule_set() {
    let rules: Vec<PolicyRule> = Vec::new();
    let d = evaluate(&rules, &"read".to_string(), &"leave_request".to_string());
    assert!(!d.allowed);
    assert_eq!(d.reason, Reason::DefaultDeny);
    assert_eq!(d.policy_id, None);
}

#[test]
fn wildcard_matches_any_resource_and_action() {
    let rules = vec![rule(1, 10, Effect::Allow, "*", "*")];
    let d = evaluate(&rules, &"anything".to_string(), &"whatever".to_string());
    assert!(d.allowed);
    assert_eq!(d.reason, Reason::RuleAllow);
    assert_eq!(d.policy_id, Some(10));
}

#[test]
fn wildcard_resource_still_requires_action_match() {
    let rules = vec![rule(1, 10, Effect::Allow, "*", "read")];
    let d = evaluate(&rules, &"update".to_string(), &"leave_request".to_string());
    assert!(!d.allowed);
    assert_eq!(d.policy_id, None);
}

#[test]
fn last_matching_allow_is_cited() {
    let rules = vec![
        rule(1, 10, Effect::Allow, "report", "read"),
        rule(2, 20, Effect::Allow, "report", "read"),
    ];
    let d = evaluate(&rules, &"read".to_string(), &"report".to_string());
    assert!(d.allowed);
    assert_eq!(d.policy_id, Some(20));
}

#[test]
fn first_matching_deny_is_cited() {
    let rules = vec![
        rule(1, 10, Effect::Deny, "report", "read"),
        rule(2, 20, Effect::Deny, "report", "read"),
    ];
    let d = evaluate(&rules, &"read".to_string(), &"report".to_string());
    assert!(!d.allowed);
    assert_eq!(d.policy_id, Some(10));
}

#[test]
fn rule_applies_compares_both_components() {
    let r = rule(1, 10, Effect::Allow, "leave_request", "read");
    assert!(rule_applies(&r, &"read".to_string(), &"leave_request".to_string()));
    assert!(!rule_applies(&r, &"leave_request".to_string(), &"read".to_string()));
}

#[test]
fn reason_messages() {
    assert_eq!(Reason::RuleDeny.message(), "explicit deny");
    assert_eq!(Reason::RuleAllow.message(), "explicit allow");
    assert_eq!(Reason::DefaultDeny.message(), "default deny");
}

/// Builds a store holding one active policy with one rule, bound to a
/// role, and returns the store, the policy id and the role id.
fn store_with_active_policy(effect: Effect, resource: &str, action: &str) -> (PolicyStore, u64, u64) {
    let mut store = PolicyStore::new();
    let role = store.add_role("manager".to_string(), 5, None, 100);
    let policy = store
        .create_policy(
            &CreatePolicyPayload {
                policy_number: 1,
                name: "Leave access".to_string(),
                description: None,
            },
            100,
        )
        .unwrap();
    store
        .add_rule(policy.id, effect, resource.to_string(), action.to_string(), None)
        .unwrap();
    assert_eq!(store.activate(policy.id), 1);
    store.bind(policy.id, Subject::Role, role.id, 100).unwrap();
    (store, policy.id, role.id)
}

#[test]
fn scenario_active_bound_policy_grants() {
    let (store, policy_id, role_id) = store_with_active_policy(Effect::Allow, "leave_request", "read");
    let user = Identity { user_id: 42, role_id: Some(role_id) };
    let d = authorize(&store, &user, &"read".to_string(), &"leave_request".to_string(), &ctx());
    assert!(d.allowed);
    assert_eq!(d.policy_id, Some(policy_id));
}

#[test]
fn scenario_second_deny_policy_wins_either_binding_order() {
    for bind_deny_first in [false, true] {
        let mut store = PolicyStore::new();
        let role = store.add_role("manager".to_string(), 5, None, 100);
        let p = store
            .create_policy(
                &CreatePolicyPayload {
                    policy_number: 1,
                    name: "Grant leave reads".to_string(),
                    description: None,
                },
                100,
            )
            .unwrap();
        let q = store
            .create_policy(
                &CreatePolicyPayload {
                    policy_number: 2,
                    name: "Forbid leave reads".to_string(),
                    description: None,
                },
                100,
            )
            .unwrap();
        store
            .add_rule(p.id, Effect::Allow, "leave_request".to_string(), "read".to_string(), None)
            .unwrap();
        store
            .add_rule(q.id, Effect::Deny, "leave_request".to_string(), "read".to_string(), None)
            .unwrap();
        assert_eq!(store.activate(p.id), 1);
        assert_eq!(store.activate(q.id), 1);
        if bind_deny_first {
            store.bind(q.id, Subject::Role, role.id, 100).unwrap();
            store.bind(p.id, Subject::Role, role.id, 100).unwrap();
        } else {
            store.bind(p.id, Subject::Role, role.id, 100).unwrap();
            store.bind(q.id, Subject::Role, role.id, 100).unwrap();
        }
        let user = Identity { user_id: 42, role_id: Some(role.id) };
        let d = authorize(&store, &user, &"read".to_string(), &"leave_request".to_string(), &ctx());
        assert!(!d.allowed);
        assert_eq!(d.policy_id, Some(q.id));
    }
}

#[test]
fn conditions_are_carried_but_not_matched_by_the_baseline() {
    let mut with_conditions = rule(1, 10, Effect::Allow, "report", "read");
    with_conditions.conditions = Some("{\"owner_only\":true}".to_string());
    let rules = vec![with_conditions];
    let d = evaluate(&rules, &"read".to_string(), &"report".to_string());
    assert!(d.allowed);
    assert_eq!(d.policy_id, Some(10));
}

#[test]
fn unbound_policy_grants_nothing() {
    let mut store = PolicyStore::new();
    let p = store
        .create_policy(
            &CreatePolicyPayload {
                policy_number: 1,
                name: "Unbound".to_string(),
                description: None,
            },
            100,
        )
        .unwrap();
    store
        .add_rule(p.id, Effect::Allow, "*".to_string(), "*".to_string(), None)
        .unwrap();
    assert_eq!(store.activate(p.id), 1);
    let user = Identity { user_id: 42, role_id: Some(7) };
    let d = authorize(&store, &user, &"read".to_string(), &"leave_request".to_string(), &ctx());
    assert!(!d.allowed);
    assert_eq!(d.policy_id, None);
}

#[test]
fn draft_policy_rules_are_not_considered() {
    let mut store = PolicyStore::new();
    let role = store.add_role("manager".to_string(), 5, None, 100);
    let p = store
        .create_policy(
            &CreatePolicyPayload {
                policy_number: 1,
                name: "Still a draft".to_string(),
                description: None,
            },
            100,
        )
        .unwrap();
    store
        .add_rule(p.id, Effect::Allow, "*".to_string(), "*".to_string(), None)
        .unwrap();
    store.bind(p.id, Subject::Role, role.id, 100).unwrap();
    let user = Identity { user_id: 42, role_id: Some(role.id) };
    let d = authorize(&store, &user, &"read".to_string(), &"leave_request".to_string(), &ctx());
    assert!(!d.allowed);
}

#[test]
fn direct_user_binding_also_grants() {
    let mut store = PolicyStore::new();
    let p = store
        .create_policy(
            &CreatePolicyPayload {
                policy_number: 1,
                name: "Personal grant".to_string(),
                description: None,
            },
            100,
        )
        .unwrap();
    store
        .add_rule(p.id, Effect::Allow, "payslip".to_string(), "read".to_string(), None)
        .unwrap();
    assert_eq!(store.activate(p.id), 1);
    store.bind(p.id, Subject::User, 42, 100).unwrap();
    let user = Identity { user_id: 42, role_id: None };
    let d = authorize(&store, &user, &"read".to_string(), &"payslip".to_string(), &ctx());
    assert!(d.allowed);
    assert_eq!(d.policy_id, Some(p.id));
}
