//! The decision engine: matches rules against a requested action and
//! resource and applies the precedence explicit deny > explicit allow >
//! default deny.

use vstd::prelude::*;
use crate::model::AuthContext;
use crate::model::Decision;
use crate::model::Effect;
use crate::model::Identity;
use crate::model::Policy;
use crate::model::PolicyBinding;
use crate::model::PolicyRule;
use crate::model::PolicyStatus;
use crate::model::Reason;
use crate::model::Subject;
use crate::store::PolicyStore;
use crate::store::has_policy;
use crate::store::lemma_policy_at;
use crate::store::spec_policy;

verus! {

/// A rule pattern matches a request component when it is the `"*"`
/// wildcard or exactly equal.
pub open spec fn component_matches(pattern: Seq<char>, value: Seq<char>) -> bool {
    pattern == "*"@ || pattern == value
}

/// Whether a rule matches the requested action and resource. The rule's
/// `conditions` are deliberately not consulted: richer condition
/// evaluation is the documented extension point, and the baseline
/// semantics compare resource and action only.
pub open spec fn rule_matches(rule: PolicyRule, action: Seq<char>, resource: Seq<char>) -> bool {
    component_matches(rule.resource@, resource) && component_matches(rule.action@, action)
}

/// A matching rule with effect `Deny` sits at position `i`.
pub open spec fn deny_match_at(
    rules: Seq<PolicyRule>,
    action: Seq<char>,
    resource: Seq<char>,
    i: int,
) -> bool {
    0 <= i < rules.len() && rules[i].effect == Effect::Deny && rule_matches(
        rules[i],
        action,
        resource,
    )
}

/// A matching rule with effect `Allow` sits at position `i`.
pub open spec fn allow_match_at(
    rules: Seq<PolicyRule>,
    action: Seq<char>,
    resource: Seq<char>,
    i: int,
) -> bool {
    0 <= i < rules.len() && rules[i].effect == Effect::Allow && rule_matches(
        rules[i],
        action,
        resource,
    )
}

/// Some matching rule denies.
pub open spec fn some_deny_match(
    rules: Seq<PolicyRule>,
    action: Seq<char>,
    resource: Seq<char>,
) -> bool {
    exists|i: int| deny_match_at(rules, action, resource, i)
}

/// Some matching rule allows.
pub open spec fn some_allow_match(
    rules: Seq<PolicyRule>,
    action: Seq<char>,
    resource: Seq<char>,
) -> bool {
    exists|i: int| allow_match_at(rules, action, resource, i)
}

/// An ordered rule set grants a request exactly when no matching rule
/// denies it and some matching rule allows it.
pub open spec fn rules_allow(
    rules: Seq<PolicyRule>,
    action: Seq<char>,
    resource: Seq<char>,
) -> bool {
    !some_deny_match(rules, action, resource) && some_allow_match(rules, action, resource)
}

/// Whether one rule matches the request, by the wildcard-or-equal test.
pub fn rule_applies(rule: &PolicyRule, action: &String, resource: &String) -> (r: bool)
    ensures
        r == rule_matches(*rule, action@, resource@),
{
    let wild = "*".to_owned();
    (rule.resource == wild || rule.resource == *resource) && (rule.action == wild || rule.action
        == *action)
}

/// Evaluates an ordered candidate rule set. The first matching deny
/// rule decides immediately, citing its policy; otherwise any matching
/// allow rule grants the request, recording the last such rule's policy
/// as provenance; with no matching rule at all the default is deny,
/// with no policy cited.
pub fn evaluate(rules: &Vec<PolicyRule>, action: &String, resource: &String) -> (d: Decision)
    ensures
        d.allowed == rules_allow(rules@, action@, resource@),
        some_deny_match(rules@, action@, resource@) ==> !d.allowed && d.reason == Reason::RuleDeny
            && (exists|i: int|
            #[trigger] deny_match_at(rules@, action@, resource@, i) && (forall|j: int|
                0 <= j < i ==> !deny_match_at(rules@, action@, resource@, j)) && d.policy_id
                == Some(rules@[i].policy_id)),
        !some_deny_match(rules@, action@, resource@) && some_allow_match(
            rules@,
            action@,
            resource@,
        ) ==> d.allowed && d.reason == Reason::RuleAllow && (exists|i: int|
            #[trigger] allow_match_at(rules@, action@, resource@, i) && (forall|j: int|
                i < j < rules@.len() ==> !allow_match_at(rules@, action@, resource@, j))
                && d.policy_id == Some(rules@[i].policy_id)),
        !some_deny_match(rules@, action@, resource@) && !some_allow_match(
            rules@,
            action@,
            resource@,
        ) ==> d == (Decision { allowed: false, reason: Reason::DefaultDeny, policy_id: None::<u64> }),
{
    let n = rules.len();
    let mut allow_pid: Option<u64> = None;
    let ghost mut last_allow: int = 0;
    for k in 0..n
        invariant
            n == rules@.len(),
            forall|j: int| 0 <= j < k ==> !deny_match_at(rules@, action@, resource@, j),
            allow_pid is None ==> forall|j: int|
                0 <= j < k ==> !allow_match_at(rules@, action@, resource@, j),
            allow_pid matches Some(p) ==> allow_match_at(rules@, action@, resource@, last_allow)
                && last_allow < k && p == rules@[last_allow].policy_id && (forall|j: int|
                last_allow < j < k ==> !allow_match_at(rules@, action@, resource@, j)),
    {
        if rule_applies(&rules[k], action, resource) {
            if rules[k].effect == Effect::Deny {
                proof {
                    assert(deny_match_at(rules@, action@, resource@, k as int));
                }
                return Decision {
                    allowed: false,
                    reason: Reason::RuleDeny,
                    policy_id: Some(rules[k].policy_id),
                };
            } else {
                allow_pid = Some(rules[k].policy_id);
                proof {
                    last_allow = k as int;
                    assert(allow_match_at(rules@, action@, resource@, k as int));
                }
            }
        }
    }
    match allow_pid {
        Some(pid) => Decision { allowed: true, reason: Reason::RuleAllow, policy_id: Some(pid) },
        None => Decision { allowed: false, reason: Reason::DefaultDeny, policy_id: None },
    }
}

/// The binding grants this policy to this identity: directly by user
/// id, or through the identity's role.
pub open spec fn binding_grants(b: PolicyBinding, policy_id: u64, ident: Identity) -> bool {
    b.policy_id == policy_id && ((b.subject_type == Subject::User && b.subject_id == ident.user_id)
        || (b.subject_type == Subject::Role && ident.role_id == Some(b.subject_id)))
}

/// Some binding grants this policy to this identity.
pub open spec fn bound_to_identity(bs: Seq<PolicyBinding>, policy_id: u64, ident: Identity) -> bool {
    exists|k: int| 0 <= k < bs.len() && binding_grants(bs[k], policy_id, ident)
}

/// The policy exists and is `Active`.
pub open spec fn policy_active(ps: Seq<Policy>, policy_id: u64) -> bool {
    has_policy(ps, policy_id) && spec_policy(ps, policy_id).status == PolicyStatus::Active
}

/// The rule at position `i` belongs to an `Active` policy bound to the
/// identity, so the engine considers it.
pub open spec fn rule_applicable(s: PolicyStore, ident: Identity, i: int) -> bool {
    0 <= i < s.rules@.len() && policy_active(s.policies@, s.rules@[i].policy_id)
        && bound_to_identity(s.bindings@, s.rules@[i].policy_id, ident)
}

/// An applicable matching deny rule sits at position `i` of the store.
pub open spec fn deny_hit(
    s: PolicyStore,
    ident: Identity,
    action: Seq<char>,
    resource: Seq<char>,
    i: int,
) -> bool {
    rule_applicable(s, ident, i) && s.rules@[i].effect == Effect::Deny && rule_matches(
        s.rules@[i],
        action,
        resource,
    )
}

/// An applicable matching allow rule sits at position `i` of the store.
pub open spec fn allow_hit(
    s: PolicyStore,
    ident: Identity,
    action: Seq<char>,
    resource: Seq<char>,
    i: int,
) -> bool {
    rule_applicable(s, ident, i) && s.rules@[i].effect == Effect::Allow && rule_matches(
        s.rules@[i],
        action,
        resource,
    )
}

/// Some applicable matching rule denies.
pub open spec fn some_deny_hit(
    s: PolicyStore,
    ident: Identity,
    action: Seq<char>,
    resource: Seq<char>,
) -> bool {
    exists|i: int| deny_hit(s, ident, action, resource, i)
}

/// Some applicable matching rule allows.
pub open spec fn some_allow_hit(
    s: PolicyStore,
    ident: Identity,
    action: Seq<char>,
    resource: Seq<char>,
) -> bool {
    exists|i: int| allow_hit(s, ident, action, resource, i)
}

/// The store grants the request for this identity exactly when no
/// applicable matching rule denies it and some applicable matching rule
/// allows it.
pub open spec fn authorize_allows(
    s: PolicyStore,
    ident: Identity,
    action: Seq<char>,
    resource: Seq<char>,
) -> bool {
    !some_deny_hit(s, ident, action, resource) && some_allow_hit(s, ident, action, resource)
}

/// Whether the policy exists and is `Active`.
fn policy_is_active(store: &PolicyStore, policy_id: u64) -> (r: bool)
    requires
        store.wf(),
    ensures
        r == policy_active(store.policies@, policy_id),
{
    let n = store.policies.len();
    for i in 0..n
        invariant
            store.wf(),
            n == store.policies@.len(),
            forall|j: int| 0 <= j < i ==> store.policies@[j].id != policy_id,
    {
        if store.policies[i].id == policy_id {
            proof {
                lemma_policy_at(store.policies@, i as int);
            }
            return store.policies[i].status == PolicyStatus::Active;
        }
    }
    false
}

/// Whether some binding grants this policy to this identity.
fn identity_bound(store: &PolicyStore, policy_id: u64, ident: &Identity) -> (r: bool)
    ensures
        r == bound_to_identity(store.bindings@, policy_id, *ident),
{
    let n = store.bindings.len();
    for k in 0..n
        invariant
            n == store.bindings@.len(),
            forall|j: int| 0 <= j < k ==> !binding_grants(store.bindings@[j], policy_id, *ident),
    {
        let b = &store.bindings[k];
        if b.policy_id == policy_id {
            if b.subject_type == Subject::User && b.subject_id == ident.user_id {
                return true;
            }
            if b.subject_type == Subject::Role {
                match ident.role_id {
                    Some(rid) => {
                        if b.subject_id == rid {
                            return true;
                        }
                    },
                    None => {},
                }
            }
        }
    }
    false
}

/// Authorizes a request: walks every stored rule, considering those
/// whose policy is `Active` and bound to the identity directly or via
/// its role, and applies explicit deny > explicit allow > default deny.
/// The first applicable deny decides, citing its policy; otherwise the
/// last applicable allow is cited; otherwise the default is deny with
/// no policy cited. Evaluation is read-only and never fails. The
/// context is carried for condition evaluation, the documented
/// extension point the baseline ignores.
pub fn authorize(
    store: &PolicyStore,
    identity: &Identity,
    action: &String,
    resource: &String,
    _context: &AuthContext,
) -> (d: Decision)
    requires
        store.wf(),
    ensures
        d.allowed == authorize_allows(*store, *identity, action@, resource@),
        some_deny_hit(*store, *identity, action@, resource@) ==> !d.allowed && d.reason
            == Reason::RuleDeny && (exists|i: int|
            #[trigger] deny_hit(*store, *identity, action@, resource@, i) && (forall|j: int|
                0 <= j < i ==> !deny_hit(*store, *identity, action@, resource@, j)) && d.policy_id
                == Some(store.rules@[i].policy_id)),
        !some_deny_hit(*store, *identity, action@, resource@) && some_allow_hit(
            *store,
            *identity,
            action@,
            resource@,
        ) ==> d.allowed && d.reason == Reason::RuleAllow && (exists|i: int|
            #[trigger] allow_hit(*store, *identity, action@, resource@, i) && (forall|j: int|
                i < j < store.rules@.len() ==> !allow_hit(*store, *identity, action@, resource@, j))
                && d.policy_id == Some(store.rules@[i].policy_id)),
        !some_deny_hit(*store, *identity, action@, resource@) && !some_allow_hit(
            *store,
            *identity,
            action@,
            resource@,
        ) ==> d == (Decision { allowed: false, reason: Reason::DefaultDeny, policy_id: None::<u64> }),
{
    let n = store.rules.len();
    let mut allow_pid: Option<u64> = None;
    let ghost mut last_allow: int = 0;
    for k in 0..n
        invariant
            store.wf(),
            n == store.rules@.len(),
            forall|j: int| 0 <= j < k ==> !deny_hit(*store, *identity, action@, resource@, j),
            allow_pid is None ==> forall|j: int|
                0 <= j < k ==> !allow_hit(*store, *identity, action@, resource@, j),
            allow_pid matches Some(p) ==> allow_hit(
                *store,
                *identity,
                action@,
                resource@,
                last_allow,
            ) && last_allow < k && p == store.rules@[last_allow].policy_id && (forall|j: int|
                last_allow < j < k ==> !allow_hit(*store, *identity, action@, resource@, j)),
    {
        let pid = store.rules[k].policy_id;
        let applicable = policy_is_active(store, pid) && identity_bound(store, pid, identity);
        if applicable && rule_applies(&store.rules[k], action, resource) {
            if store.rules[k].effect == Effect::Deny {
                proof {
                    assert(deny_hit(*store, *identity, action@, resource@, k as int));
                }
                return Decision {
                    allowed: false,
                    reason: Reason::RuleDeny,
                    policy_id: Some(store.rules[k].policy_id),
                };
            } else {
                allow_pid = Some(store.rules[k].policy_id);
                proof {
                    last_allow = k as int;
                    assert(allow_hit(*store, *identity, action@, resource@, k as int));
                }
            }
        }
    }
    match allow_pid {
        Some(pid) => Decision { allowed: true, reason: Reason::RuleAllow, policy_id: Some(pid) },
        None => Decision { allowed: false, reason: Reason::DefaultDeny, policy_id: None },
    }
}

} // verus!
