//! Laws the library guarantees across its operations, stated as proof
//! functions over the same specifications the operations' contracts
//! use.

use vstd::prelude::*;
use crate::engine::authorize_allows;
use crate::engine::rule_matches;
use crate::engine::rules_allow;
use crate::engine::some_allow_match;
use crate::engine::some_deny_hit;
use crate::engine::some_deny_match;
use crate::model::Identity;
use crate::model::Policy;
use crate::model::PolicyRule;
use crate::model::Subject;
use crate::store::PolicyStore;
use crate::store::binding_count;
use crate::store::has_binding;
use crate::store::has_policy;
use crate::store::has_version;
use crate::store::idx_of_policy;
use crate::store::lemma_binding_count_one;
use crate::store::lemma_policy_at;
use crate::store::spec_policy;
use crate::store::version_count;

verus! {

/// Deny overrides allow: if any matching rule of the candidate set
/// denies, the set does not grant the request, however many matching
/// allow rules it also holds.
pub proof fn lemma_deny_overrides_allow(
    rules: Seq<PolicyRule>,
    action: Seq<char>,
    resource: Seq<char>,
)
    requires
        some_deny_match(rules, action, resource),
    ensures
        !rules_allow(rules, action, resource),
{
}

/// Deny overrides allow across the whole store: if any applicable
/// matching rule denies, the engine does not grant the request.
pub proof fn lemma_deny_overrides_allow_store(
    s: PolicyStore,
    ident: Identity,
    action: Seq<char>,
    resource: Seq<char>,
)
    requires
        some_deny_hit(s, ident, action, resource),
    ensures
        !authorize_allows(s, ident, action, resource),
{
}

/// Default deny: a candidate set in which no rule matches the request
/// neither denies explicitly nor allows it, so evaluation falls through
/// to the default refusal, which cites no policy.
pub proof fn lemma_default_deny(rules: Seq<PolicyRule>, action: Seq<char>, resource: Seq<char>)
    requires
        forall|i: int| 0 <= i < rules.len() ==> !rule_matches(#[trigger] rules[i], action, resource),
    ensures
        !some_deny_match(rules, action, resource),
        !some_allow_match(rules, action, resource),
        !rules_allow(rules, action, resource),
{
}

/// Binding is idempotent: a well-formed store holds at most one row per
/// binding key, so once a key is present — as it is right after a
/// successful `bind` — the key is present exactly once, and `bind`
/// guarantees that binding the same key again returns the existing row
/// and changes nothing.
pub proof fn lemma_bind_idempotent(
    s: PolicyStore,
    policy_id: u64,
    subject_type: Subject,
    subject_id: u64,
)
    requires
        s.wf(),
        has_binding(s.bindings@, policy_id, subject_type, subject_id),
    ensures
        binding_count(s.bindings@, policy_id, subject_type, subject_id) == 1,
{
    lemma_binding_count_one(s.bindings@, policy_id, subject_type, subject_id);
}

/// A well-formed store keeps every policy's snapshot history complete:
/// exactly `current_version` rows, one for each version number from 1
/// up, none repeated.
pub proof fn lemma_version_history_complete(s: PolicyStore, policy_id: u64)
    requires
        s.wf(),
        has_policy(s.policies@, policy_id),
    ensures
        version_count(s.versions@, policy_id) == spec_policy(
            s.policies@,
            policy_id,
        ).current_version,
        forall|n: int|
            1 <= n <= spec_policy(s.policies@, policy_id).current_version ==> has_version(
                s.versions@,
                policy_id,
                n,
            ),
        forall|k1: int, k2: int|
            0 <= k1 < k2 < s.versions@.len() ==> !(s.versions@[k1].policy_id
                == s.versions@[k2].policy_id && s.versions@[k1].version
                == s.versions@[k2].version),
{
    let i = idx_of_policy(s.policies@, policy_id);
    assert(0 <= i < s.policies@.len() && s.policies@[i].id == policy_id);
    assert(version_count(s.versions@, s.policies@[i].id) == s.policies@[i].current_version);
    assert forall|n: int|
        1 <= n <= spec_policy(s.policies@, policy_id).current_version implies has_version(
        s.versions@,
        policy_id,
        n,
    ) by {
        assert(has_version(s.versions@, s.policies@[i].id, n));
    }
}

/// One successful content update, as far as version monotonicity
/// needs: both states are well-formed, the policy persists, and its
/// version counter rose by exactly one. `update_policy` guarantees all
/// of this of the states around any successful call.
pub open spec fn content_update_step(pre: PolicyStore, post: PolicyStore, policy_id: u64) -> bool {
    &&& pre.wf()
    &&& post.wf()
    &&& has_policy(pre.policies@, policy_id)
    &&& has_policy(post.policies@, policy_id)
    &&& spec_policy(post.policies@, policy_id).current_version == spec_policy(
        pre.policies@,
        policy_id,
    ).current_version + 1
}

/// What a successful `update_policy` leaves behind is one
/// `content_update_step`: its contract rewrites the policy's row in
/// place with the version counter raised by one.
pub proof fn lemma_update_is_step(pre: PolicyStore, post: PolicyStore, policy_id: u64, p: Policy)
    requires
        pre.wf(),
        post.wf(),
        has_policy(pre.policies@, policy_id),
        p.id == policy_id,
        p.current_version == spec_policy(pre.policies@, policy_id).current_version + 1,
        post.policies@ == pre.policies@.update(idx_of_policy(pre.policies@, policy_id), p),
    ensures
        content_update_step(pre, post, policy_id),
{
    let i = idx_of_policy(pre.policies@, policy_id);
    assert(0 <= i < pre.policies@.len() && pre.policies@[i].id == policy_id);
    assert(post.policies@[i] == p);
    lemma_policy_at(post.policies@, i);
}

/// Version monotonicity: across any chain of successful content
/// updates on a policy created fresh (version 1), the version counter
/// counts the states — N updates leave version N+1 — and the store
/// holds exactly that many snapshot rows for the policy, contiguously
/// numbered from 1.
pub proof fn lemma_version_monotonic(states: Seq<PolicyStore>, policy_id: u64)
    requires
        states.len() >= 1,
        forall|k: int|
            0 <= k < states.len() - 1 ==> content_update_step(
                #[trigger] states[k],
                states[k + 1],
                policy_id,
            ),
        states[0].wf(),
        has_policy(states[0].policies@, policy_id),
        spec_policy(states[0].policies@, policy_id).current_version == 1,
    ensures
        spec_policy(states.last().policies@, policy_id).current_version == states.len(),
        version_count(states.last().versions@, policy_id) == states.len(),
        forall|n: int|
            1 <= n <= states.len() ==> has_version(states.last().versions@, policy_id, n),
    decreases states.len(),
{
    if states.len() == 1 {
        lemma_version_history_complete(states[0], policy_id);
    } else {
        let front = states.drop_last();
        assert(forall|k: int|
            0 <= k < front.len() - 1 ==> content_update_step(
                #[trigger] front[k],
                front[k + 1],
                policy_id,
            ));
        lemma_version_monotonic(front, policy_id);
        let n = states.len() as int;
        assert(content_update_step(states[n - 2], states[n - 1], policy_id));
        assert(front.last() == states[n - 2]);
        lemma_version_history_complete(states.last(), policy_id);
    }
}

} // verus!
