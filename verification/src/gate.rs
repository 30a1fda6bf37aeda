//! The editor-permission gate, the role-level check used by
//! administrative handlers, and the token-based authorization entry
//! point composing the identity resolver with the decision engine.

use vstd::prelude::*;
use crate::engine::authorize;
use crate::engine::authorize_allows;
use crate::model::AccessError;
use crate::model::AuthContext;
use crate::model::Identity;
use crate::model::Policy;
use crate::model::PolicyStatus;
use crate::model::PolicyVersion;
use crate::model::Role;
use crate::model::UpdatePolicyPayload;
use crate::session::SessionStore;
use crate::session::has_live_session;
use crate::session::session_live;
use crate::session::spec_user;
use crate::store::PolicyStore;
use crate::store::has_policy;
use crate::store::has_role;
use crate::store::idx_of_policy;
use crate::store::lemma_role_at;
use crate::store::spec_policy;
use crate::store::spec_role;

verus! {

/// The identity holds a role at least as privileged as
/// `required_level`; lower level numbers are more privileged.
pub open spec fn role_level_ok(rs: Seq<Role>, ident: Identity, required_level: i32) -> bool {
    match ident.role_id {
        Some(rid) => has_role(rs, rid) && spec_role(rs, rid).level <= required_level,
        None => false,
    }
}

/// Whether the identity's role exists and sits at or below (at least
/// as privileged as) the required level.
pub fn check_role_level(store: &PolicyStore, ident: &Identity, required_level: i32) -> (r: bool)
    requires
        store.wf(),
    ensures
        r == role_level_ok(store.roles@, *ident, required_level),
{
    let rid = match ident.role_id {
        Some(rid) => rid,
        None => {
            return false;
        },
    };
    let n = store.roles.len();
    for i in 0..n
        invariant
            store.wf(),
            n == store.roles@.len(),
            ident.role_id == Some(rid),
            forall|j: int| 0 <= j < i ==> store.roles@[j].id != rid,
    {
        if store.roles[i].id == rid {
            proof {
                lemma_role_at(store.roles@, i as int);
            }
            return store.roles[i].level <= required_level;
        }
    }
    false
}

/// The editor gate grants this identity edit rights on this policy:
/// its role is the hard-coded top tier (level 0), or an editor
/// delegation for the policy names a level at or above the role's.
pub open spec fn may_edit(s: PolicyStore, ident: Identity, policy_id: u64) -> bool {
    match ident.role_id {
        Some(rid) => has_role(s.roles@, rid) && (spec_role(s.roles@, rid).level == 0 || (
        exists|k: int|
            0 <= k < s.editor_permissions@.len() && (#[trigger] s.editor_permissions@[k]).policy_id
                == policy_id && s.editor_permissions@[k].role_level >= spec_role(
                s.roles@,
                rid,
            ).level)),
        None => false,
    }
}

/// The editor-permission gate: independent of, and additional to, the
/// decision engine, so that policy editing cannot be granted by a mere
/// rule without an administrator's explicit delegation.
pub fn can_edit(store: &PolicyStore, ident: &Identity, policy_id: u64) -> (r: bool)
    requires
        store.wf(),
    ensures
        r == may_edit(*store, *ident, policy_id),
{
    let rid = match ident.role_id {
        Some(rid) => rid,
        None => {
            return false;
        },
    };
    let n = store.roles.len();
    let mut level: i32 = 0;
    let mut role_found = false;
    for i in 0..n
        invariant
            store.wf(),
            n == store.roles@.len(),
            ident.role_id == Some(rid),
            !role_found ==> forall|j: int| 0 <= j < i ==> store.roles@[j].id != rid,
            role_found ==> has_role(store.roles@, rid) && level == spec_role(
                store.roles@,
                rid,
            ).level,
    {
        if !role_found && store.roles[i].id == rid {
            proof {
                lemma_role_at(store.roles@, i as int);
            }
            level = store.roles[i].level;
            role_found = true;
        }
    }
    if !role_found {
        return false;
    }
    if level == 0 {
        return true;
    }
    let m = store.editor_permissions.len();
    for k in 0..m
        invariant
            store.wf(),
            m == store.editor_permissions@.len(),
            ident.role_id == Some(rid),
            has_role(store.roles@, rid),
            level == spec_role(store.roles@, rid).level,
            level != 0,
            forall|j: int|
                0 <= j < k ==> !((#[trigger] store.editor_permissions@[j]).policy_id == policy_id
                    && store.editor_permissions@[j].role_level >= level),
    {
        if store.editor_permissions[k].policy_id == policy_id
            && store.editor_permissions[k].role_level >= level {
            return true;
        }
    }
    false
}

/// A content update guarded by the editor gate, as the administrative
/// handler performs it: a caller without edit rights gets `Forbidden`
/// and the store is untouched; for a caller with edit rights this is
/// exactly `update_policy`.
pub fn edit_policy(
    store: &mut PolicyStore,
    ident: &Identity,
    id: u64,
    payload: &UpdatePolicyPayload,
    now: i64,
) -> (r: Result<Policy, AccessError>)
    requires
        old(store).wf(),
        old(store).next_id < u64::MAX,
    ensures
        final(store).wf(),
        !may_edit(*old(store), *ident, id) ==> r == Err::<Policy, AccessError>(
            AccessError::Forbidden,
        ) && *final(store) == *old(store),
        may_edit(*old(store), *ident, id) ==> {
            &&& r is Err ==> *final(store) == *old(store) && (r == Err::<Policy, AccessError>(
                AccessError::NotFound,
            ) || r == Err::<Policy, AccessError>(AccessError::PolicyImmutable) || r == Err::<
                Policy,
                AccessError,
            >(AccessError::Conflict))
            &&& (r == Err::<Policy, AccessError>(AccessError::NotFound)) <==> !has_policy(
                old(store).policies@,
                id,
            )
            &&& (r == Err::<Policy, AccessError>(AccessError::PolicyImmutable)) <==> (has_policy(
                old(store).policies@,
                id,
            ) && old(store).draft_only_content_edits && spec_policy(old(store).policies@, id).status
                != PolicyStatus::Draft)
            &&& (r == Err::<Policy, AccessError>(AccessError::Conflict)) <==> (has_policy(
                old(store).policies@,
                id,
            ) && !(old(store).draft_only_content_edits && spec_policy(
                old(store).policies@,
                id,
            ).status != PolicyStatus::Draft) && spec_policy(
                old(store).policies@,
                id,
            ).current_version == i32::MAX)
            &&& r matches Ok(p) ==> {
                &&& has_policy(old(store).policies@, id)
                &&& p == (Policy {
                    name: payload.name,
                    description: payload.description,
                    current_version: (spec_policy(old(store).policies@, id).current_version
                        + 1) as i32,
                    updated_at: now,
                    ..spec_policy(old(store).policies@, id)
                })
                &&& final(store).policies@ == old(store).policies@.update(
                    idx_of_policy(old(store).policies@, id),
                    p,
                )
                &&& final(store).versions@ == old(store).versions@.push(
                    (PolicyVersion {
                        id: old(store).next_id,
                        policy_id: id,
                        version: (spec_policy(old(store).policies@, id).current_version
                            + 1) as i32,
                        name: payload.name,
                        description: payload.description,
                        created_at: now,
                    }),
                )
                &&& final(store).next_id == old(store).next_id + 1
            }
        },
{
    if !can_edit(store, ident, id) {
        return Err(AccessError::Forbidden);
    }
    store.update_policy(id, payload, now)
}

/// Token-based authorization, as the transport layer uses it: resolve
/// the session token against the clock value `now`, evaluate the
/// decision engine for the action and resource, and hand back the
/// identity when allowed. A missing or expired token is
/// `Unauthenticated`; a resolved identity the engine denies is
/// `Forbidden`, never conflated with the former.
pub fn authorize_action(
    policies: &PolicyStore,
    sessions: &SessionStore,
    token: &String,
    action: &String,
    resource: &String,
    context: &AuthContext,
    now: i64,
) -> (r: Result<Identity, AccessError>)
    requires
        policies.wf(),
        sessions.wf(),
    ensures
        (r == Err::<Identity, AccessError>(AccessError::Unauthenticated)) <==> !has_live_session(
            sessions.sessions@,
            token@,
            now,
        ),
        r is Err ==> r == Err::<Identity, AccessError>(AccessError::Unauthenticated) || r == Err::<
            Identity,
            AccessError,
        >(AccessError::Forbidden),
        r matches Ok(ident) ==> authorize_allows(*policies, ident, action@, resource@) && (
        exists|k: int|
            {
                &&& 0 <= k < sessions.sessions@.len()
                &&& session_live(sessions.sessions@[k], token@, now)
                &&& forall|j: int|
                    0 <= j < k ==> !session_live(sessions.sessions@[j], token@, now)
                &&& ident.user_id == sessions.sessions@[k].user_id
                &&& ident.role_id == spec_user(sessions.users@, ident.user_id).role_id
            }),
        r == Err::<Identity, AccessError>(AccessError::Forbidden) ==> exists|k: int|
            {
                &&& 0 <= k < sessions.sessions@.len()
                &&& session_live(sessions.sessions@[k], token@, now)
                &&& forall|j: int|
                    0 <= j < k ==> !session_live(sessions.sessions@[j], token@, now)
                &&& !authorize_allows(
                    *policies,
                    (Identity {
                        user_id: sessions.sessions@[k].user_id,
                        role_id: spec_user(
                            sessions.users@,
                            sessions.sessions@[k].user_id,
                        ).role_id,
                    }),
                    action@,
                    resource@,
                )
            },
{
    let ident = match sessions.resolve_at(token, now) {
        Ok(i) => i,
        Err(e) => {
            return Err(e);
        },
    };
    let decision = authorize(policies, &ident, action, resource, context);
    if decision.allowed {
        Ok(ident)
    } else {
        Err(AccessError::Forbidden)
    }
}

} // verus!
