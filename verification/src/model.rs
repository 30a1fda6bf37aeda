//! Core data model: effects, lifecycle states, subjects, decisions, errors,
//! and the records the policy store and identity resolver own.

use vstd::prelude::*;

verus! {

/// Outcome a rule produces when it matches a request.
#[derive(Clone, Copy, Debug, PartialEq, Eq, Structural)]
pub enum Effect {
    Allow,
    Deny,
}

/// Lifecycle stage of a policy. Rules may be edited only in `Draft`;
/// `Archived` is terminal.
#[derive(Clone, Copy, Debug, PartialEq, Eq, Structural)]
pub enum PolicyStatus {
    Draft,
    Active,
    Archived,
}

/// The kind of principal a binding grants a policy to.
#[derive(Clone, Copy, Debug, PartialEq, Eq, Structural)]
pub enum Subject {
    Role,
    User,
}

/// Why a decision came out the way it did.
#[derive(Clone, Copy, Debug, PartialEq, Eq, Structural)]
pub enum Reason {
    RuleDeny,
    RuleAllow,
    DefaultDeny,
}

/// Deterministic failure kinds surfaced by the core. `StorageFailure`
/// covers faults of an underlying collaborator (for example a password
/// hash that the hashing library cannot parse) and is never conflated
/// with a deny decision.
#[derive(Clone, Copy, Debug, PartialEq, Eq, Structural)]
pub enum AccessError {
    Unauthenticated,
    Forbidden,
    PolicyImmutable,
    NotFound,
    Conflict,
    StorageFailure,
}

/// Immutable reference data. Lower `level` means higher privilege;
/// level 0 is the top administrator tier.
#[derive(Debug, PartialEq)]
pub struct Role {
    pub id: u64,
    pub name: String,
    pub level: i32,
    pub description: Option<String>,
    pub created_at: i64,
}

/// A policy row. `current_version` starts at 1 and strictly increases;
/// `is_archived` mirrors `status == Archived`.
#[derive(Debug, PartialEq)]
pub struct Policy {
    pub id: u64,
    pub policy_number: i32,
    pub name: String,
    pub description: Option<String>,
    pub status: PolicyStatus,
    pub is_archived: bool,
    pub current_version: i32,
    pub created_at: i64,
    pub updated_at: i64,
}

/// An immutable snapshot of a policy's content, appended on every
/// content-affecting update and on creation (version 1).
#[derive(Debug, PartialEq)]
pub struct PolicyVersion {
    pub id: u64,
    pub policy_id: u64,
    pub version: i32,
    pub name: String,
    pub description: Option<String>,
    pub created_at: i64,
}

/// An allow/deny rule owned by a policy. `"*"` in `resource` or `action`
/// matches anything. `conditions` is an opaque payload kept as an
/// extension point for richer matching; the baseline engine ignores it.
#[derive(Debug, PartialEq)]
pub struct PolicyRule {
    pub id: u64,
    pub policy_id: u64,
    pub effect: Effect,
    pub resource: String,
    pub action: String,
    pub conditions: Option<String>,
}

/// Grants a policy's rules to a role or to an individual user.
/// Unique per `(policy_id, subject_type, subject_id)`.
#[derive(Clone, Copy, Debug, PartialEq, Eq)]
pub struct PolicyBinding {
    pub id: u64,
    pub policy_id: u64,
    pub subject_type: Subject,
    pub subject_id: u64,
    pub created_at: i64,
}

/// Delegates edit rights on one policy to every role whose `level` is
/// at most `role_level`.
#[derive(Clone, Copy, Debug, PartialEq, Eq)]
pub struct PolicyEditorPermission {
    pub policy_id: u64,
    pub role_level: i32,
}

/// A resolved caller: the user id and its role assignment, if any.
#[derive(Clone, Copy, Debug, PartialEq, Eq)]
pub struct Identity {
    pub user_id: u64,
    pub role_id: Option<u64>,
}

/// Request context handed to the decision engine. The baseline matching
/// only compares resource and action; these fields are the documented
/// extension point for condition evaluation.
#[derive(Debug, PartialEq)]
pub struct AuthContext {
    pub department: Option<String>,
    pub location: Option<String>,
    pub time: i64,
    pub resource_owner_id: Option<u64>,
}

/// The outcome of evaluating a request: explicit deny beats explicit
/// allow beats default deny. `policy_id` names the policy whose rule
/// produced the outcome, if one did.
#[derive(Clone, Copy, Debug, PartialEq, Eq)]
pub struct Decision {
    pub allowed: bool,
    pub reason: Reason,
    pub policy_id: Option<u64>,
}

/// Input for creating a policy: a unique human-facing number plus the
/// initial content.
#[derive(Debug, PartialEq)]
pub struct CreatePolicyPayload {
    pub policy_number: i32,
    pub name: String,
    pub description: Option<String>,
}

/// Input for a content-affecting policy update.
#[derive(Debug, PartialEq)]
pub struct UpdatePolicyPayload {
    pub name: String,
    pub description: Option<String>,
}

/// Input for delegating edit rights on a policy: the highest (least
/// privileged) role level still allowed to edit.
#[derive(Clone, Copy, Debug, PartialEq, Eq)]
pub struct SetEditorPayload {
    pub role_level: i32,
}

/// Clones an optional string, keeping the value exactly.
pub fn clone_opt_string(s: &Option<String>) -> (r: Option<String>)
    ensures
        r == *s,
{
    match s {
        Some(x) => Some(x.clone()),
        None => None,
    }
}

impl Clone for Role {
    fn clone(&self) -> (r: Self)
        ensures
            r == *self,
    {
        Role {
            id: self.id,
            name: self.name.clone(),
            level: self.level,
            description: clone_opt_string(&self.description),
            created_at: self.created_at,
        }
    }
}

impl Clone for Policy {
    fn clone(&self) -> (r: Self)
        ensures
            r == *self,
    {
        Policy {
            id: self.id,
            policy_number: self.policy_number,
            name: self.name.clone(),
            description: clone_opt_string(&self.description),
            status: self.status,
            is_archived: self.is_archived,
            current_version: self.current_version,
            created_at: self.created_at,
            updated_at: self.updated_at,
        }
    }
}

impl Clone for PolicyVersion {
    fn clone(&self) -> (r: Self)
        ensures
            r == *self,
    {
        PolicyVersion {
            id: self.id,
            policy_id: self.policy_id,
            version: self.version,
            name: self.name.clone(),
            description: clone_opt_string(&self.description),
            created_at: self.created_at,
        }
    }
}

impl Clone for PolicyRule {
    fn clone(&self) -> (r: Self)
        ensures
            r == *self,
    {
        PolicyRule {
            id: self.id,
            policy_id: self.policy_id,
            effect: self.effect,
            resource: self.resource.clone(),
            action: self.action.clone(),
            conditions: clone_opt_string(&self.conditions),
        }
    }
}

impl Reason {
    /// A human-readable form of the reason.
    pub fn message(&self) -> (r: String)
        ensures
            *self == Reason::RuleDeny ==> r@ == "explicit deny"@,
            *self == Reason::RuleAllow ==> r@ == "explicit allow"@,
            *self == Reason::DefaultDeny ==> r@ == "default deny"@,
    {
        match self {
            Reason::RuleDeny => "explicit deny".to_owned(),
            Reason::RuleAllow => "explicit allow".to_owned(),
            Reason::DefaultDeny => "default deny".to_owned(),
        }
    }
}

} // verus!
