//! The policy store: owns roles, policies, version history, rules,
//! bindings and editor permissions, and enforces the lifecycle and
//! immutability invariants at write time.

use vstd::prelude::*;
use crate::model::AccessError;
use crate::model::CreatePolicyPayload;
use crate::model::Effect;
use crate::model::SetEditorPayload;
use crate::model::Policy;
use crate::model::PolicyBinding;
use crate::model::PolicyEditorPermission;
use crate::model::PolicyRule;
use crate::model::PolicyStatus;
use crate::model::PolicyVersion;
use crate::model::Role;
use crate::model::Subject;
use crate::model::UpdatePolicyPayload;
use crate::model::clone_opt_string;

verus! {

// ---------------------------------------------------------------------
// Spec helpers over the stored sequences
// ---------------------------------------------------------------------

/// Some policy row carries this id.
pub open spec fn has_policy(ps: Seq<Policy>, id: u64) -> bool {
    exists|i: int| 0 <= i < ps.len() && ps[i].id == id
}

/// The index of the policy row with this id (unique in a well-formed store).
pub open spec fn idx_of_policy(ps: Seq<Policy>, id: u64) -> int {
    choose|i: int| 0 <= i < ps.len() && ps[i].id == id
}

/// The policy row with this id (meaningful only under `has_policy`).
pub open spec fn spec_policy(ps: Seq<Policy>, id: u64) -> Policy {
    ps[idx_of_policy(ps, id)]
}

/// Some policy row already uses this human-facing number.
pub open spec fn number_taken(ps: Seq<Policy>, number: i32) -> bool {
    exists|i: int| 0 <= i < ps.len() && ps[i].policy_number == number
}

/// A snapshot row for this policy and version number exists.
pub open spec fn has_version(vs: Seq<PolicyVersion>, policy_id: u64, version: int) -> bool {
    exists|k: int| 0 <= k < vs.len() && vs[k].policy_id == policy_id && vs[k].version == version
}

/// How many snapshot rows belong to this policy.
pub open spec fn version_count(vs: Seq<PolicyVersion>, policy_id: u64) -> nat
    decreases vs.len(),
{
    if vs.len() == 0 {
        0
    } else {
        version_count(vs.drop_last(), policy_id) + (if vs.last().policy_id == policy_id {
            1nat
        } else {
            0nat
        })
    }
}

/// Some role row carries this id.
pub open spec fn has_role(rs: Seq<Role>, id: u64) -> bool {
    exists|i: int| 0 <= i < rs.len() && rs[i].id == id
}

/// The index of the role row with this id (unique in a well-formed store).
pub open spec fn idx_of_role(rs: Seq<Role>, id: u64) -> int {
    choose|i: int| 0 <= i < rs.len() && rs[i].id == id
}

/// The role row with this id (meaningful only under `has_role`).
pub open spec fn spec_role(rs: Seq<Role>, id: u64) -> Role {
    rs[idx_of_role(rs, id)]
}

/// Some rule row carries this id.
pub open spec fn has_rule(rs: Seq<PolicyRule>, id: u64) -> bool {
    exists|k: int| 0 <= k < rs.len() && rs[k].id == id
}

/// The index of the rule row with this id (unique in a well-formed store).
pub open spec fn idx_of_rule(rs: Seq<PolicyRule>, id: u64) -> int {
    choose|k: int| 0 <= k < rs.len() && rs[k].id == id
}

/// The rule row with this id (meaningful only under `has_rule`).
pub open spec fn spec_rule(rs: Seq<PolicyRule>, id: u64) -> PolicyRule {
    rs[idx_of_rule(rs, id)]
}

/// The binding grants `policy_id` to exactly this subject.
pub open spec fn binding_keyed(
    b: PolicyBinding,
    policy_id: u64,
    subject_type: Subject,
    subject_id: u64,
) -> bool {
    b.policy_id == policy_id && b.subject_type == subject_type && b.subject_id == subject_id
}

/// A binding row with this key exists.
pub open spec fn has_binding(
    bs: Seq<PolicyBinding>,
    policy_id: u64,
    subject_type: Subject,
    subject_id: u64,
) -> bool {
    exists|k: int| 0 <= k < bs.len() && binding_keyed(bs[k], policy_id, subject_type, subject_id)
}

/// How many binding rows carry this key.
pub open spec fn binding_count(
    bs: Seq<PolicyBinding>,
    policy_id: u64,
    subject_type: Subject,
    subject_id: u64,
) -> nat
    decreases bs.len(),
{
    if bs.len() == 0 {
        0
    } else {
        binding_count(bs.drop_last(), policy_id, subject_type, subject_id) + (if binding_keyed(
            bs.last(),
            policy_id,
            subject_type,
            subject_id,
        ) {
            1nat
        } else {
            0nat
        })
    }
}

/// Some binding row carries this id.
pub open spec fn has_binding_id(bs: Seq<PolicyBinding>, id: u64) -> bool {
    exists|k: int| 0 <= k < bs.len() && bs[k].id == id
}

/// An editor delegation for this policy and level threshold exists.
pub open spec fn perm_present(
    qs: Seq<PolicyEditorPermission>,
    policy_id: u64,
    role_level: i32,
) -> bool {
    exists|k: int| 0 <= k < qs.len() && qs[k].policy_id == policy_id && qs[k].role_level
        == role_level
}

// ---------------------------------------------------------------------
// Counting lemmas
// ---------------------------------------------------------------------

/// Appending a snapshot row raises the count for its policy by one and
/// leaves every other policy's count unchanged.
pub proof fn lemma_version_count_push(vs: Seq<PolicyVersion>, x: PolicyVersion, policy_id: u64)
    ensures
        version_count(vs.push(x), policy_id) == version_count(vs, policy_id) + (if x.policy_id
            == policy_id {
            1nat
        } else {
            0nat
        }),
{
    assert(vs.push(x).drop_last() =~= vs);
    assert(vs.push(x).last() == x);
}

/// A policy that no snapshot row names has count zero.
pub proof fn lemma_version_count_zero(vs: Seq<PolicyVersion>, policy_id: u64)
    requires
        forall|k: int| 0 <= k < vs.len() ==> vs[k].policy_id != policy_id,
    ensures
        version_count(vs, policy_id) == 0,
    decreases vs.len(),
{
    if vs.len() > 0 {
        lemma_version_count_zero(vs.drop_last(), policy_id);
    }
}

/// Appending a binding row raises the count for its key by one and
/// leaves every other key's count unchanged.
pub proof fn lemma_binding_count_push(
    bs: Seq<PolicyBinding>,
    x: PolicyBinding,
    policy_id: u64,
    subject_type: Subject,
    subject_id: u64,
)
    ensures
        binding_count(bs.push(x), policy_id, subject_type, subject_id) == binding_count(
            bs,
            policy_id,
            subject_type,
            subject_id,
        ) + (if binding_keyed(x, policy_id, subject_type, subject_id) {
            1nat
        } else {
            0nat
        }),
{
    assert(bs.push(x).drop_last() =~= bs);
    assert(bs.push(x).last() == x);
}

/// A key that no binding row carries has count zero.
pub proof fn lemma_binding_count_zero(
    bs: Seq<PolicyBinding>,
    policy_id: u64,
    subject_type: Subject,
    subject_id: u64,
)
    requires
        forall|k: int| 0 <= k < bs.len() ==> !binding_keyed(
            bs[k],
            policy_id,
            subject_type,
            subject_id,
        ),
    ensures
        binding_count(bs, policy_id, subject_type, subject_id) == 0,
    decreases bs.len(),
{
    if bs.len() > 0 {
        lemma_binding_count_zero(bs.drop_last(), policy_id, subject_type, subject_id);
    }
}

/// Under the pairwise key uniqueness the store maintains, a key that is
/// present is present exactly once.
pub proof fn lemma_binding_count_one(
    bs: Seq<PolicyBinding>,
    policy_id: u64,
    subject_type: Subject,
    subject_id: u64,
)
    requires
        forall|k1: int, k2: int| 0 <= k1 < k2 < bs.len() ==> !(bs[k1].policy_id == bs[k2].policy_id
            && bs[k1].subject_type == bs[k2].subject_type && bs[k1].subject_id
            == bs[k2].subject_id),
        has_binding(bs, policy_id, subject_type, subject_id),
    ensures
        binding_count(bs, policy_id, subject_type, subject_id) == 1,
    decreases bs.len(),
{
    if binding_keyed(bs.last(), policy_id, subject_type, subject_id) {
        assert(forall|k: int| 0 <= k < bs.drop_last().len() ==> !binding_keyed(
            bs.drop_last()[k],
            policy_id,
            subject_type,
            subject_id,
        ));
        lemma_binding_count_zero(bs.drop_last(), policy_id, subject_type, subject_id);
    } else {
        let w = choose|k: int| 0 <= k < bs.len() && binding_keyed(
            bs[k],
            policy_id,
            subject_type,
            subject_id,
        );
        assert(w < bs.len() - 1);
        assert(binding_keyed(bs.drop_last()[w], policy_id, subject_type, subject_id));
        assert(has_binding(bs.drop_last(), policy_id, subject_type, subject_id));
        lemma_binding_count_one(bs.drop_last(), policy_id, subject_type, subject_id);
    }
}

// ---------------------------------------------------------------------
// Filter lemmas
// ---------------------------------------------------------------------

/// One step of building a filtered copy front to back.
pub proof fn lemma_filter_take_step<A>(s: Seq<A>, p: spec_fn(A) -> bool, i: int)
    requires
        0 <= i < s.len(),
    ensures
        p(s[i]) ==> s.take(i + 1).filter(p) == s.take(i).filter(p).push(s[i]),
        !p(s[i]) ==> s.take(i + 1).filter(p) == s.take(i).filter(p),
{
    reveal_with_fuel(Seq::filter, 2);
    assert(s.take(i + 1).drop_last() =~= s.take(i));
    assert(s.take(i + 1).last() == s[i]);
}

/// Every element of a filtered sequence comes from the original, and any
/// pairwise fact `d` holding across distinct positions of the original
/// carries over to the filtered sequence.
pub proof fn lemma_filter_elements<A>(s: Seq<A>, p: spec_fn(A) -> bool, d: spec_fn(A, A) -> bool)
    requires
        forall|j1: int, j2: int| 0 <= j1 < j2 < s.len() ==> d(s[j1], s[j2]),
    ensures
        forall|k: int|
            0 <= k < s.filter(p).len() ==> exists|j: int|
                0 <= j < s.len() && s[j] == #[trigger] s.filter(p)[k],
        forall|k1: int, k2: int|
            0 <= k1 < k2 < s.filter(p).len() ==> d(s.filter(p)[k1], s.filter(p)[k2]),
    decreases s.len(),
{
    reveal_with_fuel(Seq::filter, 2);
    if s.len() > 0 {
        let t = s.drop_last();
        assert(forall|j1: int, j2: int| 0 <= j1 < j2 < t.len() ==> d(t[j1], t[j2]));
        lemma_filter_elements(t, p, d);
        let f = s.filter(p);
        let ft = t.filter(p);
        if p(s.last()) {
            assert(f == ft.push(s.last()));
            assert forall|k: int| 0 <= k < f.len() implies exists|j: int|
                0 <= j < s.len() && s[j] == #[trigger] f[k] by {
                if k < ft.len() {
                    assert(f[k] == ft[k]);
                    let j = choose|j: int| 0 <= j < t.len() && t[j] == ft[k];
                    assert(s[j] == f[k]);
                } else {
                    assert(s[s.len() - 1] == f[k]);
                }
            }
            assert forall|k1: int, k2: int| 0 <= k1 < k2 < f.len() implies d(f[k1], f[k2]) by {
                if k2 < ft.len() {
                    assert(d(ft[k1], ft[k2]));
                } else {
                    assert(f[k1] == ft[k1]);
                    let j = choose|j: int| 0 <= j < t.len() && t[j] == ft[k1];
                    assert(d(s[j], s[s.len() - 1]));
                }
            }
        } else {
            assert(f == ft);
        }
    }
}

/// Dropping one policy's snapshot rows leaves every other policy's
/// snapshot count unchanged.
pub proof fn lemma_version_count_filter(vs: Seq<PolicyVersion>, id: u64, qid: u64)
    requires
        qid != id,
    ensures
        version_count(vs.filter(|x: PolicyVersion| x.policy_id != id), qid) == version_count(
            vs,
            qid,
        ),
    decreases vs.len(),
{
    reveal_with_fuel(Seq::filter, 2);
    let p = |x: PolicyVersion| x.policy_id != id;
    if vs.len() == 0 {
        assert(vs.filter(p) =~= Seq::<PolicyVersion>::empty());
    } else {
        let t = vs.drop_last();
        lemma_version_count_filter(t, id, qid);
        if p(vs.last()) {
            assert(vs.filter(p) == t.filter(p).push(vs.last()));
            lemma_version_count_push(t.filter(p), vs.last(), qid);
        } else {
            assert(vs.filter(p) == t.filter(p));
        }
    }
}

// ---------------------------------------------------------------------
// Lookup lemmas
// ---------------------------------------------------------------------

/// With unique policy ids, the row at any index is exactly what the
/// id-based lookup returns.
pub proof fn lemma_policy_at(ps: Seq<Policy>, i: int)
    requires
        forall|a: int, b: int| 0 <= a < b < ps.len() ==> ps[a].id != ps[b].id,
        0 <= i < ps.len(),
    ensures
        has_policy(ps, ps[i].id),
        idx_of_policy(ps, ps[i].id) == i,
        spec_policy(ps, ps[i].id) == ps[i],
{
    assert(has_policy(ps, ps[i].id));
    let w = idx_of_policy(ps, ps[i].id);
    assert(0 <= w < ps.len() && ps[w].id == ps[i].id);
    if w < i {
        assert(ps[w].id != ps[i].id);
    } else if i < w {
        assert(ps[i].id != ps[w].id);
    }
}

/// With unique role ids, the row at any index is exactly what the
/// id-based lookup returns.
pub proof fn lemma_role_at(rs: Seq<Role>, i: int)
    requires
        forall|a: int, b: int| 0 <= a < b < rs.len() ==> rs[a].id != rs[b].id,
        0 <= i < rs.len(),
    ensures
        has_role(rs, rs[i].id),
        idx_of_role(rs, rs[i].id) == i,
        spec_role(rs, rs[i].id) == rs[i],
{
    assert(has_role(rs, rs[i].id));
    let w = idx_of_role(rs, rs[i].id);
    assert(0 <= w < rs.len() && rs[w].id == rs[i].id);
    if w < i {
        assert(rs[w].id != rs[i].id);
    } else if i < w {
        assert(rs[i].id != rs[w].id);
    }
}

/// With unique rule ids, the row at any index is exactly what the
/// id-based lookup returns.
pub proof fn lemma_rule_at(rs: Seq<PolicyRule>, i: int)
    requires
        forall|a: int, b: int| 0 <= a < b < rs.len() ==> rs[a].id != rs[b].id,
        0 <= i < rs.len(),
    ensures
        has_rule(rs, rs[i].id),
        idx_of_rule(rs, rs[i].id) == i,
        spec_rule(rs, rs[i].id) == rs[i],
{
    assert(has_rule(rs, rs[i].id));
    let w = idx_of_rule(rs, rs[i].id);
    assert(0 <= w < rs.len() && rs[w].id == rs[i].id);
    if w < i {
        assert(rs[w].id != rs[i].id);
    } else if i < w {
        assert(rs[i].id != rs[w].id);
    }
}

// ---------------------------------------------------------------------
// The store
// ---------------------------------------------------------------------

/// Constructed rows, named so contracts can state them exactly.
pub open spec fn created_policy(payload: CreatePolicyPayload, id: u64, now: i64) -> Policy {
    Policy {
        id,
        policy_number: payload.policy_number,
        name: payload.name,
        description: payload.description,
        status: PolicyStatus::Draft,
        is_archived: false,
        current_version: 1,
        created_at: now,
        updated_at: now,
    }
}

/// The version-1 snapshot written beside a freshly created policy.
pub open spec fn initial_snapshot(
    payload: CreatePolicyPayload,
    id: u64,
    policy_id: u64,
    now: i64,
) -> PolicyVersion {
    PolicyVersion {
        id,
        policy_id,
        version: 1,
        name: payload.name,
        description: payload.description,
        created_at: now,
    }
}

/// Adding a fresh policy together with its version-1 snapshot keeps the
/// store well-formed.
proof fn lemma_wf_after_create(
    pre: PolicyStore,
    post: PolicyStore,
    payload: CreatePolicyPayload,
    now: i64,
)
    requires
        pre.wf(),
        pre.next_id <= u64::MAX - 2,
        !number_taken(pre.policies@, payload.policy_number),
        post.policies@ == pre.policies@.push(created_policy(payload, pre.next_id, now)),
        post.versions@ == pre.versions@.push(
            initial_snapshot(payload, (pre.next_id + 1) as u64, pre.next_id, now),
        ),
        post.roles@ == pre.roles@,
        post.rules@ == pre.rules@,
        post.bindings@ == pre.bindings@,
        post.editor_permissions@ == pre.editor_permissions@,
        post.next_id == pre.next_id + 2,
    ensures
        post.wf(),
{
    let id = pre.next_id;
    let ps0 = pre.policies@;
    let ps1 = post.policies@;
    let vs0 = pre.versions@;
    let vs1 = post.versions@;
    let np = ps0.len() as int;
    assert(ps1[np] == created_policy(payload, id, now));
    assert forall|a: int, b: int| 0 <= a < b < ps1.len() implies ps1[a].id != ps1[b].id by {
        if b == np {
            assert(ps1[a].id == ps0[a].id);
        }
    }
    assert forall|a: int, b: int| 0 <= a < b < ps1.len() implies ps1[a].policy_number
        != ps1[b].policy_number by {
        if b == np {
            assert(ps1[a].policy_number == ps0[a].policy_number);
            assert(ps0[a].policy_number != payload.policy_number);
        }
    }
    // No existing snapshot row can name the fresh policy id.
    assert forall|k: int| 0 <= k < vs0.len() implies vs0[k].policy_id != id by {
        assert(has_policy(ps0, vs0[k].policy_id));
        let w = idx_of_policy(ps0, vs0[k].policy_id);
        assert(0 <= w < ps0.len() && ps0[w].id == vs0[k].policy_id);
    }
    lemma_version_count_zero(vs0, id);
    assert forall|i: int| 0 <= i < ps1.len() implies version_count(vs1, #[trigger] ps1[i].id)
        == ps1[i].current_version by {
        lemma_version_count_push(vs0, vs1.last(), ps1[i].id);
        if i < np {
            assert(ps1[i].id == ps0[i].id);
        }
    }
    assert forall|k: int| 0 <= k < vs1.len() implies has_policy(
        ps1,
        #[trigger] vs1[k].policy_id,
    ) && 1 <= vs1[k].version <= spec_policy(ps1, vs1[k].policy_id).current_version by {
        if k < vs0.len() {
            let pid = vs0[k].policy_id;
            assert(has_policy(ps0, pid));
            let w = idx_of_policy(ps0, pid);
            assert(0 <= w < ps0.len() && ps0[w].id == pid);
            assert(ps1[w] == ps0[w]);
            lemma_policy_at(ps1, w);
            lemma_policy_at(ps0, w);
        } else {
            lemma_policy_at(ps1, np);
        }
    }
    assert forall|i: int, n: int|
        0 <= i < ps1.len() && 1 <= n <= ps1[i].current_version implies #[trigger] has_version(
        vs1,
        ps1[i].id,
        n,
    ) by {
        if i < np {
            assert(has_version(vs0, ps0[i].id, n));
            let w = choose|k: int|
                0 <= k < vs0.len() && vs0[k].policy_id == ps0[i].id && vs0[k].version == n;
            assert(vs1[w] == vs0[w]);
            assert(vs1[w].policy_id == ps1[i].id && vs1[w].version == n);
        } else {
            assert(vs1[vs0.len() as int].policy_id == id && vs1[vs0.len() as int].version == 1);
        }
    }
    assert forall|k: int| 0 <= k < post.rules@.len() implies has_policy(
        ps1,
        #[trigger] post.rules@[k].policy_id,
    ) by {
        let pid = pre.rules@[k].policy_id;
        assert(has_policy(ps0, pid));
        let w = idx_of_policy(ps0, pid);
        assert(0 <= w < ps0.len() && ps0[w].id == pid);
        assert(ps1[w].id == pid);
    }
    assert forall|k: int| 0 <= k < post.bindings@.len() implies has_policy(
        ps1,
        #[trigger] post.bindings@[k].policy_id,
    ) by {
        let pid = pre.bindings@[k].policy_id;
        assert(has_policy(ps0, pid));
        let w = idx_of_policy(ps0, pid);
        assert(0 <= w < ps0.len() && ps0[w].id == pid);
        assert(ps1[w].id == pid);
    }
    assert forall|k: int| 0 <= k < post.editor_permissions@.len() implies has_policy(
        ps1,
        #[trigger] post.editor_permissions@[k].policy_id,
    ) by {
        let pid = pre.editor_permissions@[k].policy_id;
        assert(has_policy(ps0, pid));
        let w = idx_of_policy(ps0, pid);
        assert(0 <= w < ps0.len() && ps0[w].id == pid);
        assert(ps1[w].id == pid);
    }
}

/// Rewriting one policy row in place, keeping its id, number and
/// version count, keeps the store well-formed.
proof fn lemma_wf_after_row_edit(pre: PolicyStore, post: PolicyStore, i: int)
    requires
        pre.wf(),
        0 <= i < pre.policies@.len(),
        post.policies@ == pre.policies@.update(i, post.policies@[i]),
        post.policies@[i].id == pre.policies@[i].id,
        post.policies@[i].policy_number == pre.policies@[i].policy_number,
        post.policies@[i].current_version == pre.policies@[i].current_version,
        (post.policies@[i].is_archived <==> post.policies@[i].status == PolicyStatus::Archived),
        post.versions@ == pre.versions@,
        post.roles@ == pre.roles@,
        post.rules@ == pre.rules@,
        post.bindings@ == pre.bindings@,
        post.editor_permissions@ == pre.editor_permissions@,
        post.next_id == pre.next_id,
    ensures
        post.wf(),
{
    let ps0 = pre.policies@;
    let ps1 = post.policies@;
    assert(forall|j: int|
        0 <= j < ps1.len() ==> ps1[j].id == ps0[j].id && ps1[j].policy_number
            == ps0[j].policy_number && ps1[j].current_version == ps0[j].current_version);
    assert forall|k: int| 0 <= k < post.versions@.len() implies has_policy(
        ps1,
        #[trigger] post.versions@[k].policy_id,
    ) && 1 <= post.versions@[k].version <= spec_policy(
        ps1,
        post.versions@[k].policy_id,
    ).current_version by {
        let pid = pre.versions@[k].policy_id;
        assert(has_policy(ps0, pid));
        let w = idx_of_policy(ps0, pid);
        assert(0 <= w < ps0.len() && ps0[w].id == pid);
        assert(ps1[w].id == pid);
        lemma_policy_at(ps1, w);
        lemma_policy_at(ps0, w);
    }
    assert forall|j: int, n: int|
        0 <= j < ps1.len() && 1 <= n <= ps1[j].current_version implies #[trigger] has_version(
        post.versions@,
        ps1[j].id,
        n,
    ) by {
        assert(has_version(pre.versions@, ps0[j].id, n));
    }
    assert forall|j: int| 0 <= j < ps1.len() implies version_count(
        post.versions@,
        #[trigger] ps1[j].id,
    ) == ps1[j].current_version by {
        assert(version_count(pre.versions@, ps0[j].id) == ps0[j].current_version);
    }
    assert forall|k: int| 0 <= k < post.rules@.len() implies has_policy(
        ps1,
        #[trigger] post.rules@[k].policy_id,
    ) by {
        let pid = pre.rules@[k].policy_id;
        assert(has_policy(ps0, pid));
        let w = idx_of_policy(ps0, pid);
        assert(ps1[w].id == pid);
    }
    assert forall|k: int| 0 <= k < post.bindings@.len() implies has_policy(
        ps1,
        #[trigger] post.bindings@[k].policy_id,
    ) by {
        let pid = pre.bindings@[k].policy_id;
        assert(has_policy(ps0, pid));
        let w = idx_of_policy(ps0, pid);
        assert(ps1[w].id == pid);
    }
    assert forall|k: int| 0 <= k < post.editor_permissions@.len() implies has_policy(
        ps1,
        #[trigger] post.editor_permissions@[k].policy_id,
    ) by {
        let pid = pre.editor_permissions@[k].policy_id;
        assert(has_policy(ps0, pid));
        let w = idx_of_policy(ps0, pid);
        assert(ps1[w].id == pid);
    }
}

/// Bumping one policy's version and appending the matching snapshot row
/// keeps the store well-formed.
proof fn lemma_wf_after_content_update(pre: PolicyStore, post: PolicyStore, i: int)
    requires
        pre.wf(),
        0 <= i < pre.policies@.len(),
        pre.policies@[i].current_version < i32::MAX,
        post.policies@ == pre.policies@.update(i, post.policies@[i]),
        post.policies@[i].id == pre.policies@[i].id,
        post.policies@[i].policy_number == pre.policies@[i].policy_number,
        post.policies@[i].current_version == pre.policies@[i].current_version + 1,
        post.policies@[i].status == pre.policies@[i].status,
        post.policies@[i].is_archived == pre.policies@[i].is_archived,
        post.versions@ == pre.versions@.push(post.versions@.last()),
        post.versions@.last().policy_id == pre.policies@[i].id,
        post.versions@.last().version == pre.policies@[i].current_version + 1,
        post.roles@ == pre.roles@,
        post.rules@ == pre.rules@,
        post.bindings@ == pre.bindings@,
        post.editor_permissions@ == pre.editor_permissions@,
        post.next_id == pre.next_id + 1,
    ensures
        post.wf(),
{
    let ps0 = pre.policies@;
    let ps1 = post.policies@;
    let vs0 = pre.versions@;
    let vs1 = post.versions@;
    let pid = ps0[i].id;
    let newv = ps0[i].current_version + 1;
    assert(forall|j: int|
        0 <= j < ps1.len() ==> ps1[j].id == ps0[j].id && ps1[j].policy_number
            == ps0[j].policy_number);
    lemma_policy_at(ps0, i);
    lemma_policy_at(ps1, i);
    // Existing rows for this policy sit at or below the old version, so
    // the appended row's (policy, version) pair is new.
    assert forall|k: int| 0 <= k < vs0.len() && vs0[k].policy_id == pid implies vs0[k].version
        < newv by {
        assert(spec_policy(ps0, pid) == ps0[i]);
    }
    assert forall|k: int| 0 <= k < vs1.len() implies has_policy(
        ps1,
        #[trigger] vs1[k].policy_id,
    ) && 1 <= vs1[k].version <= spec_policy(ps1, vs1[k].policy_id).current_version by {
        if k < vs0.len() {
            let qid = vs0[k].policy_id;
            assert(has_policy(ps0, qid));
            let w = idx_of_policy(ps0, qid);
            assert(0 <= w < ps0.len() && ps0[w].id == qid);
            assert(ps1[w].id == qid);
            lemma_policy_at(ps1, w);
            lemma_policy_at(ps0, w);
        } else {
            assert(vs1[k] == vs1.last());
            assert(spec_policy(ps1, pid) == ps1[i]);
        }
    }
    assert forall|j: int, n: int|
        0 <= j < ps1.len() && 1 <= n <= ps1[j].current_version implies #[trigger] has_version(
        vs1,
        ps1[j].id,
        n,
    ) by {
        if j == i && n == newv {
            assert(vs1[vs0.len() as int].policy_id == pid && vs1[vs0.len() as int].version == n);
        } else {
            assert(has_version(vs0, ps0[j].id, n));
            let w = choose|k: int|
                0 <= k < vs0.len() && vs0[k].policy_id == ps0[j].id && vs0[k].version == n;
            assert(vs1[w] == vs0[w]);
            assert(vs1[w].policy_id == ps1[j].id && vs1[w].version == n);
        }
    }
    assert forall|j: int| 0 <= j < ps1.len() implies version_count(vs1, #[trigger] ps1[j].id)
        == ps1[j].current_version by {
        lemma_version_count_push(vs0, vs1.last(), ps1[j].id);
        assert(version_count(vs0, ps0[j].id) == ps0[j].current_version);
        if j != i {
            assert(ps1[j].id != pid);
        }
    }
    assert forall|k: int| 0 <= k < post.rules@.len() implies has_policy(
        ps1,
        #[trigger] post.rules@[k].policy_id,
    ) by {
        let qid = pre.rules@[k].policy_id;
        assert(has_policy(ps0, qid));
        let w = idx_of_policy(ps0, qid);
        assert(ps1[w].id == qid);
    }
    assert forall|k: int| 0 <= k < post.bindings@.len() implies has_policy(
        ps1,
        #[trigger] post.bindings@[k].policy_id,
    ) by {
        let qid = pre.bindings@[k].policy_id;
        assert(has_policy(ps0, qid));
        let w = idx_of_policy(ps0, qid);
        assert(ps1[w].id == qid);
    }
    assert forall|k: int| 0 <= k < post.editor_permissions@.len() implies has_policy(
        ps1,
        #[trigger] post.editor_permissions@[k].policy_id,
    ) by {
        let qid = pre.editor_permissions@[k].policy_id;
        assert(has_policy(ps0, qid));
        let w = idx_of_policy(ps0, qid);
        assert(ps1[w].id == qid);
    }
}

/// Removing a policy row together with every dependent row that names
/// it keeps the store well-formed.
proof fn lemma_wf_after_delete(pre: PolicyStore, post: PolicyStore, id: u64)
    requires
        pre.wf(),
        has_policy(pre.policies@, id),
        post.policies@ == pre.policies@.remove(idx_of_policy(pre.policies@, id)),
        post.versions@ == pre.versions@.filter(|x: PolicyVersion| x.policy_id != id),
        post.rules@ == pre.rules@.filter(|x: PolicyRule| x.policy_id != id),
        post.bindings@ == pre.bindings@.filter(|x: PolicyBinding| x.policy_id != id),
        post.editor_permissions@ == pre.editor_permissions@.filter(
            |x: PolicyEditorPermission| x.policy_id != id,
        ),
        post.roles@ == pre.roles@,
        post.next_id == pre.next_id,
    ensures
        post.wf(),
{
    let i = idx_of_policy(pre.policies@, id);
    let ps0 = pre.policies@;
    let ps1 = post.policies@;
    assert(0 <= i < ps0.len() && ps0[i].id == id);
    assert forall|k: int| 0 <= k < ps1.len() implies #[trigger] ps1[k] == ps0[
        if k < i {
            k
        } else {
            k + 1
        }
    ] && ps1[k].id != id by {
        if k < i {
            assert(ps1[k] == ps0[k]);
        } else {
            assert(ps1[k] == ps0[k + 1]);
        }
    }
    assert forall|k1: int, k2: int| 0 <= k1 < k2 < ps1.len() implies ps1[k1].id != ps1[k2].id
        && ps1[k1].policy_number != ps1[k2].policy_number by {
        let j1 = if k1 < i { k1 } else { k1 + 1 };
        let j2 = if k2 < i { k2 } else { k2 + 1 };
        assert(ps1[k1] == ps0[j1]);
        assert(ps1[k2] == ps0[j2]);
    }
    // Version rows
    let pv = |x: PolicyVersion| x.policy_id != id;
    let vs0 = pre.versions@;
    let vs1 = post.versions@;
    lemma_filter_elements(
        vs0,
        pv,
        |a: PolicyVersion, b: PolicyVersion| !(a.policy_id == b.policy_id && a.version
            == b.version),
    );
    assert forall|k: int| 0 <= k < vs1.len() implies has_policy(ps1, #[trigger] vs1[k].policy_id)
        && 1 <= vs1[k].version <= spec_policy(ps1, vs1[k].policy_id).current_version by {
        assert(vs1[k] == vs0.filter(pv)[k]);
        vs0.lemma_filter_pred(pv, k);
        let j = choose|j: int| 0 <= j < vs0.len() && vs0[j] == vs0.filter(pv)[k];
        let qid = vs1[k].policy_id;
        assert(has_policy(ps0, qid));
        let w = idx_of_policy(ps0, qid);
        assert(0 <= w < ps0.len() && ps0[w].id == qid);
        assert(w != i);
        let w1 = if w < i { w } else { w - 1 };
        assert(ps1[w1] == ps0[w]);
        lemma_policy_at(ps1, w1);
        lemma_policy_at(ps0, w);
    }
    assert forall|k1: int, k2: int| 0 <= k1 < k2 < vs1.len() implies !(vs1[k1].policy_id
        == vs1[k2].policy_id && vs1[k1].version == vs1[k2].version) by {
        assert(vs1[k1] == vs0.filter(pv)[k1]);
        assert(vs1[k2] == vs0.filter(pv)[k2]);
    }
    assert forall|k: int, n: int|
        0 <= k < ps1.len() && 1 <= n <= ps1[k].current_version implies #[trigger] has_version(
        vs1,
        ps1[k].id,
        n,
    ) by {
        let j = if k < i { k } else { k + 1 };
        assert(ps1[k] == ps0[j]);
        assert(has_version(vs0, ps0[j].id, n));
        let w = choose|w: int|
            0 <= w < vs0.len() && vs0[w].policy_id == ps0[j].id && vs0[w].version == n;
        assert(pv(vs0[w]));
        vs0.lemma_filter_contains(pv, w);
        assert(vs0.filter(pv).contains(vs0[w]));
        let m = choose|m: int| 0 <= m < vs0.filter(pv).len() && vs0.filter(pv)[m] == vs0[w];
        assert(vs1[m] == vs0[w]);
    }
    assert forall|k: int| 0 <= k < ps1.len() implies version_count(vs1, #[trigger] ps1[k].id)
        == ps1[k].current_version by {
        let j = if k < i { k } else { k + 1 };
        assert(ps1[k] == ps0[j]);
        lemma_version_count_filter(vs0, id, ps1[k].id);
    }
    // Rule rows
    let pr = |x: PolicyRule| x.policy_id != id;
    let rs0 = pre.rules@;
    let rs1 = post.rules@;
    lemma_filter_elements(rs0, pr, |a: PolicyRule, b: PolicyRule| a.id != b.id);
    assert forall|k: int| 0 <= k < rs1.len() implies rs1[k].id < post.next_id && has_policy(
        ps1,
        #[trigger] rs1[k].policy_id,
    ) by {
        assert(rs1[k] == rs0.filter(pr)[k]);
        rs0.lemma_filter_pred(pr, k);
        let j = choose|j: int| 0 <= j < rs0.len() && rs0[j] == rs0.filter(pr)[k];
        let qid = rs1[k].policy_id;
        assert(has_policy(ps0, qid));
        let w = idx_of_policy(ps0, qid);
        assert(0 <= w < ps0.len() && ps0[w].id == qid);
        assert(w != i);
        let w1 = if w < i { w } else { w - 1 };
        assert(ps1[w1] == ps0[w]);
    }
    assert forall|k1: int, k2: int| 0 <= k1 < k2 < rs1.len() implies rs1[k1].id != rs1[k2].id by {
        assert(rs1[k1] == rs0.filter(pr)[k1]);
        assert(rs1[k2] == rs0.filter(pr)[k2]);
    }
    // Binding rows
    let pb = |x: PolicyBinding| x.policy_id != id;
    let bs0 = pre.bindings@;
    let bs1 = post.bindings@;
    lemma_filter_elements(
        bs0,
        pb,
        |a: PolicyBinding, b: PolicyBinding| a.id != b.id && !(a.policy_id == b.policy_id
            && a.subject_type == b.subject_type && a.subject_id == b.subject_id),
    );
    assert forall|k: int| 0 <= k < bs1.len() implies bs1[k].id < post.next_id && has_policy(
        ps1,
        #[trigger] bs1[k].policy_id,
    ) by {
        assert(bs1[k] == bs0.filter(pb)[k]);
        bs0.lemma_filter_pred(pb, k);
        let j = choose|j: int| 0 <= j < bs0.len() && bs0[j] == bs0.filter(pb)[k];
        let qid = bs1[k].policy_id;
        assert(has_policy(ps0, qid));
        let w = idx_of_policy(ps0, qid);
        assert(0 <= w < ps0.len() && ps0[w].id == qid);
        assert(w != i);
        let w1 = if w < i { w } else { w - 1 };
        assert(ps1[w1] == ps0[w]);
    }
    assert forall|k1: int, k2: int| 0 <= k1 < k2 < bs1.len() implies bs1[k1].id != bs1[k2].id && !(
    bs1[k1].policy_id == bs1[k2].policy_id && bs1[k1].subject_type == bs1[k2].subject_type
        && bs1[k1].subject_id == bs1[k2].subject_id) by {
        assert(bs1[k1] == bs0.filter(pb)[k1]);
        assert(bs1[k2] == bs0.filter(pb)[k2]);
    }
    // Editor delegations
    let pq = |x: PolicyEditorPermission| x.policy_id != id;
    let qs0 = pre.editor_permissions@;
    let qs1 = post.editor_permissions@;
    lemma_filter_elements(
        qs0,
        pq,
        |a: PolicyEditorPermission, b: PolicyEditorPermission| !(a.policy_id == b.policy_id
            && a.role_level == b.role_level),
    );
    assert forall|k: int| 0 <= k < qs1.len() implies has_policy(
        ps1,
        #[trigger] qs1[k].policy_id,
    ) by {
        assert(qs1[k] == qs0.filter(pq)[k]);
        qs0.lemma_filter_pred(pq, k);
        let j = choose|j: int| 0 <= j < qs0.len() && qs0[j] == qs0.filter(pq)[k];
        let qid = qs1[k].policy_id;
        assert(has_policy(ps0, qid));
        let w = idx_of_policy(ps0, qid);
        assert(0 <= w < ps0.len() && ps0[w].id == qid);
        assert(w != i);
        let w1 = if w < i { w } else { w - 1 };
        assert(ps1[w1] == ps0[w]);
    }
    assert forall|k1: int, k2: int| 0 <= k1 < k2 < qs1.len() implies !(qs1[k1].policy_id
        == qs1[k2].policy_id && qs1[k1].role_level == qs1[k2].role_level) by {
        assert(qs1[k1] == qs0.filter(pq)[k1]);
        assert(qs1[k2] == qs0.filter(pq)[k2]);
    }
}

/// The in-memory policy subsystem state. All mutation goes through the
/// methods below, each of which preserves `wf`. Deleting a policy
/// cascades its rules, bindings, editor delegations and version history.
pub struct PolicyStore {
    pub roles: Vec<Role>,
    pub policies: Vec<Policy>,
    pub versions: Vec<PolicyVersion>,
    pub rules: Vec<PolicyRule>,
    pub bindings: Vec<PolicyBinding>,
    pub editor_permissions: Vec<PolicyEditorPermission>,
    /// When set, content updates are accepted only while the policy is
    /// still a draft; by default versioned edits are allowed in any state.
    pub draft_only_content_edits: bool,
    /// Source of fresh row ids; every stored id is below it.
    pub next_id: u64,
}

impl PolicyStore {
    /// Role rows: unique ids, all minted.
    pub open spec fn roles_wf(self) -> bool {
        &&& forall|i: int, j: int|
            0 <= i < j < self.roles@.len() ==> self.roles@[i].id != self.roles@[j].id
        &&& forall|i: int| 0 <= i < self.roles@.len() ==> self.roles@[i].id < self.next_id
    }

    /// Policy rows: unique ids and numbers, versions start at 1, the
    /// archived flag mirrors the terminal status.
    pub open spec fn policies_wf(self) -> bool {
        &&& forall|i: int, j: int|
            0 <= i < j < self.policies@.len() ==> self.policies@[i].id != self.policies@[j].id
        &&& forall|i: int, j: int|
            0 <= i < j < self.policies@.len() ==> self.policies@[i].policy_number
                != self.policies@[j].policy_number
        &&& forall|i: int| 0 <= i < self.policies@.len() ==> self.policies@[i].current_version >= 1
        &&& forall|i: int|
            0 <= i < self.policies@.len() ==> (self.policies@[i].is_archived <==> self.policies@[i].status
                == PolicyStatus::Archived)
        &&& forall|i: int| 0 <= i < self.policies@.len() ==> self.policies@[i].id < self.next_id
    }

    /// Snapshot rows: each belongs to a live policy and sits in
    /// `1..=current_version`; per policy the version numbers are unique,
    /// contiguous from 1, and exactly `current_version` many.
    pub open spec fn versions_wf(self) -> bool {
        &&& forall|k: int|
            0 <= k < self.versions@.len() ==> has_policy(
                self.policies@,
                #[trigger] self.versions@[k].policy_id,
            ) && 1 <= self.versions@[k].version <= spec_policy(
                self.policies@,
                self.versions@[k].policy_id,
            ).current_version
        &&& forall|k1: int, k2: int|
            0 <= k1 < k2 < self.versions@.len() ==> !(self.versions@[k1].policy_id
                == self.versions@[k2].policy_id && self.versions@[k1].version
                == self.versions@[k2].version)
        &&& forall|i: int, n: int|
            0 <= i < self.policies@.len() && 1 <= n <= self.policies@[i].current_version
                ==> #[trigger] has_version(self.versions@, self.policies@[i].id, n)
        &&& forall|i: int|
            0 <= i < self.policies@.len() ==> version_count(
                self.versions@,
                #[trigger] self.policies@[i].id,
            ) == self.policies@[i].current_version
    }

    /// Rule rows: unique minted ids, each owned by a live policy.
    pub open spec fn rules_wf(self) -> bool {
        &&& forall|k1: int, k2: int|
            0 <= k1 < k2 < self.rules@.len() ==> self.rules@[k1].id != self.rules@[k2].id
        &&& forall|k: int| 0 <= k < self.rules@.len() ==> self.rules@[k].id < self.next_id
        &&& forall|k: int|
            0 <= k < self.rules@.len() ==> has_policy(
                self.policies@,
                #[trigger] self.rules@[k].policy_id,
            )
    }

    /// Binding rows: unique minted ids, each for a live policy, and at
    /// most one row per `(policy_id, subject_type, subject_id)` key.
    pub open spec fn bindings_wf(self) -> bool {
        &&& forall|k1: int, k2: int|
            0 <= k1 < k2 < self.bindings@.len() ==> self.bindings@[k1].id != self.bindings@[k2].id
        &&& forall|k: int| 0 <= k < self.bindings@.len() ==> self.bindings@[k].id < self.next_id
        &&& forall|k: int|
            0 <= k < self.bindings@.len() ==> has_policy(
                self.policies@,
                #[trigger] self.bindings@[k].policy_id,
            )
        &&& forall|k1: int, k2: int|
            0 <= k1 < k2 < self.bindings@.len() ==> !(self.bindings@[k1].policy_id
                == self.bindings@[k2].policy_id && self.bindings@[k1].subject_type
                == self.bindings@[k2].subject_type && self.bindings@[k1].subject_id
                == self.bindings@[k2].subject_id)
    }

    /// Editor delegations: each for a live policy, at most one row per
    /// `(policy_id, role_level)` pair.
    pub open spec fn perms_wf(self) -> bool {
        &&& forall|k: int|
            0 <= k < self.editor_permissions@.len() ==> has_policy(
                self.policies@,
                #[trigger] self.editor_permissions@[k].policy_id,
            )
        &&& forall|k1: int, k2: int|
            0 <= k1 < k2 < self.editor_permissions@.len() ==> !(self.editor_permissions@[k1].policy_id
                == self.editor_permissions@[k2].policy_id
                && self.editor_permissions@[k1].role_level
                == self.editor_permissions@[k2].role_level)
    }

    /// The store's full well-formedness invariant; every constructor
    /// establishes it and every method preserves it.
    pub open spec fn wf(self) -> bool {
        &&& self.roles_wf()
        &&& self.policies_wf()
        &&& self.versions_wf()
        &&& self.rules_wf()
        &&& self.bindings_wf()
        &&& self.perms_wf()
    }

    /// An empty store.
    pub fn new() -> (s: PolicyStore)
        ensures
            s.wf(),
            s.roles@.len() == 0,
            s.policies@.len() == 0,
            s.versions@.len() == 0,
            s.rules@.len() == 0,
            s.bindings@.len() == 0,
            s.editor_permissions@.len() == 0,
            !s.draft_only_content_edits,
            s.next_id == 0,
    {
        PolicyStore {
            roles: Vec::new(),
            policies: Vec::new(),
            versions: Vec::new(),
            rules: Vec::new(),
            bindings: Vec::new(),
            editor_permissions: Vec::new(),
            draft_only_content_edits: false,
            next_id: 0,
        }
    }

    /// Chooses whether content updates are restricted to draft policies.
    pub fn set_draft_only_content_edits(&mut self, on: bool)
        requires
            old(self).wf(),
        ensures
            final(self).wf(),
            *final(self) == (PolicyStore { draft_only_content_edits: on, ..*old(self) }),
    {
        self.draft_only_content_edits = on;
    }

    /// Whether some policy already uses this human-facing number.
    fn number_in_use(&self, number: i32) -> (r: bool)
        ensures
            r == number_taken(self.policies@, number),
    {
        let n = self.policies.len();
        for i in 0..n
            invariant
                n == self.policies@.len(),
                forall|j: int| 0 <= j < i ==> self.policies@[j].policy_number != number,
        {
            if self.policies[i].policy_number == number {
                return true;
            }
        }
        false
    }

    /// The position of the policy with this id, if it exists.
    fn find_policy(&self, id: u64) -> (r: Option<usize>)
        ensures
            match r {
                Some(i) => i < self.policies@.len() && self.policies@[i as int].id == id,
                None => !has_policy(self.policies@, id),
            },
    {
        let n = self.policies.len();
        for i in 0..n
            invariant
                n == self.policies@.len(),
                forall|j: int| 0 <= j < i ==> self.policies@[j].id != id,
        {
            if self.policies[i].id == id {
                return Some(i);
            }
        }
        None
    }

    /// Creates a policy in `Draft` at version 1, writing the policy row
    /// and its version-1 snapshot together; fails with `Conflict` when
    /// the human-facing number is already taken.
    pub fn create_policy(&mut self, payload: &CreatePolicyPayload, now: i64) -> (r: Result<
        Policy,
        AccessError,
    >)
        requires
            old(self).wf(),
            old(self).next_id <= u64::MAX - 2,
        ensures
            final(self).wf(),
            (r is Ok) <==> !number_taken(old(self).policies@, payload.policy_number),
            r is Err ==> r == Err::<Policy, AccessError>(AccessError::Conflict) && *final(self)
                == *old(self),
            r matches Ok(p) ==> {
                &&& p == created_policy(*payload, old(self).next_id, now)
                &&& final(self).policies@ == old(self).policies@.push(p)
                &&& final(self).versions@ == old(self).versions@.push(
                    initial_snapshot(
                        *payload,
                        (old(self).next_id + 1) as u64,
                        old(self).next_id,
                        now,
                    ),
                )
                &&& final(self).next_id == old(self).next_id + 2
                &&& final(self).roles@ == old(self).roles@
                &&& final(self).rules@ == old(self).rules@
                &&& final(self).bindings@ == old(self).bindings@
                &&& final(self).editor_permissions@ == old(self).editor_permissions@
                &&& final(self).draft_only_content_edits == old(self).draft_only_content_edits
            },
    {
        if self.number_in_use(payload.policy_number) {
            return Err(AccessError::Conflict);
        }
        let id = self.next_id;
        let policy = Policy {
            id,
            policy_number: payload.policy_number,
            name: payload.name.clone(),
            description: clone_opt_string(&payload.description),
            status: PolicyStatus::Draft,
            is_archived: false,
            current_version: 1,
            created_at: now,
            updated_at: now,
        };
        let snapshot = PolicyVersion {
            id: id + 1,
            policy_id: id,
            version: 1,
            name: payload.name.clone(),
            description: clone_opt_string(&payload.description),
            created_at: now,
        };
        self.next_id = id + 2;
        let returned = policy.clone();
        self.policies.push(policy);
        self.versions.push(snapshot);
        proof {
            lemma_wf_after_create(*old(self), *self, *payload, now);
        }
        Ok(returned)
    }

    /// Moves a `Draft` policy to `Active` and reports one affected row.
    /// On a policy that is missing or already past `Draft` it is a no-op
    /// reporting zero rows, not an error; callers that must distinguish
    /// check the count.
    pub fn activate(&mut self, id: u64) -> (affected: u64)
        requires
            old(self).wf(),
        ensures
            final(self).wf(),
            affected <= 1,
            (affected == 1) <==> (has_policy(old(self).policies@, id) && spec_policy(
                old(self).policies@,
                id,
            ).status == PolicyStatus::Draft),
            affected == 0 ==> *final(self) == *old(self),
            affected == 1 ==> {
                &&& final(self).policies@ == old(self).policies@.update(
                    idx_of_policy(old(self).policies@, id),
                    (Policy {
                        status: PolicyStatus::Active,
                        ..spec_policy(old(self).policies@, id)
                    }),
                )
                &&& final(self).versions@ == old(self).versions@
                &&& final(self).roles@ == old(self).roles@
                &&& final(self).rules@ == old(self).rules@
                &&& final(self).bindings@ == old(self).bindings@
                &&& final(self).editor_permissions@ == old(self).editor_permissions@
                &&& final(self).next_id == old(self).next_id
                &&& final(self).draft_only_content_edits == old(self).draft_only_content_edits
            },
    {
        let idx = match self.find_policy(id) {
            Some(i) => i,
            None => {
                return 0;
            },
        };
        proof {
            lemma_policy_at(self.policies@, idx as int);
        }
        if self.policies[idx].status != PolicyStatus::Draft {
            return 0;
        }
        let updated = Policy {
            id: self.policies[idx].id,
            policy_number: self.policies[idx].policy_number,
            name: self.policies[idx].name.clone(),
            description: clone_opt_string(&self.policies[idx].description),
            status: PolicyStatus::Active,
            is_archived: self.policies[idx].is_archived,
            current_version: self.policies[idx].current_version,
            created_at: self.policies[idx].created_at,
            updated_at: self.policies[idx].updated_at,
        };
        self.policies[idx] = updated;
        proof {
            lemma_wf_after_row_edit(*old(self), *self, idx as int);
        }
        1
    }

    /// Archives a policy from any status: sets the terminal `Archived`
    /// status, the mirror flag, and the update time. Reports one
    /// affected row, or zero when the policy does not exist.
    pub fn archive_policy(&mut self, id: u64, now: i64) -> (affected: u64)
        requires
            old(self).wf(),
        ensures
            final(self).wf(),
            affected <= 1,
            (affected == 1) <==> has_policy(old(self).policies@, id),
            affected == 0 ==> *final(self) == *old(self),
            affected == 1 ==> {
                &&& final(self).policies@ == old(self).policies@.update(
                    idx_of_policy(old(self).policies@, id),
                    (Policy {
                        status: PolicyStatus::Archived,
                        is_archived: true,
                        updated_at: now,
                        ..spec_policy(old(self).policies@, id)
                    }),
                )
                &&& final(self).versions@ == old(self).versions@
                &&& final(self).roles@ == old(self).roles@
                &&& final(self).rules@ == old(self).rules@
                &&& final(self).bindings@ == old(self).bindings@
                &&& final(self).editor_permissions@ == old(self).editor_permissions@
                &&& final(self).next_id == old(self).next_id
                &&& final(self).draft_only_content_edits == old(self).draft_only_content_edits
            },
    {
        let idx = match self.find_policy(id) {
            Some(i) => i,
            None => {
                return 0;
            },
        };
        proof {
            lemma_policy_at(self.policies@, idx as int);
        }
        let updated = Policy {
            id: self.policies[idx].id,
            policy_number: self.policies[idx].policy_number,
            name: self.policies[idx].name.clone(),
            description: clone_opt_string(&self.policies[idx].description),
            status: PolicyStatus::Archived,
            is_archived: true,
            current_version: self.policies[idx].current_version,
            created_at: self.policies[idx].created_at,
            updated_at: now,
        };
        self.policies[idx] = updated;
        proof {
            lemma_wf_after_row_edit(*old(self), *self, idx as int);
        }
        1
    }

    /// Rewrites a policy's content, bumping `current_version` and
    /// appending the matching snapshot, both together. Fails with
    /// `NotFound` for a missing policy, with `PolicyImmutable` when
    /// drafts-only editing is configured and the policy has left
    /// `Draft`, and with `Conflict` when the version counter is
    /// exhausted.
    pub fn update_policy(&mut self, id: u64, payload: &UpdatePolicyPayload, now: i64) -> (r:
        Result<Policy, AccessError>)
        requires
            old(self).wf(),
            old(self).next_id < u64::MAX,
        ensures
            final(self).wf(),
            r is Err ==> *final(self) == *old(self) && (r == Err::<Policy, AccessError>(
                AccessError::NotFound,
            ) || r == Err::<Policy, AccessError>(AccessError::PolicyImmutable) || r == Err::<
                Policy,
                AccessError,
            >(AccessError::Conflict)),
            (r == Err::<Policy, AccessError>(AccessError::NotFound)) <==> !has_policy(
                old(self).policies@,
                id,
            ),
            (r == Err::<Policy, AccessError>(AccessError::PolicyImmutable)) <==> (has_policy(
                old(self).policies@,
                id,
            ) && old(self).draft_only_content_edits && spec_policy(old(self).policies@, id).status
                != PolicyStatus::Draft),
            (r == Err::<Policy, AccessError>(AccessError::Conflict)) <==> (has_policy(
                old(self).policies@,
                id,
            ) && !(old(self).draft_only_content_edits && spec_policy(
                old(self).policies@,
                id,
            ).status != PolicyStatus::Draft) && spec_policy(old(self).policies@, id).current_version
                == i32::MAX),
            r matches Ok(p) ==> {
                &&& has_policy(old(self).policies@, id)
                &&& p == (Policy {
                    name: payload.name,
                    description: payload.description,
                    current_version: (spec_policy(old(self).policies@, id).current_version + 1) as i32,
                    updated_at: now,
                    ..spec_policy(old(self).policies@, id)
                })
                &&& final(self).policies@ == old(self).policies@.update(
                    idx_of_policy(old(self).policies@, id),
                    p,
                )
                &&& final(self).versions@ == old(self).versions@.push(
                    (PolicyVersion {
                        id: old(self).next_id,
                        policy_id: id,
                        version: (spec_policy(old(self).policies@, id).current_version + 1) as i32,
                        name: payload.name,
                        description: payload.description,
                        created_at: now,
                    }),
                )
                &&& final(self).next_id == old(self).next_id + 1
                &&& final(self).roles@ == old(self).roles@
                &&& final(self).rules@ == old(self).rules@
                &&& final(self).bindings@ == old(self).bindings@
                &&& final(self).editor_permissions@ == old(self).editor_permissions@
                &&& final(self).draft_only_content_edits == old(self).draft_only_content_edits
            },
    {
        let idx = match self.find_policy(id) {
            Some(i) => i,
            None => {
                return Err(AccessError::NotFound);
            },
        };
        proof {
            lemma_policy_at(self.policies@, idx as int);
        }
        if self.draft_only_content_edits && self.policies[idx].status != PolicyStatus::Draft {
            return Err(AccessError::PolicyImmutable);
        }
        let cv = self.policies[idx].current_version;
        if cv == i32::MAX {
            return Err(AccessError::Conflict);
        }
        let vid = self.next_id;
        self.next_id = vid + 1;
        let updated = Policy {
            id: self.policies[idx].id,
            policy_number: self.policies[idx].policy_number,
            name: payload.name.clone(),
            description: clone_opt_string(&payload.description),
            status: self.policies[idx].status,
            is_archived: self.policies[idx].is_archived,
            current_version: cv + 1,
            created_at: self.policies[idx].created_at,
            updated_at: now,
        };
        let returned = updated.clone();
        self.policies[idx] = updated;
        self.versions.push(
            PolicyVersion {
                id: vid,
                policy_id: id,
                version: cv + 1,
                name: payload.name.clone(),
                description: clone_opt_string(&payload.description),
                created_at: now,
            },
        );
        proof {
            lemma_wf_after_content_update(*old(self), *self, idx as int);
        }
        Ok(returned)
    }

    /// The position of the rule with this id, if it exists.
    fn find_rule(&self, id: u64) -> (r: Option<usize>)
        ensures
            match r {
                Some(i) => i < self.rules@.len() && self.rules@[i as int].id == id,
                None => !has_rule(self.rules@, id),
            },
    {
        let n = self.rules.len();
        for i in 0..n
            invariant
                n == self.rules@.len(),
                forall|j: int| 0 <= j < i ==> self.rules@[j].id != id,
        {
            if self.rules[i].id == id {
                return Some(i);
            }
        }
        None
    }

    /// The position of the binding with this key, if it exists.
    fn find_binding(&self, policy_id: u64, subject_type: Subject, subject_id: u64) -> (r: Option<
        usize,
    >)
        ensures
            match r {
                Some(i) => i < self.bindings@.len() && binding_keyed(
                    self.bindings@[i as int],
                    policy_id,
                    subject_type,
                    subject_id,
                ),
                None => !has_binding(self.bindings@, policy_id, subject_type, subject_id),
            },
    {
        let n = self.bindings.len();
        for i in 0..n
            invariant
                n == self.bindings@.len(),
                forall|j: int| 0 <= j < i ==> !binding_keyed(
                    self.bindings@[j],
                    policy_id,
                    subject_type,
                    subject_id,
                ),
        {
            if self.bindings[i].policy_id == policy_id && self.bindings[i].subject_type
                == subject_type && self.bindings[i].subject_id == subject_id {
                return Some(i);
            }
        }
        None
    }

    /// The position of the binding with this id, if it exists.
    fn find_binding_by_id(&self, id: u64) -> (r: Option<usize>)
        ensures
            match r {
                Some(i) => i < self.bindings@.len() && self.bindings@[i as int].id == id,
                None => !has_binding_id(self.bindings@, id),
            },
    {
        let n = self.bindings.len();
        for i in 0..n
            invariant
                n == self.bindings@.len(),
                forall|j: int| 0 <= j < i ==> self.bindings@[j].id != id,
        {
            if self.bindings[i].id == id {
                return Some(i);
            }
        }
        None
    }

    /// The position of the editor delegation with this pair, if it exists.
    fn find_permission(&self, policy_id: u64, role_level: i32) -> (r: Option<usize>)
        ensures
            match r {
                Some(i) => i < self.editor_permissions@.len()
                    && self.editor_permissions@[i as int].policy_id == policy_id
                    && self.editor_permissions@[i as int].role_level == role_level,
                None => !perm_present(self.editor_permissions@, policy_id, role_level),
            },
    {
        let n = self.editor_permissions.len();
        for i in 0..n
            invariant
                n == self.editor_permissions@.len(),
                forall|j: int|
                    0 <= j < i ==> !(self.editor_permissions@[j].policy_id == policy_id
                        && self.editor_permissions@[j].role_level == role_level),
        {
            if self.editor_permissions[i].policy_id == policy_id && self.editor_permissions[i].role_level
                == role_level {
                return Some(i);
            }
        }
        None
    }

    /// Adds a rule to a policy. Legal only while the policy is a
    /// `Draft`: on an `Active` or `Archived` policy this fails with
    /// `PolicyImmutable`, and on a missing policy with `NotFound`.
    pub fn add_rule(
        &mut self,
        policy_id: u64,
        effect: Effect,
        resource: String,
        action: String,
        conditions: Option<String>,
    ) -> (r: Result<PolicyRule, AccessError>)
        requires
            old(self).wf(),
            old(self).next_id < u64::MAX,
        ensures
            final(self).wf(),
            r is Err ==> *final(self) == *old(self) && (r == Err::<PolicyRule, AccessError>(
                AccessError::NotFound,
            ) || r == Err::<PolicyRule, AccessError>(AccessError::PolicyImmutable)),
            (r == Err::<PolicyRule, AccessError>(AccessError::NotFound)) <==> !has_policy(
                old(self).policies@,
                policy_id,
            ),
            (r == Err::<PolicyRule, AccessError>(AccessError::PolicyImmutable)) <==> (has_policy(
                old(self).policies@,
                policy_id,
            ) && spec_policy(old(self).policies@, policy_id).status != PolicyStatus::Draft),
            r matches Ok(rule) ==> {
                &&& has_policy(old(self).policies@, policy_id)
                &&& spec_policy(old(self).policies@, policy_id).status == PolicyStatus::Draft
                &&& rule == (PolicyRule {
                    id: old(self).next_id,
                    policy_id,
                    effect,
                    resource,
                    action,
                    conditions,
                })
                &&& final(self).rules@ == old(self).rules@.push(rule)
                &&& final(self).next_id == old(self).next_id + 1
                &&& final(self).policies@ == old(self).policies@
                &&& final(self).versions@ == old(self).versions@
                &&& final(self).roles@ == old(self).roles@
                &&& final(self).bindings@ == old(self).bindings@
                &&& final(self).editor_permissions@ == old(self).editor_permissions@
                &&& final(self).draft_only_content_edits == old(self).draft_only_content_edits
            },
    {
        let idx = match self.find_policy(policy_id) {
            Some(i) => i,
            None => {
                return Err(AccessError::NotFound);
            },
        };
        proof {
            lemma_policy_at(self.policies@, idx as int);
        }
        if self.policies[idx].status != PolicyStatus::Draft {
            return Err(AccessError::PolicyImmutable);
        }
        let rule = PolicyRule {
            id: self.next_id,
            policy_id,
            effect,
            resource,
            action,
            conditions,
        };
        let returned = rule.clone();
        self.next_id = self.next_id + 1;
        self.rules.push(rule);
        Ok(returned)
    }

    /// Removes a rule by id. Legal only while the owning policy is a
    /// `Draft`: otherwise this fails with `PolicyImmutable`, and with
    /// `NotFound` when no such rule exists.
    pub fn remove_rule(&mut self, rule_id: u64) -> (r: Result<(), AccessError>)
        requires
            old(self).wf(),
        ensures
            final(self).wf(),
            r is Err ==> *final(self) == *old(self) && (r == Err::<(), AccessError>(
                AccessError::NotFound,
            ) || r == Err::<(), AccessError>(AccessError::PolicyImmutable)),
            (r == Err::<(), AccessError>(AccessError::NotFound)) <==> !has_rule(
                old(self).rules@,
                rule_id,
            ),
            (r == Err::<(), AccessError>(AccessError::PolicyImmutable)) <==> (has_rule(
                old(self).rules@,
                rule_id,
            ) && spec_policy(
                old(self).policies@,
                spec_rule(old(self).rules@, rule_id).policy_id,
            ).status != PolicyStatus::Draft),
            r is Ok ==> {
                &&& has_rule(old(self).rules@, rule_id)
                &&& spec_policy(
                    old(self).policies@,
                    spec_rule(old(self).rules@, rule_id).policy_id,
                ).status == PolicyStatus::Draft
                &&& final(self).rules@ == old(self).rules@.remove(
                    idx_of_rule(old(self).rules@, rule_id),
                )
                &&& final(self).policies@ == old(self).policies@
                &&& final(self).versions@ == old(self).versions@
                &&& final(self).roles@ == old(self).roles@
                &&& final(self).bindings@ == old(self).bindings@
                &&& final(self).editor_permissions@ == old(self).editor_permissions@
                &&& final(self).next_id == old(self).next_id
                &&& final(self).draft_only_content_edits == old(self).draft_only_content_edits
            },
    {
        let idx = match self.find_rule(rule_id) {
            Some(i) => i,
            None => {
                return Err(AccessError::NotFound);
            },
        };
        proof {
            lemma_rule_at(self.rules@, idx as int);
        }
        let owner = self.rules[idx].policy_id;
        let pidx_opt = self.find_policy(owner);
        let pidx = pidx_opt.unwrap();
        proof {
            lemma_policy_at(self.policies@, pidx as int);
        }
        if self.policies[pidx].status != PolicyStatus::Draft {
            return Err(AccessError::PolicyImmutable);
        }
        self.rules.remove(idx);
        proof {
            let rs0 = old(self).rules@;
            let rs1 = self.rules@;
            let i = idx as int;
            assert forall|k: int| 0 <= k < rs1.len() implies rs1[k].id < self.next_id
                && has_policy(self.policies@, #[trigger] rs1[k].policy_id) by {
                if k < i {
                    assert(rs1[k] == rs0[k]);
                } else {
                    assert(rs1[k] == rs0[k + 1]);
                }
            }
            assert forall|k1: int, k2: int| 0 <= k1 < k2 < rs1.len() implies rs1[k1].id
                != rs1[k2].id by {
                let j1 = if k1 < i { k1 } else { k1 + 1 };
                let j2 = if k2 < i { k2 } else { k2 + 1 };
                assert(rs1[k1] == rs0[j1]);
                assert(rs1[k2] == rs0[j2]);
            }
        }
        Ok(())
    }

    /// Binds a policy to a subject, idempotently: rebinding an existing
    /// `(policy_id, subject_type, subject_id)` key changes nothing and
    /// returns the existing row. Fails only with `NotFound` when the
    /// policy does not exist.
    pub fn bind(&mut self, policy_id: u64, subject_type: Subject, subject_id: u64, now: i64) -> (r:
        Result<PolicyBinding, AccessError>)
        requires
            old(self).wf(),
            old(self).next_id < u64::MAX,
        ensures
            final(self).wf(),
            r is Err ==> *final(self) == *old(self),
            (r is Err) <==> !has_policy(old(self).policies@, policy_id),
            r is Err ==> r == Err::<PolicyBinding, AccessError>(AccessError::NotFound),
            r matches Ok(b) ==> {
                &&& binding_keyed(b, policy_id, subject_type, subject_id)
                &&& has_binding(final(self).bindings@, policy_id, subject_type, subject_id)
                &&& binding_count(final(self).bindings@, policy_id, subject_type, subject_id) == 1
            },
            has_policy(old(self).policies@, policy_id) && has_binding(
                old(self).bindings@,
                policy_id,
                subject_type,
                subject_id,
            ) ==> *final(self) == *old(self) && (r matches Ok(b) ==> exists|k: int|
                0 <= k < old(self).bindings@.len() && old(self).bindings@[k] == b),
            has_policy(old(self).policies@, policy_id) && !has_binding(
                old(self).bindings@,
                policy_id,
                subject_type,
                subject_id,
            ) ==> {
                &&& r == Ok::<PolicyBinding, AccessError>(
                    PolicyBinding {
                        id: old(self).next_id,
                        policy_id,
                        subject_type,
                        subject_id,
                        created_at: now,
                    },
                )
                &&& final(self).bindings@ == old(self).bindings@.push(
                    (PolicyBinding {
                        id: old(self).next_id,
                        policy_id,
                        subject_type,
                        subject_id,
                        created_at: now,
                    }),
                )
                &&& final(self).next_id == old(self).next_id + 1
                &&& final(self).policies@ == old(self).policies@
                &&& final(self).versions@ == old(self).versions@
                &&& final(self).roles@ == old(self).roles@
                &&& final(self).rules@ == old(self).rules@
                &&& final(self).editor_permissions@ == old(self).editor_permissions@
                &&& final(self).draft_only_content_edits == old(self).draft_only_content_edits
            },
    {
        if self.find_policy(policy_id).is_none() {
            return Err(AccessError::NotFound);
        }
        match self.find_binding(policy_id, subject_type, subject_id) {
            Some(i) => {
                proof {
                    lemma_binding_count_one(self.bindings@, policy_id, subject_type, subject_id);
                }
                Ok(self.bindings[i])
            },
            None => {
                let b = PolicyBinding {
                    id: self.next_id,
                    policy_id,
                    subject_type,
                    subject_id,
                    created_at: now,
                };
                self.next_id = self.next_id + 1;
                self.bindings.push(b);
                proof {
                    assert(forall|k: int|
                        0 <= k < old(self).bindings@.len() ==> !binding_keyed(
                            old(self).bindings@[k],
                            policy_id,
                            subject_type,
                            subject_id,
                        ));
                    lemma_binding_count_zero(
                        old(self).bindings@,
                        policy_id,
                        subject_type,
                        subject_id,
                    );
                    lemma_binding_count_push(
                        old(self).bindings@,
                        b,
                        policy_id,
                        subject_type,
                        subject_id,
                    );
                }
                Ok(b)
            },
        }
    }

    /// Removes a binding by id; `NotFound` when no such binding exists.
    pub fn unbind(&mut self, binding_id: u64) -> (r: Result<(), AccessError>)
        requires
            old(self).wf(),
        ensures
            final(self).wf(),
            r is Err ==> *final(self) == *old(self) && r == Err::<(), AccessError>(
                AccessError::NotFound,
            ),
            (r is Err) <==> !has_binding_id(old(self).bindings@, binding_id),
            r is Ok ==> (exists|k: int|
                {
                    &&& 0 <= k < old(self).bindings@.len()
                    &&& old(self).bindings@[k].id == binding_id
                    &&& final(self).bindings@ == old(self).bindings@.remove(k)
                }),
            r is Ok ==> {
                &&& final(self).policies@ == old(self).policies@
                &&& final(self).versions@ == old(self).versions@
                &&& final(self).roles@ == old(self).roles@
                &&& final(self).rules@ == old(self).rules@
                &&& final(self).editor_permissions@ == old(self).editor_permissions@
                &&& final(self).next_id == old(self).next_id
                &&& final(self).draft_only_content_edits == old(self).draft_only_content_edits
            },
    {
        let idx = match self.find_binding_by_id(binding_id) {
            Some(i) => i,
            None => {
                return Err(AccessError::NotFound);
            },
        };
        self.bindings.remove(idx);
        proof {
            let bs0 = old(self).bindings@;
            let bs1 = self.bindings@;
            let i = idx as int;
            assert forall|k: int| 0 <= k < bs1.len() implies bs1[k].id < self.next_id
                && has_policy(self.policies@, #[trigger] bs1[k].policy_id) by {
                if k < i {
                    assert(bs1[k] == bs0[k]);
                } else {
                    assert(bs1[k] == bs0[k + 1]);
                }
            }
            assert forall|k1: int, k2: int| 0 <= k1 < k2 < bs1.len() implies bs1[k1].id
                != bs1[k2].id && !(bs1[k1].policy_id == bs1[k2].policy_id && bs1[k1].subject_type
                == bs1[k2].subject_type && bs1[k1].subject_id == bs1[k2].subject_id) by {
                let j1 = if k1 < i { k1 } else { k1 + 1 };
                let j2 = if k2 < i { k2 } else { k2 + 1 };
                assert(bs1[k1] == bs0[j1]);
                assert(bs1[k2] == bs0[j2]);
            }
        }
        Ok(())
    }

    /// Grants a policy to a role, reporting how many binding rows were
    /// written: zero when the binding already existed (a no-op, not an
    /// error), one when it was created. `NotFound` when the policy does
    /// not exist.
    pub fn assign_policy_to_role(&mut self, role_id: u64, policy_id: u64, now: i64) -> (r: Result<
        u64,
        AccessError,
    >)
        requires
            old(self).wf(),
            old(self).next_id < u64::MAX,
        ensures
            final(self).wf(),
            r is Err ==> *final(self) == *old(self) && r == Err::<u64, AccessError>(
                AccessError::NotFound,
            ),
            (r is Err) <==> !has_policy(old(self).policies@, policy_id),
            r matches Ok(n) ==> (n == 0 || n == 1) && ((n == 1) <==> !has_binding(
                old(self).bindings@,
                policy_id,
                Subject::Role,
                role_id,
            )),
            r == Ok::<u64, AccessError>(0) ==> *final(self) == *old(self),
            r == Ok::<u64, AccessError>(1) ==> {
                &&& final(self).bindings@ == old(self).bindings@.push(
                    (PolicyBinding {
                        id: old(self).next_id,
                        policy_id,
                        subject_type: Subject::Role,
                        subject_id: role_id,
                        created_at: now,
                    }),
                )
                &&& final(self).next_id == old(self).next_id + 1
                &&& final(self).policies@ == old(self).policies@
                &&& final(self).versions@ == old(self).versions@
                &&& final(self).roles@ == old(self).roles@
                &&& final(self).rules@ == old(self).rules@
                &&& final(self).editor_permissions@ == old(self).editor_permissions@
                &&& final(self).draft_only_content_edits == old(self).draft_only_content_edits
            },
    {
        if self.find_policy(policy_id).is_none() {
            return Err(AccessError::NotFound);
        }
        if self.find_binding(policy_id, Subject::Role, role_id).is_some() {
            return Ok(0);
        }
        let bound = self.bind(policy_id, Subject::Role, role_id, now);
        Ok(1)
    }

    /// Revokes a policy from a role, reporting how many binding rows
    /// were deleted (zero when none existed).
    pub fn remove_policy_from_role(&mut self, role_id: u64, policy_id: u64) -> (affected: u64)
        requires
            old(self).wf(),
        ensures
            final(self).wf(),
            affected <= 1,
            (affected == 1) <==> has_binding(
                old(self).bindings@,
                policy_id,
                Subject::Role,
                role_id,
            ),
            affected == 0 ==> *final(self) == *old(self),
            affected == 1 ==> (exists|k: int|
                {
                    &&& 0 <= k < old(self).bindings@.len()
                    &&& binding_keyed(old(self).bindings@[k], policy_id, Subject::Role, role_id)
                    &&& final(self).bindings@ == old(self).bindings@.remove(k)
                }),
            affected == 1 ==> {
                &&& final(self).policies@ == old(self).policies@
                &&& final(self).versions@ == old(self).versions@
                &&& final(self).roles@ == old(self).roles@
                &&& final(self).rules@ == old(self).rules@
                &&& final(self).editor_permissions@ == old(self).editor_permissions@
                &&& final(self).next_id == old(self).next_id
                &&& final(self).draft_only_content_edits == old(self).draft_only_content_edits
            },
    {
        let idx = match self.find_binding(policy_id, Subject::Role, role_id) {
            Some(i) => i,
            None => {
                return 0;
            },
        };
        self.bindings.remove(idx);
        proof {
            let bs0 = old(self).bindings@;
            let bs1 = self.bindings@;
            let i = idx as int;
            assert forall|k: int| 0 <= k < bs1.len() implies bs1[k].id < self.next_id
                && has_policy(self.policies@, #[trigger] bs1[k].policy_id) by {
                if k < i {
                    assert(bs1[k] == bs0[k]);
                } else {
                    assert(bs1[k] == bs0[k + 1]);
                }
            }
            assert forall|k1: int, k2: int| 0 <= k1 < k2 < bs1.len() implies bs1[k1].id
                != bs1[k2].id && !(bs1[k1].policy_id == bs1[k2].policy_id && bs1[k1].subject_type
                == bs1[k2].subject_type && bs1[k1].subject_id == bs1[k2].subject_id) by {
                let j1 = if k1 < i { k1 } else { k1 + 1 };
                let j2 = if k2 < i { k2 } else { k2 + 1 };
                assert(bs1[k1] == bs0[j1]);
                assert(bs1[k2] == bs0[j2]);
            }
        }
        1
    }

    /// Delegates edit rights on a policy to roles at or above a
    /// privilege floor, idempotently: one row written for a new
    /// `(policy_id, role_level)` pair, zero for an existing one.
    /// `NotFound` when the policy does not exist.
    pub fn set_policy_editor_level(&mut self, policy_id: u64, payload: &SetEditorPayload) -> (r:
        Result<u64, AccessError>)
        requires
            old(self).wf(),
        ensures
            final(self).wf(),
            r is Err ==> *final(self) == *old(self) && r == Err::<u64, AccessError>(
                AccessError::NotFound,
            ),
            (r is Err) <==> !has_policy(old(self).policies@, policy_id),
            r matches Ok(n) ==> (n == 0 || n == 1) && ((n == 1) <==> !perm_present(
                old(self).editor_permissions@,
                policy_id,
                payload.role_level,
            )) && perm_present(final(self).editor_permissions@, policy_id, payload.role_level),
            r == Ok::<u64, AccessError>(0) ==> *final(self) == *old(self),
            r == Ok::<u64, AccessError>(1) ==> {
                &&& final(self).editor_permissions@ == old(self).editor_permissions@.push(
                    (PolicyEditorPermission { policy_id, role_level: payload.role_level }),
                )
                &&& final(self).policies@ == old(self).policies@
                &&& final(self).versions@ == old(self).versions@
                &&& final(self).roles@ == old(self).roles@
                &&& final(self).rules@ == old(self).rules@
                &&& final(self).bindings@ == old(self).bindings@
                &&& final(self).next_id == old(self).next_id
                &&& final(self).draft_only_content_edits == old(self).draft_only_content_edits
            },
    {
        if self.find_policy(policy_id).is_none() {
            return Err(AccessError::NotFound);
        }
        if self.find_permission(policy_id, payload.role_level).is_some() {
            return Ok(0);
        }
        self.editor_permissions.push(
            PolicyEditorPermission { policy_id, role_level: payload.role_level },
        );
        proof {
            let qs = self.editor_permissions@;
            assert(qs[qs.len() - 1].policy_id == policy_id && qs[qs.len() - 1].role_level
                == payload.role_level);
        }
        Ok(1)
    }

    /// Deletes a policy, cascading its rules, bindings, editor
    /// delegations and version history. Reports one affected row, or
    /// zero when the policy does not exist.
    pub fn delete_policy(&mut self, id: u64) -> (affected: u64)
        requires
            old(self).wf(),
        ensures
            final(self).wf(),
            affected <= 1,
            (affected == 1) <==> has_policy(old(self).policies@, id),
            affected == 0 ==> *final(self) == *old(self),
            affected == 1 ==> {
                &&& final(self).policies@ == old(self).policies@.remove(
                    idx_of_policy(old(self).policies@, id),
                )
                &&& final(self).versions@ == old(self).versions@.filter(
                    |x: PolicyVersion| x.policy_id != id,
                )
                &&& final(self).rules@ == old(self).rules@.filter(
                    |x: PolicyRule| x.policy_id != id,
                )
                &&& final(self).bindings@ == old(self).bindings@.filter(
                    |x: PolicyBinding| x.policy_id != id,
                )
                &&& final(self).editor_permissions@ == old(self).editor_permissions@.filter(
                    |x: PolicyEditorPermission| x.policy_id != id,
                )
                &&& final(self).roles@ == old(self).roles@
                &&& final(self).next_id == old(self).next_id
                &&& final(self).draft_only_content_edits == old(self).draft_only_content_edits
            },
    {
        let idx = match self.find_policy(id) {
            Some(i) => i,
            None => {
                return 0;
            },
        };
        proof {
            lemma_policy_at(self.policies@, idx as int);
        }
        self.policies.remove(idx);
        let ghost mid = *self;

        let mut kept_versions: Vec<PolicyVersion> = Vec::new();
        let nv = self.versions.len();
        for i in 0..nv
            invariant
                *self == mid,
                nv == self.versions@.len(),
                kept_versions@ == self.versions@.take(i as int).filter(
                    |x: PolicyVersion| x.policy_id != id,
                ),
        {
            if self.versions[i].policy_id != id {
                kept_versions.push(self.versions[i].clone());
            }
            proof {
                lemma_filter_take_step(
                    self.versions@,
                    |x: PolicyVersion| x.policy_id != id,
                    i as int,
                );
            }
        }
        proof {
            assert(self.versions@.take(nv as int) =~= self.versions@);
        }

        let mut kept_rules: Vec<PolicyRule> = Vec::new();
        let nr = self.rules.len();
        for i in 0..nr
            invariant
                *self == mid,
                nr == self.rules@.len(),
                kept_rules@ == self.rules@.take(i as int).filter(
                    |x: PolicyRule| x.policy_id != id,
                ),
        {
            if self.rules[i].policy_id != id {
                kept_rules.push(self.rules[i].clone());
            }
            proof {
                lemma_filter_take_step(self.rules@, |x: PolicyRule| x.policy_id != id, i as int);
            }
        }
        proof {
            assert(self.rules@.take(nr as int) =~= self.rules@);
        }

        let mut kept_bindings: Vec<PolicyBinding> = Vec::new();
        let nb = self.bindings.len();
        for i in 0..nb
            invariant
                *self == mid,
                nb == self.bindings@.len(),
                kept_bindings@ == self.bindings@.take(i as int).filter(
                    |x: PolicyBinding| x.policy_id != id,
                ),
        {
            if self.bindings[i].policy_id != id {
                kept_bindings.push(self.bindings[i]);
            }
            proof {
                lemma_filter_take_step(
                    self.bindings@,
                    |x: PolicyBinding| x.policy_id != id,
                    i as int,
                );
            }
        }
        proof {
            assert(self.bindings@.take(nb as int) =~= self.bindings@);
        }

        let mut kept_permissions: Vec<PolicyEditorPermission> = Vec::new();
        let nq = self.editor_permissions.len();
        for i in 0..nq
            invariant
                *self == mid,
                nq == self.editor_permissions@.len(),
                kept_permissions@ == self.editor_permissions@.take(i as int).filter(
                    |x: PolicyEditorPermission| x.policy_id != id,
                ),
        {
            if self.editor_permissions[i].policy_id != id {
                kept_permissions.push(self.editor_permissions[i]);
            }
            proof {
                lemma_filter_take_step(
                    self.editor_permissions@,
                    |x: PolicyEditorPermission| x.policy_id != id,
                    i as int,
                );
            }
        }
        proof {
            assert(self.editor_permissions@.take(nq as int) =~= self.editor_permissions@);
        }

        self.versions = kept_versions;
        self.rules = kept_rules;
        self.bindings = kept_bindings;
        self.editor_permissions = kept_permissions;
        proof {
            lemma_wf_after_delete(*old(self), *self, id);
        }
        1
    }

    /// Adds a role to the reference data, returning the stored row.
    pub fn add_role(&mut self, name: String, level: i32, description: Option<String>, now: i64)
        -> (role: Role)
        requires
            old(self).wf(),
            old(self).next_id < u64::MAX,
        ensures
            final(self).wf(),
            role == (Role { id: old(self).next_id, name, level, description, created_at: now }),
            final(self).roles@ == old(self).roles@.push(role),
            final(self).next_id == old(self).next_id + 1,
            final(self).policies@ == old(self).policies@,
            final(self).versions@ == old(self).versions@,
            final(self).rules@ == old(self).rules@,
            final(self).bindings@ == old(self).bindings@,
            final(self).editor_permissions@ == old(self).editor_permissions@,
            final(self).draft_only_content_edits == old(self).draft_only_content_edits,
    {
        let role = Role { id: self.next_id, name, level, description, created_at: now };
        let returned = role.clone();
        self.next_id = self.next_id + 1;
        self.roles.push(role);
        returned
    }

    /// All roles, most privileged first: the same rows the store holds,
    /// ordered by ascending level.
    pub fn list_roles(&self) -> (r: Vec<Role>)
        ensures
            r@.to_multiset() == self.roles@.to_multiset(),
            forall|a: int, b: int| 0 <= a < b < r@.len() ==> r@[a].level <= r@[b].level,
    {
        let mut rest: Vec<Role> = Vec::new();
        let n = self.roles.len();
        for i in 0..n
            invariant
                n == self.roles@.len(),
                rest@ == self.roles@.take(i as int),
        {
            rest.push(self.roles[i].clone());
            proof {
                assert(self.roles@.take(i + 1) =~= self.roles@.take(i as int).push(
                    self.roles@[i as int],
                ));
            }
        }
        proof {
            assert(self.roles@.take(n as int) =~= self.roles@);
            rest@.to_multiset_ensures();
        }
        let mut out: Vec<Role> = Vec::new();
        proof {
            out@.to_multiset_ensures();
            vstd::multiset::lemma_multiset_empty_len(out@.to_multiset());
            assert(out@.to_multiset().add(rest@.to_multiset()) =~= rest@.to_multiset());
        }
        while rest.len() > 0
            invariant
                out@.to_multiset().add(rest@.to_multiset()) == self.roles@.to_multiset(),
                forall|a: int, b: int| 0 <= a < b < out@.len() ==> out@[a].level <= out@[b].level,
                forall|a: int, b: int|
                    0 <= a < out@.len() && 0 <= b < rest@.len() ==> out@[a].level
                        <= rest@[b].level,
            decreases rest@.len(),
        {
            let len = rest.len();
            let mut m: usize = 0;
            for k in 1..len
                invariant
                    len == rest@.len(),
                    m < k <= len,
                    forall|j: int|
                        0 <= j < k ==> rest@[m as int].level <= rest@[j].level,
            {
                if rest[k].level < rest[m].level {
                    m = k;
                }
            }
            let ghost o0 = out@;
            let ghost r0 = rest@;
            let x = rest.remove(m);
            out.push(x);
            proof {
                o0.to_multiset_ensures();
                r0.to_multiset_ensures();
                assert(r0.to_multiset().count(r0[m as int]) > 0) by {
                    assert(r0.contains(r0[m as int]));
                }
                assert(out@.to_multiset().add(rest@.to_multiset())
                    =~= o0.to_multiset().add(r0.to_multiset()));
                assert forall|a: int, b: int|
                    0 <= a < out@.len() && 0 <= b < rest@.len() implies out@[a].level
                    <= rest@[b].level by {
                    let b0 = if b < m as int { b } else { b + 1 };
                    assert(rest@[b] == r0[b0]);
                }
            }
        }
        proof {
            rest@.to_multiset_ensures();
            assert(out@.to_multiset().add(rest@.to_multiset()) =~= out@.to_multiset());
        }
        out
    }

    /// All policies: the same rows the store holds, ordered by the
    /// ascending human-facing policy number.
    pub fn list_policies(&self) -> (r: Vec<Policy>)
        ensures
            r@.to_multiset() == self.policies@.to_multiset(),
            forall|a: int, b: int|
                0 <= a < b < r@.len() ==> r@[a].policy_number <= r@[b].policy_number,
    {
        let mut rest: Vec<Policy> = Vec::new();
        let n = self.policies.len();
        for i in 0..n
            invariant
                n == self.policies@.len(),
                rest@ == self.policies@.take(i as int),
        {
            rest.push(self.policies[i].clone());
            proof {
                assert(self.policies@.take(i + 1) =~= self.policies@.take(i as int).push(
                    self.policies@[i as int],
                ));
            }
        }
        proof {
            assert(self.policies@.take(n as int) =~= self.policies@);
            rest@.to_multiset_ensures();
        }
        let mut out: Vec<Policy> = Vec::new();
        proof {
            out@.to_multiset_ensures();
            vstd::multiset::lemma_multiset_empty_len(out@.to_multiset());
            assert(out@.to_multiset().add(rest@.to_multiset()) =~= rest@.to_multiset());
        }
        while rest.len() > 0
            invariant
                out@.to_multiset().add(rest@.to_multiset()) == self.policies@.to_multiset(),
                forall|a: int, b: int|
                    0 <= a < b < out@.len() ==> out@[a].policy_number <= out@[b].policy_number,
                forall|a: int, b: int|
                    0 <= a < out@.len() && 0 <= b < rest@.len() ==> out@[a].policy_number
                        <= rest@[b].policy_number,
            decreases rest@.len(),
        {
            let len = rest.len();
            let mut m: usize = 0;
            for k in 1..len
                invariant
                    len == rest@.len(),
                    m < k <= len,
                    forall|j: int|
                        0 <= j < k ==> rest@[m as int].policy_number <= rest@[j].policy_number,
            {
                if rest[k].policy_number < rest[m].policy_number {
                    m = k;
                }
            }
            let ghost o0 = out@;
            let ghost r0 = rest@;
            let x = rest.remove(m);
            out.push(x);
            proof {
                o0.to_multiset_ensures();
                r0.to_multiset_ensures();
                assert(r0.to_multiset().count(r0[m as int]) > 0) by {
                    assert(r0.contains(r0[m as int]));
                }
                assert(out@.to_multiset().add(rest@.to_multiset())
                    =~= o0.to_multiset().add(r0.to_multiset()));
                assert forall|a: int, b: int|
                    0 <= a < out@.len() && 0 <= b < rest@.len() implies out@[a].policy_number
                    <= rest@[b].policy_number by {
                    let b0 = if b < m as int { b } else { b + 1 };
                    assert(rest@[b] == r0[b0]);
                }
            }
        }
        proof {
            rest@.to_multiset_ensures();
            assert(out@.to_multiset().add(rest@.to_multiset()) =~= out@.to_multiset());
        }
        out
    }

    /// The policy with this id, if it exists.
    pub fn get_policy(&self, id: u64) -> (r: Option<Policy>)
        requires
            self.wf(),
        ensures
            (r is Some) <==> has_policy(self.policies@, id),
            r matches Some(p) ==> p == spec_policy(self.policies@, id),
    {
        match self.find_policy(id) {
            Some(i) => {
                proof {
                    lemma_policy_at(self.policies@, i as int);
                }
                Some(self.policies[i].clone())
            },
            None => None,
        }
    }

    /// The position of the snapshot row for this policy and version, if
    /// one exists.
    fn find_version(&self, policy_id: u64, version: i32) -> (r: Option<usize>)
        ensures
            match r {
                Some(i) => i < self.versions@.len() && self.versions@[i as int].policy_id
                    == policy_id && self.versions@[i as int].version == version,
                None => !has_version(self.versions@, policy_id, version as int),
            },
    {
        let n = self.versions.len();
        for i in 0..n
            invariant
                n == self.versions@.len(),
                forall|j: int|
                    0 <= j < i ==> !(self.versions@[j].policy_id == policy_id
                        && self.versions@[j].version == version),
        {
            if self.versions[i].policy_id == policy_id && self.versions[i].version == version {
                return Some(i);
            }
        }
        None
    }

    /// A policy's snapshot history, newest version first: exactly one
    /// row per version from `current_version` down to 1, each a row the
    /// store holds. Empty when the policy does not exist.
    pub fn get_policy_versions(&self, policy_id: u64) -> (r: Vec<PolicyVersion>)
        requires
            self.wf(),
        ensures
            !has_policy(self.policies@, policy_id) ==> r@.len() == 0,
            has_policy(self.policies@, policy_id) ==> {
                &&& r@.len() == spec_policy(self.policies@, policy_id).current_version
                &&& forall|k: int|
                    0 <= k < r@.len() ==> (#[trigger] r@[k]).policy_id == policy_id && r@[k].version
                        == spec_policy(self.policies@, policy_id).current_version - k
                &&& forall|k: int|
                    0 <= k < r@.len() ==> exists|j: int|
                        0 <= j < self.versions@.len() && self.versions@[j] == #[trigger] r@[k]
            },
    {
        let idx = match self.find_policy(policy_id) {
            Some(i) => i,
            None => {
                return Vec::new();
            },
        };
        proof {
            lemma_policy_at(self.policies@, idx as int);
        }
        let cv = self.policies[idx].current_version;
        let mut out: Vec<PolicyVersion> = Vec::new();
        let mut v = cv;
        while v >= 1
            invariant
                self.wf(),
                has_policy(self.policies@, policy_id),
                cv == spec_policy(self.policies@, policy_id).current_version,
                0 <= v <= cv,
                out@.len() == cv - v,
                forall|k: int|
                    0 <= k < out@.len() ==> (#[trigger] out@[k]).policy_id == policy_id
                        && out@[k].version == cv - k,
                forall|k: int|
                    0 <= k < out@.len() ==> exists|j: int|
                        0 <= j < self.versions@.len() && self.versions@[j] == #[trigger] out@[k],
            decreases v,
        {
            proof {
                let i = idx_of_policy(self.policies@, policy_id);
                assert(has_version(self.versions@, self.policies@[i].id, v as int));
            }
            let row_idx = self.find_version(policy_id, v).unwrap();
            out.push(self.versions[row_idx].clone());
            v = v - 1;
        }
        out
    }

    /// The policies granted to a role through bindings, in storage order.
    pub fn list_policies_for_role(&self, role_id: u64) -> (r: Vec<Policy>)
        ensures
            r@ == self.policies@.filter(
                |p: Policy| has_binding(self.bindings@, p.id, Subject::Role, role_id),
            ),
    {
        let mut out: Vec<Policy> = Vec::new();
        let n = self.policies.len();
        for i in 0..n
            invariant
                n == self.policies@.len(),
                out@ == self.policies@.take(i as int).filter(
                    |p: Policy| has_binding(self.bindings@, p.id, Subject::Role, role_id),
                ),
        {
            if self.find_binding(self.policies[i].id, Subject::Role, role_id).is_some() {
                out.push(self.policies[i].clone());
            }
            proof {
                lemma_filter_take_step(
                    self.policies@,
                    |p: Policy| has_binding(self.bindings@, p.id, Subject::Role, role_id),
                    i as int,
                );
            }
        }
        proof {
            assert(self.policies@.take(n as int) =~= self.policies@);
        }
        out
    }
}

} // verus!
