//! Laws of the abstract transitions: statements that hold of every state
//! and every input, proved once and for all rather than sampled by tests.

use vstd::prelude::*;

use crate::state::{
    fresh_user, grant_role, new_record, spec_create_record, spec_create_record_result,
    spec_get_records_result, spec_records_of, spec_register_user, spec_switch_role,
    spec_switch_role_result, state_inv, user_ok, StateView,
};
use crate::types::{AccessError, Identity, RecordView, UserRole};

verus! {

/// Registration keeps the state invariant: the stored profiles stay
/// consistent and the ledger is untouched.
pub proof fn lemma_register_user_preserves_inv(
    s: StateView,
    caller: Identity,
    name: Seq<char>,
    role: UserRole,
    now: u64,
)
    requires
        state_inv(s),
    ensures
        state_inv(spec_register_user(s, caller, name, role, now)),
{
    let s2 = spec_register_user(s, caller, name, role, now);
    let u2 = s2.users[caller];
    if s.users.contains_key(caller) {
        let u0 = s.users[caller];
        assert(user_ok(u0));
        if u0.roles.contains(role) {
            assert(u2 == u0);
        } else {
            let roles2 = u0.roles.push(role);
            let w = choose|w: int| 0 <= w < u0.roles.len() && u0.roles[w] == u0.active_role;
            assert(roles2[w] == u0.active_role);
            assert(roles2.contains(u0.active_role));
            assert forall|i: int, j: int| 0 <= i < j < roles2.len() implies roles2[i]
                != roles2[j] by {
                if j == u0.roles.len() {
                    assert(roles2[i] == u0.roles[i]);
                    assert(u0.roles[i] != role);
                }
            }
            assert(user_ok(u2));
        }
    } else {
        assert(u2 == fresh_user(name, role, now));
        assert(u2.roles[0] == role);
        assert(u2.roles.contains(role));
        assert(user_ok(u2));
    }
    assert forall|k: Identity| #[trigger] s2.users.contains_key(k) implies user_ok(
        s2.users[k],
    ) by {
        if k != caller {
            assert(s.users.contains_key(k));
        }
    }
}

/// Switching roles keeps the state invariant: on success the new active
/// role is one that was granted, and nothing else moves.
pub proof fn lemma_switch_role_preserves_inv(s: StateView, caller: Identity, role: UserRole)
    requires
        state_inv(s),
    ensures
        state_inv(spec_switch_role(s, caller, role)),
{
    let s2 = spec_switch_role(s, caller, role);
    if spec_switch_role_result(s, caller, role) is Ok {
        let u0 = s.users[caller];
        assert(user_ok(u0));
        assert(user_ok(s2.users[caller]));
        assert forall|k: Identity| #[trigger] s2.users.contains_key(k) implies user_ok(
            s2.users[k],
        ) by {
            if k != caller {
                assert(s.users.contains_key(k));
            }
        }
    }
}

/// Writing a record keeps the state invariant: the appended entry lies
/// under its own patient's key, and the registry is untouched.
pub proof fn lemma_create_record_preserves_inv(
    s: StateView,
    caller: Identity,
    patient_id: Identity,
    diagnosis: Seq<char>,
    medication: Seq<char>,
    notes: Seq<char>,
    now: u64,
)
    requires
        state_inv(s),
    ensures
        state_inv(spec_create_record(s, caller, patient_id, diagnosis, medication, notes, now)),
{
    let s2 = spec_create_record(s, caller, patient_id, diagnosis, medication, notes, now);
    if spec_create_record_result(s, caller) is Ok {
        let seq2 = spec_records_of(s, patient_id).push(
            new_record(caller, patient_id, diagnosis, medication, notes, now),
        );
        assert forall|k: Identity, i: int|
            s2.records.contains_key(k) && 0 <= i < s2.records[k].len() implies (
        #[trigger] s2.records[k][i]).patient_id == k by {
            if k == patient_id {
                if i < seq2.len() - 1 {
                    assert(s.records.contains_key(patient_id));
                    assert(seq2[i] == s.records[patient_id][i]);
                }
            } else {
                assert(s.records.contains_key(k));
                assert(s2.records[k][i] == s.records[k][i]);
            }
        }
    }
}

/// Registering the same identity twice with two different roles merges
/// both into the role set and leaves the first registration's name,
/// active role and registration date untouched.
pub proof fn lemma_register_twice_merges_roles(
    s: StateView,
    id: Identity,
    name1: Seq<char>,
    role1: UserRole,
    time1: u64,
    name2: Seq<char>,
    role2: UserRole,
    time2: u64,
)
    requires
        !s.users.contains_key(id),
        role1 != role2,
    ensures
        ({
            let s2 = spec_register_user(
                spec_register_user(s, id, name1, role1, time1),
                id,
                name2,
                role2,
                time2,
            );
            &&& s2.users.contains_key(id)
            &&& s2.users[id].roles.contains(role1)
            &&& s2.users[id].roles.contains(role2)
            &&& s2.users[id].active_role == role1
            &&& s2.users[id].registered_date == time1
            &&& s2.users[id].name == name1
        }),
{
    let s1 = spec_register_user(s, id, name1, role1, time1);
    let u1 = fresh_user(name1, role1, time1);
    assert(s1.users[id] == u1);
    assert(u1.roles[0] == role1);
    assert(!u1.roles.contains(role2)) by {
        if u1.roles.contains(role2) {
            let w = choose|w: int| 0 <= w < u1.roles.len() && u1.roles[w] == role2;
            assert(u1.roles[w] == role1);
        }
    }
    let u2 = grant_role(u1, role2);
    assert(u2.roles == u1.roles.push(role2));
    assert(u2.roles[0] == role1);
    assert(u2.roles[1] == role2);
    assert(u2.roles.contains(role1));
    assert(u2.roles.contains(role2));
}

/// Role grants are one-way: a repeated registration only ever adds a
/// role. The name, the active role and the registration date are
/// immutable once set, and no role already granted is ever removed.
pub proof fn lemma_repeated_registration_only_adds_role(
    s: StateView,
    caller: Identity,
    name: Seq<char>,
    role: UserRole,
    now: u64,
)
    requires
        s.users.contains_key(caller),
    ensures
        ({
            let u0 = s.users[caller];
            let u2 = spec_register_user(s, caller, name, role, now).users[caller];
            &&& u2.name == u0.name
            &&& u2.active_role == u0.active_role
            &&& u2.registered_date == u0.registered_date
            &&& u2.roles.contains(role)
            &&& forall|r: UserRole| u0.roles.contains(r) ==> u2.roles.contains(r)
        }),
{
    let u0 = s.users[caller];
    let u2 = grant_role(u0, role);
    if !u0.roles.contains(role) {
        assert(u2.roles[u0.roles.len() as int] == role);
        assert(u2.roles.contains(role));
    }
    assert forall|r: UserRole| u0.roles.contains(r) implies u2.roles.contains(r) by {
        let w = choose|w: int| 0 <= w < u0.roles.len() && u0.roles[w] == r;
        assert(u2.roles[w] == r);
    }
}

/// Switching to a granted role succeeds and changes exactly the active
/// role: the role set, the rest of the profile, every other user and the
/// whole ledger stay as they were.
pub proof fn lemma_switch_role_granted(s: StateView, caller: Identity, role: UserRole)
    requires
        s.users.contains_key(caller),
        s.users[caller].roles.contains(role),
    ensures
        spec_switch_role_result(s, caller, role) == Ok::<(), AccessError>(()),
        ({
            let s2 = spec_switch_role(s, caller, role);
            &&& s2.users[caller].active_role == role
            &&& s2.users[caller].roles == s.users[caller].roles
            &&& s2.users[caller].name == s.users[caller].name
            &&& s2.users[caller].registered_date == s.users[caller].registered_date
            &&& forall|k: Identity|
                k != caller ==> (s2.users.contains_key(k) == s.users.contains_key(k) && (
                s.users.contains_key(k) ==> s2.users[k] == s.users[k]))
            &&& s2.records == s.records
        }),
{
}

/// Switching to a role the identity never registered always fails —
/// with `UserNotFound` for a missing entry, `RoleNotGranted` otherwise —
/// and mutates nothing, the active role in particular.
pub proof fn lemma_switch_role_ungranted_unchanged(s: StateView, id: Identity, role: UserRole)
    requires
        s.users.contains_key(id) ==> !s.users[id].roles.contains(role),
    ensures
        spec_switch_role_result(s, id, role) is Err,
        spec_switch_role(s, id, role) == s,
{
}

/// Whether a record may be written depends on the caller's active role
/// alone: a doctor-active caller succeeds, a patient-active caller is
/// refused, even one that also holds the doctor role without it being
/// active. The target patient identity plays no part in the rule.
pub proof fn lemma_create_record_authorization(s: StateView, caller: Identity)
    requires
        s.users.contains_key(caller),
    ensures
        s.users[caller].active_role == UserRole::Doctor ==> spec_create_record_result(s, caller)
            == Ok::<(), AccessError>(()),
        s.users[caller].active_role == UserRole::Patient ==> spec_create_record_result(s, caller)
            == Err::<(), AccessError>(AccessError::NotAuthorized),
{
}

/// On success a record lands at the end of the target patient's history —
/// and only there: every other history and the whole registry stay as
/// they were. Histories therefore keep creation order.
pub proof fn lemma_create_record_appends(
    s: StateView,
    caller: Identity,
    patient_id: Identity,
    diagnosis: Seq<char>,
    medication: Seq<char>,
    notes: Seq<char>,
    now: u64,
)
    requires
        spec_create_record_result(s, caller) is Ok,
    ensures
        ({
            let s2 = spec_create_record(s, caller, patient_id, diagnosis, medication, notes, now);
            &&& spec_records_of(s2, patient_id) == spec_records_of(s, patient_id).push(
                new_record(caller, patient_id, diagnosis, medication, notes, now),
            )
            &&& forall|q: Identity|
                q != patient_id ==> spec_records_of(s2, q) == spec_records_of(s, q)
            &&& s2.users == s.users
        }),
{
}

/// A patient-active caller always reads their own history; what comes
/// back is exactly the stored sequence.
pub proof fn lemma_patient_reads_own_records(s: StateView, id: Identity)
    requires
        s.users.contains_key(id),
        s.users[id].active_role == UserRole::Patient,
    ensures
        spec_get_records_result(s, id, id) == Ok::<(), AccessError>(()),
{
}

/// A patient-active caller is refused any other identity's history.
pub proof fn lemma_patient_cannot_read_others(s: StateView, caller: Identity, patient_id: Identity)
    requires
        s.users.contains_key(caller),
        s.users[caller].active_role == UserRole::Patient,
        caller != patient_id,
    ensures
        spec_get_records_result(s, caller, patient_id) == Err::<(), AccessError>(
            AccessError::NotAuthorized,
        ),
{
}

/// A patient for whom no history was ever started reads as the empty
/// sequence; absence of records is never a failure, since the access rule
/// does not look at the ledger at all.
pub proof fn lemma_get_records_absent_patient_empty(
    s: StateView,
    caller: Identity,
    patient_id: Identity,
)
    requires
        !s.records.contains_key(patient_id),
    ensures
        spec_records_of(s, patient_id) == Seq::<RecordView>::empty(),
        spec_get_records_result(s, caller, patient_id) == spec_get_records_result(
            StateView { records: Map::empty(), ..s },
            caller,
            patient_id,
        ),
{
}

} // verus!
