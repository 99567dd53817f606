//! The mathematical model of the service: an abstract state, one total
//! transition function per operation, and the access rules the operations
//! are gated by. Every executable operation's contract says that the new
//! concrete state views to exactly the transition applied to the old one.

use vstd::prelude::*;

use crate::types::{AccessError, Identity, RecordView, UserRole, UserView};

verus! {

/// The abstract state: who is registered, and each patient's history.
#[verifier::ext_equal]
pub struct StateView {
    /// The user registry, keyed by caller identity.
    pub users: Map<Identity, UserView>,
    /// The record ledger: each patient's entries in creation order.
    pub records: Map<Identity, Seq<RecordView>>,
}

impl StateView {
    /// The state before anything was registered.
    pub open spec fn empty() -> StateView {
        StateView { users: Map::empty(), records: Map::empty() }
    }
}

/// A stored profile is internally consistent: the active role is granted,
/// and no role is granted twice.
pub open spec fn user_ok(u: UserView) -> bool {
    &&& u.roles.contains(u.active_role)
    &&& forall|i: int, j: int| 0 <= i < j < u.roles.len() ==> u.roles[i] != u.roles[j]
}

/// The state invariant: every profile is consistent, and every stored
/// record lies under its own patient's key.
pub open spec fn state_inv(s: StateView) -> bool {
    &&& forall|k: Identity| #[trigger] s.users.contains_key(k) ==> user_ok(s.users[k])
    &&& forall|k: Identity, i: int|
        s.records.contains_key(k) && 0 <= i < s.records[k].len() ==> (
        #[trigger] s.records[k][i]).patient_id == k
}

/// The profile after a repeated registration: the role is added if it was
/// absent; name, active role and registration date stay untouched.
pub open spec fn grant_role(u: UserView, role: UserRole) -> UserView {
    UserView {
        roles: if u.roles.contains(role) {
            u.roles
        } else {
            u.roles.push(role)
        },
        ..u
    }
}

/// The profile created by a first registration: one granted role, which is
/// also the active one.
pub open spec fn fresh_user(name: Seq<char>, role: UserRole, now: u64) -> UserView {
    UserView { name, roles: seq![role], active_role: role, registered_date: now }
}

/// State after `register_user`: merge the role into an existing entry, or
/// create a fresh one. Registration never fails.
pub open spec fn spec_register_user(
    s: StateView,
    caller: Identity,
    name: Seq<char>,
    role: UserRole,
    now: u64,
) -> StateView {
    if s.users.contains_key(caller) {
        StateView { users: s.users.insert(caller, grant_role(s.users[caller], role)), ..s }
    } else {
        StateView { users: s.users.insert(caller, fresh_user(name, role, now)), ..s }
    }
}

/// Whether `switch_role` succeeds, and with which error it fails: the
/// caller must be registered and must hold the requested role.
pub open spec fn spec_switch_role_result(s: StateView, caller: Identity, role: UserRole) -> Result<
    (),
    AccessError,
> {
    if !s.users.contains_key(caller) {
        Err(AccessError::UserNotFound)
    } else if !s.users[caller].roles.contains(role) {
        Err(AccessError::RoleNotGranted)
    } else {
        Ok(())
    }
}

/// State after `switch_role`: the active role changes on success and
/// nothing changes on failure.
pub open spec fn spec_switch_role(s: StateView, caller: Identity, role: UserRole) -> StateView {
    if spec_switch_role_result(s, caller, role) is Ok {
        StateView {
            users: s.users.insert(caller, UserView { active_role: role, ..s.users[caller] }),
            ..s
        }
    } else {
        s
    }
}

/// The access rule for writing a record: the caller must be registered and
/// must have `Doctor` as the currently active role. The target patient is
/// not checked at all: any identity may be written for.
pub open spec fn spec_create_record_result(s: StateView, caller: Identity) -> Result<
    (),
    AccessError,
> {
    if !s.users.contains_key(caller) {
        Err(AccessError::UserNotFound)
    } else if s.users[caller].active_role != UserRole::Doctor {
        Err(AccessError::NotAuthorized)
    } else {
        Ok(())
    }
}

/// A patient's history: the stored sequence, or empty if none was started.
pub open spec fn spec_records_of(s: StateView, patient_id: Identity) -> Seq<RecordView> {
    if s.records.contains_key(patient_id) {
        s.records[patient_id]
    } else {
        Seq::empty()
    }
}

/// The entry `create_medical_record` appends on success.
pub open spec fn new_record(
    caller: Identity,
    patient_id: Identity,
    diagnosis: Seq<char>,
    medication: Seq<char>,
    notes: Seq<char>,
    now: u64,
) -> RecordView {
    RecordView { patient_id, doctor_id: caller, diagnosis, medication, notes, created_at: now }
}

/// State after `create_medical_record`: on success the new entry is
/// appended to the patient's history, starting it if necessary; on failure
/// nothing changes.
pub open spec fn spec_create_record(
    s: StateView,
    caller: Identity,
    patient_id: Identity,
    diagnosis: Seq<char>,
    medication: Seq<char>,
    notes: Seq<char>,
    now: u64,
) -> StateView {
    if spec_create_record_result(s, caller) is Ok {
        StateView {
            records: s.records.insert(
                patient_id,
                spec_records_of(s, patient_id).push(
                    new_record(caller, patient_id, diagnosis, medication, notes, now),
                ),
            ),
            ..s
        }
    } else {
        s
    }
}

/// The access rule for reading a patient's history: a doctor-active caller
/// reads anyone's, a patient-active caller only their own.
pub open spec fn spec_get_records_result(
    s: StateView,
    caller: Identity,
    patient_id: Identity,
) -> Result<(), AccessError> {
    if !s.users.contains_key(caller) {
        Err(AccessError::UserNotFound)
    } else if s.users[caller].active_role == UserRole::Doctor {
        Ok(())
    } else if caller == patient_id {
        Ok(())
    } else {
        Err(AccessError::NotAuthorized)
    }
}

} // verus!
