//! The data the service stores: identities, roles, user profiles and
//! medical-record entries, together with their mathematical views.

use vstd::prelude::*;

verus! {

/// An opaque caller token, the key of both the user registry and the
/// record ledger. Nothing but equality of identities is ever interpreted.
#[derive(Clone, Copy, PartialEq, Eq, Structural, Debug)]
pub struct Identity(pub u64);

/// A capability an identity may hold. An identity may hold both roles at
/// once, but exactly one of them is active at any time.
#[derive(Clone, Copy, PartialEq, Eq, Structural, Debug)]
pub enum UserRole {
    Patient,
    Doctor,
}

/// Why an operation was refused. Every failure is terminal and leaves the
/// state exactly as it was.
#[derive(Clone, Copy, PartialEq, Eq, Structural, Debug)]
pub enum AccessError {
    /// An identity with no registry entry was used where one was required.
    UserNotFound,
    /// A switch to a role that was never granted to the identity.
    RoleNotGranted,
    /// The caller's active role does not satisfy the operation's access rule.
    NotAuthorized,
}

/// A registered user's profile.
#[derive(Debug)]
pub struct User {
    /// Display name, caller-supplied, with no uniqueness constraint.
    pub name: String,
    /// Granted roles in grant order; semantically a set, never a duplicate.
    pub roles: Vec<UserRole>,
    /// The role the user currently acts under; always an element of `roles`.
    pub active_role: UserRole,
    /// Captured at first registration and immutable afterwards.
    pub registered_date: u64,
}

/// The mathematical value of a [`User`].
#[verifier::ext_equal]
pub struct UserView {
    pub name: Seq<char>,
    pub roles: Seq<UserRole>,
    pub active_role: UserRole,
    pub registered_date: u64,
}

impl View for User {
    type V = UserView;

    open spec fn view(&self) -> UserView {
        UserView {
            name: self.name@,
            roles: self.roles@,
            active_role: self.active_role,
            registered_date: self.registered_date,
        }
    }
}

impl Clone for User {
    fn clone(&self) -> (res: Self)
        ensures
            res@ == self@,
    {
        User {
            name: self.name.clone(),
            roles: clone_roles(&self.roles),
            active_role: self.active_role,
            registered_date: self.registered_date,
        }
    }
}

/// One immutable entry of a patient's history.
#[derive(Debug)]
pub struct MedicalRecord {
    /// The patient the entry belongs to.
    pub patient_id: Identity,
    /// The doctor who wrote the entry.
    pub doctor_id: Identity,
    pub diagnosis: String,
    pub medication: String,
    pub notes: String,
    /// Captured at creation and immutable afterwards.
    pub created_at: u64,
}

/// The mathematical value of a [`MedicalRecord`].
#[verifier::ext_equal]
pub struct RecordView {
    pub patient_id: Identity,
    pub doctor_id: Identity,
    pub diagnosis: Seq<char>,
    pub medication: Seq<char>,
    pub notes: Seq<char>,
    pub created_at: u64,
}

impl View for MedicalRecord {
    type V = RecordView;

    open spec fn view(&self) -> RecordView {
        RecordView {
            patient_id: self.patient_id,
            doctor_id: self.doctor_id,
            diagnosis: self.diagnosis@,
            medication: self.medication@,
            notes: self.notes@,
            created_at: self.created_at,
        }
    }
}

impl Clone for MedicalRecord {
    fn clone(&self) -> (res: Self)
        ensures
            res@ == self@,
    {
        MedicalRecord {
            patient_id: self.patient_id,
            doctor_id: self.doctor_id,
            diagnosis: self.diagnosis.clone(),
            medication: self.medication.clone(),
            notes: self.notes.clone(),
            created_at: self.created_at,
        }
    }
}

/// A copy of a role list, element for element.
pub fn clone_roles(roles: &Vec<UserRole>) -> (res: Vec<UserRole>)
    ensures
        res@ == roles@,
{
    let mut out: Vec<UserRole> = Vec::new();
    let mut k: usize = 0;
    while k < roles.len()
        invariant
            k <= roles.len(),
            out@ == roles@.subrange(0, k as int),
        decreases roles.len() - k,
    {
        out.push(roles[k]);
        proof {
            assert(roles@.subrange(0, k + 1 as int) =~= roles@.subrange(0, k as int).push(
                roles@[k as int],
            ));
        }
        k += 1;
    }
    proof {
        assert(roles@.subrange(0, roles@.len() as int) =~= roles@);
    }
    out
}

/// A copy of a record list, entry for entry; the copies carry the same
/// mathematical values as the originals.
pub fn clone_record_list(records: &Vec<MedicalRecord>) -> (res: Vec<MedicalRecord>)
    ensures
        res@.map_values(|m: MedicalRecord| m@) == records@.map_values(|m: MedicalRecord| m@),
{
    let mut out: Vec<MedicalRecord> = Vec::new();
    let mut k: usize = 0;
    while k < records.len()
        invariant
            k <= records.len(),
            out@.len() == k,
            forall|t: int| 0 <= t < k ==> (#[trigger] out@[t])@ == records@[t]@,
        decreases records.len() - k,
    {
        out.push(records[k].clone());
        k += 1;
    }
    proof {
        assert(out@.map_values(|m: MedicalRecord| m@) =~= records@.map_values(
            |m: MedicalRecord| m@,
        ));
    }
    out
}

/// Whether `role` occurs in a role list.
pub fn roles_contain(roles: &Vec<UserRole>, role: UserRole) -> (granted: bool)
    ensures
        granted == roles@.contains(role),
{
    let mut k: usize = 0;
    while k < roles.len()
        invariant
            k <= roles.len(),
            forall|t: int| 0 <= t < k ==> roles@[t] != role,
        decreases roles.len() - k,
    {
        if roles[k] == role {
            return true;
        }
        k += 1;
    }
    false
}

} // verus!
