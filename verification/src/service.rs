//! The executable service: a user registry and a record ledger kept as
//! unique-key association vectors, verified against the abstract state in
//! [`crate::state`].

use vstd::prelude::*;

use crate::assoc::{
    assoc_map, has_key, key_at, lemma_assoc_map_entries, lemma_assoc_map_push,
    lemma_assoc_map_swap_remove, unique_keys,
};
use crate::laws::{
    lemma_create_record_preserves_inv, lemma_register_user_preserves_inv,
    lemma_switch_role_preserves_inv,
};
use crate::state::{
    fresh_user, grant_role, new_record, spec_create_record, spec_create_record_result,
    spec_get_records_result, spec_records_of, spec_register_user, spec_switch_role,
    spec_switch_role_result, state_inv, StateView,
};
use crate::types::{
    clone_record_list, roles_contain, AccessError, Identity, MedicalRecord, RecordView, User,
    UserRole, UserView,
};

verus! {

/// The record store. All access goes through the operations below; both
/// tables keep each key at most once.
pub struct MedicalService {
    users: Vec<(Identity, User)>,
    records: Vec<(Identity, Vec<MedicalRecord>)>,
}

impl MedicalService {
    /// The registry as a key/value sequence of mathematical values.
    pub closed spec fn users_kv(self) -> Seq<(Identity, UserView)> {
        self.users@.map_values(|p: (Identity, User)| (p.0, p.1@))
    }

    /// The ledger as a key/value sequence of mathematical values.
    pub closed spec fn records_kv(self) -> Seq<(Identity, Seq<RecordView>)> {
        self.records@.map_values(
            |p: (Identity, Vec<MedicalRecord>)| (p.0, p.1@.map_values(|r: MedicalRecord| r@)),
        )
    }

    /// Well-formed: no key occurs twice in either table, and the abstract
    /// state satisfies its invariant.
    pub closed spec fn wf(self) -> bool {
        &&& unique_keys(self.users_kv())
        &&& unique_keys(self.records_kv())
        &&& state_inv(self@)
    }

    /// An empty service: nobody registered, no histories.
    pub fn new() -> (s: Self)
        ensures
            s.wf(),
            s@ == StateView::empty(),
    {
        let s = MedicalService { users: Vec::new(), records: Vec::new() };
        proof {
            assert(s.users_kv() =~= Seq::<(Identity, UserView)>::empty());
            assert(s.records_kv() =~= Seq::<(Identity, Seq<RecordView>)>::empty());
            assert(s@ =~= StateView::empty());
        }
        s
    }

    /// Register the caller, or merge a further role into an existing
    /// registration. Never fails: a repeated call adds the role if it was
    /// absent and leaves name, active role and registration date alone.
    pub fn register_user(
        &mut self,
        caller: Identity,
        name: String,
        role: UserRole,
        now: u64,
    ) -> (r: Result<Identity, AccessError>)
        requires
            old(self).wf(),
        ensures
            final(self).wf(),
            final(self)@ == spec_register_user(old(self)@, caller, name@, role, now),
            r == Ok::<Identity, AccessError>(caller),
    {
        let ghost s0 = *self;
        let ghost nm = name@;
        match self.find_user(caller) {
            Some(i) => {
                proof {
                    lemma_assoc_map_entries(s0.users_kv());
                    lemma_assoc_map_swap_remove(s0.users_kv(), i as int);
                }
                let pair = self.users.swap_remove(i);
                let id = pair.0;
                let mut u = pair.1;
                let ghost u0 = u@;
                let ghost mid = self.users_kv();
                proof {
                    assert(mid =~= s0.users_kv().update(
                        i as int,
                        s0.users_kv().last(),
                    ).drop_last());
                    assert(s0.users_kv()[i as int] == (caller, u0));
                    assert(s0@.users.contains_key(caller));
                    assert(s0@.users[caller] == u0);
                }
                let granted = roles_contain(&u.roles, role);
                if !granted {
                    u.roles.push(role);
                }
                let ghost uv = u@;
                proof {
                    assert(uv == grant_role(u0, role));
                }
                self.users.push((id, u));
                proof {
                    assert(self.users_kv() =~= mid.push((caller, uv)));
                    lemma_assoc_map_push(mid, (caller, uv));
                    assert(self@.users =~= s0@.users.insert(caller, uv));
                    assert(self.records_kv() == s0.records_kv());
                    assert(self@ =~= spec_register_user(s0@, caller, nm, role, now));
                    lemma_register_user_preserves_inv(s0@, caller, nm, role, now);
                }
                Ok(caller)
            },
            None => {
                proof {
                    lemma_assoc_map_entries(s0.users_kv());
                    assert(!s0@.users.contains_key(caller));
                }
                let mut roles: Vec<UserRole> = Vec::new();
                roles.push(role);
                let u = User { name, roles, active_role: role, registered_date: now };
                let ghost uv = u@;
                proof {
                    assert(uv.roles =~= seq![role]);
                    assert(uv =~= fresh_user(nm, role, now));
                }
                self.users.push((caller, u));
                proof {
                    assert(self.users_kv() =~= s0.users_kv().push((caller, uv)));
                    lemma_assoc_map_push(s0.users_kv(), (caller, uv));
                    assert(self.records_kv() == s0.records_kv());
                    assert(self@ =~= spec_register_user(s0@, caller, nm, role, now));
                    lemma_register_user_preserves_inv(s0@, caller, nm, role, now);
                }
                Ok(caller)
            },
        }
    }

    /// Make `role` the caller's active role. Succeeds exactly when the
    /// caller is registered and was granted `role`; fails with
    /// `UserNotFound` or `RoleNotGranted` otherwise, changing nothing.
    pub fn switch_role(&mut self, caller: Identity, role: UserRole) -> (r: Result<
        (),
        AccessError,
    >)
        requires
            old(self).wf(),
        ensures
            final(self).wf(),
            final(self)@ == spec_switch_role(old(self)@, caller, role),
            r == spec_switch_role_result(old(self)@, caller, role),
    {
        let ghost s0 = *self;
        match self.find_user(caller) {
            None => {
                proof {
                    lemma_assoc_map_entries(s0.users_kv());
                    assert(!s0@.users.contains_key(caller));
                }
                Err(AccessError::UserNotFound)
            },
            Some(i) => {
                proof {
                    lemma_assoc_map_entries(s0.users_kv());
                    assert(s0.users_kv()[i as int] == (caller, s0.users@[i as int].1@));
                    assert(s0@.users[caller] == s0.users@[i as int].1@);
                }
                let granted = roles_contain(&self.users[i].1.roles, role);
                if !granted {
                    Err(AccessError::RoleNotGranted)
                } else {
                    proof {
                        lemma_assoc_map_swap_remove(s0.users_kv(), i as int);
                    }
                    let pair = self.users.swap_remove(i);
                    let id = pair.0;
                    let mut u = pair.1;
                    let ghost u0 = u@;
                    let ghost mid = self.users_kv();
                    proof {
                        assert(mid =~= s0.users_kv().update(
                            i as int,
                            s0.users_kv().last(),
                        ).drop_last());
                        assert(u0 == s0@.users[caller]);
                    }
                    u.active_role = role;
                    let ghost uv = u@;
                    proof {
                        assert(uv == UserView { active_role: role, ..u0 });
                    }
                    self.users.push((id, u));
                    proof {
                        assert(self.users_kv() =~= mid.push((caller, uv)));
                        lemma_assoc_map_push(mid, (caller, uv));
                        assert(self@.users =~= s0@.users.insert(caller, uv));
                        assert(self.records_kv() == s0.records_kv());
                        assert(self@ =~= spec_switch_role(s0@, caller, role));
                        lemma_switch_role_preserves_inv(s0@, caller, role);
                    }
                    Ok(())
                }
            },
        }
    }

    /// Append a record to `patient_id`'s history, starting the history if
    /// none exists. Only a registered caller whose active role is `Doctor`
    /// may write; the target patient is accepted unchecked, registered or
    /// not. On failure nothing changes.
    pub fn create_medical_record(
        &mut self,
        caller: Identity,
        patient_id: Identity,
        diagnosis: String,
        medication: String,
        notes: String,
        now: u64,
    ) -> (r: Result<(), AccessError>)
        requires
            old(self).wf(),
        ensures
            final(self).wf(),
            final(self)@ == spec_create_record(
                old(self)@,
                caller,
                patient_id,
                diagnosis@,
                medication@,
                notes@,
                now,
            ),
            r == spec_create_record_result(old(self)@, caller),
    {
        let ghost s0 = *self;
        let ghost dv = diagnosis@;
        let ghost mv = medication@;
        let ghost nv = notes@;
        proof {
            lemma_assoc_map_entries(s0.users_kv());
        }
        match self.find_user(caller) {
            None => {
                proof {
                    assert(!s0@.users.contains_key(caller));
                }
                return Err(AccessError::UserNotFound);
            },
            Some(i) => {
                proof {
                    assert(s0.users_kv()[i as int] == (caller, s0.users@[i as int].1@));
                    assert(s0@.users[caller] == s0.users@[i as int].1@);
                }
                let is_doctor = match self.users[i].1.active_role {
                    UserRole::Doctor => true,
                    UserRole::Patient => false,
                };
                if !is_doctor {
                    return Err(AccessError::NotAuthorized);
                }
            },
        }
        let entry = MedicalRecord {
            patient_id,
            doctor_id: caller,
            diagnosis,
            medication,
            notes,
            created_at: now,
        };
        let ghost ev = entry@;
        proof {
            assert(ev == new_record(caller, patient_id, dv, mv, nv, now));
            lemma_assoc_map_entries(s0.records_kv());
        }
        match self.find_records(patient_id) {
            Some(j) => {
                proof {
                    lemma_assoc_map_swap_remove(s0.records_kv(), j as int);
                }
                let rpair = self.records.swap_remove(j);
                let pid = rpair.0;
                let mut recs = rpair.1;
                let ghost old_list = recs@.map_values(|m: MedicalRecord| m@);
                let ghost mid = self.records_kv();
                proof {
                    assert(mid =~= s0.records_kv().update(
                        j as int,
                        s0.records_kv().last(),
                    ).drop_last());
                    assert(s0.records_kv()[j as int].1 =~= old_list);
                    assert(s0.records_kv()[j as int].0 == patient_id);
                    assert(s0@.records.contains_key(patient_id));
                    assert(s0@.records[patient_id] == old_list);
                }
                recs.push(entry);
                let ghost new_list = recs@.map_values(|m: MedicalRecord| m@);
                proof {
                    assert(new_list =~= old_list.push(ev));
                }
                self.records.push((pid, recs));
                proof {
                    assert(self.records_kv() =~= mid.push((patient_id, new_list)));
                    lemma_assoc_map_push(mid, (patient_id, new_list));
                    assert(self@.records =~= s0@.records.insert(
                        patient_id,
                        spec_records_of(s0@, patient_id).push(ev),
                    ));
                    assert(self.users_kv() == s0.users_kv());
                    assert(self@ =~= spec_create_record(
                        s0@,
                        caller,
                        patient_id,
                        dv,
                        mv,
                        nv,
                        now,
                    ));
                    lemma_create_record_preserves_inv(s0@, caller, patient_id, dv, mv, nv, now);
                }
            },
            None => {
                proof {
                    assert(!s0@.records.contains_key(patient_id));
                }
                let mut recs: Vec<MedicalRecord> = Vec::new();
                recs.push(entry);
                let ghost new_list = recs@.map_values(|m: MedicalRecord| m@);
                proof {
                    assert(new_list =~= Seq::<RecordView>::empty().push(ev));
                }
                self.records.push((patient_id, recs));
                proof {
                    assert(self.records_kv() =~= s0.records_kv().push((patient_id, new_list)));
                    lemma_assoc_map_push(s0.records_kv(), (patient_id, new_list));
                    assert(self.users_kv() == s0.users_kv());
                    assert(self@ =~= spec_create_record(
                        s0@,
                        caller,
                        patient_id,
                        dv,
                        mv,
                        nv,
                        now,
                    ));
                    lemma_create_record_preserves_inv(s0@, caller, patient_id, dv, mv, nv, now);
                }
            },
        }
        Ok(())
    }

    /// Read `patient_id`'s history. A doctor-active caller reads anyone's;
    /// a patient-active caller only their own. An absent history reads as
    /// the empty list, never as a failure.
    pub fn get_medical_records(&self, caller: Identity, patient_id: Identity) -> (r: Result<
        Vec<MedicalRecord>,
        AccessError,
    >)
        requires
            self.wf(),
        ensures
            spec_get_records_result(self@, caller, patient_id) is Ok ==> (r matches Ok(v)
                && v@.map_values(|m: MedicalRecord| m@) == spec_records_of(self@, patient_id)),
            spec_get_records_result(self@, caller, patient_id) matches Err(e) ==> r == Err::<
                Vec<MedicalRecord>,
                AccessError,
            >(e),
    {
        proof {
            lemma_assoc_map_entries(self.users_kv());
            lemma_assoc_map_entries(self.records_kv());
        }
        match self.find_user(caller) {
            None => {
                proof {
                    assert(!self@.users.contains_key(caller));
                }
                return Err(AccessError::UserNotFound);
            },
            Some(i) => {
                proof {
                    assert(self.users_kv()[i as int] == (caller, self.users@[i as int].1@));
                    assert(self@.users[caller] == self.users@[i as int].1@);
                }
                let allowed = match self.users[i].1.active_role {
                    UserRole::Doctor => true,
                    UserRole::Patient => caller == patient_id,
                };
                if !allowed {
                    return Err(AccessError::NotAuthorized);
                }
            },
        }
        match self.find_records(patient_id) {
            Some(j) => {
                proof {
                    assert(self.records_kv()[j as int].0 == patient_id);
                    assert(self@.records.contains_key(patient_id));
                    assert(self@.records[patient_id] == self.records_kv()[j as int].1);
                    assert(self.records_kv()[j as int].1 =~= self.records@[j as int].1@.map_values(
                        |m: MedicalRecord| m@,
                    ));
                }
                let out = clone_record_list(&self.records[j].1);
                Ok(out)
            },
            None => {
                proof {
                    assert(!self@.records.contains_key(patient_id));
                }
                let out: Vec<MedicalRecord> = Vec::new();
                proof {
                    assert(out@.map_values(|m: MedicalRecord| m@) =~= Seq::<RecordView>::empty());
                }
                Ok(out)
            },
        }
    }

    /// Look a user up by identity, without touching anything. Open to any
    /// caller.
    pub fn get_user_info(&self, user_id: Identity) -> (r: Result<(Identity, User), AccessError>)
        requires
            self.wf(),
        ensures
            self@.users.contains_key(user_id) ==> (r matches Ok(p) && p.0 == user_id && p.1@
                == self@.users[user_id]),
            !self@.users.contains_key(user_id) ==> r == Err::<(Identity, User), AccessError>(
                AccessError::UserNotFound,
            ),
    {
        proof {
            lemma_assoc_map_entries(self.users_kv());
        }
        match self.find_user(user_id) {
            Some(i) => {
                proof {
                    assert(self.users_kv()[i as int] == (user_id, self.users@[i as int].1@));
                    assert(self@.users[user_id] == self.users@[i as int].1@);
                }
                let u = self.users[i].1.clone();
                Ok((user_id, u))
            },
            None => Err(AccessError::UserNotFound),
        }
    }

    /// A snapshot of every registration. The order carries no meaning; the
    /// contract pins the entries to the registry exactly, with each
    /// identity listed once.
    pub fn get_all_users(&self) -> (r: Vec<(Identity, User)>)
        requires
            self.wf(),
        ensures
            forall|i: int|
                0 <= i < r@.len() ==> self@.users.contains_key((#[trigger] r@[i]).0) && r@[i].1@
                    == self@.users[r@[i].0],
            forall|k: Identity| #[trigger]
                self@.users.contains_key(k) ==> exists|i: int|
                    0 <= i < r@.len() && (#[trigger] r@[i]).0 == k,
            forall|i: int, j: int| 0 <= i < j < r@.len() ==> (#[trigger] r@[i]).0 != (
            #[trigger] r@[j]).0,
    {
        proof {
            lemma_assoc_map_entries(self.users_kv());
        }
        let mut out: Vec<(Identity, User)> = Vec::new();
        let mut j: usize = 0;
        while j < self.users.len()
            invariant
                j <= self.users.len(),
                out@.len() == j,
                forall|t: int|
                    0 <= t < j ==> (#[trigger] out@[t]).0 == self.users_kv()[t].0 && out@[t].1@
                        == self.users_kv()[t].1,
            decreases self.users.len() - j,
        {
            let id = self.users[j].0;
            let u = self.users[j].1.clone();
            proof {
                assert(self.users_kv()[j as int] == (self.users@[j as int].0, self.users@[j as int].1@));
            }
            out.push((id, u));
            j += 1;
        }
        proof {
            assert forall|i: int| 0 <= i < out@.len() implies self@.users.contains_key(
                (#[trigger] out@[i]).0,
            ) && out@[i].1@ == self@.users[out@[i].0] by {
                assert(key_at(self.users_kv(), out@[i].0, i));
            }
            assert forall|k: Identity| #[trigger] self@.users.contains_key(k) implies exists|i: int|
                0 <= i < out@.len() && (#[trigger] out@[i]).0 == k by {
                let i = choose|i: int| key_at(self.users_kv(), k, i);
                assert(out@[i].0 == k);
            }
        }
        out
    }

    /// The caller's currently active role, or `UserNotFound` for an
    /// unregistered caller.
    pub fn get_active_role(&self, caller: Identity) -> (r: Result<UserRole, AccessError>)
        requires
            self.wf(),
        ensures
            r == (if self@.users.contains_key(caller) {
                Ok::<UserRole, AccessError>(self@.users[caller].active_role)
            } else {
                Err::<UserRole, AccessError>(AccessError::UserNotFound)
            }),
    {
        proof {
            lemma_assoc_map_entries(self.users_kv());
        }
        match self.find_user(caller) {
            Some(i) => {
                proof {
                    assert(self.users_kv()[i as int] == (caller, self.users@[i as int].1@));
                    assert(self@.users[caller] == self.users@[i as int].1@);
                }
                Ok(self.users[i].1.active_role)
            },
            None => Err(AccessError::UserNotFound),
        }
    }

    /// The position of `id` in the registry, if it is registered.
    fn find_user(&self, id: Identity) -> (r: Option<usize>)
        ensures
            match r {
                Some(i) => key_at(self.users_kv(), id, i as int),
                None => !has_key(self.users_kv(), id),
            },
    {
        let mut j: usize = 0;
        while j < self.users.len()
            invariant
                j <= self.users.len(),
                forall|t: int| 0 <= t < j ==> (#[trigger] self.users@[t]).0 != id,
            decreases self.users.len() - j,
        {
            if self.users[j].0 == id {
                return Some(j);
            }
            j += 1;
        }
        proof {
            assert forall|i: int| 0 <= i < self.users_kv().len() implies (
            #[trigger] self.users_kv()[i]).0 != id by {
                assert(self.users_kv()[i].0 == self.users@[i].0);
            }
        }
        None
    }

    /// The position of `id` in the ledger, if a history was started for it.
    fn find_records(&self, id: Identity) -> (r: Option<usize>)
        ensures
            match r {
                Some(i) => key_at(self.records_kv(), id, i as int),
                None => !has_key(self.records_kv(), id),
            },
    {
        let mut j: usize = 0;
        while j < self.records.len()
            invariant
                j <= self.records.len(),
                forall|t: int| 0 <= t < j ==> (#[trigger] self.records@[t]).0 != id,
            decreases self.records.len() - j,
        {
            if self.records[j].0 == id {
                return Some(j);
            }
            j += 1;
        }
        proof {
            assert forall|i: int| 0 <= i < self.records_kv().len() implies (
            #[trigger] self.records_kv()[i]).0 != id by {
                assert(self.records_kv()[i].0 == self.records@[i].0);
            }
        }
        None
    }
}

impl View for MedicalService {
    type V = StateView;

    closed spec fn view(&self) -> StateView {
        StateView { users: assoc_map(self.users_kv()), records: assoc_map(self.records_kv()) }
    }
}

} // verus!
