use medical_records::service::MedicalService;
use medical_records::types::{AccessError, Identity, UserRole};

#[test]
fn register_returns_the_callers_identity() {
    let mut s = MedicalService::new();
    let a = Identity(7);
    assert_eq!(s.register_user(a, "ann".to_string(), UserRole::Patient, 11), Ok(a));
}

#[test]
fn register_twice_merges_roles_and_keeps_first_profile() {
    let mut s = MedicalService::new();
    let a = Identity(1);
    assert_eq!(s.register_user(a, "ann".to_string(), UserRole::Doctor, 100), Ok(a));
    assert_eq!(s.register_user(a, "other name".to_string(), UserRole::Patient, 200), Ok(a));
    let (id, u) = s.get_user_info(a).unwrap();
    assert_eq!(id, a);
    assert_eq!(u.name, "ann");
    assert_eq!(u.roles, vec![UserRole::Doctor, UserRole::Patient]);
    assert_eq!(u.active_role, UserRole::Doctor);
    assert_eq!(u.registered_date, 100);
}

#[test]
fn register_same_role_again_changes_nothing() {
    let mut s = MedicalService::new();
    let a = Identity(1);
    assert_eq!(s.register_user(a, "ann".to_string(), UserRole::Patient, 100), Ok(a));
    assert_eq!(s.register_user(a, "ann again".to_string(), UserRole::Patient, 300), Ok(a));
    let (_, u) = s.get_user_info(a).unwrap();
    assert_eq!(u.name, "ann");
    assert_eq!(u.roles, vec![UserRole::Patient]);
    assert_eq!(u.active_role, UserRole::Patient);
    assert_eq!(u.registered_date, 100);
}

#[test]
fn switch_to_ungranted_role_fails_and_keeps_active_role() {
    let mut s = MedicalService::new();
    let a = Identity(4);
    s.register_user(a, "ann".to_string(), UserRole::Patient, 10).unwrap();
    assert_eq!(s.switch_role(a, UserRole::Doctor), Err(AccessError::RoleNotGranted));
    assert_eq!(s.get_active_role(a), Ok(UserRole::Patient));
}

#[test]
fn switch_by_unregistered_identity_fails_user_not_found() {
    let mut s = MedicalService::new();
    assert_eq!(s.switch_role(Identity(9), UserRole::Patient), Err(AccessError::UserNotFound));
}

#[test]
fn switch_to_granted_role_changes_the_active_role() {
    let mut s = MedicalService::new();
    let a = Identity(4);
    s.register_user(a, "ann".to_string(), UserRole::Patient, 10).unwrap();
    s.register_user(a, "ann".to_string(), UserRole::Doctor, 20).unwrap();
    assert_eq!(s.get_active_role(a), Ok(UserRole::Patient));
    assert_eq!(s.switch_role(a, UserRole::Doctor), Ok(()));
    assert_eq!(s.get_active_role(a), Ok(UserRole::Doctor));
}

#[test]
fn doctor_creates_a_record_for_an_unregistered_patient() {
    let mut s = MedicalService::new();
    let doc = Identity(1);
    let pat = Identity(2);
    s.register_user(doc, "doc".to_string(), UserRole::Doctor, 10).unwrap();
    assert_eq!(
        s.create_medical_record(
            doc,
            pat,
            "flu".to_string(),
            "rest".to_string(),
            "none".to_string(),
            42,
        ),
        Ok(()),
    );
    let recs = s.get_medical_records(doc, pat).unwrap();
    assert_eq!(recs.len(), 1);
    assert_eq!(recs[0].patient_id, pat);
    assert_eq!(recs[0].doctor_id, doc);
    assert_eq!(recs[0].diagnosis, "flu");
    assert_eq!(recs[0].medication, "rest");
    assert_eq!(recs[0].notes, "none");
    assert_eq!(recs[0].created_at, 42);
}

#[test]
fn unregistered_caller_cannot_create_a_record() {
    let mut s = MedicalService::new();
    let r = s.create_medical_record(
        Identity(1),
        Identity(2),
        "d".to_string(),
        "m".to_string(),
        "n".to_string(),
        1,
    );
    assert_eq!(r, Err(AccessError::UserNotFound));
}

#[test]
fn patient_active_caller_cannot_create_despite_holding_doctor_role() {
    let mut s = MedicalService::new();
    let a = Identity(1);
    s.register_user(a, "ann".to_string(), UserRole::Doctor, 10).unwrap();
    s.register_user(a, "ann".to_string(), UserRole::Patient, 20).unwrap();
    assert_eq!(s.get_active_role(a), Ok(UserRole::Doctor));
    assert_eq!(s.switch_role(a, UserRole::Patient), Ok(()));
    let r = s.create_medical_record(
        a,
        Identity(2),
        "d".to_string(),
        "m".to_string(),
        "n".to_string(),
        30,
    );
    assert_eq!(r, Err(AccessError::NotAuthorized));
    s.switch_role(a, UserRole::Doctor).unwrap();
    assert_eq!(s.get_medical_records(a, Identity(2)).map(|v| v.len()), Ok(0));
}

#[test]
fn patient_reads_own_records_in_creation_order() {
    let mut s = MedicalService::new();
    let doc = Identity(1);
    let pat = Identity(2);
    s.register_user(doc, "doc".to_string(), UserRole::Doctor, 1).unwrap();
    s.register_user(pat, "pat".to_string(), UserRole::Patient, 2).unwrap();
    s.create_medical_record(doc, pat, "flu".to_string(), "rest".to_string(), "a".to_string(), 10)
        .unwrap();
    s.create_medical_record(doc, pat, "cold".to_string(), "tea".to_string(), "b".to_string(), 20)
        .unwrap();
    let recs = s.get_medical_records(pat, pat).unwrap();
    assert_eq!(recs.len(), 2);
    assert_eq!(recs[0].diagnosis, "flu");
    assert_eq!(recs[0].created_at, 10);
    assert_eq!(recs[1].diagnosis, "cold");
    assert_eq!(recs[1].created_at, 20);
}

#[test]
fn another_patient_cannot_read_someone_elses_records() {
    let mut s = MedicalService::new();
    let pat = Identity(2);
    let other = Identity(3);
    s.register_user(pat, "pat".to_string(), UserRole::Patient, 1).unwrap();
    s.register_user(other, "other".to_string(), UserRole::Patient, 2).unwrap();
    assert_eq!(s.get_medical_records(other, pat).unwrap_err(), AccessError::NotAuthorized);
}

#[test]
fn empty_history_reads_as_an_empty_list_not_a_failure() {
    let mut s = MedicalService::new();
    let pat = Identity(2);
    s.register_user(pat, "pat".to_string(), UserRole::Patient, 1).unwrap();
    let recs = s.get_medical_records(pat, pat).unwrap();
    assert!(recs.is_empty());
}

#[test]
fn doctor_reads_any_patients_records() {
    let mut s = MedicalService::new();
    let doc = Identity(1);
    let other_doc = Identity(5);
    let pat = Identity(2);
    s.register_user(doc, "doc".to_string(), UserRole::Doctor, 1).unwrap();
    s.register_user(other_doc, "second doc".to_string(), UserRole::Doctor, 2).unwrap();
    s.register_user(pat, "pat".to_string(), UserRole::Patient, 3).unwrap();
    s.create_medical_record(doc, pat, "flu".to_string(), "m".to_string(), "n".to_string(), 9)
        .unwrap();
    let recs = s.get_medical_records(other_doc, pat).unwrap();
    assert_eq!(recs.len(), 1);
    assert_eq!(recs[0].doctor_id, doc);
}

#[test]
fn flu_record_is_visible_to_its_patient_and_hidden_from_strangers() {
    let mut s = MedicalService::new();
    let a = Identity(1);
    let b = Identity(2);
    let c = Identity(3);
    s.register_user(a, "a".to_string(), UserRole::Doctor, 1).unwrap();
    s.register_user(b, "b".to_string(), UserRole::Patient, 2).unwrap();
    s.create_medical_record(a, b, "flu".to_string(), "rest".to_string(), "".to_string(), 5)
        .unwrap();
    let recs = s.get_medical_records(b, b).unwrap();
    assert_eq!(recs.len(), 1);
    assert_eq!(recs[0].diagnosis, "flu");
    assert_eq!(recs[0].doctor_id, a);
    s.register_user(c, "c".to_string(), UserRole::Patient, 6).unwrap();
    assert_eq!(s.get_medical_records(c, b).unwrap_err(), AccessError::NotAuthorized);
}

#[test]
fn get_user_info_for_unknown_identity_fails() {
    let s = MedicalService::new();
    assert_eq!(s.get_user_info(Identity(1)).unwrap_err(), AccessError::UserNotFound);
}

#[test]
fn get_active_role_for_unregistered_caller_fails() {
    let s = MedicalService::new();
    assert_eq!(s.get_active_role(Identity(1)), Err(AccessError::UserNotFound));
}

#[test]
fn get_all_users_lists_every_registration_once() {
    let mut s = MedicalService::new();
    let a = Identity(1);
    let b = Identity(2);
    s.register_user(a, "ann".to_string(), UserRole::Doctor, 1).unwrap();
    s.register_user(b, "bob".to_string(), UserRole::Patient, 2).unwrap();
    s.register_user(a, "ann".to_string(), UserRole::Patient, 3).unwrap();
    let all = s.get_all_users();
    assert_eq!(all.len(), 2);
    let ann = all.iter().find(|(id, _)| *id == a).expect("ann listed");
    assert_eq!(ann.1.name, "ann");
    assert_eq!(ann.1.roles, vec![UserRole::Doctor, UserRole::Patient]);
    let bob = all.iter().find(|(id, _)| *id == b).expect("bob listed");
    assert_eq!(bob.1.name, "bob");
    assert_eq!(bob.1.roles, vec![UserRole::Patient]);
}

#[test]
fn empty_service_has_no_users() {
    let s = MedicalService::new();
    assert!(s.get_all_users().is_empty());
}
