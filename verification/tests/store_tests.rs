use attendance::models::{
    AddPersonRequest, Attendance, ListAttendancesRequest, Person, StoreError,
    UpsertAttendanceRequest,
};
use attendance::store::AttendanceStore;

#[test]
fn add_then_get_returns_exact_fields() {
    let mut store = AttendanceStore::new();
    assert_eq!(store.add_person("Ada", "Lovelace", "al").unwrap(), 1);
    let found = store.get_person(1).unwrap().expect("person 1 should exist");
    assert_eq!(found.id, 1);
    assert_eq!(found.first_name, "Ada");
    assert_eq!(found.last_name, "Lovelace");
    assert_eq!(found.nickname, "al");
    assert!(store.get_person(2).unwrap().is_none());
}

#[test]
fn add_assigns_distinct_ids() {
    let mut store = AttendanceStore::new();
    store.add_person("Ada", "Lovelace", "").unwrap();
    store.add_person("Ada", "Lovelace", "").unwrap();
    store.delete_person(1).unwrap();
    store.add_person("Alan", "Turing", "").unwrap();
    // the id freed by the deletion is never handed out again
    let third = store.get_person(3).unwrap().expect("person 3 should exist");
    assert_eq!(third.first_name, "Alan");
    assert!(store.get_person(1).unwrap().is_none());
}

#[test]
fn list_persons_sorted_for_any_insertion_order() {
    let mut store = AttendanceStore::new();
    store.add_person("Grace", "Hopper", "gh").unwrap();
    store.add_person("Alan", "Turing", "").unwrap();
    store.add_person("Ada", "Hopper", "zz").unwrap();
    store.add_person("Ada", "Hopper", "aa").unwrap();
    let listed = store.list_persons().unwrap();
    let keys: Vec<(String, String, String)> = listed
        .iter()
        .map(|p| (p.last_name.clone(), p.first_name.clone(), p.nickname.clone()))
        .collect();
    assert_eq!(
        keys,
        vec![
            ("Hopper".to_string(), "Ada".to_string(), "aa".to_string()),
            ("Hopper".to_string(), "Ada".to_string(), "zz".to_string()),
            ("Hopper".to_string(), "Grace".to_string(), "gh".to_string()),
            ("Turing".to_string(), "Alan".to_string(), "".to_string()),
        ]
    );
}

#[test]
fn list_persons_empty_roster() {
    let store = AttendanceStore::new();
    assert!(store.list_persons().unwrap().is_empty());
}

#[test]
fn update_person_overwrites_all_fields() {
    let mut store = AttendanceStore::new();
    store.add_person("Ada", "Lovelace", "al").unwrap();
    assert_eq!(store.update_person(1, "Augusta", "King", "ada").unwrap(), 1);
    let found = store.get_person(1).unwrap().unwrap();
    assert_eq!(found.first_name, "Augusta");
    assert_eq!(found.last_name, "King");
    assert_eq!(found.nickname, "ada");
}

#[test]
fn update_missing_person_affects_no_rows() {
    let mut store = AttendanceStore::new();
    assert_eq!(store.update_person(7, "A", "B", "").unwrap(), 0);
}

#[test]
fn delete_person_counts_rows() {
    let mut store = AttendanceStore::new();
    store.add_person("Ada", "Lovelace", "").unwrap();
    assert_eq!(store.delete_person(1).unwrap(), 1);
    assert_eq!(store.delete_person(1).unwrap(), 0);
    assert!(store.list_persons().unwrap().is_empty());
}

#[test]
fn delete_person_tolerates_orphan_attendances() {
    let mut store = AttendanceStore::new();
    store.add_person("Ada", "Lovelace", "").unwrap();
    store.upsert_attendance("2024-05-01", 1, true).unwrap();
    assert_eq!(store.delete_person(1).unwrap(), 1);
    // the orphaned record is still there and still listable
    let orphans = store.list_attendances(None, Some(1)).unwrap();
    assert_eq!(orphans.len(), 1);
    assert_eq!(orphans[0].date, "2024-05-01");
}

#[test]
fn upsert_present_then_list_returns_one_record() {
    let mut store = AttendanceStore::new();
    store.add_person("Ada", "Lovelace", "").unwrap();
    assert_eq!(store.upsert_attendance("2024-05-01", 1, true).unwrap(), 1);
    let listed = store
        .list_attendances(Some("2024-05-01".to_string()), Some(1))
        .unwrap();
    assert_eq!(listed.len(), 1);
    assert_eq!(listed[0].person_id, 1);
    assert_eq!(listed[0].date, "2024-05-01");
}

#[test]
fn upsert_present_twice_keeps_one_record() {
    let mut store = AttendanceStore::new();
    assert_eq!(store.upsert_attendance("2024-05-01", 1, true).unwrap(), 1);
    assert_eq!(store.upsert_attendance("2024-05-01", 1, true).unwrap(), 0);
    let listed = store
        .list_attendances(Some("2024-05-01".to_string()), Some(1))
        .unwrap();
    assert_eq!(listed.len(), 1);
}

#[test]
fn upsert_absent_clears_the_pair() {
    let mut store = AttendanceStore::new();
    store.upsert_attendance("2024-05-01", 1, true).unwrap();
    assert_eq!(store.upsert_attendance("2024-05-01", 1, false).unwrap(), 1);
    let listed = store
        .list_attendances(Some("2024-05-01".to_string()), Some(1))
        .unwrap();
    assert!(listed.is_empty());
    // withdrawing an absent pair affects no rows
    assert_eq!(store.upsert_attendance("2024-05-01", 1, false).unwrap(), 0);
}

#[test]
fn list_attendances_filters_compose() {
    let mut store = AttendanceStore::new();
    store.upsert_attendance("2024-05-01", 1, true).unwrap();
    store.upsert_attendance("2024-05-01", 2, true).unwrap();
    let request = UpsertAttendanceRequest { present: true };
    store
        .upsert_attendance("2024-05-02", 1, request.present)
        .unwrap();
    assert_eq!(store.list_attendances(None, None).unwrap().len(), 3);
    assert_eq!(
        store
            .list_attendances(Some("2024-05-01".to_string()), None)
            .unwrap()
            .len(),
        2
    );
    assert_eq!(store.list_attendances(None, Some(1)).unwrap().len(), 2);
    let query = ListAttendancesRequest {
        date: Some("2024-05-02".to_string()),
        person_id: Some(1),
    };
    let both = store.list_attendances(query.date, query.person_id).unwrap();
    assert_eq!(both.len(), 1);
    assert_eq!(both[0].person_id, 1);
    assert_eq!(both[0].date, "2024-05-02");
}

#[test]
fn add_person_from_validated_request() {
    let request = AddPersonRequest {
        first_name: " Ada ".to_string(),
        last_name: " Lovelace ".to_string(),
        nickname: "al".to_string(),
    };
    let accepted =
        attendance::text::validate_person_names(&request.first_name, &request.last_name, &request.nickname)
            .expect("names are valid");
    let mut store = AttendanceStore::new();
    store
        .add_person(&accepted.first_name, &accepted.last_name, &accepted.nickname)
        .unwrap();
    let person = store.get_person(1).unwrap().unwrap();
    assert_eq!(person.first_name, "Ada");
    assert_eq!(person.last_name, "Lovelace");
}

#[test]
fn store_error_carries_a_message() {
    assert_eq!(
        StoreError::IdsExhausted.message(),
        "the store has no unused ids left"
    );
}

#[test]
fn from_rows_accepts_admissible_rows() {
    let persons = vec![Person {
        id: 3,
        first_name: "Ada".to_string(),
        last_name: "Lovelace".to_string(),
        nickname: "".to_string(),
    }];
    let attendances = vec![Attendance {
        id: 5,
        person_id: 3,
        date: "2024-05-01".to_string(),
    }];
    let mut store = AttendanceStore::from_rows(persons, attendances).expect("rows are admissible");
    // fresh ids start past the largest loaded id
    store.add_person("Alan", "Turing", "").unwrap();
    assert!(store.get_person(4).unwrap().is_some());
    assert_eq!(store.list_attendances(None, Some(3)).unwrap().len(), 1);
}

#[test]
fn from_rows_rejects_duplicate_pair() {
    let attendances = vec![
        Attendance {
            id: 1,
            person_id: 3,
            date: "2024-05-01".to_string(),
        },
        Attendance {
            id: 2,
            person_id: 3,
            date: "2024-05-01".to_string(),
        },
    ];
    assert!(AttendanceStore::from_rows(Vec::new(), attendances).is_none());
}

#[test]
fn from_rows_rejects_bad_ids() {
    let persons = vec![
        Person {
            id: 0,
            first_name: "Ada".to_string(),
            last_name: "Lovelace".to_string(),
            nickname: "".to_string(),
        },
    ];
    assert!(AttendanceStore::from_rows(persons, Vec::new()).is_none());
    let twice = vec![
        Person {
            id: 1,
            first_name: "Ada".to_string(),
            last_name: "Lovelace".to_string(),
            nickname: "".to_string(),
        },
        Person {
            id: 1,
            first_name: "Alan".to_string(),
            last_name: "Turing".to_string(),
            nickname: "".to_string(),
        },
    ];
    assert!(AttendanceStore::from_rows(twice, Vec::new()).is_none());
}
