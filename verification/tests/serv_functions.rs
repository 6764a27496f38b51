use dashboard_app::database::{add_person, MemoryStore};
use dashboard_app::errors::{PersonError, RequestError};
use dashboard_app::person::{
    AddPersonRequest, DeletePersonRequest, EditPersonRequest, Field, Person,
};
use dashboard_app::serv_functions::{
    add_new_person, add_person_srv, added, delete_person_srv, delete_team_person,
    edit_person_srv, edit_team_person, edited, get_persons_srv, new_member, removed,
    retrieve_all_persons, retrieved,
};

fn text(s: &str) -> String {
    String::from(s)
}

fn is_key(s: &str) -> bool {
    s.len() == 32 && s.chars().all(|c| matches!(c, '0'..='9' | 'a'..='f'))
}

fn keys(rows: &[Person]) -> Vec<String> {
    rows.iter().map(|p| p.uuid.clone()).collect()
}

fn store_kind(error: RequestError) -> PersonError {
    match error {
        RequestError::Store(kind) => kind,
        other => panic!("not a failure of the store: {:?}", other),
    }
}

fn missing(error: RequestError) -> Vec<Field> {
    match error {
        RequestError::MissingFields(errors) => errors.fields,
        other => panic!("not a validation failure: {:?}", other),
    }
}

#[test]
fn add_returns_the_new_person_with_a_fresh_key() {
    let mut store = MemoryStore::new();
    let request = AddPersonRequest::new(text("Ada"), text("Eng"), text("L3"), 100);
    let p = add_person_srv(&mut store, request).unwrap();
    assert_eq!(p.name, "Ada");
    assert_eq!(p.title, "Eng");
    assert_eq!(p.level, "L3");
    assert_eq!(p.compensation, 100);
    assert!(is_key(&p.uuid), "{:?}", p.uuid);
    assert!(!p.joined_date.is_empty());
    let rows = get_persons_srv(&store).unwrap();
    assert_eq!(keys(&rows), vec![p.uuid.clone()]);
}

#[test]
fn added_keys_are_all_different() {
    let mut store = MemoryStore::new();
    let mut seen: Vec<String> = Vec::new();
    for i in 0..50 {
        let request = AddPersonRequest::new(format!("P{}", i), text("Eng"), text("L3"), i);
        let p = add_person_srv(&mut store, request).unwrap();
        assert!(!seen.contains(&p.uuid));
        seen.push(p.uuid);
    }
    assert_eq!(store.len(), 50);
}

#[test]
fn a_key_is_not_issued_again_after_its_record_is_deleted() {
    let mut store = MemoryStore::new();
    let first = add_person_srv(
        &mut store,
        AddPersonRequest::new(text("Ada"), text("Eng"), text("L3"), 100),
    )
    .unwrap();
    delete_person_srv(&mut store, DeletePersonRequest::new(first.uuid.clone())).unwrap();
    let second = add_person_srv(
        &mut store,
        AddPersonRequest::new(text("Ada"), text("Eng"), text("L3"), 100),
    )
    .unwrap();
    assert_ne!(first.uuid, second.uuid);
}

#[test]
fn add_with_a_blank_field_creates_nothing() {
    let mut store = MemoryStore::new();
    add_person_srv(&mut store, AddPersonRequest::new(text("Ada"), text("Eng"), text("L3"), 1))
        .unwrap();
    let before = keys(&get_persons_srv(&store).unwrap());
    let e = add_person_srv(&mut store, AddPersonRequest::new(text(""), text("Eng"), text("L3"), 1))
        .unwrap_err();
    assert_eq!(missing(e), vec![Field::Name]);
    let e = add_person_srv(&mut store, AddPersonRequest::new(text("Bo"), text(" "), text("L3"), 1))
        .unwrap_err();
    assert_eq!(missing(e), vec![Field::Title]);
    let e = add_person_srv(&mut store, AddPersonRequest::new(text("Bo"), text("Eng"), text(""), 1))
        .unwrap_err();
    assert_eq!(missing(e), vec![Field::Level]);
    let after = keys(&get_persons_srv(&store).unwrap());
    assert_eq!(after.len(), 1);
    assert_eq!(before, after);
}

#[test]
fn edit_preserves_name_and_joined_date() {
    let mut store = MemoryStore::new();
    store
        .create(Person::new(text("1"), text("Ada"), text("Eng"), text("L3"), 100, text("2024-01-01")))
        .unwrap();
    let request = EditPersonRequest::new(text("1"), text("Staff Eng"), text("L4"), 150);
    let p = edit_person_srv(&mut store, request).unwrap();
    assert_eq!(p.uuid, "1");
    assert_eq!(p.name, "Ada");
    assert_eq!(p.title, "Staff Eng");
    assert_eq!(p.level, "L4");
    assert_eq!(p.compensation, 150);
    assert_eq!(p.joined_date, "2024-01-01");
    let rows = get_persons_srv(&store).unwrap();
    assert_eq!(rows.len(), 1);
    assert_eq!(rows[0].uuid, "1");
    assert_eq!(rows[0].name, "Ada");
    assert_eq!(rows[0].title, "Staff Eng");
    assert_eq!(rows[0].level, "L4");
    assert_eq!(rows[0].compensation, 150);
    assert_eq!(rows[0].joined_date, "2024-01-01");
}

#[test]
fn edit_of_an_absent_key_is_not_found() {
    let mut store = MemoryStore::new();
    let request = EditPersonRequest::new(text("1"), text("Staff Eng"), text("L4"), 150);
    let e = edit_person_srv(&mut store, request).unwrap_err();
    assert_eq!(store_kind(e), PersonError::PersonNotFound);
    assert_eq!(store.len(), 0);
}

#[test]
fn edit_with_a_blank_field_changes_nothing() {
    let mut store = MemoryStore::new();
    store
        .create(Person::new(text("1"), text("Ada"), text("Eng"), text("L3"), 100, text("2024-01-01")))
        .unwrap();
    let e = edit_person_srv(&mut store, EditPersonRequest::new(text("1"), text(""), text("L4"), 150))
        .unwrap_err();
    assert_eq!(missing(e), vec![Field::Title]);
    let kept = store.select(&text("1")).unwrap();
    assert_eq!(kept.title, "Eng");
    assert_eq!(kept.level, "L3");
    assert_eq!(kept.compensation, 100);
}

#[test]
fn delete_of_an_absent_key_is_not_found_and_the_list_stays() {
    let mut store = MemoryStore::new();
    store
        .create(Person::new(text("1"), text("Ada"), text("Eng"), text("L3"), 100, text("2024-01-01")))
        .unwrap();
    let before = keys(&get_persons_srv(&store).unwrap());
    let e = delete_person_srv(&mut store, DeletePersonRequest::new(text("2"))).unwrap_err();
    assert_eq!(e.message(), "member not found");
    assert_eq!(store_kind(e), PersonError::PersonNotFound);
    assert_eq!(keys(&get_persons_srv(&store).unwrap()), before);
}

#[test]
fn delete_twice_succeeds_then_is_not_found() {
    let mut store = MemoryStore::new();
    store
        .create(Person::new(text("1"), text("Ada"), text("Eng"), text("L3"), 100, text("2024-01-01")))
        .unwrap();
    store
        .create(Person::new(text("2"), text("Bo"), text("Eng"), text("L3"), 100, text("2024-01-02")))
        .unwrap();
    let gone = delete_person_srv(&mut store, DeletePersonRequest::new(text("1"))).unwrap();
    assert_eq!(gone.name, "Ada");
    assert_eq!(keys(&get_persons_srv(&store).unwrap()), vec!["2"]);
    let e = delete_person_srv(&mut store, DeletePersonRequest::new(text("1"))).unwrap_err();
    assert_eq!(store_kind(e), PersonError::PersonNotFound);
    assert_eq!(keys(&get_persons_srv(&store).unwrap()), vec!["2"]);
}

#[test]
fn delete_with_an_empty_key_is_turned_down() {
    let mut store = MemoryStore::new();
    let e = delete_person_srv(&mut store, DeletePersonRequest::new(text(""))).unwrap_err();
    assert_eq!(e.message(), "All fields are required");
    assert_eq!(missing(e), vec![Field::Uuid]);
}

#[test]
fn delete_with_a_key_of_white_space_is_looked_up() {
    let mut store = MemoryStore::new();
    let e = delete_person_srv(&mut store, DeletePersonRequest::new(text(" "))).unwrap_err();
    assert_eq!(e.message(), "member not found");
    assert_eq!(store_kind(e), PersonError::PersonNotFound);
    let e = delete_person_srv(&mut store, DeletePersonRequest::new(text("\t \n"))).unwrap_err();
    assert_eq!(store_kind(e), PersonError::PersonNotFound);
    store
        .create(Person::new(text(" "), text("Ada"), text("Eng"), text("L3"), 100, text("2024-01-01")))
        .unwrap();
    let gone = delete_person_srv(&mut store, DeletePersonRequest::new(text(" "))).unwrap();
    assert_eq!(gone.name, "Ada");
    assert_eq!(store.len(), 0);
}

#[test]
fn every_failure_of_delete_has_a_message_of_the_store() {
    let mut store = MemoryStore::new();
    store
        .create(Person::new(text("1"), text("Ada"), text("Eng"), text("L3"), 100, text("2024-01-01")))
        .unwrap();
    let messages = [
        "member not found",
        "failed to update member",
        "failed to create member",
        "failure to delete member",
    ];
    for key in [" ", "2", "x y", "\u{3000}", "11", "1 "] {
        let e = delete_person_srv(&mut store, DeletePersonRequest::new(text(key))).unwrap_err();
        assert!(messages.contains(&e.message().as_str()), "{:?}", key);
    }
    assert_eq!(store.len(), 1);
}

#[test]
fn list_is_latest_first() {
    let mut store = MemoryStore::new();
    for (key, date) in [("a", "2024-01-01"), ("b", "2024-03-01"), ("c", "2024-02-01")] {
        store
            .create(Person::new(text(key), text("N"), text("T"), text("L"), 1, text(date)))
            .unwrap();
    }
    let rows = get_persons_srv(&store).unwrap();
    let dates: Vec<&str> = rows.iter().map(|p| p.joined_date.as_str()).collect();
    assert_eq!(dates, vec!["2024-03-01", "2024-02-01", "2024-01-01"]);
    let again = retrieve_all_persons(&store);
    assert_eq!(keys(&again), vec!["b", "c", "a"]);
}

#[test]
fn list_of_an_empty_store_is_empty() {
    let store = MemoryStore::new();
    assert!(get_persons_srv(&store).unwrap().is_empty());
    assert!(retrieve_all_persons(&store).is_empty());
}

#[test]
fn add_new_person_stores_one_record() {
    let mut store = MemoryStore::new();
    let p = add_new_person(&mut store, text("Ada"), text("Eng"), text("L3"), 7).unwrap();
    assert!(is_key(&p.uuid));
    assert_eq!(p.compensation, 7);
    assert_eq!(store.len(), 1);
    assert_eq!(store.select(&p.uuid).unwrap().name, "Ada");
}

#[test]
fn team_functions_pass_through_to_the_gateway() {
    let mut store = MemoryStore::new();
    store
        .create(Person::new(text("1"), text("Ada"), text("Eng"), text("L3"), 100, text("2024-01-01")))
        .unwrap();
    let p = edit_team_person(&mut store, text("1"), text("T2"), text("L9"), -3).unwrap().unwrap();
    assert_eq!(p.title, "T2");
    assert_eq!(p.compensation, -3);
    assert_eq!(
        edit_team_person(&mut store, text("9"), text("T2"), text("L9"), 0).unwrap_err(),
        PersonError::PersonNotFound
    );
    assert!(delete_team_person(&mut store, text("9")).unwrap().is_none());
    assert_eq!(delete_team_person(&mut store, text("1")).unwrap().unwrap().name, "Ada");
    assert_eq!(store.len(), 0);
}

#[test]
fn added_maps_nothing_to_creation_failure() {
    assert_eq!(store_kind(added(None).unwrap_err()), PersonError::PersonCreationFailure);
    let p = Person::new(text("1"), text("Ada"), text("Eng"), text("L3"), 100, text("d"));
    assert_eq!(added(Some(p)).unwrap().uuid, "1");
}

#[test]
fn removed_maps_each_answer() {
    assert_eq!(store_kind(removed(Ok(None)).unwrap_err()), PersonError::PersonNotFound);
    assert_eq!(
        store_kind(removed(Err(PersonError::PersonDeleteFailure)).unwrap_err()),
        PersonError::PersonDeleteFailure
    );
    let p = Person::new(text("1"), text("Ada"), text("Eng"), text("L3"), 100, text("d"));
    assert_eq!(removed(Ok(Some(p))).unwrap().uuid, "1");
}

#[test]
fn edited_maps_each_answer() {
    assert_eq!(store_kind(edited(Ok(None)).unwrap_err()), PersonError::PersonUpdateFailure);
    assert_eq!(
        store_kind(edited(Err(PersonError::PersonNotFound)).unwrap_err()),
        PersonError::PersonNotFound
    );
    assert_eq!(
        store_kind(edited(Err(PersonError::PersonUpdateFailure)).unwrap_err()),
        PersonError::PersonUpdateFailure
    );
    let p = Person::new(text("1"), text("Ada"), text("Eng"), text("L3"), 100, text("d"));
    assert_eq!(edited(Ok(Some(p))).unwrap().uuid, "1");
}

#[test]
fn a_taken_key_is_a_creation_failure() {
    let mut store = MemoryStore::new();
    let first = Person::new(text("1"), text("Ada"), text("Eng"), text("L3"), 100, text("d1"));
    let second = Person::new(text("1"), text("Bo"), text("PM"), text("L1"), 5, text("d2"));
    assert_eq!(added(add_person(&mut store, first)).unwrap().name, "Ada");
    let e = added(add_person(&mut store, second)).unwrap_err();
    assert_eq!(e.message(), "failed to create member");
    assert_eq!(store_kind(e), PersonError::PersonCreationFailure);
    assert_eq!(store.len(), 1);
}

#[test]
fn retrieved_maps_nothing_to_an_empty_list() {
    assert!(retrieved(None).is_empty());
    assert!(retrieved(Some(Vec::new())).is_empty());
    let p = Person::new(text("1"), text("Ada"), text("Eng"), text("L3"), 100, text("d"));
    assert_eq!(keys(&retrieved(Some(vec![p]))), vec!["1"]);
}

#[test]
fn new_member_has_a_key_and_a_joining_date() {
    let a = new_member(text("Ada"), text("Eng"), text("L3"), 100);
    let b = new_member(text("Ada"), text("Eng"), text("L3"), 100);
    assert!(is_key(&a.uuid));
    assert!(is_key(&b.uuid));
    assert_ne!(a.uuid, b.uuid);
    assert_eq!(a.name, "Ada");
    assert_eq!(a.title, "Eng");
    assert_eq!(a.level, "L3");
    assert_eq!(a.compensation, 100);
    assert!(!a.joined_date.trim().is_empty());
    assert!(!b.joined_date.trim().is_empty());
}

#[test]
fn members_added_later_are_listed_first() {
    let mut store = MemoryStore::new();
    let first = add_person_srv(
        &mut store,
        AddPersonRequest::new(text("Ada"), text("Eng"), text("L3"), 1),
    )
    .unwrap();
    let second = add_person_srv(
        &mut store,
        AddPersonRequest::new(text("Bo"), text("Eng"), text("L3"), 2),
    )
    .unwrap();
    let rows = get_persons_srv(&store).unwrap();
    assert_eq!(rows.len(), 2);
    if first.joined_date != second.joined_date {
        assert_eq!(keys(&rows), vec![second.uuid, first.uuid]);
    } else {
        assert_eq!(keys(&rows), vec![first.uuid, second.uuid]);
    }
}

#[test]
fn add_new_person_is_kept_beside_records_with_plain_keys() {
    let mut store = MemoryStore::new();
    for key in ["1", "2", "not-a-generated-key"] {
        store
            .create(Person::new(text(key), text("N"), text("T"), text("L"), 1, text("2024-01-01")))
            .unwrap();
    }
    for i in 0..20 {
        let p = add_new_person(&mut store, text("Ada"), text("Eng"), text("L3"), i).unwrap();
        assert!(is_key(&p.uuid));
        assert_eq!(store.select(&p.uuid).unwrap().compensation, i);
    }
    assert_eq!(store.len(), 23);
}

#[test]
fn add_to_an_empty_store_accepts_a_negative_compensation() {
    let mut store = MemoryStore::new();
    let request = AddPersonRequest::new(text("Ada"), text("Eng"), text("L3"), -5);
    let p = add_person_srv(&mut store, request).unwrap();
    assert_eq!(p.name, "Ada");
    assert_eq!(p.title, "Eng");
    assert_eq!(p.level, "L3");
    assert_eq!(p.compensation, -5);
    assert!(is_key(&p.uuid));
    assert!(!p.joined_date.is_empty());
    let rows = get_persons_srv(&store).unwrap();
    assert_eq!(rows.len(), 1);
    assert_eq!(rows[0].uuid, p.uuid);
    assert_eq!(rows[0].compensation, -5);
    assert_eq!(rows[0].joined_date, p.joined_date);
    let zero = add_person_srv(
        &mut store,
        AddPersonRequest::new(text("Bo"), text("PM"), text("L1"), 0),
    )
    .unwrap();
    assert_eq!(zero.compensation, 0);
    assert_eq!(store.len(), 2);
}

#[test]
fn the_same_request_twice_gives_two_records_under_different_keys() {
    let mut store = MemoryStore::new();
    let p1 = add_person_srv(
        &mut store,
        AddPersonRequest::new(text("Ada"), text("Eng"), text("L3"), 100),
    )
    .unwrap();
    let p2 = add_person_srv(
        &mut store,
        AddPersonRequest::new(text("Ada"), text("Eng"), text("L3"), 100),
    )
    .unwrap();
    assert_ne!(p1.uuid, p2.uuid);
    assert_eq!(store.len(), 2);
    assert_eq!(store.select(&p1.uuid).unwrap().name, "Ada");
    assert_eq!(store.select(&p2.uuid).unwrap().name, "Ada");
}

#[test]
fn a_deleted_key_gives_a_creation_failure_when_used_again() {
    let mut store = MemoryStore::new();
    let first = Person::new(text("1"), text("Ada"), text("Eng"), text("L3"), 100, text("d1"));
    assert!(added(add_person(&mut store, first)).is_ok());
    delete_person_srv(&mut store, DeletePersonRequest::new(text("1"))).unwrap();
    let again = Person::new(text("1"), text("Bo"), text("PM"), text("L1"), 5, text("d2"));
    let e = added(add_person(&mut store, again)).unwrap_err();
    assert_eq!(store_kind(e), PersonError::PersonCreationFailure);
    assert!(get_persons_srv(&store).unwrap().is_empty());
}

#[test]
fn no_listed_record_is_partial() {
    let mut store = MemoryStore::new();
    let mut added_keys: Vec<String> = Vec::new();
    for i in 0..5 {
        let request = AddPersonRequest::new(format!("N{}", i), text("Eng"), text("L3"), i - 2);
        added_keys.push(add_person_srv(&mut store, request).unwrap().uuid);
    }
    edit_person_srv(
        &mut store,
        EditPersonRequest::new(added_keys[1].clone(), text("Staff"), text("L4"), 0),
    )
    .unwrap();
    assert!(edit_person_srv(
        &mut store,
        EditPersonRequest::new(added_keys[2].clone(), text(" "), text("L4"), 0),
    )
    .is_err());
    delete_person_srv(&mut store, DeletePersonRequest::new(added_keys[3].clone())).unwrap();
    let rows = get_persons_srv(&store).unwrap();
    assert_eq!(rows.len(), 4);
    for row in &rows {
        assert!(!row.uuid.is_empty());
        assert!(!row.name.trim().is_empty());
        assert!(!row.title.trim().is_empty());
        assert!(!row.level.trim().is_empty());
        assert!(!row.joined_date.is_empty());
    }
}
