//! Person repository behavior: CRUD, listing order, search, and the
//! manager relationship.

use project_tracker::err::RepoError;
use project_tracker::model::Person;
use project_tracker::store::Store;

fn setup_test_db() -> Store {
    Store::open_new()
}

#[test]
fn test_create_and_find_person() {
    let mut store = setup_test_db();
    let person = Person::new("alice@example.com".to_string(), "Alice Smith".to_string());

    store.create_person(&person).unwrap();

    let found = store.find_by_email("alice@example.com").unwrap();
    assert_eq!(found.email, "alice@example.com");
    assert_eq!(found.name, "Alice Smith");
}

#[test]
fn test_find_nonexistent_person() {
    let store = setup_test_db();

    let result = store.find_by_email("nonexistent@example.com");
    assert!(result.is_none());
}

#[test]
fn test_create_person_with_all_fields() {
    let mut store = setup_test_db();

    let mut person = Person::new("alice@example.com".to_string(), "Alice Smith".to_string());
    person.team = Some("Engineering".to_string());
    person.notes = Some("Team lead".to_string());

    store.create_person(&person).unwrap();

    let found = store.find_by_email("alice@example.com").unwrap();
    assert_eq!(found.team, Some("Engineering".to_string()));
    assert_eq!(found.notes, Some("Team lead".to_string()));
}

#[test]
fn test_list_all_people() {
    let mut store = setup_test_db();

    store
        .create_person(&Person::new("alice@example.com".to_string(), "Alice Smith".to_string()))
        .unwrap();
    store
        .create_person(&Person::new("bob@example.com".to_string(), "Bob Jones".to_string()))
        .unwrap();
    store
        .create_person(&Person::new(
            "charlie@example.com".to_string(),
            "Charlie Brown".to_string(),
        ))
        .unwrap();

    let people = store.list_people();
    assert_eq!(people.len(), 3);
    // Should be sorted by name
    assert_eq!(people[0].name, "Alice Smith");
    assert_eq!(people[1].name, "Bob Jones");
    assert_eq!(people[2].name, "Charlie Brown");
}

#[test]
fn test_list_all_people_empty() {
    let store = setup_test_db();

    let people = store.list_people();
    assert_eq!(people.len(), 0);
}

#[test]
fn test_update_person() {
    let mut store = setup_test_db();
    let mut person = Person::new("alice@example.com".to_string(), "Alice Smith".to_string());
    store.create_person(&person).unwrap();

    person.name = "Alice Johnson".to_string();
    person.team = Some("Product".to_string());
    person.notes = Some("Promoted to manager".to_string());
    store.update_person(&person).unwrap();

    let found = store.find_by_email("alice@example.com").unwrap();
    assert_eq!(found.name, "Alice Johnson");
    assert_eq!(found.team, Some("Product".to_string()));
    assert_eq!(found.notes, Some("Promoted to manager".to_string()));
}

#[test]
fn test_update_nonexistent_person() {
    let mut store = setup_test_db();
    let person = Person::new("nonexistent@example.com".to_string(), "Test Person".to_string());

    let result = store.update_person(&person);
    assert!(result.is_err());
    assert!(result.unwrap_err().message().contains("not found"));
}

#[test]
fn test_delete_person() {
    let mut store = setup_test_db();
    let person = Person::new("alice@example.com".to_string(), "Alice Smith".to_string());
    store.create_person(&person).unwrap();

    store.delete_person("alice@example.com").unwrap();

    let found = store.find_by_email("alice@example.com");
    assert!(found.is_none());
}

#[test]
fn test_delete_nonexistent_person() {
    let mut store = setup_test_db();

    let result = store.delete_person("nonexistent@example.com");
    assert!(result.is_err());
    assert!(result.unwrap_err().message().contains("not found"));
}

#[test]
fn test_search_by_name() {
    let mut store = setup_test_db();

    store
        .create_person(&Person::new("alice@example.com".to_string(), "Alice Smith".to_string()))
        .unwrap();
    store
        .create_person(&Person::new("bob@example.com".to_string(), "Bob Jones".to_string()))
        .unwrap();
    store
        .create_person(&Person::new(
            "charlie@example.com".to_string(),
            "Charlie Brown".to_string(),
        ))
        .unwrap();

    let results = store.search_by_name("Alice");
    assert_eq!(results.len(), 1);
    assert_eq!(results[0].name, "Alice Smith");
}

#[test]
fn test_search_by_name_partial() {
    let mut store = setup_test_db();

    store
        .create_person(&Person::new("alice@example.com".to_string(), "Alice Smith".to_string()))
        .unwrap();
    store
        .create_person(&Person::new("alicia@example.com".to_string(), "Alicia Jones".to_string()))
        .unwrap();
    store
        .create_person(&Person::new("bob@example.com".to_string(), "Bob Alice".to_string()))
        .unwrap();

    let results = store.search_by_name("Ali");
    assert_eq!(results.len(), 3); // Matches Alice, Alicia, and "Bob Alice"
}

#[test]
fn test_search_by_name_case_insensitive() {
    let mut store = setup_test_db();

    store
        .create_person(&Person::new("alice@example.com".to_string(), "Alice Smith".to_string()))
        .unwrap();

    let results = store.search_by_name("alice");
    assert_eq!(results.len(), 1);
    assert_eq!(results[0].name, "Alice Smith");
}

#[test]
fn test_search_by_name_no_results() {
    let mut store = setup_test_db();

    store
        .create_person(&Person::new("alice@example.com".to_string(), "Alice Smith".to_string()))
        .unwrap();

    let results = store.search_by_name("Bob");
    assert_eq!(results.len(), 0);
}

#[test]
fn test_search_by_name_limit() {
    let mut store = setup_test_db();

    // Create 25 people with similar names
    for i in 0..25 {
        let person = Person::new(
            format!("person{}@example.com", i),
            format!("Test Person {}", i),
        );
        store.create_person(&person).unwrap();
    }

    let results = store.search_by_name("Test Person");
    // Should limit to 20 results
    assert_eq!(results.len(), 20);
}

#[test]
fn test_create_person_with_manager() {
    let mut store = setup_test_db();

    // Create manager first
    let manager = Person::new("manager@example.com".to_string(), "Manager".to_string());
    store.create_person(&manager).unwrap();

    // Create employee with manager
    let mut employee = Person::new("employee@example.com".to_string(), "Employee".to_string());
    employee.manager = Some("manager@example.com".to_string());
    store.create_person(&employee).unwrap();

    let found = store.find_by_email("employee@example.com").unwrap();
    assert_eq!(found.manager, Some("manager@example.com".to_string()));
}

#[test]
fn test_create_duplicate_email_fails() {
    let mut store = setup_test_db();

    let person1 = Person::new("alice@example.com".to_string(), "Alice Smith".to_string());
    store.create_person(&person1).unwrap();

    let person2 = Person::new("alice@example.com".to_string(), "Alice Jones".to_string());
    let result = store.create_person(&person2);
    assert!(result.is_err());
    assert_eq!(result.unwrap_err(), RepoError::Conflict);
}

#[test]
fn test_create_person_with_missing_manager_fails() {
    let mut store = setup_test_db();

    let mut person = Person::new("alice@example.com".to_string(), "Alice Smith".to_string());
    person.manager = Some("ghost@example.com".to_string());

    let result = store.create_person(&person);
    assert_eq!(result.unwrap_err(), RepoError::InvalidReference);
    assert!(store.find_by_email("alice@example.com").is_none());
}

#[test]
fn test_delete_referenced_person_fails() {
    let mut store = setup_test_db();

    let manager = Person::new("manager@example.com".to_string(), "Manager".to_string());
    store.create_person(&manager).unwrap();
    let mut employee = Person::new("employee@example.com".to_string(), "Employee".to_string());
    employee.manager = Some("manager@example.com".to_string());
    store.create_person(&employee).unwrap();

    let result = store.delete_person("manager@example.com");
    assert_eq!(result.unwrap_err(), RepoError::InvalidReference);
    assert!(store.find_by_email("manager@example.com").is_some());
}

#[test]
fn test_update_stamps_never_move_backwards() {
    let mut store = setup_test_db();
    let mut person = Person::new("alice@example.com".to_string(), "Alice Smith".to_string());
    store.create_person(&person).unwrap();
    let created = store.find_by_email("alice@example.com").unwrap();

    person.name = "Alice Johnson".to_string();
    store.update_person(&person).unwrap();
    let first = store.find_by_email("alice@example.com").unwrap();
    assert!(first.updated_at >= created.updated_at);
    assert_eq!(first.created_at, created.created_at);

    person.name = "Alice Brown".to_string();
    store.update_person(&person).unwrap();
    let second = store.find_by_email("alice@example.com").unwrap();
    assert!(second.updated_at >= first.updated_at);
    assert_eq!(second.created_at, created.created_at);
}
