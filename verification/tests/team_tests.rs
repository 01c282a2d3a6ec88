//! Team repository behavior: CRUD, search, membership validation and the
//! membership cascade on team deletion.

use project_tracker::err::RepoError;
use project_tracker::model::{Person, Team};
use project_tracker::store::Store;

fn setup_test_db() -> Store {
    Store::open_new()
}

#[test]
fn test_create_team() {
    let mut store = setup_test_db();

    let team = Team::new("Engineering".to_string());
    store.create_team(&team).unwrap();

    let found = store.find_by_name("Engineering");
    assert!(found.is_some());
    assert_eq!(found.unwrap().name, "Engineering");
}

#[test]
fn test_create_duplicate_team() {
    let mut store = setup_test_db();

    let team = Team::new("Engineering".to_string());
    store.create_team(&team).unwrap();

    // Try to create duplicate
    let result = store.create_team(&team);
    assert!(result.is_err());
    assert_eq!(result.unwrap_err(), RepoError::Conflict);
}

#[test]
fn test_find_team_not_found() {
    let store = setup_test_db();

    let found = store.find_by_name("Nonexistent");
    assert!(found.is_none());
}

#[test]
fn test_list_all_teams() {
    let mut store = setup_test_db();

    // Initially empty
    let teams = store.list_teams();
    assert_eq!(teams.len(), 0);

    // Add teams
    store.create_team(&Team::new("Engineering".to_string())).unwrap();
    store.create_team(&Team::new("Product".to_string())).unwrap();
    store.create_team(&Team::new("Design".to_string())).unwrap();

    // Should be sorted by name
    let teams = store.list_teams();
    assert_eq!(teams.len(), 3);
    assert_eq!(teams[0].name, "Design");
    assert_eq!(teams[1].name, "Engineering");
    assert_eq!(teams[2].name, "Product");
}

#[test]
fn test_search_teams() {
    let mut store = setup_test_db();

    store.create_team(&Team::new("Engineering".to_string())).unwrap();
    store.create_team(&Team::new("Product".to_string())).unwrap();
    store.create_team(&Team::new("Marketing".to_string())).unwrap();

    // Search for teams with "ing"
    let teams = store.search_teams_by_name("ing");
    assert_eq!(teams.len(), 2); // Engineering, Marketing

    // Search for teams with "prod"
    let teams = store.search_teams_by_name("prod");
    assert_eq!(teams.len(), 1);
    assert_eq!(teams[0].name, "Product");
}

#[test]
fn test_update_team() {
    let mut store = setup_test_db();

    let mut team = Team::new("Engineering".to_string());
    team.description = Some("Software engineering team".to_string());
    store.create_team(&team).unwrap();

    // Update description
    team.description = Some("Updated description".to_string());
    store.update_team(&team).unwrap();

    let found = store.find_by_name("Engineering").unwrap();
    assert_eq!(found.description, Some("Updated description".to_string()));
}

#[test]
fn test_update_nonexistent_team() {
    let mut store = setup_test_db();

    let team = Team::new("Nonexistent".to_string());
    let result = store.update_team(&team);
    assert!(result.is_err());
    assert_eq!(result.unwrap_err(), RepoError::NotFound);
}

#[test]
fn test_delete_team() {
    let mut store = setup_test_db();

    let team = Team::new("Engineering".to_string());
    store.create_team(&team).unwrap();

    store.delete_team("Engineering").unwrap();

    let found = store.find_by_name("Engineering");
    assert!(found.is_none());
}

#[test]
fn test_delete_nonexistent_team() {
    let mut store = setup_test_db();

    let result = store.delete_team("Nonexistent");
    assert!(result.is_err());
    assert_eq!(result.unwrap_err(), RepoError::NotFound);
}

#[test]
fn test_add_team_member() {
    let mut store = setup_test_db();

    // Create team and person
    let team = Team::new("Engineering".to_string());
    store.create_team(&team).unwrap();

    let person = Person::new("test@example.com".to_string(), "Test User".to_string());
    store.create_person(&person).unwrap();

    // Add member
    store.add_member("Engineering", "test@example.com").unwrap();

    // Verify member was added
    let members = store.get_members("Engineering");
    assert_eq!(members.len(), 1);
    assert_eq!(members[0].email, "test@example.com");
}

#[test]
fn test_add_member_to_nonexistent_team() {
    let mut store = setup_test_db();

    let person = Person::new("test@example.com".to_string(), "Test User".to_string());
    store.create_person(&person).unwrap();

    let result = store.add_member("Nonexistent", "test@example.com");
    assert!(result.is_err());
    assert_eq!(result.unwrap_err(), RepoError::NotFound);
}

#[test]
fn test_add_nonexistent_person_to_team() {
    let mut store = setup_test_db();

    let team = Team::new("Engineering".to_string());
    store.create_team(&team).unwrap();

    let result = store.add_member("Engineering", "nonexistent@example.com");
    assert!(result.is_err());
    assert_eq!(result.unwrap_err(), RepoError::InvalidReference);
}

#[test]
fn test_remove_team_member() {
    let mut store = setup_test_db();

    // Create team and person
    let team = Team::new("Engineering".to_string());
    store.create_team(&team).unwrap();

    let person = Person::new("test@example.com".to_string(), "Test User".to_string());
    store.create_person(&person).unwrap();

    // Add and remove member
    store.add_member("Engineering", "test@example.com").unwrap();
    store.remove_member("Engineering", "test@example.com").unwrap();

    // Verify member was removed
    let members = store.get_members("Engineering");
    assert_eq!(members.len(), 0);
}

#[test]
fn test_remove_nonexistent_member() {
    let mut store = setup_test_db();

    let team = Team::new("Engineering".to_string());
    store.create_team(&team).unwrap();

    let result = store.remove_member("Engineering", "nonexistent@example.com");
    assert!(result.is_err());
    assert_eq!(result.unwrap_err(), RepoError::NotFound);
}

#[test]
fn test_get_team_members() {
    let mut store = setup_test_db();

    // Create team
    let team = Team::new("Engineering".to_string());
    store.create_team(&team).unwrap();

    // Create multiple people
    store
        .create_person(&Person::new("alice@example.com".to_string(), "Alice".to_string()))
        .unwrap();
    store
        .create_person(&Person::new("bob@example.com".to_string(), "Bob".to_string()))
        .unwrap();
    store
        .create_person(&Person::new("charlie@example.com".to_string(), "Charlie".to_string()))
        .unwrap();

    // Add members
    store.add_member("Engineering", "alice@example.com").unwrap();
    store.add_member("Engineering", "charlie@example.com").unwrap();

    // Get members (should be sorted by name)
    let members = store.get_members("Engineering");
    assert_eq!(members.len(), 2);
    assert_eq!(members[0].name, "Alice");
    assert_eq!(members[1].name, "Charlie");
}

#[test]
fn test_delete_team_cascades_to_members() {
    let mut store = setup_test_db();

    // Create team and person
    let team = Team::new("Engineering".to_string());
    store.create_team(&team).unwrap();

    let person = Person::new("test@example.com".to_string(), "Test User".to_string());
    store.create_person(&person).unwrap();

    store.add_member("Engineering", "test@example.com").unwrap();

    // Delete team
    store.delete_team("Engineering").unwrap();

    // Verify team_members were deleted
    let members = store.get_members("Engineering");
    assert_eq!(members.len(), 0);

    // Person should still exist
    let person_found = store.find_by_email("test@example.com");
    assert!(person_found.is_some());
}

#[test]
fn test_duplicate_member_is_conflict() {
    let mut store = setup_test_db();

    store.create_team(&Team::new("Engineering".to_string())).unwrap();
    store
        .create_person(&Person::new("test@example.com".to_string(), "Test User".to_string()))
        .unwrap();

    store.add_member("Engineering", "test@example.com").unwrap();
    let result = store.add_member("Engineering", "test@example.com");
    assert_eq!(result.unwrap_err(), RepoError::Conflict);
}

#[test]
fn test_member_before_person_exists_then_retry() {
    // create Team "Eng"; add member bob before bob exists as a Person:
    // a distinct error for the missing person; create bob; retry succeeds;
    // delete Team "Eng": membership is gone and bob the Person remains.
    let mut store = setup_test_db();

    store.create_team(&Team::new("Eng".to_string())).unwrap();

    let result = store.add_member("Eng", "bob@example.com");
    assert_eq!(result.unwrap_err(), RepoError::InvalidReference);

    store
        .create_person(&Person::new("bob@example.com".to_string(), "Bob".to_string()))
        .unwrap();
    store.add_member("Eng", "bob@example.com").unwrap();
    assert_eq!(store.get_members("Eng").len(), 1);

    store.delete_team("Eng").unwrap();
    assert_eq!(store.get_members("Eng").len(), 0);
    assert!(store.find_by_email("bob@example.com").is_some());
}
