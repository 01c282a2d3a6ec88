//! End-to-end scenarios across repositories.

use project_tracker::err::RepoError;
use project_tracker::model::{
    Milestone, MilestoneNote, Person, Project, ProjectNote, ProjectStakeholder, StakeholderNote,
};
use project_tracker::store::Store;

#[test]
fn test_stakeholder_lifecycle_scenario() {
    // create Person alice; create Project "Launch"; add alice as
    // stakeholder with role Lead; list shows exactly that; update the role
    // to Owner; re-list shows Owner; delete the project: the relationship
    // rows are gone while alice the Person still exists.
    let mut store = Store::open_new();

    store
        .create_person(&Person::new("alice@example.com".to_string(), "Alice".to_string()))
        .unwrap();

    let launch = Project::new("Launch".to_string());
    store.create_project(&launch).unwrap();

    let mut link = ProjectStakeholder::new(launch.id.clone(), "alice@example.com".to_string());
    link.role = Some("Lead".to_string());
    store.add_stakeholder(&launch.id, &link).unwrap();

    let listed = store.get_stakeholders(&launch.id);
    assert_eq!(listed.len(), 1);
    assert_eq!(listed[0].role, Some("Lead".to_string()));

    link.role = Some("Owner".to_string());
    store.update_stakeholder(&launch.id, &link).unwrap();
    let listed = store.get_stakeholders(&launch.id);
    assert_eq!(listed.len(), 1);
    assert_eq!(listed[0].role, Some("Owner".to_string()));

    store.delete_project(&launch.id).unwrap();
    assert_eq!(store.get_stakeholders(&launch.id).len(), 0);
    assert!(store.find_by_email("alice@example.com").is_some());
}

#[test]
fn test_project_cascade_is_transitive() {
    // Deleting a project removes its milestones, their notes and
    // resources, its stakeholder links and their notes, and its own notes,
    // while an unrelated project keeps everything.
    let mut store = Store::open_new();

    store
        .create_person(&Person::new("alice@example.com".to_string(), "Alice".to_string()))
        .unwrap();

    let doomed = Project::new("Doomed".to_string());
    store.create_project(&doomed).unwrap();
    let safe = Project::new("Safe".to_string());
    store.create_project(&safe).unwrap();

    let doomed_ms = Milestone::new(doomed.id.clone(), 1, "DM".to_string());
    store.add_milestone(&doomed_ms).unwrap();
    let safe_ms = Milestone::new(safe.id.clone(), 1, "SM".to_string());
    store.add_milestone(&safe_ms).unwrap();

    store
        .add_milestone_note(&MilestoneNote::new(
            doomed_ms.id.clone(),
            "t".to_string(),
            "b".to_string(),
        ))
        .unwrap();
    store
        .add_project_note(&ProjectNote::new(doomed.id.clone(), "t".to_string(), "b".to_string()))
        .unwrap();

    let link = ProjectStakeholder::new(doomed.id.clone(), "alice@example.com".to_string());
    store.add_stakeholder(&doomed.id, &link).unwrap();
    store
        .add_stakeholder_note(&StakeholderNote::new(
            doomed.id.clone(),
            "alice@example.com".to_string(),
            "t".to_string(),
            "b".to_string(),
        ))
        .unwrap();

    store.delete_project(&doomed.id).unwrap();

    assert!(store.find_by_id(&doomed.id).is_none());
    assert_eq!(store.get_milestones(&doomed.id).len(), 0);
    assert_eq!(store.get_milestone_notes(&doomed_ms.id).len(), 0);
    assert_eq!(store.get_project_notes(&doomed.id).len(), 0);
    assert_eq!(store.get_stakeholders(&doomed.id).len(), 0);
    assert_eq!(store.get_stakeholder_notes(&doomed.id, "alice@example.com").len(), 0);

    // the unrelated project is untouched
    assert!(store.find_by_id(&safe.id).is_some());
    assert_eq!(store.get_milestones(&safe.id).len(), 1);
    assert!(store.find_by_email("alice@example.com").is_some());
}

#[test]
fn test_create_then_find_returns_equal_value() {
    // A created entity is found by its key with every field equal,
    // timestamps included: creation does not restamp.
    let mut store = Store::open_new();

    let mut person = Person::new("alice@example.com".to_string(), "Alice".to_string());
    person.team = Some("Eng".to_string());
    person.notes = Some("note".to_string());
    store.create_person(&person).unwrap();

    let found = store.find_by_email("alice@example.com").unwrap();
    assert_eq!(found.email, person.email);
    assert_eq!(found.name, person.name);
    assert_eq!(found.team, person.team);
    assert_eq!(found.manager, person.manager);
    assert_eq!(found.notes, person.notes);
    assert_eq!(found.created_at, person.created_at);
    assert_eq!(found.updated_at, person.updated_at);
}

#[test]
fn test_absence_versus_error() {
    // FindByKey on a missing key is absence, not an error; mutations on a
    // missing key are NotFound.
    let mut store = Store::open_new();

    assert!(store.find_by_email("missing@example.com").is_none());
    assert!(store.find_by_name("missing").is_none());
    assert!(store.find_by_id("00000000-0000-0000-0000-000000000000").is_none());

    let person = Person::new("missing@example.com".to_string(), "Nobody".to_string());
    assert_eq!(store.update_person(&person).unwrap_err(), RepoError::NotFound);
    assert_eq!(store.delete_person("missing@example.com").unwrap_err(), RepoError::NotFound);
    assert_eq!(
        store.remove_member("missing", "missing@example.com").unwrap_err(),
        RepoError::NotFound
    );
    assert_eq!(
        store.remove_stakeholder("no-project", "missing@example.com").unwrap_err(),
        RepoError::NotFound
    );
}

#[test]
fn test_error_messages() {
    assert_eq!(RepoError::NotFound.message(), "not found");
    assert_eq!(RepoError::Conflict.message(), "already exists");
    assert_eq!(RepoError::InvalidReference.message(), "invalid reference");
    assert_eq!(RepoError::InvalidIdentifier.message(), "invalid identifier");
    assert_eq!(RepoError::StorageFailure.message(), "storage failure");
}
