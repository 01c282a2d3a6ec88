//! Stakeholder links, resource assignments and notes of all three kinds.

use project_tracker::err::RepoError;
use project_tracker::model::{
    Milestone, MilestoneNote, MilestoneResource, Person, Project, ProjectNote, ProjectResource,
    ProjectStakeholder, StakeholderNote,
};
use project_tracker::store::Store;

fn setup_test_db() -> Store {
    Store::open_new()
}

#[test]
fn test_add_stakeholder() {
    let mut store = setup_test_db();

    let person = Person::new("alice@example.com".to_string(), "Alice".to_string());
    store.create_person(&person).unwrap();

    let project = Project::new("Test Project".to_string());
    store.create_project(&project).unwrap();

    let mut stakeholder = ProjectStakeholder::new(project.id.clone(), "alice@example.com".to_string());
    stakeholder.role = Some("Lead".to_string());
    store.add_stakeholder(&project.id, &stakeholder).unwrap();

    let stakeholders = store.get_stakeholders(&project.id);
    assert_eq!(stakeholders.len(), 1);
    assert_eq!(stakeholders[0].stakeholder_email, "alice@example.com");
    assert_eq!(stakeholders[0].role, Some("Lead".to_string()));
}

#[test]
fn test_update_stakeholder() {
    let mut store = setup_test_db();

    let person = Person::new("alice@example.com".to_string(), "Alice".to_string());
    store.create_person(&person).unwrap();

    let project = Project::new("Test Project".to_string());
    store.create_project(&project).unwrap();

    let mut stakeholder = ProjectStakeholder::new(project.id.clone(), "alice@example.com".to_string());
    stakeholder.role = Some("Member".to_string());
    store.add_stakeholder(&project.id, &stakeholder).unwrap();

    stakeholder.role = Some("Lead".to_string());
    store.update_stakeholder(&project.id, &stakeholder).unwrap();

    let stakeholders = store.get_stakeholders(&project.id);
    assert_eq!(stakeholders[0].role, Some("Lead".to_string()));
}

#[test]
fn test_remove_stakeholder() {
    let mut store = setup_test_db();

    let person = Person::new("alice@example.com".to_string(), "Alice".to_string());
    store.create_person(&person).unwrap();

    let project = Project::new("Test Project".to_string());
    store.create_project(&project).unwrap();

    let stakeholder = ProjectStakeholder::new(project.id.clone(), "alice@example.com".to_string());
    store.add_stakeholder(&project.id, &stakeholder).unwrap();

    store.remove_stakeholder(&project.id, "alice@example.com").unwrap();

    let stakeholders = store.get_stakeholders(&project.id);
    assert_eq!(stakeholders.len(), 0);
}

#[test]
fn test_add_project_note() {
    let mut store = setup_test_db();
    let project = Project::new("Test Project".to_string());
    store.create_project(&project).unwrap();

    let note = ProjectNote::new(project.id.clone(), "Test Note".to_string(), "Note body".to_string());
    store.add_project_note(&note).unwrap();

    let notes = store.get_project_notes(&project.id);
    assert_eq!(notes.len(), 1);
    assert_eq!(notes[0].title, "Test Note");
    assert_eq!(notes[0].body, "Note body");
}

#[test]
fn test_update_project_note() {
    let mut store = setup_test_db();
    let project = Project::new("Test Project".to_string());
    store.create_project(&project).unwrap();

    let mut note = ProjectNote::new(
        project.id.clone(),
        "Original Title".to_string(),
        "Original body".to_string(),
    );
    store.add_project_note(&note).unwrap();

    note.title = "Updated Title".to_string();
    note.body = "Updated body".to_string();
    store.update_project_note(&note).unwrap();

    let notes = store.get_project_notes(&project.id);
    assert_eq!(notes[0].title, "Updated Title");
    assert_eq!(notes[0].body, "Updated body");
}

#[test]
fn test_delete_project_note() {
    let mut store = setup_test_db();
    let project = Project::new("Test Project".to_string());
    store.create_project(&project).unwrap();

    let note = ProjectNote::new(project.id.clone(), "Test Note".to_string(), "Note body".to_string());
    store.add_project_note(&note).unwrap();

    store.delete_project_note(&note.id).unwrap();

    let notes = store.get_project_notes(&project.id);
    assert_eq!(notes.len(), 0);
}

#[test]
fn test_add_milestone_note() {
    let mut store = setup_test_db();
    let project = Project::new("Test Project".to_string());
    store.create_project(&project).unwrap();

    let milestone = Milestone::new(project.id.clone(), 1, "Milestone 1".to_string());
    store.add_milestone(&milestone).unwrap();

    let note = MilestoneNote::new(milestone.id.clone(), "Test Note".to_string(), "Note body".to_string());
    store.add_milestone_note(&note).unwrap();

    let notes = store.get_milestone_notes(&milestone.id);
    assert_eq!(notes.len(), 1);
    assert_eq!(notes[0].title, "Test Note");
}

#[test]
fn test_update_milestone_note() {
    let mut store = setup_test_db();
    let project = Project::new("Test Project".to_string());
    store.create_project(&project).unwrap();

    let milestone = Milestone::new(project.id.clone(), 1, "Milestone 1".to_string());
    store.add_milestone(&milestone).unwrap();

    let mut note = MilestoneNote::new(
        milestone.id.clone(),
        "Original Title".to_string(),
        "Original body".to_string(),
    );
    store.add_milestone_note(&note).unwrap();

    note.title = "Updated Title".to_string();
    store.update_milestone_note(&note).unwrap();

    let notes = store.get_milestone_notes(&milestone.id);
    assert_eq!(notes[0].title, "Updated Title");
}

#[test]
fn test_delete_milestone_note() {
    let mut store = setup_test_db();
    let project = Project::new("Test Project".to_string());
    store.create_project(&project).unwrap();

    let milestone = Milestone::new(project.id.clone(), 1, "Milestone 1".to_string());
    store.add_milestone(&milestone).unwrap();

    let note = MilestoneNote::new(milestone.id.clone(), "Test Note".to_string(), "Note body".to_string());
    store.add_milestone_note(&note).unwrap();

    store.delete_milestone_note(&note.id).unwrap();

    let notes = store.get_milestone_notes(&milestone.id);
    assert_eq!(notes.len(), 0);
}

#[test]
fn test_add_stakeholder_note() {
    let mut store = setup_test_db();

    let person = Person::new("alice@example.com".to_string(), "Alice".to_string());
    store.create_person(&person).unwrap();

    let project = Project::new("Test Project".to_string());
    store.create_project(&project).unwrap();

    let stakeholder = ProjectStakeholder::new(project.id.clone(), "alice@example.com".to_string());
    store.add_stakeholder(&project.id, &stakeholder).unwrap();

    let note = StakeholderNote::new(
        project.id.clone(),
        "alice@example.com".to_string(),
        "Test Note".to_string(),
        "Note body".to_string(),
    );
    store.add_stakeholder_note(&note).unwrap();

    let notes = store.get_stakeholder_notes(&project.id, "alice@example.com");
    assert_eq!(notes.len(), 1);
    assert_eq!(notes[0].title, "Test Note");
}

#[test]
fn test_update_stakeholder_note() {
    let mut store = setup_test_db();

    let person = Person::new("alice@example.com".to_string(), "Alice".to_string());
    store.create_person(&person).unwrap();

    let project = Project::new("Test Project".to_string());
    store.create_project(&project).unwrap();

    let stakeholder = ProjectStakeholder::new(project.id.clone(), "alice@example.com".to_string());
    store.add_stakeholder(&project.id, &stakeholder).unwrap();

    let mut note = StakeholderNote::new(
        project.id.clone(),
        "alice@example.com".to_string(),
        "Original Title".to_string(),
        "Original body".to_string(),
    );
    store.add_stakeholder_note(&note).unwrap();

    note.title = "Updated Title".to_string();
    store.update_stakeholder_note(&note).unwrap();

    let notes = store.get_stakeholder_notes(&project.id, "alice@example.com");
    assert_eq!(notes[0].title, "Updated Title");
}

#[test]
fn test_delete_stakeholder_note() {
    let mut store = setup_test_db();

    let person = Person::new("alice@example.com".to_string(), "Alice".to_string());
    store.create_person(&person).unwrap();

    let project = Project::new("Test Project".to_string());
    store.create_project(&project).unwrap();

    let stakeholder = ProjectStakeholder::new(project.id.clone(), "alice@example.com".to_string());
    store.add_stakeholder(&project.id, &stakeholder).unwrap();

    let note = StakeholderNote::new(
        project.id.clone(),
        "alice@example.com".to_string(),
        "Test Note".to_string(),
        "Note body".to_string(),
    );
    store.add_stakeholder_note(&note).unwrap();

    store.delete_stakeholder_note(&note.id).unwrap();

    let notes = store.get_stakeholder_notes(&project.id, "alice@example.com");
    assert_eq!(notes.len(), 0);
}

#[test]
fn test_project_resources_round_trip() {
    let mut store = setup_test_db();

    store
        .create_person(&Person::new("dev@example.com".to_string(), "Dev".to_string()))
        .unwrap();
    let project = Project::new("Test Project".to_string());
    store.create_project(&project).unwrap();

    let mut resource = ProjectResource::new(project.id.clone(), "dev@example.com".to_string());
    resource.role = Some("Engineer".to_string());
    store.add_project_resource(&project.id, &resource).unwrap();

    let resources = store.get_project_resources(&project.id);
    assert_eq!(resources.len(), 1);
    assert_eq!(resources[0].person_email, "dev@example.com");
    assert_eq!(resources[0].role, Some("Engineer".to_string()));

    resource.role = Some("Tech Lead".to_string());
    store.update_project_resource(&project.id, &resource).unwrap();
    let resources = store.get_project_resources(&project.id);
    assert_eq!(resources[0].role, Some("Tech Lead".to_string()));

    store.remove_project_resource(&project.id, "dev@example.com").unwrap();
    assert_eq!(store.get_project_resources(&project.id).len(), 0);
}

#[test]
fn test_milestone_resources_round_trip() {
    let mut store = setup_test_db();

    store
        .create_person(&Person::new("dev@example.com".to_string(), "Dev".to_string()))
        .unwrap();
    let project = Project::new("Test Project".to_string());
    store.create_project(&project).unwrap();
    let milestone = Milestone::new(project.id.clone(), 1, "M1".to_string());
    store.add_milestone(&milestone).unwrap();

    let resource = MilestoneResource::new(milestone.id.clone(), "dev@example.com".to_string());
    store.add_milestone_resource(&milestone.id, &resource).unwrap();

    let resources = store.get_milestone_resources(&milestone.id);
    assert_eq!(resources.len(), 1);
    assert_eq!(resources[0].person_email, "dev@example.com");

    store.remove_milestone_resource(&milestone.id, "dev@example.com").unwrap();
    assert_eq!(store.get_milestone_resources(&milestone.id).len(), 0);

    let result = store.remove_milestone_resource(&milestone.id, "dev@example.com");
    assert_eq!(result.unwrap_err(), RepoError::NotFound);
}

#[test]
fn test_notes_listed_newest_first() {
    let mut store = setup_test_db();
    let project = Project::new("Test Project".to_string());
    store.create_project(&project).unwrap();

    let mut older = ProjectNote::new(project.id.clone(), "Old".to_string(), "o".to_string());
    older.created_at = 1000;
    let mut newer = ProjectNote::new(project.id.clone(), "New".to_string(), "n".to_string());
    newer.created_at = 2000;
    store.add_project_note(&older).unwrap();
    store.add_project_note(&newer).unwrap();

    let notes = store.get_project_notes(&project.id);
    assert_eq!(notes.len(), 2);
    assert_eq!(notes[0].title, "New");
    assert_eq!(notes[1].title, "Old");
}
