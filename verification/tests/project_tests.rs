//! Project repository behavior: CRUD, milestones and the cascades.

use project_tracker::err::RepoError;
use project_tracker::model::{Milestone, Project};
use project_tracker::store::Store;
use project_tracker::utils::generate_id;

fn setup_test_db() -> Store {
    Store::open_new()
}

#[test]
fn test_create_and_find_project() {
    let mut store = setup_test_db();
    let project = Project::new("Test Project".to_string());

    store.create_project(&project).unwrap();

    let found = store.find_by_id(&project.id).unwrap();
    assert_eq!(found.name, "Test Project");
    assert_eq!(found.id, project.id);
}

#[test]
fn test_find_nonexistent_project() {
    let store = setup_test_db();
    let fake_id = generate_id();

    let result = store.find_by_id(&fake_id);
    assert!(result.is_none());
}

#[test]
fn test_list_all_projects() {
    let mut store = setup_test_db();

    let project1 = Project::new("Alpha Project".to_string());
    let project2 = Project::new("Beta Project".to_string());
    store.create_project(&project1).unwrap();
    store.create_project(&project2).unwrap();

    let projects = store.list_projects();
    assert_eq!(projects.len(), 2);
    // Should be sorted by name
    assert_eq!(projects[0].name, "Alpha Project");
    assert_eq!(projects[1].name, "Beta Project");
}

#[test]
fn test_update_project() {
    let mut store = setup_test_db();
    let mut project = Project::new("Original Name".to_string());
    store.create_project(&project).unwrap();

    project.name = "Updated Name".to_string();
    project.description = Some("New description".to_string());
    store.update_project(&project).unwrap();

    let found = store.find_by_id(&project.id).unwrap();
    assert_eq!(found.name, "Updated Name");
    assert_eq!(found.description, Some("New description".to_string()));
}

#[test]
fn test_update_nonexistent_project() {
    let mut store = setup_test_db();
    let project = Project::new("Test Project".to_string());

    let result = store.update_project(&project);
    assert!(result.is_err());
    assert!(result.unwrap_err().message().contains("not found"));
}

#[test]
fn test_delete_project() {
    let mut store = setup_test_db();
    let project = Project::new("Test Project".to_string());
    store.create_project(&project).unwrap();

    store.delete_project(&project.id).unwrap();

    let found = store.find_by_id(&project.id);
    assert!(found.is_none());
}

#[test]
fn test_delete_nonexistent_project() {
    let mut store = setup_test_db();
    let fake_id = generate_id();

    let result = store.delete_project(&fake_id);
    assert!(result.is_err());
    assert!(result.unwrap_err().message().contains("not found"));
}

#[test]
fn test_add_milestone() {
    let mut store = setup_test_db();
    let project = Project::new("Test Project".to_string());
    store.create_project(&project).unwrap();

    let milestone = Milestone::new(project.id.clone(), 1, "Milestone 1".to_string());
    store.add_milestone(&milestone).unwrap();

    let milestones = store.get_milestones(&project.id);
    assert_eq!(milestones.len(), 1);
    assert_eq!(milestones[0].name, "Milestone 1");
    assert_eq!(milestones[0].number, 1);
}

#[test]
fn test_get_milestones_empty() {
    let mut store = setup_test_db();
    let project = Project::new("Test Project".to_string());
    store.create_project(&project).unwrap();

    let milestones = store.get_milestones(&project.id);
    assert_eq!(milestones.len(), 0);
}

#[test]
fn test_get_milestones_sorted_by_number() {
    let mut store = setup_test_db();
    let project = Project::new("Test Project".to_string());
    store.create_project(&project).unwrap();

    store
        .add_milestone(&Milestone::new(project.id.clone(), 3, "Gamma".to_string()))
        .unwrap();
    store
        .add_milestone(&Milestone::new(project.id.clone(), 1, "Alpha".to_string()))
        .unwrap();
    store
        .add_milestone(&Milestone::new(project.id.clone(), 2, "Beta".to_string()))
        .unwrap();

    let milestones = store.get_milestones(&project.id);
    assert_eq!(milestones.len(), 3);
    assert_eq!(milestones[0].number, 1);
    assert_eq!(milestones[1].number, 2);
    assert_eq!(milestones[2].number, 3);
}

#[test]
fn test_update_milestone() {
    let mut store = setup_test_db();
    let project = Project::new("Test Project".to_string());
    store.create_project(&project).unwrap();

    let mut milestone = Milestone::new(project.id.clone(), 1, "Original Name".to_string());
    store.add_milestone(&milestone).unwrap();

    milestone.name = "Updated Name".to_string();
    milestone.description = Some("New description".to_string());
    store.update_milestone(&milestone).unwrap();

    let milestones = store.get_milestones(&project.id);
    assert_eq!(milestones[0].name, "Updated Name");
    assert_eq!(milestones[0].description, Some("New description".to_string()));
}

#[test]
fn test_update_nonexistent_milestone() {
    let mut store = setup_test_db();
    let project = Project::new("Test Project".to_string());
    store.create_project(&project).unwrap();

    let milestone = Milestone::new(project.id.clone(), 1, "Test Milestone".to_string());
    let result = store.update_milestone(&milestone);
    assert!(result.is_err());
    assert!(result.unwrap_err().message().contains("not found"));
}

#[test]
fn test_delete_milestone() {
    let mut store = setup_test_db();
    let project = Project::new("Test Project".to_string());
    store.create_project(&project).unwrap();

    let milestone = Milestone::new(project.id.clone(), 1, "Milestone 1".to_string());
    store.add_milestone(&milestone).unwrap();

    store.delete_milestone(&milestone.id).unwrap();

    let milestones = store.get_milestones(&project.id);
    assert_eq!(milestones.len(), 0);
}

#[test]
fn test_delete_nonexistent_milestone() {
    let mut store = setup_test_db();
    let fake_id = generate_id();

    let result = store.delete_milestone(&fake_id);
    assert!(result.is_err());
    assert!(result.unwrap_err().message().contains("not found"));
}

#[test]
fn test_delete_project_cascades_to_milestones() {
    let mut store = setup_test_db();
    let project = Project::new("Test Project".to_string());
    store.create_project(&project).unwrap();

    let milestone = Milestone::new(project.id.clone(), 1, "Milestone 1".to_string());
    store.add_milestone(&milestone).unwrap();

    store.delete_project(&project.id).unwrap();

    // Milestones should be deleted via cascade
    let milestones = store.get_milestones(&project.id);
    assert_eq!(milestones.len(), 0);
}

#[test]
fn test_cascade_delete_milestones() {
    let mut store = setup_test_db();

    let project = Project::new("Test".to_string());
    store.create_project(&project).unwrap();

    let milestone = Milestone::new(project.id.clone(), 1, "M1".to_string());
    store.add_milestone(&milestone).unwrap();

    // Delete project
    store.delete_project(&project.id).unwrap();

    // Verify milestone was deleted
    let milestones = store.get_milestones(&project.id);
    assert_eq!(milestones.len(), 0);
}

#[test]
fn test_duplicate_milestone_number_is_conflict() {
    let mut store = setup_test_db();
    let project = Project::new("Test Project".to_string());
    store.create_project(&project).unwrap();

    store
        .add_milestone(&Milestone::new(project.id.clone(), 1, "First".to_string()))
        .unwrap();
    let result = store.add_milestone(&Milestone::new(project.id.clone(), 1, "Second".to_string()));
    assert_eq!(result.unwrap_err(), RepoError::Conflict);
}

#[test]
fn test_milestone_for_missing_project_is_invalid_reference() {
    let mut store = setup_test_db();
    let fake_id = generate_id();

    let result = store.add_milestone(&Milestone::new(fake_id, 1, "Orphan".to_string()));
    assert_eq!(result.unwrap_err(), RepoError::InvalidReference);
}

#[test]
fn test_delete_milestone_leaves_project_and_siblings() {
    let mut store = setup_test_db();
    let project = Project::new("Test Project".to_string());
    store.create_project(&project).unwrap();

    let first = Milestone::new(project.id.clone(), 1, "First".to_string());
    let second = Milestone::new(project.id.clone(), 2, "Second".to_string());
    store.add_milestone(&first).unwrap();
    store.add_milestone(&second).unwrap();

    store.delete_milestone(&first.id).unwrap();

    assert!(store.find_by_id(&project.id).is_some());
    let milestones = store.get_milestones(&project.id);
    assert_eq!(milestones.len(), 1);
    assert_eq!(milestones[0].name, "Second");
}
