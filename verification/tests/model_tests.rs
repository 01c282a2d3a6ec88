//! Entity constructor behavior and the small shell types.

use project_tracker::agent::ClaudeAgent;
use project_tracker::chat::{Message, Role};
use project_tracker::config::Config;
use project_tracker::model::{
    Milestone, MilestoneNote, Person, Project, ProjectNote, ProjectStakeholder, StakeholderNote,
};
use project_tracker::auth::{get_auth_status, Credentials};
use project_tracker::storage::Storage;
use project_tracker::utils::{generate_id, parse_id, validate_uuid_text};

fn now_plus_second() -> i64 {
    chrono::Utc::now().timestamp_millis() + 1000
}

#[test]
fn test_person_new() {
    let person = Person::new("alice@example.com".to_string(), "Alice Smith".to_string());

    assert_eq!(person.email, "alice@example.com");
    assert_eq!(person.name, "Alice Smith");
    assert!(person.team.is_none());
    assert!(person.manager.is_none());
    assert!(person.notes.is_none());
    // Check timestamps are set
    assert!(person.created_at < now_plus_second());
    assert!(person.updated_at < now_plus_second());
}

#[test]
fn test_person_with_optional_fields() {
    let mut person = Person::new("alice@example.com".to_string(), "Alice Smith".to_string());
    person.team = Some("Engineering".to_string());
    person.manager = Some("manager@example.com".to_string());
    person.notes = Some("Team lead".to_string());

    assert_eq!(person.team, Some("Engineering".to_string()));
    assert_eq!(person.manager, Some("manager@example.com".to_string()));
    assert_eq!(person.notes, Some("Team lead".to_string()));
}

#[test]
fn test_project_new() {
    let project = Project::new("Test Project".to_string());

    assert_eq!(project.name, "Test Project");
    assert!(project.description.is_none());
    assert!(project.jira_initiative.is_none());
    assert_eq!(project.project_type, "Personal");
    assert!(project.due_date.is_none());
    // Check timestamps are set
    assert!(project.created_at < now_plus_second());
    assert!(project.updated_at < now_plus_second());
}

#[test]
fn test_project_with_all_fields() {
    let mut project = Project::new("Test Project".to_string());
    project.description = Some("A test project".to_string());
    project.project_type = "Team".to_string();
    project.requirements_owner = Some("owner@example.com".to_string());
    project.technical_lead = Some("lead@example.com".to_string());
    project.manager = Some("manager@example.com".to_string());
    project.due_date = Some(chrono::Utc::now().timestamp_millis());
    project.jira_initiative = Some("PROJ-123".to_string());

    assert_eq!(project.description, Some("A test project".to_string()));
    assert_eq!(project.project_type, "Team");
    assert!(project.requirements_owner.is_some());
    assert!(project.technical_lead.is_some());
    assert!(project.manager.is_some());
    assert!(project.due_date.is_some());
    assert_eq!(project.jira_initiative, Some("PROJ-123".to_string()));
}

#[test]
fn test_project_unique_ids() {
    let project1 = Project::new("Project 1".to_string());
    let project2 = Project::new("Project 2".to_string());

    assert_ne!(project1.id, project2.id);
}

#[test]
fn test_milestone_new() {
    let project_id = generate_id();
    let milestone = Milestone::new(project_id.clone(), 1, "Alpha Release".to_string());

    assert_eq!(milestone.project_id, project_id);
    assert_eq!(milestone.number, 1);
    assert_eq!(milestone.name, "Alpha Release");
    assert!(milestone.description.is_none());
    assert!(milestone.jira_epic.is_none());
    assert!(milestone.due_date.is_none());
    // Check timestamps are set
    assert!(milestone.created_at < now_plus_second());
    assert!(milestone.updated_at < now_plus_second());
}

#[test]
fn test_milestone_with_optional_fields() {
    let project_id = generate_id();
    let mut milestone = Milestone::new(project_id, 1, "Alpha Release".to_string());
    milestone.description = Some("First major release".to_string());
    milestone.technical_lead = Some("lead@example.com".to_string());
    milestone.design_doc_url = Some("https://docs.example.com/design".to_string());
    milestone.due_date = Some(chrono::Utc::now().timestamp_millis());
    milestone.jira_epic = Some("EPIC-123".to_string());

    assert_eq!(milestone.description, Some("First major release".to_string()));
    assert!(milestone.technical_lead.is_some());
    assert!(milestone.design_doc_url.is_some());
    assert!(milestone.due_date.is_some());
    assert_eq!(milestone.jira_epic, Some("EPIC-123".to_string()));
}

#[test]
fn test_project_stakeholder_new() {
    let project_id = generate_id();
    let stakeholder = ProjectStakeholder::new(project_id.clone(), "stakeholder@example.com".to_string());

    assert_eq!(stakeholder.project_id, project_id);
    assert_eq!(stakeholder.stakeholder_email, "stakeholder@example.com");
    assert!(stakeholder.role.is_none());
    assert!(stakeholder.created_at < now_plus_second());
}

#[test]
fn test_project_stakeholder_with_role() {
    let project_id = generate_id();
    let mut stakeholder = ProjectStakeholder::new(project_id, "stakeholder@example.com".to_string());
    stakeholder.role = Some("Product Owner".to_string());

    assert_eq!(stakeholder.role, Some("Product Owner".to_string()));
}

#[test]
fn test_project_note_new() {
    let project_id = generate_id();
    let note = ProjectNote::new(
        project_id.clone(),
        "Test Note".to_string(),
        "This is a test note.".to_string(),
    );

    assert_eq!(note.project_id, project_id);
    assert_eq!(note.title, "Test Note");
    assert_eq!(note.body, "This is a test note.");
    assert!(note.created_at < now_plus_second());
    assert!(note.updated_at < now_plus_second());
}

#[test]
fn test_project_note_unique_ids() {
    let project_id = generate_id();
    let note1 = ProjectNote::new(project_id.clone(), "Note 1".to_string(), "Body 1".to_string());
    let note2 = ProjectNote::new(project_id, "Note 2".to_string(), "Body 2".to_string());

    assert_ne!(note1.id, note2.id);
}

#[test]
fn test_milestone_note_new() {
    let milestone_id = generate_id();
    let note = MilestoneNote::new(
        milestone_id.clone(),
        "Milestone Note".to_string(),
        "This is a milestone note.".to_string(),
    );

    assert_eq!(note.milestone_id, milestone_id);
    assert_eq!(note.title, "Milestone Note");
    assert_eq!(note.body, "This is a milestone note.");
    assert!(note.created_at < now_plus_second());
    assert!(note.updated_at < now_plus_second());
}

#[test]
fn test_stakeholder_note_new() {
    let project_id = generate_id();
    let note = StakeholderNote::new(
        project_id.clone(),
        "stakeholder@example.com".to_string(),
        "Stakeholder Note".to_string(),
        "This is a stakeholder note.".to_string(),
    );

    assert_eq!(note.project_id, project_id);
    assert_eq!(note.stakeholder_email, "stakeholder@example.com");
    assert_eq!(note.title, "Stakeholder Note");
    assert_eq!(note.body, "This is a stakeholder note.");
    assert!(note.created_at < now_plus_second());
    assert!(note.updated_at < now_plus_second());
}

#[test]
fn test_generate_id() {
    let id1 = generate_id();
    let id2 = generate_id();
    assert_ne!(id1, id2);
    assert!(!id1.is_empty());
}

#[test]
fn test_generated_id_is_canonical() {
    let id = generate_id();
    assert!(validate_uuid_text(&id));
    assert_eq!(id.len(), 36);
    assert!(parse_id(&id).is_ok());
}

#[test]
fn test_parse_id_rejects_malformed() {
    let err = parse_id("not-a-valid-identifier").unwrap_err();
    assert_eq!(err, project_tracker::err::RepoError::InvalidIdentifier);
    assert!(parse_id("").is_err());
    // right length, wrong characters
    assert!(parse_id("zzzzzzzz-zzzz-zzzz-zzzz-zzzzzzzzzzzz").is_err());
    // upper-case hex is not canonical
    assert!(parse_id("AAAAAAAA-AAAA-AAAA-AAAA-AAAAAAAAAAAA").is_err());
}

#[test]
fn test_agent_creation() {
    let agent = ClaudeAgent::new("test-key".to_string());
    assert_eq!(agent.api_key, "test-key");
}

#[test]
fn test_message_creation() {
    let user_msg = Message::user("Hello".to_string());
    assert_eq!(user_msg.role, Role::User);
    assert_eq!(user_msg.content, "Hello");

    let assistant_msg = Message::assistant("Hi there!".to_string());
    assert_eq!(assistant_msg.role, Role::Assistant);
    assert_eq!(assistant_msg.content, "Hi there!");
}

#[test]
fn test_config_default() {
    let config = Config::default();
    assert_eq!(config.api_key, "your-anthropic-api-key-here");
    assert_eq!(config.data_dir, "~/.project-tracker/data");
    assert_eq!(config.logging.level, "info");
}

#[test]
fn test_jira_ticket_url() {
    let config = Config::default();
    assert_eq!(
        config.jira_ticket_url("PROJ-7"),
        "https://jira.company.com/browse/PROJ-7"
    );
}

#[test]
fn test_expand_path() {
    let config = Config::default();

    // Test tilde expansion
    let expanded = config.expand_path("~/test/path").unwrap();
    assert!(!expanded.contains('~'));
    assert!(expanded.ends_with("/test/path"));

    // Test absolute path
    let expanded = config.expand_path("/absolute/path").unwrap();
    assert_eq!(expanded, "/absolute/path");
}

#[test]
fn test_storage_creation() {
    let storage = Storage::new("/tmp/tracker-data".to_string());
    assert_eq!(storage.data_dir(), "/tmp/tracker-data");
}

#[test]
fn test_auth_status_decision() {
    let creds = Credentials {
        session_key: "SECRET-REDACTED".to_string(),
        organization_id: Some("org-1".to_string()),
    };
    let status = get_auth_status(Some(&creds));
    assert!(status.authenticated);
    assert_eq!(status.organization_id, Some("org-1".to_string()));

    let status = get_auth_status(None);
    assert!(!status.authenticated);
    assert!(status.organization_id.is_none());
}
