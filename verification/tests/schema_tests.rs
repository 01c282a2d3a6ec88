//! Schema manager behavior: table creation, the version ledger, and the
//! idempotent migration sequence.

use project_tracker::schema::{
    apply_migrations, get_schema_version, initialize_schema, SchemaState,
};
use project_tracker::store::Store;

fn fresh_initialized() -> SchemaState {
    let mut schema = SchemaState::new_empty();
    initialize_schema(&mut schema);
    schema
}

#[test]
fn test_initialize_schema() {
    let schema = fresh_initialized();

    // All base tables exist, with the columns the base shape carries.
    assert!(schema.tables_created);
    assert!(schema.projects_has_type);
    assert!(schema.project_notes_has_updated_at);
    assert!(schema.milestone_notes_has_updated_at);
    assert!(schema.stakeholder_notes_has_updated_at);
    // The team columns come only with their migration.
    assert!(!schema.projects_has_team);
    assert!(!schema.milestones_has_team);
}

#[test]
fn test_initialize_schema_idempotent() {
    let mut schema = SchemaState::new_empty();

    // Initialize twice - should not error
    initialize_schema(&mut schema);
    initialize_schema(&mut schema);

    let version = get_schema_version(&schema).unwrap();
    assert_eq!(version, 1);
    assert_eq!(schema.versions.len(), 1);
}

#[test]
fn test_schema_version() {
    let schema = fresh_initialized();

    let version = get_schema_version(&schema).unwrap();
    assert_eq!(version, 1);
}

#[test]
fn test_apply_migrations() {
    let mut schema = fresh_initialized();

    // Initial version should be 1
    let version = get_schema_version(&schema).unwrap();
    assert_eq!(version, 1);

    // Apply migrations
    apply_migrations(&mut schema).unwrap();

    // Should now be at version 4 (latest)
    let version = get_schema_version(&schema).unwrap();
    assert_eq!(version, 4);
}

#[test]
fn test_apply_migrations_idempotent() {
    let mut schema = fresh_initialized();

    // Apply migrations twice - should not error
    apply_migrations(&mut schema).unwrap();
    let after_first = schema.versions.clone();
    apply_migrations(&mut schema).unwrap();

    let version = get_schema_version(&schema).unwrap();
    assert_eq!(version, 4);
    // The second run records nothing new
    assert_eq!(schema.versions, after_first);
}

#[test]
fn test_apply_migrations_without_tables_fails() {
    let mut schema = SchemaState::new_empty();
    let result = apply_migrations(&mut schema);
    assert!(result.is_err());
}

#[test]
fn test_migration_to_version_2_adds_type_column() {
    let mut schema = fresh_initialized();
    apply_migrations(&mut schema).unwrap();

    // The type column exists on projects
    assert!(schema.projects_has_type);

    // Verify the default type value works
    let project = project_tracker::model::Project::new("Test".to_string());
    assert_eq!(project.project_type, "Personal");
}

#[test]
fn test_migration_to_version_3_adds_updated_at_to_notes() {
    let mut schema = fresh_initialized();
    apply_migrations(&mut schema).unwrap();

    assert!(schema.project_notes_has_updated_at);
    assert!(schema.milestone_notes_has_updated_at);
    assert!(schema.stakeholder_notes_has_updated_at);
}

#[test]
fn test_migration_to_version_4_adds_team_columns() {
    let mut schema = fresh_initialized();
    assert!(!schema.projects_has_team);
    assert!(!schema.milestones_has_team);

    apply_migrations(&mut schema).unwrap();

    assert!(schema.projects_has_team);
    assert!(schema.milestones_has_team);
}

#[test]
fn test_open_database() {
    let store = Store::open_new();

    // A fresh store opens with the schema fully migrated
    let version = get_schema_version(&store.schema).unwrap();
    assert_eq!(version, 4);
    assert!(store.schema.tables_created);
}
