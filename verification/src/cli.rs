//! The command model of the command-line surface: what each subcommand
//! asks for. Argument parsing and the handlers live outside the library.

use vstd::prelude::*;

verus! {

/// Project subcommands.
#[derive(Debug)]
pub enum ProjectAction {
    /// List all projects.
    List,
    /// Add a new project.
    Add { name: String },
    /// Remove a project.
    Remove { id: String },
    /// Show project details.
    Show { id: String },
    /// Add a resource to a project.
    AddResource { project_id: String, person_email: String, role: Option<String> },
    /// List resources for a project.
    ListResources { project_id: String },
    /// Remove a resource from a project.
    RemoveResource { project_id: String, person_email: String },
    /// Add a resource to a milestone.
    AddMilestoneResource { milestone_id: String, person_email: String, role: Option<String> },
    /// List resources for a milestone.
    ListMilestoneResources { milestone_id: String },
    /// Remove a resource from a milestone.
    RemoveMilestoneResource { milestone_id: String, person_email: String },
}

/// People subcommands.
#[derive(Debug)]
pub enum PeopleAction {
    /// List all people.
    List,
    /// Add a new person.
    Add { name: String },
    /// Remove a person.
    Remove { id: String },
    /// Show person details.
    Show { id: String },
}

/// Team subcommands.
#[derive(Debug)]
pub enum TeamAction {
    /// List all teams.
    List,
    /// Add a new team.
    Add { name: String },
    /// Remove a team.
    Remove { name: String },
    /// Show team details.
    Show { name: String },
    /// Add a member to a team.
    AddMember { team_name: String, person_email: String },
    /// Remove a member from a team.
    RemoveMember { team_name: String, person_email: String },
}

} // verus!
