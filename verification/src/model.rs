//! The entity model: plain data carriers with constructors that stamp
//! identity and timestamps. Optional fields model nullable columns;
//! absence is a first-class state.

use vstd::prelude::*;
use crate::utils::{generate_id, is_uuid_text, now_millis};

verus! {

/// Clone an optional text field; the copy equals the original.
pub fn clone_opt_text(o: &Option<String>) -> (r: Option<String>)
    ensures
        r == *o,
{
    match o {
        Option::None => Option::None,
        Option::Some(s) => Option::Some(s.clone()),
    }
}

/// Clone an optional timestamp field.
pub fn clone_opt_time(o: &Option<i64>) -> (r: Option<i64>)
    ensures
        r == *o,
{
    match o {
        Option::None => Option::None,
        Option::Some(t) => Option::Some(*t),
    }
}

/// The coarse lifecycle stages a tracked project can be in.
#[derive(Clone, Copy, Debug, PartialEq, Eq, Structural)]
pub enum ProjectStatus {
    Planning,
    Active,
    OnHold,
    Completed,
    Cancelled,
}

/// A person, identified by email address.
#[derive(Debug)]
pub struct Person {
    /// Unique identifier (email address).
    pub email: String,
    /// Person's name.
    pub name: String,
    /// Team name (free text, not a reference).
    pub team: Option<String>,
    /// Manager's email address; must reference a person when set.
    pub manager: Option<String>,
    /// Additional notes.
    pub notes: Option<String>,
    /// Creation timestamp (UTC milliseconds).
    pub created_at: i64,
    /// Last update timestamp; server-set on every mutation.
    pub updated_at: i64,
}

impl Person {
    /// A new person with both timestamps stamped to the same instant.
    pub fn new(email: String, name: String) -> (p: Person)
        ensures
            p.email == email,
            p.name == name,
            p.team is None,
            p.manager is None,
            p.notes is None,
            p.created_at == p.updated_at,
    {
        let now = now_millis();
        Person {
            email,
            name,
            team: Option::None,
            manager: Option::None,
            notes: Option::None,
            created_at: now,
            updated_at: now,
        }
    }
}

impl Clone for Person {
    fn clone(&self) -> (r: Self)
        ensures
            r == *self,
    {
        Person {
            email: self.email.clone(),
            name: self.name.clone(),
            team: clone_opt_text(&self.team),
            manager: clone_opt_text(&self.manager),
            notes: clone_opt_text(&self.notes),
            created_at: self.created_at,
            updated_at: self.updated_at,
        }
    }
}

/// A team, identified by its name.
#[derive(Debug)]
pub struct Team {
    /// Unique identifier (team name).
    pub name: String,
    /// Team description.
    pub description: Option<String>,
    /// Manager's email address; must reference a person when set.
    pub manager: Option<String>,
    /// Creation timestamp.
    pub created_at: i64,
    /// Last update timestamp.
    pub updated_at: i64,
}

impl Team {
    /// A new team with both timestamps stamped to the same instant.
    pub fn new(name: String) -> (t: Team)
        ensures
            t.name == name,
            t.description is None,
            t.manager is None,
            t.created_at == t.updated_at,
    {
        let now = now_millis();
        Team {
            name,
            description: Option::None,
            manager: Option::None,
            created_at: now,
            updated_at: now,
        }
    }
}

impl Clone for Team {
    fn clone(&self) -> (r: Self)
        ensures
            r == *self,
    {
        Team {
            name: self.name.clone(),
            description: clone_opt_text(&self.description),
            manager: clone_opt_text(&self.manager),
            created_at: self.created_at,
            updated_at: self.updated_at,
        }
    }
}

/// A team membership row: a pure junction between a team and a person.
#[derive(Debug)]
pub struct TeamMember {
    /// Team name; references a team.
    pub team_name: String,
    /// Person's email address; references a person.
    pub person_email: String,
    /// When this person was added to the team.
    pub created_at: i64,
}

impl TeamMember {
    /// A new membership row stamped now.
    pub fn new(team_name: String, person_email: String) -> (m: TeamMember)
        ensures
            m.team_name == team_name,
            m.person_email == person_email,
    {
        TeamMember { team_name, person_email, created_at: now_millis() }
    }
}

impl Clone for TeamMember {
    fn clone(&self) -> (r: Self)
        ensures
            r == *self,
    {
        TeamMember {
            team_name: self.team_name.clone(),
            person_email: self.person_email.clone(),
            created_at: self.created_at,
        }
    }
}

/// A project, identified by a generated identifier.
#[derive(Debug)]
pub struct Project {
    /// Unique identifier in canonical text form.
    pub id: String,
    /// Project name.
    pub name: String,
    /// Project description.
    pub description: Option<String>,
    /// Project type (`Personal`, `Team` or `Company`); stored as text and
    /// validated only at the edges that set it.
    pub project_type: String,
    /// Requirements owner's email; must reference a person when set.
    pub requirements_owner: Option<String>,
    /// Technical lead's email; must reference a person when set.
    pub technical_lead: Option<String>,
    /// Manager's email; must reference a person when set.
    pub manager: Option<String>,
    /// Team assigned to this project (free text column).
    pub team: Option<String>,
    /// Due date.
    pub due_date: Option<i64>,
    /// External tracker initiative reference.
    pub jira_initiative: Option<String>,
    /// Creation timestamp.
    pub created_at: i64,
    /// Last update timestamp.
    pub updated_at: i64,
}

impl Project {
    /// A new project of the default `Personal` type with a fresh identifier.
    pub fn new(name: String) -> (p: Project)
        ensures
            p.name == name,
            is_uuid_text(p.id@),
            p.description is None,
            p.project_type@ == "Personal"@,
            p.requirements_owner is None,
            p.technical_lead is None,
            p.manager is None,
            p.team is None,
            p.due_date is None,
            p.jira_initiative is None,
            p.created_at == p.updated_at,
    {
        let now = now_millis();
        Project {
            id: generate_id(),
            name,
            description: Option::None,
            project_type: String::from_str("Personal"),
            requirements_owner: Option::None,
            technical_lead: Option::None,
            manager: Option::None,
            team: Option::None,
            due_date: Option::None,
            jira_initiative: Option::None,
            created_at: now,
            updated_at: now,
        }
    }
}

impl Clone for Project {
    fn clone(&self) -> (r: Self)
        ensures
            r == *self,
    {
        Project {
            id: self.id.clone(),
            name: self.name.clone(),
            description: clone_opt_text(&self.description),
            project_type: self.project_type.clone(),
            requirements_owner: clone_opt_text(&self.requirements_owner),
            technical_lead: clone_opt_text(&self.technical_lead),
            manager: clone_opt_text(&self.manager),
            team: clone_opt_text(&self.team),
            due_date: clone_opt_time(&self.due_date),
            jira_initiative: clone_opt_text(&self.jira_initiative),
            created_at: self.created_at,
            updated_at: self.updated_at,
        }
    }
}

/// A project milestone. `(project_id, number)` is unique within the store.
#[derive(Debug)]
pub struct Milestone {
    /// Unique identifier in canonical text form.
    pub id: String,
    /// Project this milestone belongs to; removed with it.
    pub project_id: String,
    /// Milestone number, for ordering within the project.
    pub number: i32,
    /// Milestone name.
    pub name: String,
    /// Milestone description.
    pub description: Option<String>,
    /// Technical lead's email; must reference a person when set.
    pub technical_lead: Option<String>,
    /// Team assigned to this milestone (free text column).
    pub team: Option<String>,
    /// Link to a design document.
    pub design_doc_url: Option<String>,
    /// Due date.
    pub due_date: Option<i64>,
    /// External tracker epic reference.
    pub jira_epic: Option<String>,
    /// Creation timestamp.
    pub created_at: i64,
    /// Last update timestamp.
    pub updated_at: i64,
}

impl Milestone {
    /// A new milestone with a fresh identifier.
    pub fn new(project_id: String, number: i32, name: String) -> (m: Milestone)
        ensures
            m.project_id == project_id,
            m.number == number,
            m.name == name,
            is_uuid_text(m.id@),
            m.description is None,
            m.technical_lead is None,
            m.team is None,
            m.design_doc_url is None,
            m.due_date is None,
            m.jira_epic is None,
            m.created_at == m.updated_at,
    {
        let now = now_millis();
        Milestone {
            id: generate_id(),
            project_id,
            number,
            name,
            description: Option::None,
            technical_lead: Option::None,
            team: Option::None,
            design_doc_url: Option::None,
            due_date: Option::None,
            jira_epic: Option::None,
            created_at: now,
            updated_at: now,
        }
    }
}

impl Clone for Milestone {
    fn clone(&self) -> (r: Self)
        ensures
            r == *self,
    {
        Milestone {
            id: self.id.clone(),
            project_id: self.project_id.clone(),
            number: self.number,
            name: self.name.clone(),
            description: clone_opt_text(&self.description),
            technical_lead: clone_opt_text(&self.technical_lead),
            team: clone_opt_text(&self.team),
            design_doc_url: clone_opt_text(&self.design_doc_url),
            due_date: clone_opt_time(&self.due_date),
            jira_epic: clone_opt_text(&self.jira_epic),
            created_at: self.created_at,
            updated_at: self.updated_at,
        }
    }
}

/// A stakeholder link: at most one role-record per `(project, person)` pair.
#[derive(Debug)]
pub struct ProjectStakeholder {
    /// Project identifier; removed with the project.
    pub project_id: String,
    /// Stakeholder's email; must reference a person.
    pub stakeholder_email: String,
    /// Stakeholder's role on the project.
    pub role: Option<String>,
    /// Creation timestamp.
    pub created_at: i64,
}

impl ProjectStakeholder {
    /// A new stakeholder link stamped now.
    pub fn new(project_id: String, stakeholder_email: String) -> (s: ProjectStakeholder)
        ensures
            s.project_id == project_id,
            s.stakeholder_email == stakeholder_email,
            s.role is None,
    {
        ProjectStakeholder {
            project_id,
            stakeholder_email,
            role: Option::None,
            created_at: now_millis(),
        }
    }
}

impl Clone for ProjectStakeholder {
    fn clone(&self) -> (r: Self)
        ensures
            r == *self,
    {
        ProjectStakeholder {
            project_id: self.project_id.clone(),
            stakeholder_email: self.stakeholder_email.clone(),
            role: clone_opt_text(&self.role),
            created_at: self.created_at,
        }
    }
}

/// A resource assignment of a person to a project.
#[derive(Debug)]
pub struct ProjectResource {
    /// Project identifier; removed with the project.
    pub project_id: String,
    /// Assigned person's email; must reference a person.
    pub person_email: String,
    /// Role of the assignment.
    pub role: Option<String>,
    /// Creation timestamp.
    pub created_at: i64,
}

impl ProjectResource {
    /// A new resource assignment stamped now.
    pub fn new(project_id: String, person_email: String) -> (s: ProjectResource)
        ensures
            s.project_id == project_id,
            s.person_email == person_email,
            s.role is None,
    {
        ProjectResource { project_id, person_email, role: Option::None, created_at: now_millis() }
    }
}

impl Clone for ProjectResource {
    fn clone(&self) -> (r: Self)
        ensures
            r == *self,
    {
        ProjectResource {
            project_id: self.project_id.clone(),
            person_email: self.person_email.clone(),
            role: clone_opt_text(&self.role),
            created_at: self.created_at,
        }
    }
}

/// A resource assignment of a person to a milestone.
#[derive(Debug)]
pub struct MilestoneResource {
    /// Milestone identifier; removed with the milestone.
    pub milestone_id: String,
    /// Assigned person's email; must reference a person.
    pub person_email: String,
    /// Role of the assignment.
    pub role: Option<String>,
    /// Creation timestamp.
    pub created_at: i64,
}

impl MilestoneResource {
    /// A new resource assignment stamped now.
    pub fn new(milestone_id: String, person_email: String) -> (s: MilestoneResource)
        ensures
            s.milestone_id == milestone_id,
            s.person_email == person_email,
            s.role is None,
    {
        MilestoneResource {
            milestone_id,
            person_email,
            role: Option::None,
            created_at: now_millis(),
        }
    }
}

impl Clone for MilestoneResource {
    fn clone(&self) -> (r: Self)
        ensures
            r == *self,
    {
        MilestoneResource {
            milestone_id: self.milestone_id.clone(),
            person_email: self.person_email.clone(),
            role: clone_opt_text(&self.role),
            created_at: self.created_at,
        }
    }
}

/// A free-text note owned by a project.
#[derive(Debug)]
pub struct ProjectNote {
    /// Unique identifier in canonical text form.
    pub id: String,
    /// Project this note belongs to; removed with it.
    pub project_id: String,
    /// Note title.
    pub title: String,
    /// Note body.
    pub body: String,
    /// Creation timestamp.
    pub created_at: i64,
    /// Last update timestamp.
    pub updated_at: i64,
}

impl ProjectNote {
    /// A new note with a fresh identifier.
    pub fn new(project_id: String, title: String, body: String) -> (n: ProjectNote)
        ensures
            n.project_id == project_id,
            n.title == title,
            n.body == body,
            is_uuid_text(n.id@),
            n.created_at == n.updated_at,
    {
        let now = now_millis();
        ProjectNote { id: generate_id(), project_id, title, body, created_at: now, updated_at: now }
    }
}

impl Clone for ProjectNote {
    fn clone(&self) -> (r: Self)
        ensures
            r == *self,
    {
        ProjectNote {
            id: self.id.clone(),
            project_id: self.project_id.clone(),
            title: self.title.clone(),
            body: self.body.clone(),
            created_at: self.created_at,
            updated_at: self.updated_at,
        }
    }
}

/// A free-text note owned by a milestone.
#[derive(Debug)]
pub struct MilestoneNote {
    /// Unique identifier in canonical text form.
    pub id: String,
    /// Milestone this note belongs to; removed with it.
    pub milestone_id: String,
    /// Note title.
    pub title: String,
    /// Note body.
    pub body: String,
    /// Creation timestamp.
    pub created_at: i64,
    /// Last update timestamp.
    pub updated_at: i64,
}

impl MilestoneNote {
    /// A new note with a fresh identifier.
    pub fn new(milestone_id: String, title: String, body: String) -> (n: MilestoneNote)
        ensures
            n.milestone_id == milestone_id,
            n.title == title,
            n.body == body,
            is_uuid_text(n.id@),
            n.created_at == n.updated_at,
    {
        let now = now_millis();
        MilestoneNote {
            id: generate_id(),
            milestone_id,
            title,
            body,
            created_at: now,
            updated_at: now,
        }
    }
}

impl Clone for MilestoneNote {
    fn clone(&self) -> (r: Self)
        ensures
            r == *self,
    {
        MilestoneNote {
            id: self.id.clone(),
            milestone_id: self.milestone_id.clone(),
            title: self.title.clone(),
            body: self.body.clone(),
            created_at: self.created_at,
            updated_at: self.updated_at,
        }
    }
}

/// A free-text note owned by a `(project, stakeholder)` pair.
#[derive(Debug)]
pub struct StakeholderNote {
    /// Unique identifier in canonical text form.
    pub id: String,
    /// Project identifier of the owning stakeholder link.
    pub project_id: String,
    /// Stakeholder email of the owning stakeholder link.
    pub stakeholder_email: String,
    /// Note title.
    pub title: String,
    /// Note body.
    pub body: String,
    /// Creation timestamp.
    pub created_at: i64,
    /// Last update timestamp.
    pub updated_at: i64,
}

impl StakeholderNote {
    /// A new note with a fresh identifier.
    pub fn new(project_id: String, stakeholder_email: String, title: String, body: String) -> (n:
        StakeholderNote)
        ensures
            n.project_id == project_id,
            n.stakeholder_email == stakeholder_email,
            n.title == title,
            n.body == body,
            is_uuid_text(n.id@),
            n.created_at == n.updated_at,
    {
        let now = now_millis();
        StakeholderNote {
            id: generate_id(),
            project_id,
            stakeholder_email,
            title,
            body,
            created_at: now,
            updated_at: now,
        }
    }
}

impl Clone for StakeholderNote {
    fn clone(&self) -> (r: Self)
        ensures
            r == *self,
    {
        StakeholderNote {
            id: self.id.clone(),
            project_id: self.project_id.clone(),
            stakeholder_email: self.stakeholder_email.clone(),
            title: self.title.clone(),
            body: self.body.clone(),
            created_at: self.created_at,
            updated_at: self.updated_at,
        }
    }
}

} // verus!
