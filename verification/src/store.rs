//! The relational store: one value holding every table and the schema,
//! with the well-formedness invariant that all repository operations
//! preserve — unique keys and enforced foreign references.

use vstd::prelude::*;
use crate::model::{
    Milestone, MilestoneNote, MilestoneResource, Person, Project, ProjectNote, ProjectResource,
    ProjectStakeholder, StakeholderNote, Team, TeamMember,
};
use crate::schema::{SchemaState, SchemaV, apply_migrations, initialize_schema, ledger_max};

verus! {

/// There is a row matching `p`.
pub open spec fn has_row<T>(s: Seq<T>, p: spec_fn(T) -> bool) -> bool {
    exists|i: int| 0 <= i < s.len() && p(#[trigger] s[i])
}

/// Appending a row keeps every row that was there and adds the new one.
pub proof fn lemma_has_row_push<T>(s: Seq<T>, x: T, p: spec_fn(T) -> bool)
    ensures
        has_row(s, p) ==> has_row(s.push(x), p),
        p(x) ==> has_row(s.push(x), p),
{
    if has_row(s, p) {
        let i = choose|i: int| 0 <= i < s.len() && p(#[trigger] s[i]);
        assert(s.push(x)[i] == s[i]);
    }
    if p(x) {
        assert(s.push(x)[s.len() as int] == x);
    }
}

/// A matching row that also survives the filter is still found after it.
pub proof fn lemma_has_row_filter<T>(s: Seq<T>, q: spec_fn(T) -> bool, p: spec_fn(T) -> bool)
    requires
        exists|i: int| 0 <= i < s.len() && p(#[trigger] s[i]) && q(s[i]),
    ensures
        has_row(s.filter(q), p),
{
    let i = choose|i: int| 0 <= i < s.len() && p(#[trigger] s[i]) && q(s[i]);
    #[allow(deprecated)]
    s.filter_lemma(q);
    assert(s.filter(q).contains(s[i]));
    let j = choose|j: int| 0 <= j < s.filter(q).len() && s.filter(q)[j] == s[i];
    assert(p(s.filter(q)[j]));
}

/// A row whose view-level fields match in two equally keyed tables is
/// found in one exactly when it is found in the other.
pub proof fn lemma_has_row_same<T>(a: Seq<T>, b: Seq<T>, p: spec_fn(T) -> bool)
    requires
        a.len() == b.len(),
        forall|i: int| 0 <= i < a.len() ==> (p(#[trigger] a[i]) == p(#[trigger] b[i])),
    ensures
        has_row(a, p) == has_row(b, p),
{
    if has_row(a, p) {
        let i = choose|i: int| 0 <= i < a.len() && p(#[trigger] a[i]);
        assert(p(b[i]));
    }
    if has_row(b, p) {
        let i = choose|i: int| 0 <= i < b.len() && p(#[trigger] b[i]);
        assert(p(a[i]));
    }
}

/// Selects the person with this email.
pub open spec fn person_with(email: Seq<char>) -> spec_fn(Person) -> bool {
    |p: Person| p.email@ == email
}

/// Selects the team with this name.
pub open spec fn team_with(name: Seq<char>) -> spec_fn(Team) -> bool {
    |t: Team| t.name@ == name
}

/// Selects the membership row of this team and person.
pub open spec fn member_with(team: Seq<char>, email: Seq<char>) -> spec_fn(TeamMember) -> bool {
    |m: TeamMember| m.team_name@ == team && m.person_email@ == email
}

/// Selects the project with this identifier.
pub open spec fn project_with(id: Seq<char>) -> spec_fn(Project) -> bool {
    |p: Project| p.id@ == id
}

/// Selects the milestone with this identifier.
pub open spec fn milestone_with(id: Seq<char>) -> spec_fn(Milestone) -> bool {
    |m: Milestone| m.id@ == id
}

/// Selects the milestones of this project.
pub open spec fn milestone_of(pid: Seq<char>) -> spec_fn(Milestone) -> bool {
    |m: Milestone| m.project_id@ == pid
}

/// Selects the milestone of this project carrying this number.
pub open spec fn milestone_numbered(pid: Seq<char>, number: int) -> spec_fn(Milestone) -> bool {
    |m: Milestone| m.project_id@ == pid && m.number as int == number
}

/// Selects the stakeholder link of this project and person.
pub open spec fn stakeholder_with(pid: Seq<char>, email: Seq<char>) -> spec_fn(
    ProjectStakeholder,
) -> bool {
    |s: ProjectStakeholder| s.project_id@ == pid && s.stakeholder_email@ == email
}

/// Selects the stakeholder links of this project.
pub open spec fn stakeholder_of(pid: Seq<char>) -> spec_fn(ProjectStakeholder) -> bool {
    |s: ProjectStakeholder| s.project_id@ == pid
}

/// Selects the resource row of this project and person.
pub open spec fn project_resource_with(pid: Seq<char>, email: Seq<char>) -> spec_fn(
    ProjectResource,
) -> bool {
    |s: ProjectResource| s.project_id@ == pid && s.person_email@ == email
}

/// Selects the resource rows of this project.
pub open spec fn project_resource_of(pid: Seq<char>) -> spec_fn(ProjectResource) -> bool {
    |s: ProjectResource| s.project_id@ == pid
}

/// Selects the resource row of this milestone and person.
pub open spec fn milestone_resource_with(mid: Seq<char>, email: Seq<char>) -> spec_fn(
    MilestoneResource,
) -> bool {
    |s: MilestoneResource| s.milestone_id@ == mid && s.person_email@ == email
}

/// Selects the resource rows of this milestone.
pub open spec fn milestone_resource_of(mid: Seq<char>) -> spec_fn(MilestoneResource) -> bool {
    |s: MilestoneResource| s.milestone_id@ == mid
}

/// Selects the project note with this identifier.
pub open spec fn project_note_with(id: Seq<char>) -> spec_fn(ProjectNote) -> bool {
    |n: ProjectNote| n.id@ == id
}

/// Selects the notes of this project.
pub open spec fn project_note_of(pid: Seq<char>) -> spec_fn(ProjectNote) -> bool {
    |n: ProjectNote| n.project_id@ == pid
}

/// Selects the milestone note with this identifier.
pub open spec fn milestone_note_with(id: Seq<char>) -> spec_fn(MilestoneNote) -> bool {
    |n: MilestoneNote| n.id@ == id
}

/// Selects the notes of this milestone.
pub open spec fn milestone_note_of(mid: Seq<char>) -> spec_fn(MilestoneNote) -> bool {
    |n: MilestoneNote| n.milestone_id@ == mid
}

/// Selects the stakeholder note with this identifier.
pub open spec fn stakeholder_note_with(id: Seq<char>) -> spec_fn(StakeholderNote) -> bool {
    |n: StakeholderNote| n.id@ == id
}

/// Selects the notes of this project-and-stakeholder pair.
pub open spec fn stakeholder_note_of(pid: Seq<char>, email: Seq<char>) -> spec_fn(
    StakeholderNote,
) -> bool {
    |n: StakeholderNote| n.project_id@ == pid && n.stakeholder_email@ == email
}

/// A person with this email exists.
pub open spec fn person_exists(people: Seq<Person>, email: Seq<char>) -> bool {
    has_row(people, person_with(email))
}

/// A team with this name exists.
pub open spec fn team_exists(teams: Seq<Team>, name: Seq<char>) -> bool {
    has_row(teams, team_with(name))
}

/// A project with this identifier exists.
pub open spec fn project_exists(projects: Seq<Project>, id: Seq<char>) -> bool {
    has_row(projects, project_with(id))
}

/// A milestone with this identifier exists.
pub open spec fn milestone_exists(milestones: Seq<Milestone>, id: Seq<char>) -> bool {
    has_row(milestones, milestone_with(id))
}

/// A stakeholder link for this project and person exists.
pub open spec fn stakeholder_exists(
    stakeholders: Seq<ProjectStakeholder>,
    pid: Seq<char>,
    email: Seq<char>,
) -> bool {
    has_row(stakeholders, stakeholder_with(pid, email))
}

/// An optional person reference is absent or satisfied.
pub open spec fn opt_person_ref(people: Seq<Person>, o: Option<String>) -> bool {
    match o {
        Option::None => true,
        Option::Some(e) => person_exists(people, e@),
    }
}

/// The mathematical contents of the store.
pub struct StoreView {
    /// The `people` table.
    pub people: Seq<Person>,
    /// The `teams` table.
    pub teams: Seq<Team>,
    /// The `team_members` junction table.
    pub team_members: Seq<TeamMember>,
    /// The `projects` table.
    pub projects: Seq<Project>,
    /// The `milestones` table.
    pub milestones: Seq<Milestone>,
    /// The `project_stakeholders` junction table.
    pub stakeholders: Seq<ProjectStakeholder>,
    /// The `project_resources` junction table.
    pub project_resources: Seq<ProjectResource>,
    /// The `milestone_resources` junction table.
    pub milestone_resources: Seq<MilestoneResource>,
    /// The `project_notes` table.
    pub project_notes: Seq<ProjectNote>,
    /// The `milestone_notes` table.
    pub milestone_notes: Seq<MilestoneNote>,
    /// The `stakeholder_notes` table.
    pub stakeholder_notes: Seq<StakeholderNote>,
    /// The schema and its version ledger.
    pub schema: SchemaV,
}

impl StoreView {
    /// Emails are unique and every manager reference resolves.
    pub open spec fn people_ok(self) -> bool {
        &&& forall|i: int, j: int|
            0 <= i < j < self.people.len() ==> (#[trigger] self.people[i]).email@ != (
            #[trigger] self.people[j]).email@
        &&& forall|i: int|
            0 <= i < self.people.len() ==> opt_person_ref(
                self.people,
                (#[trigger] self.people[i]).manager,
            )
    }

    /// Team names are unique and every manager reference resolves.
    pub open spec fn teams_ok(self) -> bool {
        &&& forall|i: int, j: int|
            0 <= i < j < self.teams.len() ==> (#[trigger] self.teams[i]).name@ != (
            #[trigger] self.teams[j]).name@
        &&& forall|i: int|
            0 <= i < self.teams.len() ==> opt_person_ref(
                self.people,
                (#[trigger] self.teams[i]).manager,
            )
    }

    /// Membership pairs are unique and reference a live team and person.
    pub open spec fn members_ok(self) -> bool {
        &&& forall|i: int, j: int|
            0 <= i < j < self.team_members.len() ==> !((#[trigger] self.team_members[i]).team_name@
                == (#[trigger] self.team_members[j]).team_name@
                && self.team_members[i].person_email@ == self.team_members[j].person_email@)
        &&& forall|i: int|
            0 <= i < self.team_members.len() ==> team_exists(
                self.teams,
                (#[trigger] self.team_members[i]).team_name@,
            ) && person_exists(self.people, self.team_members[i].person_email@)
    }

    /// Project identifiers are unique and people references resolve.
    pub open spec fn projects_ok(self) -> bool {
        &&& forall|i: int, j: int|
            0 <= i < j < self.projects.len() ==> (#[trigger] self.projects[i]).id@ != (
            #[trigger] self.projects[j]).id@
        &&& forall|i: int|
            0 <= i < self.projects.len() ==> {
                let p = #[trigger] self.projects[i];
                opt_person_ref(self.people, p.requirements_owner) && opt_person_ref(
                    self.people,
                    p.technical_lead,
                ) && opt_person_ref(self.people, p.manager)
            }
    }

    /// Milestone identifiers are unique, `(project, number)` pairs are
    /// unique, and the project and lead references resolve.
    pub open spec fn milestones_ok(self) -> bool {
        &&& forall|i: int, j: int|
            0 <= i < j < self.milestones.len() ==> (#[trigger] self.milestones[i]).id@ != (
            #[trigger] self.milestones[j]).id@
        &&& forall|i: int, j: int|
            0 <= i < j < self.milestones.len() ==> !((#[trigger] self.milestones[i]).project_id@
                == (#[trigger] self.milestones[j]).project_id@ && self.milestones[i].number
                == self.milestones[j].number)
        &&& forall|i: int|
            0 <= i < self.milestones.len() ==> {
                let m = #[trigger] self.milestones[i];
                project_exists(self.projects, m.project_id@) && opt_person_ref(
                    self.people,
                    m.technical_lead,
                )
            }
    }

    /// Stakeholder pairs are unique and reference a live project and person.
    pub open spec fn stakeholders_ok(self) -> bool {
        &&& forall|i: int, j: int|
            0 <= i < j < self.stakeholders.len() ==> !((#[trigger] self.stakeholders[i]).project_id@
                == (#[trigger] self.stakeholders[j]).project_id@
                && self.stakeholders[i].stakeholder_email@
                == self.stakeholders[j].stakeholder_email@)
        &&& forall|i: int|
            0 <= i < self.stakeholders.len() ==> {
                let s = #[trigger] self.stakeholders[i];
                project_exists(self.projects, s.project_id@) && person_exists(
                    self.people,
                    s.stakeholder_email@,
                )
            }
    }

    /// Project resource pairs are unique and reference a live project and person.
    pub open spec fn project_resources_ok(self) -> bool {
        &&& forall|i: int, j: int|
            0 <= i < j < self.project_resources.len() ==> !((
            #[trigger] self.project_resources[i]).project_id@ == (
            #[trigger] self.project_resources[j]).project_id@
                && self.project_resources[i].person_email@
                == self.project_resources[j].person_email@)
        &&& forall|i: int|
            0 <= i < self.project_resources.len() ==> {
                let s = #[trigger] self.project_resources[i];
                project_exists(self.projects, s.project_id@) && person_exists(
                    self.people,
                    s.person_email@,
                )
            }
    }

    /// Milestone resource pairs are unique and reference a live milestone and person.
    pub open spec fn milestone_resources_ok(self) -> bool {
        &&& forall|i: int, j: int|
            0 <= i < j < self.milestone_resources.len() ==> !((
            #[trigger] self.milestone_resources[i]).milestone_id@ == (
            #[trigger] self.milestone_resources[j]).milestone_id@
                && self.milestone_resources[i].person_email@
                == self.milestone_resources[j].person_email@)
        &&& forall|i: int|
            0 <= i < self.milestone_resources.len() ==> {
                let s = #[trigger] self.milestone_resources[i];
                milestone_exists(self.milestones, s.milestone_id@) && person_exists(
                    self.people,
                    s.person_email@,
                )
            }
    }

    /// Note identifiers are unique and each note's project exists.
    pub open spec fn project_notes_ok(self) -> bool {
        &&& forall|i: int, j: int|
            0 <= i < j < self.project_notes.len() ==> (#[trigger] self.project_notes[i]).id@ != (
            #[trigger] self.project_notes[j]).id@
        &&& forall|i: int|
            0 <= i < self.project_notes.len() ==> project_exists(
                self.projects,
                (#[trigger] self.project_notes[i]).project_id@,
            )
    }

    /// Note identifiers are unique and each note's milestone exists.
    pub open spec fn milestone_notes_ok(self) -> bool {
        &&& forall|i: int, j: int|
            0 <= i < j < self.milestone_notes.len() ==> (#[trigger] self.milestone_notes[i]).id@
                != (#[trigger] self.milestone_notes[j]).id@
        &&& forall|i: int|
            0 <= i < self.milestone_notes.len() ==> milestone_exists(
                self.milestones,
                (#[trigger] self.milestone_notes[i]).milestone_id@,
            )
    }

    /// Note identifiers are unique and each note's stakeholder link exists.
    pub open spec fn stakeholder_notes_ok(self) -> bool {
        &&& forall|i: int, j: int|
            0 <= i < j < self.stakeholder_notes.len() ==> (
            #[trigger] self.stakeholder_notes[i]).id@ != (#[trigger] self.stakeholder_notes[j]).id@
        &&& forall|i: int|
            0 <= i < self.stakeholder_notes.len() ==> stakeholder_exists(
                self.stakeholders,
                (#[trigger] self.stakeholder_notes[i]).project_id@,
                (#[trigger] self.stakeholder_notes[i]).stakeholder_email@,
            )
    }

    /// The whole referential-integrity and uniqueness invariant.
    pub open spec fn wf(self) -> bool {
        &&& self.people_ok()
        &&& self.teams_ok()
        &&& self.members_ok()
        &&& self.projects_ok()
        &&& self.milestones_ok()
        &&& self.stakeholders_ok()
        &&& self.project_resources_ok()
        &&& self.milestone_resources_ok()
        &&& self.project_notes_ok()
        &&& self.milestone_notes_ok()
        &&& self.stakeholder_notes_ok()
    }
}

/// The store itself: every table plus the schema, owned by one connection
/// holder. Mutating operations serialize through the single `&mut`
/// borrow, so the interleaving risks of two uncoordinated connections do
/// not arise here.
pub struct Store {
    /// The `people` table.
    pub people: Vec<Person>,
    /// The `teams` table.
    pub teams: Vec<Team>,
    /// The `team_members` junction table.
    pub team_members: Vec<TeamMember>,
    /// The `projects` table.
    pub projects: Vec<Project>,
    /// The `milestones` table.
    pub milestones: Vec<Milestone>,
    /// The `project_stakeholders` junction table.
    pub stakeholders: Vec<ProjectStakeholder>,
    /// The `project_resources` junction table.
    pub project_resources: Vec<ProjectResource>,
    /// The `milestone_resources` junction table.
    pub milestone_resources: Vec<MilestoneResource>,
    /// The `project_notes` table.
    pub project_notes: Vec<ProjectNote>,
    /// The `milestone_notes` table.
    pub milestone_notes: Vec<MilestoneNote>,
    /// The `stakeholder_notes` table.
    pub stakeholder_notes: Vec<StakeholderNote>,
    /// The schema and its version ledger.
    pub schema: SchemaState,
}

impl View for Store {
    type V = StoreView;

    open spec fn view(&self) -> StoreView {
        StoreView {
            people: self.people@,
            teams: self.teams@,
            team_members: self.team_members@,
            projects: self.projects@,
            milestones: self.milestones@,
            stakeholders: self.stakeholders@,
            project_resources: self.project_resources@,
            milestone_resources: self.milestone_resources@,
            project_notes: self.project_notes@,
            milestone_notes: self.milestone_notes@,
            stakeholder_notes: self.stakeholder_notes@,
            schema: self.schema@,
        }
    }
}

impl Store {
    /// Open a fresh store: no rows, the base tables created and every
    /// migration applied, exactly as opening a new database file does.
    pub fn open_new() -> (s: Store)
        ensures
            s@.wf(),
            s@.people.len() == 0,
            s@.teams.len() == 0,
            s@.team_members.len() == 0,
            s@.projects.len() == 0,
            s@.milestones.len() == 0,
            s@.stakeholders.len() == 0,
            s@.project_resources.len() == 0,
            s@.milestone_resources.len() == 0,
            s@.project_notes.len() == 0,
            s@.milestone_notes.len() == 0,
            s@.stakeholder_notes.len() == 0,
            s@.schema.tables_created,
            ledger_max(s@.schema.versions) == 4,
    {
        let mut schema = SchemaState::new_empty();
        initialize_schema(&mut schema);
        let ghost mid = schema@;
        let r = apply_migrations(&mut schema);
        proof {
            let t0 = choose|t: i64| mid == SchemaV::empty().initialized(t);
            let e1 = crate::schema::VersionEntry { version: 1, applied_at: t0 };
            assert(mid.versions == Seq::<crate::schema::VersionEntry>::empty().push(e1));
            assert(ledger_max(mid.versions) == 1);
            let t1 = choose|t: i64| (schema@, r) == mid.migrated(t);
            let a = mid.step_two(t1);
            let b = a.step_three(t1);
            let c = b.step_four(t1);
            let e2 = crate::schema::VersionEntry { version: 2, applied_at: t1 };
            let e3 = crate::schema::VersionEntry { version: 3, applied_at: t1 };
            let e4 = crate::schema::VersionEntry { version: 4, applied_at: t1 };
            assert(a.versions == mid.versions.push(e2));
            crate::schema::lemma_ledger_max_push(mid.versions, e2);
            assert(b.versions == a.versions.push(e3));
            crate::schema::lemma_ledger_max_push(a.versions, e3);
            assert(c.versions == b.versions.push(e4));
            crate::schema::lemma_ledger_max_push(b.versions, e4);
            assert(schema@ == c);
            assert(ledger_max(schema@.versions) == 4);
        }
        let s = Store {
            people: Vec::new(),
            teams: Vec::new(),
            team_members: Vec::new(),
            projects: Vec::new(),
            milestones: Vec::new(),
            stakeholders: Vec::new(),
            project_resources: Vec::new(),
            milestone_resources: Vec::new(),
            project_notes: Vec::new(),
            milestone_notes: Vec::new(),
            stakeholder_notes: Vec::new(),
            schema,
        };
        proof {
            assert(s@.wf());
        }
        s
    }
}

} // verus!
