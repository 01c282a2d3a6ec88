//! The project repository: CRUD over the `projects` table, with the
//! transitive cascade on deletion — milestones, stakeholders, resources
//! and notes of the project all go with it.

use vstd::prelude::*;
use vstd::relations::sorted_by;
use crate::err::RepoError;
use crate::model::{
    clone_opt_text, clone_opt_time, Milestone, MilestoneNote, MilestoneResource, Project,
    ProjectNote, ProjectResource, ProjectStakeholder, StakeholderNote,
};
use crate::seqkit::{
    first_where, lemma_filter_take_step, lemma_first_where_at, lemma_first_where_none,
    lemma_filter_membership, lemma_filter_pairwise,
};
use crate::store::{
    has_row, lemma_has_row_filter, lemma_has_row_same, milestone_exists, opt_person_ref,
    person_exists, project_exists, project_with, stakeholder_exists, Store, StoreView,
};
use crate::strkit::{chars_le, str_eq, str_le};
use crate::utils::now_millis;

verus! {

/// Name order on projects.
pub open spec fn project_name_le() -> spec_fn(Project, Project) -> bool {
    |a: Project, b: Project| chars_le(a.name@, b.name@)
}

/// Keeps every project but the one with this identifier.
pub open spec fn project_not(id: Seq<char>) -> spec_fn(Project) -> bool {
    |p: Project| p.id@ != id
}

/// Keeps every milestone not belonging to this project.
pub open spec fn milestone_not_of(id: Seq<char>) -> spec_fn(Milestone) -> bool {
    |m: Milestone| m.project_id@ != id
}

/// Keeps every stakeholder link not belonging to this project.
pub open spec fn stakeholder_not_of(id: Seq<char>) -> spec_fn(ProjectStakeholder) -> bool {
    |s: ProjectStakeholder| s.project_id@ != id
}

/// Keeps every project resource row not belonging to this project.
pub open spec fn project_resource_not_of(id: Seq<char>) -> spec_fn(ProjectResource) -> bool {
    |s: ProjectResource| s.project_id@ != id
}

/// Keeps every project note not belonging to this project.
pub open spec fn project_note_not_of(id: Seq<char>) -> spec_fn(ProjectNote) -> bool {
    |n: ProjectNote| n.project_id@ != id
}

/// Keeps every stakeholder note not belonging to this project.
pub open spec fn stakeholder_note_not_of(id: Seq<char>) -> spec_fn(StakeholderNote) -> bool {
    |n: StakeholderNote| n.project_id@ != id
}

/// The milestone with this identifier belonging to this project.
pub open spec fn milestone_id_of(mid: Seq<char>, pid: Seq<char>) -> spec_fn(Milestone) -> bool {
    |m: Milestone| m.id@ == mid && m.project_id@ == pid
}

/// Keeps every milestone resource row whose milestone is not of this project.
pub open spec fn mres_not_of_project(milestones: Seq<Milestone>, pid: Seq<char>) -> spec_fn(
    MilestoneResource,
) -> bool {
    |r: MilestoneResource| !has_row(milestones, milestone_id_of(r.milestone_id@, pid))
}

/// Keeps every milestone note whose milestone is not of this project.
pub open spec fn mnote_not_of_project(milestones: Seq<Milestone>, pid: Seq<char>) -> spec_fn(
    MilestoneNote,
) -> bool {
    |n: MilestoneNote| !has_row(milestones, milestone_id_of(n.milestone_id@, pid))
}

/// A project row as a full-row update leaves it: every mutable column from
/// the given value, identity and creation time kept, update time stamped.
pub open spec fn patched_project(prev: Project, p: Project, stamp: i64) -> Project {
    Project {
        id: prev.id,
        name: p.name,
        description: p.description,
        project_type: p.project_type,
        requirements_owner: p.requirements_owner,
        technical_lead: p.technical_lead,
        manager: p.manager,
        team: p.team,
        due_date: p.due_date,
        jira_initiative: p.jira_initiative,
        created_at: prev.created_at,
        updated_at: if stamp >= prev.updated_at {
            stamp
        } else {
            prev.updated_at
        },
    }
}

/// The three optional people references of a project all resolve.
pub open spec fn project_refs_ok(people: Seq<crate::model::Person>, p: Project) -> bool {
    &&& opt_person_ref(people, p.requirements_owner)
    &&& opt_person_ref(people, p.technical_lead)
    &&& opt_person_ref(people, p.manager)
}

impl StoreView {
    /// Creating a project: a duplicate identifier is a conflict; a dangling
    /// people reference is refused; otherwise the row is appended as given.
    pub open spec fn created_project(self, p: Project) -> (StoreView, Result<(), RepoError>) {
        if project_exists(self.projects, p.id@) {
            (self, Result::Err(RepoError::Conflict))
        } else if !project_refs_ok(self.people, p) {
            (self, Result::Err(RepoError::InvalidReference))
        } else {
            (StoreView { projects: self.projects.push(p), ..self }, Result::Ok(()))
        }
    }

    /// Updating a project: the row must exist and every reference resolve.
    pub open spec fn updated_project(self, p: Project, stamp: i64) -> (
        StoreView,
        Result<(), RepoError>,
    ) {
        if !project_exists(self.projects, p.id@) {
            (self, Result::Err(RepoError::NotFound))
        } else if !project_refs_ok(self.people, p) {
            (self, Result::Err(RepoError::InvalidReference))
        } else {
            (
                StoreView {
                    projects: self.projects.map_values(
                        |q: Project|
                            if q.id@ == p.id@ {
                                patched_project(q, p, stamp)
                            } else {
                                q
                            },
                    ),
                    ..self
                },
                Result::Ok(()),
            )
        }
    }

    /// Deleting a project transitively removes its milestones, their notes
    /// and resources, its stakeholder links and their notes, its own
    /// resources and notes.
    pub open spec fn deleted_project(self, id: Seq<char>) -> (StoreView, Result<(), RepoError>) {
        if !project_exists(self.projects, id) {
            (self, Result::Err(RepoError::NotFound))
        } else {
            (
                StoreView {
                    projects: self.projects.filter(project_not(id)),
                    milestones: self.milestones.filter(milestone_not_of(id)),
                    stakeholders: self.stakeholders.filter(stakeholder_not_of(id)),
                    project_resources: self.project_resources.filter(project_resource_not_of(id)),
                    milestone_resources: self.milestone_resources.filter(
                        mres_not_of_project(self.milestones, id),
                    ),
                    project_notes: self.project_notes.filter(project_note_not_of(id)),
                    milestone_notes: self.milestone_notes.filter(
                        mnote_not_of_project(self.milestones, id),
                    ),
                    stakeholder_notes: self.stakeholder_notes.filter(stakeholder_note_not_of(id)),
                    ..self
                },
                Result::Ok(()),
            )
        }
    }
}

impl Store {
    /// The index of the project with this identifier, if any.
    pub(crate) fn find_project_idx(&self, id: &str) -> (r: Option<usize>)
        ensures
            match r {
                Option::Some(i) => i < self@.projects.len() && self@.projects[i as int].id@ == id@
                    && (forall|k: int|
                    0 <= k < i ==> (#[trigger] self@.projects[k]).id@ != id@),
                Option::None => !project_exists(self@.projects, id@),
            },
    {
        let mut i: usize = 0;
        while i < self.projects.len()
            invariant
                i <= self@.projects.len(),
                forall|k: int| 0 <= k < i ==> (#[trigger] self@.projects[k]).id@ != id@,
            decreases self@.projects.len() - i,
        {
            if str_eq(self.projects[i].id.as_str(), id) {
                return Option::Some(i);
            }
            i = i + 1;
        }
        proof {
            if project_exists(self@.projects, id@) {
                let k = choose|k: int|
                    0 <= k < self@.projects.len() && project_with(id@)(#[trigger] self@.projects[k]);
            }
        }
        Option::None
    }

    /// Create a new project.
    pub fn create_project(&mut self, project: &Project) -> (r: Result<(), RepoError>)
        requires
            old(self)@.wf(),
        ensures
            final(self)@.wf(),
            (final(self)@, r) == old(self)@.created_project(*project),
    {
        let ghost v0 = self@;
        if let Option::Some(_) = self.find_project_idx(project.id.as_str()) {
            return Result::Err(RepoError::Conflict);
        }
        let refs_ok = self.opt_person_check(&project.requirements_owner) && self.opt_person_check(
            &project.technical_lead,
        ) && self.opt_person_check(&project.manager);
        if !refs_ok {
            return Result::Err(RepoError::InvalidReference);
        }
        self.projects.push(project.clone());
        proof {
            lemma_wf_after_project_push(v0, *project);
        }
        Result::Ok(())
    }

    /// Find a project by identifier; absence is not an error.
    pub fn find_by_id(&self, id: &str) -> (r: Option<Project>)
        ensures
            r == first_where(self@.projects, project_with(id@)),
    {
        match self.find_project_idx(id) {
            Option::Some(i) => {
                proof {
                    assert(project_with(id@)(self@.projects[i as int]));
                    assert(forall|k: int|
                        0 <= k < i ==> !project_with(id@)(#[trigger] self@.projects[k]));
                    lemma_first_where_at(self@.projects, project_with(id@), i as int);
                }
                Option::Some(self.projects[i].clone())
            },
            Option::None => {
                proof {
                    assert(forall|k: int|
                        0 <= k < self@.projects.len() ==> !project_with(id@)(
                            #[trigger] self@.projects[k],
                        )) by {
                        if exists|k: int|
                            0 <= k < self@.projects.len() && project_with(id@)(
                                #[trigger] self@.projects[k],
                            ) {
                            assert(project_exists(self@.projects, id@));
                        }
                    }
                    lemma_first_where_none(self@.projects, project_with(id@));
                }
                Option::None
            },
        }
    }

    /// List all projects, ordered by name.
    pub fn list_projects(&self) -> (r: Vec<Project>)
        ensures
            r@.to_multiset() == self@.projects.to_multiset(),
            sorted_by(r@, project_name_le()),
    {
        let mut out: Vec<Project> = Vec::new();
        let mut i: usize = 0;
        proof {
            broadcast use vstd::seq_lib::group_to_multiset_ensures;

            assert(self@.projects.take(0) =~= Seq::empty());
        }
        while i < self.projects.len()
            invariant
                i <= self@.projects.len(),
                out@.to_multiset() == self@.projects.take(i as int).to_multiset(),
                sorted_by(out@, project_name_le()),
            decreases self@.projects.len() - i,
        {
            let row = self.projects[i].clone();
            insert_project_sorted(&mut out, row);
            proof {
                broadcast use vstd::seq_lib::group_to_multiset_ensures;

                assert(self@.projects.take(i + 1) =~= self@.projects.take(i as int).push(
                    self@.projects[i as int],
                ));
                assert(self@.projects.take(i as int).push(self@.projects[i as int]).to_multiset()
                    =~= self@.projects.take(i as int).to_multiset().insert(
                    self@.projects[i as int],
                ));
            }
            i = i + 1;
        }
        proof {
            assert(self@.projects.take(self@.projects.len() as int) =~= self@.projects);
        }
        out
    }

    /// Update a project: a full-row replace of the mutable columns,
    /// re-stamping the update time.
    pub fn update_project(&mut self, project: &Project) -> (r: Result<(), RepoError>)
        requires
            old(self)@.wf(),
        ensures
            final(self)@.wf(),
            exists|stamp: i64| (final(self)@, r) == old(self)@.updated_project(*project, stamp),
    {
        let ghost v0 = self@;
        let idx = match self.find_project_idx(project.id.as_str()) {
            Option::Some(i) => i,
            Option::None => {
                proof {
                    assert((self@, Result::Err::<(), RepoError>(RepoError::NotFound))
                        == v0.updated_project(*project, 0));
                }
                return Result::Err(RepoError::NotFound);
            },
        };
        let refs_ok = self.opt_person_check(&project.requirements_owner) && self.opt_person_check(
            &project.technical_lead,
        ) && self.opt_person_check(&project.manager);
        if !refs_ok {
            proof {
                assert((self@, Result::Err::<(), RepoError>(RepoError::InvalidReference))
                    == v0.updated_project(*project, 0));
            }
            return Result::Err(RepoError::InvalidReference);
        }
        let t = now_millis();
        let prev_updated = self.projects[idx].updated_at;
        let stamp: i64 = if t >= prev_updated {
            t
        } else {
            prev_updated
        };
        let row = Project {
            id: self.projects[idx].id.clone(),
            name: project.name.clone(),
            description: clone_opt_text(&project.description),
            project_type: project.project_type.clone(),
            requirements_owner: clone_opt_text(&project.requirements_owner),
            technical_lead: clone_opt_text(&project.technical_lead),
            manager: clone_opt_text(&project.manager),
            team: clone_opt_text(&project.team),
            due_date: clone_opt_time(&project.due_date),
            jira_initiative: clone_opt_text(&project.jira_initiative),
            created_at: self.projects[idx].created_at,
            updated_at: stamp,
        };
        proof {
            assert(row == patched_project(v0.projects[idx as int], *project, t));
        }
        self.projects[idx] = row;
        proof {
            lemma_after_project_update(v0, *project, t, idx as int, self@);
            assert((self@, Result::Ok::<(), RepoError>(())) == v0.updated_project(*project, t));
        }
        Result::Ok(())
    }

    /// Delete a project; the storage-level cascade removes every dependent
    /// row transitively.
    pub fn delete_project(&mut self, id: &str) -> (r: Result<(), RepoError>)
        requires
            old(self)@.wf(),
        ensures
            final(self)@.wf(),
            (final(self)@, r) == old(self)@.deleted_project(id@),
    {
        let ghost v0 = self@;
        if let Option::None = self.find_project_idx(id) {
            return Result::Err(RepoError::NotFound);
        }
        let kept_projects = filter_projects(&self.projects, id);
        let kept_milestones = filter_milestones(&self.milestones, id);
        let kept_stakeholders = filter_stakeholders(&self.stakeholders, id);
        let kept_pres = filter_project_resources(&self.project_resources, id);
        let kept_mres = filter_milestone_resources(&self.milestone_resources, &self.milestones, id);
        let kept_pnotes = filter_project_notes(&self.project_notes, id);
        let kept_mnotes = filter_milestone_notes(&self.milestone_notes, &self.milestones, id);
        let kept_snotes = filter_stakeholder_notes(&self.stakeholder_notes, id);
        self.projects = kept_projects;
        self.milestones = kept_milestones;
        self.stakeholders = kept_stakeholders;
        self.project_resources = kept_pres;
        self.milestone_resources = kept_mres;
        self.project_notes = kept_pnotes;
        self.milestone_notes = kept_mnotes;
        self.stakeholder_notes = kept_snotes;
        proof {
            lemma_wf_after_project_delete(v0, id@, self@);
        }
        Result::Ok(())
    }
}

/// The projects other than the one with this identifier.
fn filter_projects(v: &Vec<Project>, id: &str) -> (r: Vec<Project>)
    ensures
        r@ == v@.filter(project_not(id@)),
{
    let mut out: Vec<Project> = Vec::new();
    let mut i: usize = 0;
    proof {
        reveal(Seq::filter);
        assert(v@.take(0).filter(project_not(id@)) =~= Seq::empty());
    }
    while i < v.len()
        invariant
            i <= v@.len(),
            out@ == v@.take(i as int).filter(project_not(id@)),
        decreases v@.len() - i,
    {
        let ghost keep = project_not(id@);
        proof {
            lemma_filter_take_step(v@, keep, i as int);
        }
        if !str_eq(v[i].id.as_str(), id) {
            proof {
                assert(keep(v@[i as int]));
            }
            out.push(v[i].clone());
        } else {
            proof {
                assert(!keep(v@[i as int]));
            }
        }
        i = i + 1;
    }
    proof {
        assert(v@.take(v@.len() as int) =~= v@);
    }
    out
}

/// The milestones not belonging to this project.
fn filter_milestones(v: &Vec<Milestone>, id: &str) -> (r: Vec<Milestone>)
    ensures
        r@ == v@.filter(milestone_not_of(id@)),
{
    let mut out: Vec<Milestone> = Vec::new();
    let mut i: usize = 0;
    proof {
        reveal(Seq::filter);
        assert(v@.take(0).filter(milestone_not_of(id@)) =~= Seq::empty());
    }
    while i < v.len()
        invariant
            i <= v@.len(),
            out@ == v@.take(i as int).filter(milestone_not_of(id@)),
        decreases v@.len() - i,
    {
        let ghost keep = milestone_not_of(id@);
        proof {
            lemma_filter_take_step(v@, keep, i as int);
        }
        if !str_eq(v[i].project_id.as_str(), id) {
            proof {
                assert(keep(v@[i as int]));
            }
            out.push(v[i].clone());
        } else {
            proof {
                assert(!keep(v@[i as int]));
            }
        }
        i = i + 1;
    }
    proof {
        assert(v@.take(v@.len() as int) =~= v@);
    }
    out
}

/// The stakeholder links not belonging to this project.
fn filter_stakeholders(v: &Vec<ProjectStakeholder>, id: &str) -> (r: Vec<ProjectStakeholder>)
    ensures
        r@ == v@.filter(stakeholder_not_of(id@)),
{
    let mut out: Vec<ProjectStakeholder> = Vec::new();
    let mut i: usize = 0;
    proof {
        reveal(Seq::filter);
        assert(v@.take(0).filter(stakeholder_not_of(id@)) =~= Seq::empty());
    }
    while i < v.len()
        invariant
            i <= v@.len(),
            out@ == v@.take(i as int).filter(stakeholder_not_of(id@)),
        decreases v@.len() - i,
    {
        let ghost keep = stakeholder_not_of(id@);
        proof {
            lemma_filter_take_step(v@, keep, i as int);
        }
        if !str_eq(v[i].project_id.as_str(), id) {
            proof {
                assert(keep(v@[i as int]));
            }
            out.push(v[i].clone());
        } else {
            proof {
                assert(!keep(v@[i as int]));
            }
        }
        i = i + 1;
    }
    proof {
        assert(v@.take(v@.len() as int) =~= v@);
    }
    out
}

/// The project resource rows not belonging to this project.
fn filter_project_resources(v: &Vec<ProjectResource>, id: &str) -> (r: Vec<ProjectResource>)
    ensures
        r@ == v@.filter(project_resource_not_of(id@)),
{
    let mut out: Vec<ProjectResource> = Vec::new();
    let mut i: usize = 0;
    proof {
        reveal(Seq::filter);
        assert(v@.take(0).filter(project_resource_not_of(id@)) =~= Seq::empty());
    }
    while i < v.len()
        invariant
            i <= v@.len(),
            out@ == v@.take(i as int).filter(project_resource_not_of(id@)),
        decreases v@.len() - i,
    {
        let ghost keep = project_resource_not_of(id@);
        proof {
            lemma_filter_take_step(v@, keep, i as int);
        }
        if !str_eq(v[i].project_id.as_str(), id) {
            proof {
                assert(keep(v@[i as int]));
            }
            out.push(v[i].clone());
        } else {
            proof {
                assert(!keep(v@[i as int]));
            }
        }
        i = i + 1;
    }
    proof {
        assert(v@.take(v@.len() as int) =~= v@);
    }
    out
}

/// The project notes not belonging to this project.
fn filter_project_notes(v: &Vec<ProjectNote>, id: &str) -> (r: Vec<ProjectNote>)
    ensures
        r@ == v@.filter(project_note_not_of(id@)),
{
    let mut out: Vec<ProjectNote> = Vec::new();
    let mut i: usize = 0;
    proof {
        reveal(Seq::filter);
        assert(v@.take(0).filter(project_note_not_of(id@)) =~= Seq::empty());
    }
    while i < v.len()
        invariant
            i <= v@.len(),
            out@ == v@.take(i as int).filter(project_note_not_of(id@)),
        decreases v@.len() - i,
    {
        let ghost keep = project_note_not_of(id@);
        proof {
            lemma_filter_take_step(v@, keep, i as int);
        }
        if !str_eq(v[i].project_id.as_str(), id) {
            proof {
                assert(keep(v@[i as int]));
            }
            out.push(v[i].clone());
        } else {
            proof {
                assert(!keep(v@[i as int]));
            }
        }
        i = i + 1;
    }
    proof {
        assert(v@.take(v@.len() as int) =~= v@);
    }
    out
}

/// The stakeholder notes not belonging to this project.
fn filter_stakeholder_notes(v: &Vec<StakeholderNote>, id: &str) -> (r: Vec<StakeholderNote>)
    ensures
        r@ == v@.filter(stakeholder_note_not_of(id@)),
{
    let mut out: Vec<StakeholderNote> = Vec::new();
    let mut i: usize = 0;
    proof {
        reveal(Seq::filter);
        assert(v@.take(0).filter(stakeholder_note_not_of(id@)) =~= Seq::empty());
    }
    while i < v.len()
        invariant
            i <= v@.len(),
            out@ == v@.take(i as int).filter(stakeholder_note_not_of(id@)),
        decreases v@.len() - i,
    {
        let ghost keep = stakeholder_note_not_of(id@);
        proof {
            lemma_filter_take_step(v@, keep, i as int);
        }
        if !str_eq(v[i].project_id.as_str(), id) {
            proof {
                assert(keep(v@[i as int]));
            }
            out.push(v[i].clone());
        } else {
            proof {
                assert(!keep(v@[i as int]));
            }
        }
        i = i + 1;
    }
    proof {
        assert(v@.take(v@.len() as int) =~= v@);
    }
    out
}

/// Does this milestone identifier belong to a milestone of this project?
fn milestone_of_project(milestones: &Vec<Milestone>, mid: &str, pid: &str) -> (r: bool)
    ensures
        r == has_row(milestones@, milestone_id_of(mid@, pid@)),
{
    let mut i: usize = 0;
    while i < milestones.len()
        invariant
            i <= milestones@.len(),
            forall|k: int|
                0 <= k < i ==> !((#[trigger] milestones@[k]).id@ == mid@
                    && milestones@[k].project_id@ == pid@),
        decreases milestones@.len() - i,
    {
        if str_eq(milestones[i].id.as_str(), mid) && str_eq(milestones[i].project_id.as_str(), pid) {
            proof {
                assert(milestone_id_of(mid@, pid@)(milestones@[i as int]));
            }
            return true;
        }
        i = i + 1;
    }
    proof {
        if has_row(milestones@, milestone_id_of(mid@, pid@)) {
            let k = choose|k: int|
                0 <= k < milestones@.len() && milestone_id_of(mid@, pid@)(
                    #[trigger] milestones@[k],
                );
        }
    }
    false
}

/// The milestone resource rows whose milestone is not of this project.
fn filter_milestone_resources(
    v: &Vec<MilestoneResource>,
    milestones: &Vec<Milestone>,
    id: &str,
) -> (r: Vec<MilestoneResource>)
    ensures
        r@ == v@.filter(mres_not_of_project(milestones@, id@)),
{
    let mut out: Vec<MilestoneResource> = Vec::new();
    let mut i: usize = 0;
    proof {
        reveal(Seq::filter);
        assert(v@.take(0).filter(mres_not_of_project(milestones@, id@)) =~= Seq::empty());
    }
    while i < v.len()
        invariant
            i <= v@.len(),
            out@ == v@.take(i as int).filter(mres_not_of_project(milestones@, id@)),
        decreases v@.len() - i,
    {
        let ghost keep = mres_not_of_project(milestones@, id@);
        proof {
            lemma_filter_take_step(v@, keep, i as int);
        }
        if !milestone_of_project(milestones, v[i].milestone_id.as_str(), id) {
            proof {
                assert(keep(v@[i as int]));
            }
            out.push(v[i].clone());
        } else {
            proof {
                assert(!keep(v@[i as int]));
            }
        }
        i = i + 1;
    }
    proof {
        assert(v@.take(v@.len() as int) =~= v@);
    }
    out
}

/// The milestone notes whose milestone is not of this project.
fn filter_milestone_notes(
    v: &Vec<MilestoneNote>,
    milestones: &Vec<Milestone>,
    id: &str,
) -> (r: Vec<MilestoneNote>)
    ensures
        r@ == v@.filter(mnote_not_of_project(milestones@, id@)),
{
    let mut out: Vec<MilestoneNote> = Vec::new();
    let mut i: usize = 0;
    proof {
        reveal(Seq::filter);
        assert(v@.take(0).filter(mnote_not_of_project(milestones@, id@)) =~= Seq::empty());
    }
    while i < v.len()
        invariant
            i <= v@.len(),
            out@ == v@.take(i as int).filter(mnote_not_of_project(milestones@, id@)),
        decreases v@.len() - i,
    {
        let ghost keep = mnote_not_of_project(milestones@, id@);
        proof {
            lemma_filter_take_step(v@, keep, i as int);
        }
        if !milestone_of_project(milestones, v[i].milestone_id.as_str(), id) {
            proof {
                assert(keep(v@[i as int]));
            }
            out.push(v[i].clone());
        } else {
            proof {
                assert(!keep(v@[i as int]));
            }
        }
        i = i + 1;
    }
    proof {
        assert(v@.take(v@.len() as int) =~= v@);
    }
    out
}

/// Pushing a fresh, reference-satisfying project keeps the store invariant.
proof fn lemma_wf_after_project_push(v: StoreView, p: Project)
    requires
        v.wf(),
        !project_exists(v.projects, p.id@),
        project_refs_ok(v.people, p),
    ensures
        (StoreView { projects: v.projects.push(p), ..v }).wf(),
{
    let w = StoreView { projects: v.projects.push(p), ..v };
    let n = v.projects.len() as int;
    assert(forall|i: int| 0 <= i < n ==> #[trigger] w.projects[i] == v.projects[i]);
    assert(w.projects[n] == p);
    assert(w.projects_ok()) by {
        assert(forall|i: int|
            0 <= i < n ==> (#[trigger] v.projects[i]).id@ != p.id@);
    }
    assert forall|e: Seq<char>| project_exists(v.projects, e) implies project_exists(
        w.projects,
        e,
    ) by {
        crate::store::lemma_has_row_push(v.projects, p, project_with(e));
    }
    assert(w.milestones_ok());
    assert(w.stakeholders_ok());
    assert(w.project_resources_ok());
    assert(w.project_notes_ok());
    assert(w.people_ok());
    assert(w.teams_ok());
    assert(w.members_ok());
    assert(w.milestone_resources_ok());
    assert(w.milestone_notes_ok());
    assert(w.stakeholder_notes_ok());
}

/// Replacing one project's mutable columns keeps the store invariant and
/// is exactly the mapped table of `updated_project`.
proof fn lemma_after_project_update(v: StoreView, p: Project, stamp: i64, idx: int, w: StoreView)
    requires
        v.wf(),
        0 <= idx < v.projects.len(),
        v.projects[idx].id@ == p.id@,
        project_refs_ok(v.people, p),
        w == (StoreView {
            projects: v.projects.update(idx, patched_project(v.projects[idx], p, stamp)),
            ..v
        }),
    ensures
        w.wf(),
        w == (StoreView {
            projects: v.projects.map_values(
                |q: Project|
                    if q.id@ == p.id@ {
                        patched_project(q, p, stamp)
                    } else {
                        q
                    },
            ),
            ..v
        }),
{
    let mapped = v.projects.map_values(
        |q: Project|
            if q.id@ == p.id@ {
                patched_project(q, p, stamp)
            } else {
                q
            },
    );
    assert(w.projects =~= mapped) by {
        assert forall|i: int| 0 <= i < v.projects.len() implies w.projects[i] == mapped[i] by {
            if i != idx {
                assert(v.projects[i].id@ != p.id@);
            }
        }
    }
    assert(forall|i: int|
        0 <= i < w.projects.len() ==> (#[trigger] w.projects[i]).id@ == v.projects[i].id@);
    assert forall|e: Seq<char>| true implies project_exists(w.projects, e) == project_exists(
        v.projects,
        e,
    ) by {
        lemma_has_row_same(v.projects, w.projects, project_with(e));
    }
    assert(w.projects_ok()) by {
        assert forall|i: int| 0 <= i < w.projects.len() implies {
            let q = #[trigger] w.projects[i];
            opt_person_ref(w.people, q.requirements_owner) && opt_person_ref(
                w.people,
                q.technical_lead,
            ) && opt_person_ref(w.people, q.manager)
        } by {
            if i != idx {
                assert(w.projects[i] == v.projects[i]);
            }
        }
    }
    assert(w.milestones_ok());
    assert(w.stakeholders_ok());
    assert(w.project_resources_ok());
    assert(w.project_notes_ok());
    assert(w.people_ok());
    assert(w.teams_ok());
    assert(w.members_ok());
    assert(w.milestone_resources_ok());
    assert(w.milestone_notes_ok());
    assert(w.stakeholder_notes_ok());
}

/// The transitive cascade of a project deletion keeps the store invariant.
proof fn lemma_wf_after_project_delete(v: StoreView, id: Seq<char>, w: StoreView)
    requires
        v.wf(),
        w == (StoreView {
            projects: v.projects.filter(project_not(id)),
            milestones: v.milestones.filter(milestone_not_of(id)),
            stakeholders: v.stakeholders.filter(stakeholder_not_of(id)),
            project_resources: v.project_resources.filter(project_resource_not_of(id)),
            milestone_resources: v.milestone_resources.filter(
                mres_not_of_project(v.milestones, id),
            ),
            project_notes: v.project_notes.filter(project_note_not_of(id)),
            milestone_notes: v.milestone_notes.filter(mnote_not_of_project(v.milestones, id)),
            stakeholder_notes: v.stakeholder_notes.filter(stakeholder_note_not_of(id)),
            ..v
        }),
    ensures
        w.wf(),
{
    lemma_filter_membership(v.projects, project_not(id));
    lemma_filter_membership(v.milestones, milestone_not_of(id));
    lemma_filter_membership(v.stakeholders, stakeholder_not_of(id));
    lemma_filter_membership(v.project_resources, project_resource_not_of(id));
    lemma_filter_membership(v.milestone_resources, mres_not_of_project(v.milestones, id));
    lemma_filter_membership(v.project_notes, project_note_not_of(id));
    lemma_filter_membership(v.milestone_notes, mnote_not_of_project(v.milestones, id));
    lemma_filter_membership(v.stakeholder_notes, stakeholder_note_not_of(id));
    // a surviving project is still found after the filter
    assert forall|e: Seq<char>|
        project_exists(v.projects, e) && e != id implies project_exists(w.projects, e) by {
        let i = choose|i: int| 0 <= i < v.projects.len() && project_with(e)(#[trigger] v.projects[i]);
        lemma_has_row_filter(v.projects, project_not(id), project_with(e));
    }
    // a surviving milestone is still found after the filter
    assert forall|i: int|
        0 <= i < v.milestones.len() && (#[trigger] v.milestones[i]).project_id@
            != id implies milestone_exists(w.milestones, v.milestones[i].id@) by {
        lemma_has_row_filter(
            v.milestones,
            milestone_not_of(id),
            crate::store::milestone_with(v.milestones[i].id@),
        );
    }
    assert(w.projects_ok()) by {
        lemma_filter_pairwise(v.projects, project_not(id), |a: Project, b: Project| a.id@ != b.id@);
        assert forall|i: int| 0 <= i < w.projects.len() implies {
            let q = #[trigger] w.projects[i];
            opt_person_ref(w.people, q.requirements_owner) && opt_person_ref(
                w.people,
                q.technical_lead,
            ) && opt_person_ref(w.people, q.manager)
        } by {
            let k = choose|k: int| 0 <= k < v.projects.len() && v.projects[k] == w.projects[i];
        }
    }
    assert(w.milestones_ok()) by {
        lemma_filter_pairwise(
            v.milestones,
            milestone_not_of(id),
            |a: Milestone, b: Milestone|
                a.id@ != b.id@ && !(a.project_id@ == b.project_id@ && a.number == b.number),
        );
        assert forall|i: int| 0 <= i < w.milestones.len() implies {
            let m = #[trigger] w.milestones[i];
            project_exists(w.projects, m.project_id@) && opt_person_ref(
                w.people,
                m.technical_lead,
            )
        } by {
            let q = w.milestones[i];
            let k = choose|k: int| 0 <= k < v.milestones.len() && v.milestones[k] == q;
            assert(q.project_id@ != id);
        }
    }
    assert(w.stakeholders_ok()) by {
        lemma_filter_pairwise(
            v.stakeholders,
            stakeholder_not_of(id),
            |a: ProjectStakeholder, b: ProjectStakeholder|
                !(a.project_id@ == b.project_id@ && a.stakeholder_email@ == b.stakeholder_email@),
        );
        assert forall|i: int| 0 <= i < w.stakeholders.len() implies {
            let s = #[trigger] w.stakeholders[i];
            project_exists(w.projects, s.project_id@) && person_exists(
                w.people,
                s.stakeholder_email@,
            )
        } by {
            let q = w.stakeholders[i];
            let k = choose|k: int| 0 <= k < v.stakeholders.len() && v.stakeholders[k] == q;
            assert(q.project_id@ != id);
        }
    }
    assert(w.project_resources_ok()) by {
        lemma_filter_pairwise(
            v.project_resources,
            project_resource_not_of(id),
            |a: ProjectResource, b: ProjectResource|
                !(a.project_id@ == b.project_id@ && a.person_email@ == b.person_email@),
        );
        assert forall|i: int| 0 <= i < w.project_resources.len() implies {
            let s = #[trigger] w.project_resources[i];
            project_exists(w.projects, s.project_id@) && person_exists(w.people, s.person_email@)
        } by {
            let q = w.project_resources[i];
            let k = choose|k: int|
                0 <= k < v.project_resources.len() && v.project_resources[k] == q;
            assert(q.project_id@ != id);
        }
    }
    assert(w.milestone_resources_ok()) by {
        lemma_filter_pairwise(
            v.milestone_resources,
            mres_not_of_project(v.milestones, id),
            |a: MilestoneResource, b: MilestoneResource|
                !(a.milestone_id@ == b.milestone_id@ && a.person_email@ == b.person_email@),
        );
        assert forall|i: int| 0 <= i < w.milestone_resources.len() implies {
            let s = #[trigger] w.milestone_resources[i];
            milestone_exists(w.milestones, s.milestone_id@) && person_exists(
                w.people,
                s.person_email@,
            )
        } by {
            let q = w.milestone_resources[i];
            let k = choose|k: int|
                0 <= k < v.milestone_resources.len() && v.milestone_resources[k] == q;
            // the row survived, so its milestone is not of the deleted project
            assert(!has_row(v.milestones, milestone_id_of(q.milestone_id@, id)));
            assert(milestone_exists(v.milestones, q.milestone_id@));
            let j = choose|j: int|
                0 <= j < v.milestones.len() && crate::store::milestone_with(q.milestone_id@)(
                    #[trigger] v.milestones[j],
                );
            assert(v.milestones[j].project_id@ != id) by {
                if v.milestones[j].project_id@ == id {
                    assert(milestone_id_of(q.milestone_id@, id)(v.milestones[j]));
                }
            }
        }
    }
    assert(w.project_notes_ok()) by {
        lemma_filter_pairwise(
            v.project_notes,
            project_note_not_of(id),
            |a: ProjectNote, b: ProjectNote| a.id@ != b.id@,
        );
        assert forall|i: int| 0 <= i < w.project_notes.len() implies project_exists(
            w.projects,
            (#[trigger] w.project_notes[i]).project_id@,
        ) by {
            let q = w.project_notes[i];
            let k = choose|k: int| 0 <= k < v.project_notes.len() && v.project_notes[k] == q;
            assert(q.project_id@ != id);
        }
    }
    assert(w.milestone_notes_ok()) by {
        lemma_filter_pairwise(
            v.milestone_notes,
            mnote_not_of_project(v.milestones, id),
            |a: MilestoneNote, b: MilestoneNote| a.id@ != b.id@,
        );
        assert forall|i: int| 0 <= i < w.milestone_notes.len() implies milestone_exists(
            w.milestones,
            (#[trigger] w.milestone_notes[i]).milestone_id@,
        ) by {
            let q = w.milestone_notes[i];
            let k = choose|k: int| 0 <= k < v.milestone_notes.len() && v.milestone_notes[k] == q;
            assert(!has_row(v.milestones, milestone_id_of(q.milestone_id@, id)));
            assert(milestone_exists(v.milestones, q.milestone_id@));
            let j = choose|j: int|
                0 <= j < v.milestones.len() && crate::store::milestone_with(q.milestone_id@)(
                    #[trigger] v.milestones[j],
                );
            assert(v.milestones[j].project_id@ != id) by {
                if v.milestones[j].project_id@ == id {
                    assert(milestone_id_of(q.milestone_id@, id)(v.milestones[j]));
                }
            }
        }
    }
    assert(w.stakeholder_notes_ok()) by {
        lemma_filter_pairwise(
            v.stakeholder_notes,
            stakeholder_note_not_of(id),
            |a: StakeholderNote, b: StakeholderNote| a.id@ != b.id@,
        );
        assert forall|i: int| 0 <= i < w.stakeholder_notes.len() implies stakeholder_exists(
            w.stakeholders,
            (#[trigger] w.stakeholder_notes[i]).project_id@,
            (#[trigger] w.stakeholder_notes[i]).stakeholder_email@,
        ) by {
            let q = w.stakeholder_notes[i];
            let k = choose|k: int|
                0 <= k < v.stakeholder_notes.len() && v.stakeholder_notes[k] == q;
            assert(q.project_id@ != id);
            assert(stakeholder_exists(v.stakeholders, q.project_id@, q.stakeholder_email@));
            let j = choose|j: int|
                0 <= j < v.stakeholders.len() && crate::store::stakeholder_with(
                    q.project_id@,
                    q.stakeholder_email@,
                )(#[trigger] v.stakeholders[j]);
            lemma_has_row_filter(
                v.stakeholders,
                stakeholder_not_of(id),
                crate::store::stakeholder_with(q.project_id@, q.stakeholder_email@),
            );
        }
    }
    assert(w.people_ok());
    assert(w.teams_ok());
    assert(w.members_ok());
}

/// Insert a project into a name-sorted vector, keeping it sorted.
pub(crate) fn insert_project_sorted(v: &mut Vec<Project>, x: Project)
    requires
        sorted_by(old(v)@, project_name_le()),
    ensures
        final(v)@.to_multiset() == old(v)@.to_multiset().insert(x),
        sorted_by(final(v)@, project_name_le()),
{
    let mut j: usize = 0;
    let mut found: bool = false;
    while !found && j < v.len()
        invariant
            j <= v@.len(),
            sorted_by(v@, project_name_le()),
            forall|k: int| 0 <= k < j ==> project_name_le()(#[trigger] v@[k], x),
            found ==> j < v@.len() && project_name_le()(x, v@[j as int]),
        decreases v@.len() - j + (if found { 0int } else { 1int }),
    {
        let ghost leq = project_name_le();
        if str_le(x.name.as_str(), v[j].name.as_str()) {
            found = true;
            proof {
                assert(leq(x, v@[j as int]));
            }
        } else {
            proof {
                crate::strkit::lemma_chars_le_total(x.name@, v@[j as int].name@);
                assert(leq(v@[j as int], x));
            }
            j = j + 1;
        }
    }
    proof {
        let leq = project_name_le();
        if (j as int) < v@.len() {
            assert(leq(x, v@[j as int]));
            assert forall|k: int| j <= k < v@.len() implies leq(x, #[trigger] v@[k]) by {
                if k > j {
                    assert(leq(v@[j as int], v@[k]));
                    crate::strkit::lemma_chars_le_trans(x.name@, v@[j as int].name@, v@[k].name@);
                }
            }
        }
        crate::seqkit::lemma_sorted_insert(v@, j as int, x, leq);
        crate::seqkit::lemma_insert_to_multiset(v@, j as int, x);
    }
    v.insert(j, x);
}

} // verus!
