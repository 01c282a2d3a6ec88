//! Stakeholder links and resource assignments of the project repository:
//! junction rows keyed by their composite key, with an optional role.

use vstd::prelude::*;
use crate::err::RepoError;
use crate::model::{
    clone_opt_text, MilestoneResource, ProjectResource, ProjectStakeholder, StakeholderNote,
};
use crate::seqkit::{
    lemma_filter_take_step, lemma_filter_membership, lemma_filter_pairwise,
};
use crate::store::{
    has_row, lemma_has_row_filter, lemma_has_row_push, lemma_has_row_same, milestone_exists,
    milestone_resource_of, milestone_resource_with, person_exists, project_exists,
    project_resource_of, project_resource_with, stakeholder_exists, stakeholder_of,
    stakeholder_with, Store, StoreView,
};
use crate::strkit::str_eq;

verus! {

/// Keeps every stakeholder link but the one with this composite key.
pub open spec fn stakeholder_not(pid: Seq<char>, email: Seq<char>) -> spec_fn(
    ProjectStakeholder,
) -> bool {
    |s: ProjectStakeholder| !(s.project_id@ == pid && s.stakeholder_email@ == email)
}

/// Keeps every stakeholder note but those of this composite key.
pub open spec fn snote_not_of(pid: Seq<char>, email: Seq<char>) -> spec_fn(
    StakeholderNote,
) -> bool {
    |n: StakeholderNote| !(n.project_id@ == pid && n.stakeholder_email@ == email)
}

/// Keeps every project resource row but the one with this composite key.
pub open spec fn project_resource_not(pid: Seq<char>, email: Seq<char>) -> spec_fn(
    ProjectResource,
) -> bool {
    |s: ProjectResource| !(s.project_id@ == pid && s.person_email@ == email)
}

/// Keeps every milestone resource row but the one with this composite key.
pub open spec fn milestone_resource_not(mid: Seq<char>, email: Seq<char>) -> spec_fn(
    MilestoneResource,
) -> bool {
    |s: MilestoneResource| !(s.milestone_id@ == mid && s.person_email@ == email)
}

impl StoreView {
    /// Adding a stakeholder link: a duplicate pair is a conflict; the
    /// project and the person must exist.
    pub open spec fn add_stakeholder_check(self, pid: Seq<char>, email: Seq<char>) -> Result<
        (),
        RepoError,
    > {
        if has_row(self.stakeholders, stakeholder_with(pid, email)) {
            Result::Err(RepoError::Conflict)
        } else if !project_exists(self.projects, pid) {
            Result::Err(RepoError::InvalidReference)
        } else if !person_exists(self.people, email) {
            Result::Err(RepoError::InvalidReference)
        } else {
            Result::Ok(())
        }
    }

    /// Updating a stakeholder link sets its role; the pair must exist.
    pub open spec fn updated_stakeholder(self, pid: Seq<char>, s: ProjectStakeholder) -> (
        StoreView,
        Result<(), RepoError>,
    ) {
        if !has_row(self.stakeholders, stakeholder_with(pid, s.stakeholder_email@)) {
            (self, Result::Err(RepoError::NotFound))
        } else {
            (
                StoreView {
                    stakeholders: self.stakeholders.map_values(
                        |q: ProjectStakeholder|
                            if q.project_id@ == pid && q.stakeholder_email@
                                == s.stakeholder_email@ {
                                ProjectStakeholder {
                                    project_id: q.project_id,
                                    stakeholder_email: q.stakeholder_email,
                                    role: s.role,
                                    created_at: q.created_at,
                                }
                            } else {
                                q
                            },
                    ),
                    ..self
                },
                Result::Ok(()),
            )
        }
    }

    /// Removing a stakeholder link removes its notes with it.
    pub open spec fn removed_stakeholder(self, pid: Seq<char>, email: Seq<char>) -> (
        StoreView,
        Result<(), RepoError>,
    ) {
        if !has_row(self.stakeholders, stakeholder_with(pid, email)) {
            (self, Result::Err(RepoError::NotFound))
        } else {
            (
                StoreView {
                    stakeholders: self.stakeholders.filter(stakeholder_not(pid, email)),
                    stakeholder_notes: self.stakeholder_notes.filter(snote_not_of(pid, email)),
                    ..self
                },
                Result::Ok(()),
            )
        }
    }

    /// Adding a project resource row: a duplicate pair is a conflict; the
    /// project and the person must exist.
    pub open spec fn add_project_resource_check(self, pid: Seq<char>, email: Seq<char>) -> Result<
        (),
        RepoError,
    > {
        if has_row(self.project_resources, project_resource_with(pid, email)) {
            Result::Err(RepoError::Conflict)
        } else if !project_exists(self.projects, pid) {
            Result::Err(RepoError::InvalidReference)
        } else if !person_exists(self.people, email) {
            Result::Err(RepoError::InvalidReference)
        } else {
            Result::Ok(())
        }
    }

    /// Updating a project resource row sets its role; the pair must exist.
    pub open spec fn updated_project_resource(self, pid: Seq<char>, s: ProjectResource) -> (
        StoreView,
        Result<(), RepoError>,
    ) {
        if !has_row(self.project_resources, project_resource_with(pid, s.person_email@)) {
            (self, Result::Err(RepoError::NotFound))
        } else {
            (
                StoreView {
                    project_resources: self.project_resources.map_values(
                        |q: ProjectResource|
                            if q.project_id@ == pid && q.person_email@ == s.person_email@ {
                                ProjectResource {
                                    project_id: q.project_id,
                                    person_email: q.person_email,
                                    role: s.role,
                                    created_at: q.created_at,
                                }
                            } else {
                                q
                            },
                    ),
                    ..self
                },
                Result::Ok(()),
            )
        }
    }

    /// Removing a project resource row; nothing depends on it.
    pub open spec fn removed_project_resource(self, pid: Seq<char>, email: Seq<char>) -> (
        StoreView,
        Result<(), RepoError>,
    ) {
        if !has_row(self.project_resources, project_resource_with(pid, email)) {
            (self, Result::Err(RepoError::NotFound))
        } else {
            (
                StoreView {
                    project_resources: self.project_resources.filter(
                        project_resource_not(pid, email),
                    ),
                    ..self
                },
                Result::Ok(()),
            )
        }
    }

    /// Adding a milestone resource row: a duplicate pair is a conflict;
    /// the milestone and the person must exist.
    pub open spec fn add_milestone_resource_check(self, mid: Seq<char>, email: Seq<char>) -> Result<
        (),
        RepoError,
    > {
        if has_row(self.milestone_resources, milestone_resource_with(mid, email)) {
            Result::Err(RepoError::Conflict)
        } else if !milestone_exists(self.milestones, mid) {
            Result::Err(RepoError::InvalidReference)
        } else if !person_exists(self.people, email) {
            Result::Err(RepoError::InvalidReference)
        } else {
            Result::Ok(())
        }
    }

    /// Updating a milestone resource row sets its role; the pair must exist.
    pub open spec fn updated_milestone_resource(self, mid: Seq<char>, s: MilestoneResource) -> (
        StoreView,
        Result<(), RepoError>,
    ) {
        if !has_row(self.milestone_resources, milestone_resource_with(mid, s.person_email@)) {
            (self, Result::Err(RepoError::NotFound))
        } else {
            (
                StoreView {
                    milestone_resources: self.milestone_resources.map_values(
                        |q: MilestoneResource|
                            if q.milestone_id@ == mid && q.person_email@ == s.person_email@ {
                                MilestoneResource {
                                    milestone_id: q.milestone_id,
                                    person_email: q.person_email,
                                    role: s.role,
                                    created_at: q.created_at,
                                }
                            } else {
                                q
                            },
                    ),
                    ..self
                },
                Result::Ok(()),
            )
        }
    }

    /// Removing a milestone resource row; nothing depends on it.
    pub open spec fn removed_milestone_resource(self, mid: Seq<char>, email: Seq<char>) -> (
        StoreView,
        Result<(), RepoError>,
    ) {
        if !has_row(self.milestone_resources, milestone_resource_with(mid, email)) {
            (self, Result::Err(RepoError::NotFound))
        } else {
            (
                StoreView {
                    milestone_resources: self.milestone_resources.filter(
                        milestone_resource_not(mid, email),
                    ),
                    ..self
                },
                Result::Ok(()),
            )
        }
    }
}

impl Store {
    /// Is there a stakeholder link with this composite key?
    fn find_stakeholder(&self, pid: &str, email: &str) -> (r: bool)
        ensures
            r == has_row(self@.stakeholders, stakeholder_with(pid@, email@)),
    {
        let mut i: usize = 0;
        while i < self.stakeholders.len()
            invariant
                i <= self@.stakeholders.len(),
                forall|k: int|
                    0 <= k < i ==> !((#[trigger] self@.stakeholders[k]).project_id@ == pid@
                        && self@.stakeholders[k].stakeholder_email@ == email@),
            decreases self@.stakeholders.len() - i,
        {
            if str_eq(self.stakeholders[i].project_id.as_str(), pid) && str_eq(
                self.stakeholders[i].stakeholder_email.as_str(),
                email,
            ) {
                proof {
                    assert(stakeholder_with(pid@, email@)(self@.stakeholders[i as int]));
                }
                return true;
            }
            i = i + 1;
        }
        proof {
            if has_row(self@.stakeholders, stakeholder_with(pid@, email@)) {
                let k = choose|k: int|
                    0 <= k < self@.stakeholders.len() && stakeholder_with(pid@, email@)(
                        #[trigger] self@.stakeholders[k],
                    );
            }
        }
        false
    }

    /// Is there a project resource row with this composite key?
    fn find_project_resource(&self, pid: &str, email: &str) -> (r: bool)
        ensures
            r == has_row(self@.project_resources, project_resource_with(pid@, email@)),
    {
        let mut i: usize = 0;
        while i < self.project_resources.len()
            invariant
                i <= self@.project_resources.len(),
                forall|k: int|
                    0 <= k < i ==> !((#[trigger] self@.project_resources[k]).project_id@ == pid@
                        && self@.project_resources[k].person_email@ == email@),
            decreases self@.project_resources.len() - i,
        {
            if str_eq(self.project_resources[i].project_id.as_str(), pid) && str_eq(
                self.project_resources[i].person_email.as_str(),
                email,
            ) {
                proof {
                    assert(project_resource_with(pid@, email@)(
                        self@.project_resources[i as int],
                    ));
                }
                return true;
            }
            i = i + 1;
        }
        proof {
            if has_row(self@.project_resources, project_resource_with(pid@, email@)) {
                let k = choose|k: int|
                    0 <= k < self@.project_resources.len() && project_resource_with(pid@, email@)(
                        #[trigger] self@.project_resources[k],
                    );
            }
        }
        false
    }

    /// Is there a milestone resource row with this composite key?
    fn find_milestone_resource(&self, mid: &str, email: &str) -> (r: bool)
        ensures
            r == has_row(self@.milestone_resources, milestone_resource_with(mid@, email@)),
    {
        let mut i: usize = 0;
        while i < self.milestone_resources.len()
            invariant
                i <= self@.milestone_resources.len(),
                forall|k: int|
                    0 <= k < i ==> !((#[trigger] self@.milestone_resources[k]).milestone_id@
                        == mid@ && self@.milestone_resources[k].person_email@ == email@),
            decreases self@.milestone_resources.len() - i,
        {
            if str_eq(self.milestone_resources[i].milestone_id.as_str(), mid) && str_eq(
                self.milestone_resources[i].person_email.as_str(),
                email,
            ) {
                proof {
                    assert(milestone_resource_with(mid@, email@)(
                        self@.milestone_resources[i as int],
                    ));
                }
                return true;
            }
            i = i + 1;
        }
        proof {
            if has_row(self@.milestone_resources, milestone_resource_with(mid@, email@)) {
                let k = choose|k: int|
                    0 <= k < self@.milestone_resources.len() && milestone_resource_with(
                        mid@,
                        email@,
                    )(#[trigger] self@.milestone_resources[k]);
            }
        }
        false
    }

    /// Add a stakeholder to a project. The link is stored under the given
    /// project identifier with the given stakeholder's email, role and
    /// creation time.
    pub fn add_stakeholder(&mut self, project_id: &str, stakeholder: &ProjectStakeholder) -> (r:
        Result<(), RepoError>)
        requires
            old(self)@.wf(),
        ensures
            final(self)@.wf(),
            r == old(self)@.add_stakeholder_check(project_id@, stakeholder.stakeholder_email@),
            r is Err ==> final(self)@ == old(self)@,
            r is Ok ==> exists|row: ProjectStakeholder|
                {
                    &&& (#[trigger] row.project_id)@ == project_id@
                    &&& row.stakeholder_email == stakeholder.stakeholder_email
                    &&& row.role == stakeholder.role
                    &&& row.created_at == stakeholder.created_at
                    &&& final(self)@ == (StoreView {
                        stakeholders: old(self)@.stakeholders.push(row),
                        ..old(self)@
                    })
                },
    {
        let ghost v0 = self@;
        if self.find_stakeholder(project_id, stakeholder.stakeholder_email.as_str()) {
            return Result::Err(RepoError::Conflict);
        }
        if let Option::None = self.find_project_idx(project_id) {
            return Result::Err(RepoError::InvalidReference);
        }
        if let Option::None = self.find_person_idx(stakeholder.stakeholder_email.as_str()) {
            return Result::Err(RepoError::InvalidReference);
        }
        let row = ProjectStakeholder {
            project_id: String::from_str(project_id),
            stakeholder_email: stakeholder.stakeholder_email.clone(),
            role: clone_opt_text(&stakeholder.role),
            created_at: stakeholder.created_at,
        };
        let ghost grow = row;
        self.stakeholders.push(row);
        proof {
            lemma_wf_after_stakeholder_push(v0, grow);
            assert(self@ == (StoreView { stakeholders: v0.stakeholders.push(grow), ..v0 }));
            assert(grow.project_id@ == project_id@);
            assert(grow.stakeholder_email == stakeholder.stakeholder_email);
            assert(grow.role == stakeholder.role);
            assert(grow.created_at == stakeholder.created_at);
        }
        Result::Ok(())
    }

    /// The stakeholder links of a project, in storage order.
    pub fn get_stakeholders(&self, project_id: &str) -> (r: Vec<ProjectStakeholder>)
        ensures
            r@ == self@.stakeholders.filter(stakeholder_of(project_id@)),
    {
        let mut out: Vec<ProjectStakeholder> = Vec::new();
        let mut i: usize = 0;
        proof {
            reveal(Seq::filter);
            assert(self@.stakeholders.take(0).filter(stakeholder_of(project_id@))
                =~= Seq::empty());
        }
        while i < self.stakeholders.len()
            invariant
                i <= self@.stakeholders.len(),
                out@ == self@.stakeholders.take(i as int).filter(stakeholder_of(project_id@)),
            decreases self@.stakeholders.len() - i,
        {
            let ghost q = stakeholder_of(project_id@);
            proof {
                lemma_filter_take_step(self@.stakeholders, q, i as int);
            }
            if str_eq(self.stakeholders[i].project_id.as_str(), project_id) {
                proof {
                    assert(q(self@.stakeholders[i as int]));
                }
                out.push(self.stakeholders[i].clone());
            } else {
                proof {
                    assert(!q(self@.stakeholders[i as int]));
                }
            }
            i = i + 1;
        }
        proof {
            assert(self@.stakeholders.take(self@.stakeholders.len() as int)
                =~= self@.stakeholders);
        }
        out
    }

    /// Update a stakeholder's role on a project.
    pub fn update_stakeholder(&mut self, project_id: &str, stakeholder: &ProjectStakeholder) -> (r:
        Result<(), RepoError>)
        requires
            old(self)@.wf(),
        ensures
            final(self)@.wf(),
            (final(self)@, r) == old(self)@.updated_stakeholder(project_id@, *stakeholder),
    {
        let ghost v0 = self@;
        let mut i: usize = 0;
        let mut idx: usize = 0;
        let mut found: bool = false;
        while !found && i < self.stakeholders.len()
            invariant
                i <= self@.stakeholders.len(),
                self@ == v0,
                forall|k: int|
                    0 <= k < i ==> !((#[trigger] v0.stakeholders[k]).project_id@ == project_id@
                        && v0.stakeholders[k].stakeholder_email@ == stakeholder.stakeholder_email@),
                found ==> idx < v0.stakeholders.len()
                    && v0.stakeholders[idx as int].project_id@ == project_id@
                    && v0.stakeholders[idx as int].stakeholder_email@
                    == stakeholder.stakeholder_email@,
            decreases v0.stakeholders.len() - i + (if found { 0int } else { 1int }),
        {
            if str_eq(self.stakeholders[i].project_id.as_str(), project_id) && str_eq(
                self.stakeholders[i].stakeholder_email.as_str(),
                stakeholder.stakeholder_email.as_str(),
            ) {
                idx = i;
                found = true;
            } else {
                i = i + 1;
            }
        }
        if !found {
            proof {
                if has_row(v0.stakeholders, stakeholder_with(project_id@, stakeholder.stakeholder_email@)) {
                    let k = choose|k: int|
                        0 <= k < v0.stakeholders.len() && stakeholder_with(
                            project_id@,
                            stakeholder.stakeholder_email@,
                        )(#[trigger] v0.stakeholders[k]);
                }
            }
            return Result::Err(RepoError::NotFound);
        }
        proof {
            assert(stakeholder_with(project_id@, stakeholder.stakeholder_email@)(
                v0.stakeholders[idx as int],
            ));
        }
        let row = ProjectStakeholder {
            project_id: self.stakeholders[idx].project_id.clone(),
            stakeholder_email: self.stakeholders[idx].stakeholder_email.clone(),
            role: clone_opt_text(&stakeholder.role),
            created_at: self.stakeholders[idx].created_at,
        };
        self.stakeholders[idx] = row;
        proof {
            lemma_after_stakeholder_update(
                v0,
                project_id@,
                *stakeholder,
                idx as int,
                self@,
            );
        }
        Result::Ok(())
    }

    /// Remove a stakeholder from a project; the link's notes go with it.
    pub fn remove_stakeholder(&mut self, project_id: &str, stakeholder_email: &str) -> (r: Result<
        (),
        RepoError,
    >)
        requires
            old(self)@.wf(),
        ensures
            final(self)@.wf(),
            (final(self)@, r) == old(self)@.removed_stakeholder(project_id@, stakeholder_email@),
    {
        let ghost v0 = self@;
        if !self.find_stakeholder(project_id, stakeholder_email) {
            return Result::Err(RepoError::NotFound);
        }
        let mut kept: Vec<ProjectStakeholder> = Vec::new();
        let mut i: usize = 0;
        proof {
            reveal(Seq::filter);
            assert(v0.stakeholders.take(0).filter(stakeholder_not(project_id@, stakeholder_email@))
                =~= Seq::empty());
        }
        while i < self.stakeholders.len()
            invariant
                i <= self@.stakeholders.len(),
                self@ == v0,
                kept@ == v0.stakeholders.take(i as int).filter(
                    stakeholder_not(project_id@, stakeholder_email@),
                ),
            decreases self@.stakeholders.len() - i,
        {
            let ghost keep = stakeholder_not(project_id@, stakeholder_email@);
            proof {
                lemma_filter_take_step(v0.stakeholders, keep, i as int);
            }
            if str_eq(self.stakeholders[i].project_id.as_str(), project_id) && str_eq(
                self.stakeholders[i].stakeholder_email.as_str(),
                stakeholder_email,
            ) {
                proof {
                    assert(!keep(v0.stakeholders[i as int]));
                }
            } else {
                proof {
                    assert(keep(v0.stakeholders[i as int]));
                }
                kept.push(self.stakeholders[i].clone());
            }
            i = i + 1;
        }
        proof {
            assert(v0.stakeholders.take(v0.stakeholders.len() as int) =~= v0.stakeholders);
        }
        let mut kept_notes: Vec<StakeholderNote> = Vec::new();
        let mut j: usize = 0;
        proof {
            reveal(Seq::filter);
            assert(v0.stakeholder_notes.take(0).filter(
                snote_not_of(project_id@, stakeholder_email@),
            ) =~= Seq::empty());
        }
        while j < self.stakeholder_notes.len()
            invariant
                j <= self@.stakeholder_notes.len(),
                self@ == v0,
                kept_notes@ == v0.stakeholder_notes.take(j as int).filter(
                    snote_not_of(project_id@, stakeholder_email@),
                ),
            decreases self@.stakeholder_notes.len() - j,
        {
            let ghost keep = snote_not_of(project_id@, stakeholder_email@);
            proof {
                lemma_filter_take_step(v0.stakeholder_notes, keep, j as int);
            }
            if str_eq(self.stakeholder_notes[j].project_id.as_str(), project_id) && str_eq(
                self.stakeholder_notes[j].stakeholder_email.as_str(),
                stakeholder_email,
            ) {
                proof {
                    assert(!keep(v0.stakeholder_notes[j as int]));
                }
            } else {
                proof {
                    assert(keep(v0.stakeholder_notes[j as int]));
                }
                kept_notes.push(self.stakeholder_notes[j].clone());
            }
            j = j + 1;
        }
        proof {
            assert(v0.stakeholder_notes.take(v0.stakeholder_notes.len() as int)
                =~= v0.stakeholder_notes);
        }
        self.stakeholders = kept;
        self.stakeholder_notes = kept_notes;
        proof {
            lemma_wf_after_stakeholder_delete(v0, project_id@, stakeholder_email@, self@);
        }
        Result::Ok(())
    }

    /// Add a resource to a project.
    pub fn add_project_resource(&mut self, project_id: &str, resource: &ProjectResource) -> (r:
        Result<(), RepoError>)
        requires
            old(self)@.wf(),
        ensures
            final(self)@.wf(),
            r == old(self)@.add_project_resource_check(project_id@, resource.person_email@),
            r is Err ==> final(self)@ == old(self)@,
            r is Ok ==> exists|row: ProjectResource|
                {
                    &&& (#[trigger] row.project_id)@ == project_id@
                    &&& row.person_email == resource.person_email
                    &&& row.role == resource.role
                    &&& row.created_at == resource.created_at
                    &&& final(self)@ == (StoreView {
                        project_resources: old(self)@.project_resources.push(row),
                        ..old(self)@
                    })
                },
    {
        let ghost v0 = self@;
        if self.find_project_resource(project_id, resource.person_email.as_str()) {
            return Result::Err(RepoError::Conflict);
        }
        if let Option::None = self.find_project_idx(project_id) {
            return Result::Err(RepoError::InvalidReference);
        }
        if let Option::None = self.find_person_idx(resource.person_email.as_str()) {
            return Result::Err(RepoError::InvalidReference);
        }
        let row = ProjectResource {
            project_id: String::from_str(project_id),
            person_email: resource.person_email.clone(),
            role: clone_opt_text(&resource.role),
            created_at: resource.created_at,
        };
        let ghost grow = row;
        self.project_resources.push(row);
        proof {
            lemma_wf_after_project_resource_push(v0, grow);
            assert(self@ == (StoreView {
                project_resources: v0.project_resources.push(grow),
                ..v0
            }));
            assert(grow.project_id@ == project_id@);
            assert(grow.person_email == resource.person_email);
            assert(grow.role == resource.role);
            assert(grow.created_at == resource.created_at);
        }
        Result::Ok(())
    }

    /// The resource rows of a project, in storage order.
    pub fn get_project_resources(&self, project_id: &str) -> (r: Vec<ProjectResource>)
        ensures
            r@ == self@.project_resources.filter(project_resource_of(project_id@)),
    {
        let mut out: Vec<ProjectResource> = Vec::new();
        let mut i: usize = 0;
        proof {
            reveal(Seq::filter);
            assert(self@.project_resources.take(0).filter(project_resource_of(project_id@))
                =~= Seq::empty());
        }
        while i < self.project_resources.len()
            invariant
                i <= self@.project_resources.len(),
                out@ == self@.project_resources.take(i as int).filter(
                    project_resource_of(project_id@),
                ),
            decreases self@.project_resources.len() - i,
        {
            let ghost q = project_resource_of(project_id@);
            proof {
                lemma_filter_take_step(self@.project_resources, q, i as int);
            }
            if str_eq(self.project_resources[i].project_id.as_str(), project_id) {
                proof {
                    assert(q(self@.project_resources[i as int]));
                }
                out.push(self.project_resources[i].clone());
            } else {
                proof {
                    assert(!q(self@.project_resources[i as int]));
                }
            }
            i = i + 1;
        }
        proof {
            assert(self@.project_resources.take(self@.project_resources.len() as int)
                =~= self@.project_resources);
        }
        out
    }

    /// Update a project resource's role.
    pub fn update_project_resource(&mut self, project_id: &str, resource: &ProjectResource) -> (r:
        Result<(), RepoError>)
        requires
            old(self)@.wf(),
        ensures
            final(self)@.wf(),
            (final(self)@, r) == old(self)@.updated_project_resource(project_id@, *resource),
    {
        let ghost v0 = self@;
        let mut i: usize = 0;
        let mut idx: usize = 0;
        let mut found: bool = false;
        while !found && i < self.project_resources.len()
            invariant
                i <= self@.project_resources.len(),
                self@ == v0,
                forall|k: int|
                    0 <= k < i ==> !((#[trigger] v0.project_resources[k]).project_id@
                        == project_id@ && v0.project_resources[k].person_email@
                        == resource.person_email@),
                found ==> idx < v0.project_resources.len()
                    && v0.project_resources[idx as int].project_id@ == project_id@
                    && v0.project_resources[idx as int].person_email@ == resource.person_email@,
            decreases v0.project_resources.len() - i + (if found { 0int } else { 1int }),
        {
            if str_eq(self.project_resources[i].project_id.as_str(), project_id) && str_eq(
                self.project_resources[i].person_email.as_str(),
                resource.person_email.as_str(),
            ) {
                idx = i;
                found = true;
            } else {
                i = i + 1;
            }
        }
        if !found {
            proof {
                if has_row(v0.project_resources, project_resource_with(project_id@, resource.person_email@)) {
                    let k = choose|k: int|
                        0 <= k < v0.project_resources.len() && project_resource_with(
                            project_id@,
                            resource.person_email@,
                        )(#[trigger] v0.project_resources[k]);
                }
            }
            return Result::Err(RepoError::NotFound);
        }
        proof {
            assert(project_resource_with(project_id@, resource.person_email@)(
                v0.project_resources[idx as int],
            ));
        }
        let row = ProjectResource {
            project_id: self.project_resources[idx].project_id.clone(),
            person_email: self.project_resources[idx].person_email.clone(),
            role: clone_opt_text(&resource.role),
            created_at: self.project_resources[idx].created_at,
        };
        self.project_resources[idx] = row;
        proof {
            lemma_after_project_resource_update(
                v0,
                project_id@,
                *resource,
                idx as int,
                self@,
            );
        }
        Result::Ok(())
    }

    /// Remove a resource from a project.
    pub fn remove_project_resource(&mut self, project_id: &str, person_email: &str) -> (r: Result<
        (),
        RepoError,
    >)
        requires
            old(self)@.wf(),
        ensures
            final(self)@.wf(),
            (final(self)@, r) == old(self)@.removed_project_resource(project_id@, person_email@),
    {
        let ghost v0 = self@;
        if !self.find_project_resource(project_id, person_email) {
            return Result::Err(RepoError::NotFound);
        }
        let mut kept: Vec<ProjectResource> = Vec::new();
        let mut i: usize = 0;
        proof {
            reveal(Seq::filter);
            assert(v0.project_resources.take(0).filter(
                project_resource_not(project_id@, person_email@),
            ) =~= Seq::empty());
        }
        while i < self.project_resources.len()
            invariant
                i <= self@.project_resources.len(),
                self@ == v0,
                kept@ == v0.project_resources.take(i as int).filter(
                    project_resource_not(project_id@, person_email@),
                ),
            decreases self@.project_resources.len() - i,
        {
            let ghost keep = project_resource_not(project_id@, person_email@);
            proof {
                lemma_filter_take_step(v0.project_resources, keep, i as int);
            }
            if str_eq(self.project_resources[i].project_id.as_str(), project_id) && str_eq(
                self.project_resources[i].person_email.as_str(),
                person_email,
            ) {
                proof {
                    assert(!keep(v0.project_resources[i as int]));
                }
            } else {
                proof {
                    assert(keep(v0.project_resources[i as int]));
                }
                kept.push(self.project_resources[i].clone());
            }
            i = i + 1;
        }
        proof {
            assert(v0.project_resources.take(v0.project_resources.len() as int)
                =~= v0.project_resources);
        }
        self.project_resources = kept;
        proof {
            lemma_wf_after_project_resources_filter(
                v0,
                project_resource_not(project_id@, person_email@),
                self@,
            );
        }
        Result::Ok(())
    }

    /// Add a resource to a milestone.
    pub fn add_milestone_resource(&mut self, milestone_id: &str, resource: &MilestoneResource) -> (
        r: Result<(), RepoError>)
        requires
            old(self)@.wf(),
        ensures
            final(self)@.wf(),
            r == old(self)@.add_milestone_resource_check(milestone_id@, resource.person_email@),
            r is Err ==> final(self)@ == old(self)@,
            r is Ok ==> exists|row: MilestoneResource|
                {
                    &&& (#[trigger] row.milestone_id)@ == milestone_id@
                    &&& row.person_email == resource.person_email
                    &&& row.role == resource.role
                    &&& row.created_at == resource.created_at
                    &&& final(self)@ == (StoreView {
                        milestone_resources: old(self)@.milestone_resources.push(row),
                        ..old(self)@
                    })
                },
    {
        let ghost v0 = self@;
        if self.find_milestone_resource(milestone_id, resource.person_email.as_str()) {
            return Result::Err(RepoError::Conflict);
        }
        if let Option::None = self.find_milestone_idx(milestone_id) {
            return Result::Err(RepoError::InvalidReference);
        }
        if let Option::None = self.find_person_idx(resource.person_email.as_str()) {
            return Result::Err(RepoError::InvalidReference);
        }
        let row = MilestoneResource {
            milestone_id: String::from_str(milestone_id),
            person_email: resource.person_email.clone(),
            role: clone_opt_text(&resource.role),
            created_at: resource.created_at,
        };
        let ghost grow = row;
        self.milestone_resources.push(row);
        proof {
            lemma_wf_after_milestone_resource_push(v0, grow);
            assert(self@ == (StoreView {
                milestone_resources: v0.milestone_resources.push(grow),
                ..v0
            }));
            assert(grow.milestone_id@ == milestone_id@);
            assert(grow.person_email == resource.person_email);
            assert(grow.role == resource.role);
            assert(grow.created_at == resource.created_at);
        }
        Result::Ok(())
    }

    /// The resource rows of a milestone, in storage order.
    pub fn get_milestone_resources(&self, milestone_id: &str) -> (r: Vec<MilestoneResource>)
        ensures
            r@ == self@.milestone_resources.filter(milestone_resource_of(milestone_id@)),
    {
        let mut out: Vec<MilestoneResource> = Vec::new();
        let mut i: usize = 0;
        proof {
            reveal(Seq::filter);
            assert(self@.milestone_resources.take(0).filter(milestone_resource_of(milestone_id@))
                =~= Seq::empty());
        }
        while i < self.milestone_resources.len()
            invariant
                i <= self@.milestone_resources.len(),
                out@ == self@.milestone_resources.take(i as int).filter(
                    milestone_resource_of(milestone_id@),
                ),
            decreases self@.milestone_resources.len() - i,
        {
            let ghost q = milestone_resource_of(milestone_id@);
            proof {
                lemma_filter_take_step(self@.milestone_resources, q, i as int);
            }
            if str_eq(self.milestone_resources[i].milestone_id.as_str(), milestone_id) {
                proof {
                    assert(q(self@.milestone_resources[i as int]));
                }
                out.push(self.milestone_resources[i].clone());
            } else {
                proof {
                    assert(!q(self@.milestone_resources[i as int]));
                }
            }
            i = i + 1;
        }
        proof {
            assert(self@.milestone_resources.take(self@.milestone_resources.len() as int)
                =~= self@.milestone_resources);
        }
        out
    }

    /// Update a milestone resource's role.
    pub fn update_milestone_resource(&mut self, milestone_id: &str, resource: &MilestoneResource)
        -> (r: Result<(), RepoError>)
        requires
            old(self)@.wf(),
        ensures
            final(self)@.wf(),
            (final(self)@, r) == old(self)@.updated_milestone_resource(milestone_id@, *resource),
    {
        let ghost v0 = self@;
        let mut i: usize = 0;
        let mut idx: usize = 0;
        let mut found: bool = false;
        while !found && i < self.milestone_resources.len()
            invariant
                i <= self@.milestone_resources.len(),
                self@ == v0,
                forall|k: int|
                    0 <= k < i ==> !((#[trigger] v0.milestone_resources[k]).milestone_id@
                        == milestone_id@ && v0.milestone_resources[k].person_email@
                        == resource.person_email@),
                found ==> idx < v0.milestone_resources.len()
                    && v0.milestone_resources[idx as int].milestone_id@ == milestone_id@
                    && v0.milestone_resources[idx as int].person_email@ == resource.person_email@,
            decreases v0.milestone_resources.len() - i + (if found { 0int } else { 1int }),
        {
            if str_eq(self.milestone_resources[i].milestone_id.as_str(), milestone_id) && str_eq(
                self.milestone_resources[i].person_email.as_str(),
                resource.person_email.as_str(),
            ) {
                idx = i;
                found = true;
            } else {
                i = i + 1;
            }
        }
        if !found {
            proof {
                if has_row(v0.milestone_resources, milestone_resource_with(milestone_id@, resource.person_email@)) {
                    let k = choose|k: int|
                        0 <= k < v0.milestone_resources.len() && milestone_resource_with(
                            milestone_id@,
                            resource.person_email@,
                        )(#[trigger] v0.milestone_resources[k]);
                }
            }
            return Result::Err(RepoError::NotFound);
        }
        proof {
            assert(milestone_resource_with(milestone_id@, resource.person_email@)(
                v0.milestone_resources[idx as int],
            ));
        }
        let row = MilestoneResource {
            milestone_id: self.milestone_resources[idx].milestone_id.clone(),
            person_email: self.milestone_resources[idx].person_email.clone(),
            role: clone_opt_text(&resource.role),
            created_at: self.milestone_resources[idx].created_at,
        };
        self.milestone_resources[idx] = row;
        proof {
            lemma_after_milestone_resource_update(
                v0,
                milestone_id@,
                *resource,
                idx as int,
                self@,
            );
        }
        Result::Ok(())
    }

    /// Remove a resource from a milestone.
    pub fn remove_milestone_resource(&mut self, milestone_id: &str, person_email: &str) -> (r:
        Result<(), RepoError>)
        requires
            old(self)@.wf(),
        ensures
            final(self)@.wf(),
            (final(self)@, r) == old(self)@.removed_milestone_resource(
                milestone_id@,
                person_email@,
            ),
    {
        let ghost v0 = self@;
        if !self.find_milestone_resource(milestone_id, person_email) {
            return Result::Err(RepoError::NotFound);
        }
        let mut kept: Vec<MilestoneResource> = Vec::new();
        let mut i: usize = 0;
        proof {
            reveal(Seq::filter);
            assert(v0.milestone_resources.take(0).filter(
                milestone_resource_not(milestone_id@, person_email@),
            ) =~= Seq::empty());
        }
        while i < self.milestone_resources.len()
            invariant
                i <= self@.milestone_resources.len(),
                self@ == v0,
                kept@ == v0.milestone_resources.take(i as int).filter(
                    milestone_resource_not(milestone_id@, person_email@),
                ),
            decreases self@.milestone_resources.len() - i,
        {
            let ghost keep = milestone_resource_not(milestone_id@, person_email@);
            proof {
                lemma_filter_take_step(v0.milestone_resources, keep, i as int);
            }
            if str_eq(self.milestone_resources[i].milestone_id.as_str(), milestone_id) && str_eq(
                self.milestone_resources[i].person_email.as_str(),
                person_email,
            ) {
                proof {
                    assert(!keep(v0.milestone_resources[i as int]));
                }
            } else {
                proof {
                    assert(keep(v0.milestone_resources[i as int]));
                }
                kept.push(self.milestone_resources[i].clone());
            }
            i = i + 1;
        }
        proof {
            assert(v0.milestone_resources.take(v0.milestone_resources.len() as int)
                =~= v0.milestone_resources);
        }
        self.milestone_resources = kept;
        proof {
            lemma_wf_after_milestone_resources_filter(
                v0,
                milestone_resource_not(milestone_id@, person_email@),
                self@,
            );
        }
        Result::Ok(())
    }
}

/// Pushing a fresh, reference-satisfying stakeholder link keeps the
/// store invariant.
proof fn lemma_wf_after_stakeholder_push(v: StoreView, s: ProjectStakeholder)
    requires
        v.wf(),
        !has_row(v.stakeholders, stakeholder_with(s.project_id@, s.stakeholder_email@)),
        project_exists(v.projects, s.project_id@),
        person_exists(v.people, s.stakeholder_email@),
    ensures
        (StoreView { stakeholders: v.stakeholders.push(s), ..v }).wf(),
{
    let w = StoreView { stakeholders: v.stakeholders.push(s), ..v };
    let n = v.stakeholders.len() as int;
    assert(forall|i: int| 0 <= i < n ==> #[trigger] w.stakeholders[i] == v.stakeholders[i]);
    assert(w.stakeholders[n] == s);
    assert(w.stakeholders_ok()) by {
        assert forall|i: int, j: int|
            0 <= i < j < w.stakeholders.len() implies !((
        #[trigger] w.stakeholders[i]).project_id@ == (#[trigger] w.stakeholders[j]).project_id@
            && w.stakeholders[i].stakeholder_email@ == w.stakeholders[j].stakeholder_email@) by {
            if j == n && w.stakeholders[i].project_id@ == s.project_id@
                && w.stakeholders[i].stakeholder_email@ == s.stakeholder_email@ {
                assert(stakeholder_with(s.project_id@, s.stakeholder_email@)(v.stakeholders[i]));
            }
        }
    }
    assert(w.stakeholder_notes_ok()) by {
        assert forall|i: int| 0 <= i < w.stakeholder_notes.len() implies stakeholder_exists(
            w.stakeholders,
            (#[trigger] w.stakeholder_notes[i]).project_id@,
            (#[trigger] w.stakeholder_notes[i]).stakeholder_email@,
        ) by {
            lemma_has_row_push(
                v.stakeholders,
                s,
                stakeholder_with(
                    v.stakeholder_notes[i].project_id@,
                    v.stakeholder_notes[i].stakeholder_email@,
                ),
            );
        }
    }
    assert(w.people_ok());
    assert(w.teams_ok());
    assert(w.members_ok());
    assert(w.projects_ok());
    assert(w.milestones_ok());
    assert(w.project_resources_ok());
    assert(w.milestone_resources_ok());
    assert(w.project_notes_ok());
    assert(w.milestone_notes_ok());
}

/// Setting one stakeholder link's role keeps the store invariant and is
/// exactly the mapped table of `updated_stakeholder`.
proof fn lemma_after_stakeholder_update(
    v: StoreView,
    pid: Seq<char>,
    s: ProjectStakeholder,
    idx: int,
    w: StoreView,
)
    requires
        v.wf(),
        0 <= idx < v.stakeholders.len(),
        v.stakeholders[idx].project_id@ == pid,
        v.stakeholders[idx].stakeholder_email@ == s.stakeholder_email@,
        has_row(v.stakeholders, stakeholder_with(pid, s.stakeholder_email@)),
        w == (StoreView {
            stakeholders: v.stakeholders.update(
                idx,
                ProjectStakeholder {
                    project_id: v.stakeholders[idx].project_id,
                    stakeholder_email: v.stakeholders[idx].stakeholder_email,
                    role: s.role,
                    created_at: v.stakeholders[idx].created_at,
                },
            ),
            ..v
        }),
    ensures
        w.wf(),
        (w, Result::Ok::<(), RepoError>(())) == v.updated_stakeholder(pid, s),
{
    let mapped = v.stakeholders.map_values(
        |q: ProjectStakeholder|
            if q.project_id@ == pid && q.stakeholder_email@ == s.stakeholder_email@ {
                ProjectStakeholder {
                    project_id: q.project_id,
                    stakeholder_email: q.stakeholder_email,
                    role: s.role,
                    created_at: q.created_at,
                }
            } else {
                q
            },
    );
    assert(w.stakeholders =~= mapped) by {
        assert forall|i: int| 0 <= i < v.stakeholders.len() implies w.stakeholders[i]
            == mapped[i] by {
            if i != idx {
                assert(!(v.stakeholders[i].project_id@ == pid
                    && v.stakeholders[i].stakeholder_email@ == s.stakeholder_email@));
            }
        }
    }
    assert(forall|i: int|
        0 <= i < w.stakeholders.len() ==> (#[trigger] w.stakeholders[i]).project_id@
            == v.stakeholders[i].project_id@ && w.stakeholders[i].stakeholder_email@
            == v.stakeholders[i].stakeholder_email@);
    assert(w.stakeholders_ok()) by {
        assert forall|i: int| 0 <= i < w.stakeholders.len() implies {
            let q = #[trigger] w.stakeholders[i];
            project_exists(w.projects, q.project_id@) && person_exists(
                w.people,
                q.stakeholder_email@,
            )
        } by {}
    }
    assert(w.stakeholder_notes_ok()) by {
        assert forall|i: int| 0 <= i < w.stakeholder_notes.len() implies stakeholder_exists(
            w.stakeholders,
            (#[trigger] w.stakeholder_notes[i]).project_id@,
            (#[trigger] w.stakeholder_notes[i]).stakeholder_email@,
        ) by {
            lemma_has_row_same(
                v.stakeholders,
                w.stakeholders,
                stakeholder_with(
                    v.stakeholder_notes[i].project_id@,
                    v.stakeholder_notes[i].stakeholder_email@,
                ),
            );
        }
    }
    assert(w.people_ok());
    assert(w.teams_ok());
    assert(w.members_ok());
    assert(w.projects_ok());
    assert(w.milestones_ok());
    assert(w.project_resources_ok());
    assert(w.milestone_resources_ok());
    assert(w.project_notes_ok());
    assert(w.milestone_notes_ok());
    assert(w.stakeholders == mapped);
    assert(w == (StoreView { stakeholders: mapped, ..v }));
    let sv = v.updated_stakeholder(pid, s).0;
    assert(sv.stakeholders =~= mapped) by {
        assert(forall|i: int|
            0 <= i < v.stakeholders.len() ==> #[trigger] sv.stakeholders[i] == mapped[i]);
    }
    assert(sv == w);
}

/// Removing a stakeholder link with its notes keeps the store invariant.
proof fn lemma_wf_after_stakeholder_delete(
    v: StoreView,
    pid: Seq<char>,
    email: Seq<char>,
    w: StoreView,
)
    requires
        v.wf(),
        w == (StoreView {
            stakeholders: v.stakeholders.filter(stakeholder_not(pid, email)),
            stakeholder_notes: v.stakeholder_notes.filter(snote_not_of(pid, email)),
            ..v
        }),
    ensures
        w.wf(),
{
    lemma_filter_membership(v.stakeholders, stakeholder_not(pid, email));
    lemma_filter_membership(v.stakeholder_notes, snote_not_of(pid, email));
    assert(w.stakeholders_ok()) by {
        lemma_filter_pairwise(
            v.stakeholders,
            stakeholder_not(pid, email),
            |a: ProjectStakeholder, b: ProjectStakeholder|
                !(a.project_id@ == b.project_id@ && a.stakeholder_email@ == b.stakeholder_email@),
        );
        assert forall|i: int| 0 <= i < w.stakeholders.len() implies {
            let q = #[trigger] w.stakeholders[i];
            project_exists(w.projects, q.project_id@) && person_exists(
                w.people,
                q.stakeholder_email@,
            )
        } by {
            let k = choose|k: int| 0 <= k < v.stakeholders.len() && v.stakeholders[k] == w.stakeholders[i];
        }
    }
    assert(w.stakeholder_notes_ok()) by {
        lemma_filter_pairwise(
            v.stakeholder_notes,
            snote_not_of(pid, email),
            |a: StakeholderNote, b: StakeholderNote| a.id@ != b.id@,
        );
        assert forall|i: int| 0 <= i < w.stakeholder_notes.len() implies stakeholder_exists(
            w.stakeholders,
            (#[trigger] w.stakeholder_notes[i]).project_id@,
            (#[trigger] w.stakeholder_notes[i]).stakeholder_email@,
        ) by {
            let q = w.stakeholder_notes[i];
            let k = choose|k: int|
                0 <= k < v.stakeholder_notes.len() && v.stakeholder_notes[k] == q;
            assert(!(q.project_id@ == pid && q.stakeholder_email@ == email));
            assert(stakeholder_exists(v.stakeholders, q.project_id@, q.stakeholder_email@));
            let j = choose|j: int|
                0 <= j < v.stakeholders.len() && stakeholder_with(
                    q.project_id@,
                    q.stakeholder_email@,
                )(#[trigger] v.stakeholders[j]);
            lemma_has_row_filter(
                v.stakeholders,
                stakeholder_not(pid, email),
                stakeholder_with(q.project_id@, q.stakeholder_email@),
            );
        }
    }
    assert(w.people_ok());
    assert(w.teams_ok());
    assert(w.members_ok());
    assert(w.projects_ok());
    assert(w.milestones_ok());
    assert(w.project_resources_ok());
    assert(w.milestone_resources_ok());
    assert(w.project_notes_ok());
    assert(w.milestone_notes_ok());
}

/// Pushing a fresh, reference-satisfying project resource row keeps the
/// store invariant.
proof fn lemma_wf_after_project_resource_push(v: StoreView, s: ProjectResource)
    requires
        v.wf(),
        !has_row(v.project_resources, project_resource_with(s.project_id@, s.person_email@)),
        project_exists(v.projects, s.project_id@),
        person_exists(v.people, s.person_email@),
    ensures
        (StoreView { project_resources: v.project_resources.push(s), ..v }).wf(),
{
    let w = StoreView { project_resources: v.project_resources.push(s), ..v };
    let n = v.project_resources.len() as int;
    assert(forall|i: int|
        0 <= i < n ==> #[trigger] w.project_resources[i] == v.project_resources[i]);
    assert(w.project_resources[n] == s);
    assert(w.project_resources_ok()) by {
        assert forall|i: int, j: int|
            0 <= i < j < w.project_resources.len() implies !((
        #[trigger] w.project_resources[i]).project_id@ == (
        #[trigger] w.project_resources[j]).project_id@ && w.project_resources[i].person_email@
            == w.project_resources[j].person_email@) by {
            if j == n && w.project_resources[i].project_id@ == s.project_id@
                && w.project_resources[i].person_email@ == s.person_email@ {
                assert(project_resource_with(s.project_id@, s.person_email@)(
                    v.project_resources[i],
                ));
            }
        }
    }
    assert(w.people_ok());
    assert(w.teams_ok());
    assert(w.members_ok());
    assert(w.projects_ok());
    assert(w.milestones_ok());
    assert(w.stakeholders_ok());
    assert(w.milestone_resources_ok());
    assert(w.project_notes_ok());
    assert(w.milestone_notes_ok());
    assert(w.stakeholder_notes_ok());
}

/// Setting one project resource's role keeps the store invariant and is
/// exactly the mapped table of `updated_project_resource`.
proof fn lemma_after_project_resource_update(
    v: StoreView,
    pid: Seq<char>,
    s: ProjectResource,
    idx: int,
    w: StoreView,
)
    requires
        v.wf(),
        0 <= idx < v.project_resources.len(),
        v.project_resources[idx].project_id@ == pid,
        v.project_resources[idx].person_email@ == s.person_email@,
        has_row(v.project_resources, project_resource_with(pid, s.person_email@)),
        w == (StoreView {
            project_resources: v.project_resources.update(
                idx,
                ProjectResource {
                    project_id: v.project_resources[idx].project_id,
                    person_email: v.project_resources[idx].person_email,
                    role: s.role,
                    created_at: v.project_resources[idx].created_at,
                },
            ),
            ..v
        }),
    ensures
        w.wf(),
        (w, Result::Ok::<(), RepoError>(())) == v.updated_project_resource(pid, s),
{
    let mapped = v.project_resources.map_values(
        |q: ProjectResource|
            if q.project_id@ == pid && q.person_email@ == s.person_email@ {
                ProjectResource {
                    project_id: q.project_id,
                    person_email: q.person_email,
                    role: s.role,
                    created_at: q.created_at,
                }
            } else {
                q
            },
    );
    assert(w.project_resources =~= mapped) by {
        assert forall|i: int| 0 <= i < v.project_resources.len() implies w.project_resources[i]
            == mapped[i] by {
            if i != idx {
                assert(!(v.project_resources[i].project_id@ == pid
                    && v.project_resources[i].person_email@ == s.person_email@));
            }
        }
    }
    assert(w.project_resources_ok()) by {
        assert(forall|i: int|
            0 <= i < w.project_resources.len() ==> (#[trigger] w.project_resources[i]).project_id@
                == v.project_resources[i].project_id@
                && w.project_resources[i].person_email@
                == v.project_resources[i].person_email@);
    }
    assert(w.people_ok());
    assert(w.teams_ok());
    assert(w.members_ok());
    assert(w.projects_ok());
    assert(w.milestones_ok());
    assert(w.stakeholders_ok());
    assert(w.milestone_resources_ok());
    assert(w.project_notes_ok());
    assert(w.milestone_notes_ok());
    assert(w.stakeholder_notes_ok());
    assert(w.project_resources == mapped);
    assert(w == (StoreView { project_resources: mapped, ..v }));
    let sv = v.updated_project_resource(pid, s).0;
    assert(sv.project_resources =~= mapped) by {
        assert(forall|i: int|
            0 <= i < v.project_resources.len() ==> #[trigger] sv.project_resources[i]
                == mapped[i]);
    }
    assert(sv == w);
}

/// Dropping project resource rows by any predicate keeps the invariant:
/// nothing references them.
proof fn lemma_wf_after_project_resources_filter(
    v: StoreView,
    keep: spec_fn(ProjectResource) -> bool,
    w: StoreView,
)
    requires
        v.wf(),
        w == (StoreView { project_resources: v.project_resources.filter(keep), ..v }),
    ensures
        w.wf(),
{
    lemma_filter_membership(v.project_resources, keep);
    assert(w.project_resources_ok()) by {
        lemma_filter_pairwise(
            v.project_resources,
            keep,
            |a: ProjectResource, b: ProjectResource|
                !(a.project_id@ == b.project_id@ && a.person_email@ == b.person_email@),
        );
        assert forall|i: int| 0 <= i < w.project_resources.len() implies {
            let q = #[trigger] w.project_resources[i];
            project_exists(w.projects, q.project_id@) && person_exists(w.people, q.person_email@)
        } by {
            let k = choose|k: int|
                0 <= k < v.project_resources.len() && v.project_resources[k]
                    == w.project_resources[i];
        }
    }
    assert(w.people_ok());
    assert(w.teams_ok());
    assert(w.members_ok());
    assert(w.projects_ok());
    assert(w.milestones_ok());
    assert(w.stakeholders_ok());
    assert(w.milestone_resources_ok());
    assert(w.project_notes_ok());
    assert(w.milestone_notes_ok());
    assert(w.stakeholder_notes_ok());
}

/// Pushing a fresh, reference-satisfying milestone resource row keeps
/// the store invariant.
proof fn lemma_wf_after_milestone_resource_push(v: StoreView, s: MilestoneResource)
    requires
        v.wf(),
        !has_row(v.milestone_resources, milestone_resource_with(s.milestone_id@, s.person_email@)),
        milestone_exists(v.milestones, s.milestone_id@),
        person_exists(v.people, s.person_email@),
    ensures
        (StoreView { milestone_resources: v.milestone_resources.push(s), ..v }).wf(),
{
    let w = StoreView { milestone_resources: v.milestone_resources.push(s), ..v };
    let n = v.milestone_resources.len() as int;
    assert(forall|i: int|
        0 <= i < n ==> #[trigger] w.milestone_resources[i] == v.milestone_resources[i]);
    assert(w.milestone_resources[n] == s);
    assert(w.milestone_resources_ok()) by {
        assert forall|i: int, j: int|
            0 <= i < j < w.milestone_resources.len() implies !((
        #[trigger] w.milestone_resources[i]).milestone_id@ == (
        #[trigger] w.milestone_resources[j]).milestone_id@
            && w.milestone_resources[i].person_email@
            == w.milestone_resources[j].person_email@) by {
            if j == n && w.milestone_resources[i].milestone_id@ == s.milestone_id@
                && w.milestone_resources[i].person_email@ == s.person_email@ {
                assert(milestone_resource_with(s.milestone_id@, s.person_email@)(
                    v.milestone_resources[i],
                ));
            }
        }
    }
    assert(w.people_ok());
    assert(w.teams_ok());
    assert(w.members_ok());
    assert(w.projects_ok());
    assert(w.milestones_ok());
    assert(w.stakeholders_ok());
    assert(w.project_resources_ok());
    assert(w.project_notes_ok());
    assert(w.milestone_notes_ok());
    assert(w.stakeholder_notes_ok());
}

/// Setting one milestone resource's role keeps the store invariant and is
/// exactly the mapped table of `updated_milestone_resource`.
proof fn lemma_after_milestone_resource_update(
    v: StoreView,
    mid: Seq<char>,
    s: MilestoneResource,
    idx: int,
    w: StoreView,
)
    requires
        v.wf(),
        0 <= idx < v.milestone_resources.len(),
        v.milestone_resources[idx].milestone_id@ == mid,
        v.milestone_resources[idx].person_email@ == s.person_email@,
        has_row(v.milestone_resources, milestone_resource_with(mid, s.person_email@)),
        w == (StoreView {
            milestone_resources: v.milestone_resources.update(
                idx,
                MilestoneResource {
                    milestone_id: v.milestone_resources[idx].milestone_id,
                    person_email: v.milestone_resources[idx].person_email,
                    role: s.role,
                    created_at: v.milestone_resources[idx].created_at,
                },
            ),
            ..v
        }),
    ensures
        w.wf(),
        (w, Result::Ok::<(), RepoError>(())) == v.updated_milestone_resource(mid, s),
{
    let mapped = v.milestone_resources.map_values(
        |q: MilestoneResource|
            if q.milestone_id@ == mid && q.person_email@ == s.person_email@ {
                MilestoneResource {
                    milestone_id: q.milestone_id,
                    person_email: q.person_email,
                    role: s.role,
                    created_at: q.created_at,
                }
            } else {
                q
            },
    );
    assert(w.milestone_resources =~= mapped) by {
        assert forall|i: int| 0 <= i < v.milestone_resources.len() implies w.milestone_resources[i]
            == mapped[i] by {
            if i != idx {
                assert(!(v.milestone_resources[i].milestone_id@ == mid
                    && v.milestone_resources[i].person_email@ == s.person_email@));
            }
        }
    }
    assert(w.milestone_resources_ok()) by {
        assert(forall|i: int|
            0 <= i < w.milestone_resources.len() ==> (
            #[trigger] w.milestone_resources[i]).milestone_id@
                == v.milestone_resources[i].milestone_id@
                && w.milestone_resources[i].person_email@
                == v.milestone_resources[i].person_email@);
    }
    assert(w.people_ok());
    assert(w.teams_ok());
    assert(w.members_ok());
    assert(w.projects_ok());
    assert(w.milestones_ok());
    assert(w.stakeholders_ok());
    assert(w.project_resources_ok());
    assert(w.project_notes_ok());
    assert(w.milestone_notes_ok());
    assert(w.stakeholder_notes_ok());
    assert(w.milestone_resources == mapped);
    assert(w == (StoreView { milestone_resources: mapped, ..v }));
    let sv = v.updated_milestone_resource(mid, s).0;
    assert(sv.milestone_resources =~= mapped) by {
        assert(forall|i: int|
            0 <= i < v.milestone_resources.len() ==> #[trigger] sv.milestone_resources[i]
                == mapped[i]);
    }
    assert(sv == w);
}

/// Dropping milestone resource rows by any predicate keeps the invariant:
/// nothing references them.
proof fn lemma_wf_after_milestone_resources_filter(
    v: StoreView,
    keep: spec_fn(MilestoneResource) -> bool,
    w: StoreView,
)
    requires
        v.wf(),
        w == (StoreView { milestone_resources: v.milestone_resources.filter(keep), ..v }),
    ensures
        w.wf(),
{
    lemma_filter_membership(v.milestone_resources, keep);
    assert(w.milestone_resources_ok()) by {
        lemma_filter_pairwise(
            v.milestone_resources,
            keep,
            |a: MilestoneResource, b: MilestoneResource|
                !(a.milestone_id@ == b.milestone_id@ && a.person_email@ == b.person_email@),
        );
        assert forall|i: int| 0 <= i < w.milestone_resources.len() implies {
            let q = #[trigger] w.milestone_resources[i];
            milestone_exists(w.milestones, q.milestone_id@) && person_exists(
                w.people,
                q.person_email@,
            )
        } by {
            let k = choose|k: int|
                0 <= k < v.milestone_resources.len() && v.milestone_resources[k]
                    == w.milestone_resources[i];
        }
    }
    assert(w.people_ok());
    assert(w.teams_ok());
    assert(w.members_ok());
    assert(w.projects_ok());
    assert(w.milestones_ok());
    assert(w.stakeholders_ok());
    assert(w.project_resources_ok());
    assert(w.project_notes_ok());
    assert(w.milestone_notes_ok());
    assert(w.stakeholder_notes_ok());
}

} // verus!
