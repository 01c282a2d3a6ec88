//! Milestone operations of the project repository: the `(project, number)`
//! pair is unique within a project, and deleting a milestone removes its
//! notes and resources but leaves the project and the other milestones.

use vstd::prelude::*;
use vstd::relations::sorted_by;
use crate::err::RepoError;
use crate::model::{
    clone_opt_text, clone_opt_time, Milestone, MilestoneNote, MilestoneResource,
};
use crate::seqkit::{
    first_where, lemma_filter_take_step, lemma_first_where_at, lemma_first_where_none,
    lemma_filter_membership, lemma_filter_pairwise,
};
use crate::store::{
    has_row, lemma_has_row_filter, lemma_has_row_push, lemma_has_row_same, milestone_exists,
    milestone_numbered, milestone_of, milestone_with, opt_person_ref, person_exists,
    project_exists, Store, StoreView,
};
use crate::strkit::str_eq;
use crate::utils::now_millis;

verus! {

/// Number order on milestones.
pub open spec fn milestone_number_le() -> spec_fn(Milestone, Milestone) -> bool {
    |a: Milestone, b: Milestone| a.number <= b.number
}

/// Keeps every milestone but the one with this identifier.
pub open spec fn milestone_not(id: Seq<char>) -> spec_fn(Milestone) -> bool {
    |m: Milestone| m.id@ != id
}

/// Keeps every milestone note but those of this milestone.
pub open spec fn mnote_not_of(id: Seq<char>) -> spec_fn(MilestoneNote) -> bool {
    |n: MilestoneNote| n.milestone_id@ != id
}

/// Keeps every milestone resource row but those of this milestone.
pub open spec fn mres_not_of(id: Seq<char>) -> spec_fn(MilestoneResource) -> bool {
    |r: MilestoneResource| r.milestone_id@ != id
}

/// Another milestone of the same project carrying this number.
pub open spec fn other_with_number(id: Seq<char>, pid: Seq<char>, number: int) -> spec_fn(
    Milestone,
) -> bool {
    |m: Milestone| m.id@ != id && m.project_id@ == pid && m.number as int == number
}

/// A milestone row as a full-row update leaves it: every mutable column
/// from the given value, identity, project and creation time kept, the
/// update time stamped.
pub open spec fn patched_milestone(prev: Milestone, m: Milestone, stamp: i64) -> Milestone {
    Milestone {
        id: prev.id,
        project_id: prev.project_id,
        number: m.number,
        name: m.name,
        description: m.description,
        technical_lead: m.technical_lead,
        team: m.team,
        design_doc_url: m.design_doc_url,
        due_date: m.due_date,
        jira_epic: m.jira_epic,
        created_at: prev.created_at,
        updated_at: if stamp >= prev.updated_at {
            stamp
        } else {
            prev.updated_at
        },
    }
}

impl StoreView {
    /// Adding a milestone: a duplicate identifier or a duplicate
    /// `(project, number)` pair is a conflict; a missing project or lead
    /// is a dangling reference; otherwise the row is appended as given.
    pub open spec fn added_milestone(self, m: Milestone) -> (StoreView, Result<(), RepoError>) {
        if milestone_exists(self.milestones, m.id@) {
            (self, Result::Err(RepoError::Conflict))
        } else if has_row(self.milestones, milestone_numbered(m.project_id@, m.number as int)) {
            (self, Result::Err(RepoError::Conflict))
        } else if !project_exists(self.projects, m.project_id@) {
            (self, Result::Err(RepoError::InvalidReference))
        } else if !opt_person_ref(self.people, m.technical_lead) {
            (self, Result::Err(RepoError::InvalidReference))
        } else {
            (StoreView { milestones: self.milestones.push(m), ..self }, Result::Ok(()))
        }
    }

    /// Updating a milestone: the row must exist; moving it onto a number
    /// another milestone of its project already carries is a conflict.
    pub open spec fn updated_milestone(self, m: Milestone, stamp: i64) -> (
        StoreView,
        Result<(), RepoError>,
    ) {
        match first_where(self.milestones, milestone_with(m.id@)) {
            Option::None => (self, Result::Err(RepoError::NotFound)),
            Option::Some(prev) => {
                if has_row(
                    self.milestones,
                    other_with_number(m.id@, prev.project_id@, m.number as int),
                ) {
                    (self, Result::Err(RepoError::Conflict))
                } else if !opt_person_ref(self.people, m.technical_lead) {
                    (self, Result::Err(RepoError::InvalidReference))
                } else {
                    (
                        StoreView {
                            milestones: self.milestones.map_values(
                                |q: Milestone|
                                    if q.id@ == m.id@ {
                                        patched_milestone(q, m, stamp)
                                    } else {
                                        q
                                    },
                            ),
                            ..self
                        },
                        Result::Ok(()),
                    )
                }
            },
        }
    }

    /// Deleting a milestone removes its notes and resources with it.
    pub open spec fn deleted_milestone(self, id: Seq<char>) -> (StoreView, Result<(), RepoError>) {
        if !milestone_exists(self.milestones, id) {
            (self, Result::Err(RepoError::NotFound))
        } else {
            (
                StoreView {
                    milestones: self.milestones.filter(milestone_not(id)),
                    milestone_notes: self.milestone_notes.filter(mnote_not_of(id)),
                    milestone_resources: self.milestone_resources.filter(mres_not_of(id)),
                    ..self
                },
                Result::Ok(()),
            )
        }
    }
}

impl Store {
    /// The index of the milestone with this identifier, if any.
    pub(crate) fn find_milestone_idx(&self, id: &str) -> (r: Option<usize>)
        ensures
            match r {
                Option::Some(i) => i < self@.milestones.len() && self@.milestones[i as int].id@
                    == id@ && (forall|k: int|
                    0 <= k < i ==> (#[trigger] self@.milestones[k]).id@ != id@),
                Option::None => !milestone_exists(self@.milestones, id@),
            },
    {
        let mut i: usize = 0;
        while i < self.milestones.len()
            invariant
                i <= self@.milestones.len(),
                forall|k: int| 0 <= k < i ==> (#[trigger] self@.milestones[k]).id@ != id@,
            decreases self@.milestones.len() - i,
        {
            if str_eq(self.milestones[i].id.as_str(), id) {
                return Option::Some(i);
            }
            i = i + 1;
        }
        proof {
            if milestone_exists(self@.milestones, id@) {
                let k = choose|k: int|
                    0 <= k < self@.milestones.len() && milestone_with(id@)(
                        #[trigger] self@.milestones[k],
                    );
            }
        }
        Option::None
    }

    /// Is there a milestone of this project with this number?
    fn find_numbered(&self, pid: &str, number: i32) -> (r: bool)
        ensures
            r == has_row(self@.milestones, milestone_numbered(pid@, number as int)),
    {
        let mut i: usize = 0;
        while i < self.milestones.len()
            invariant
                i <= self@.milestones.len(),
                forall|k: int|
                    0 <= k < i ==> !((#[trigger] self@.milestones[k]).project_id@ == pid@
                        && self@.milestones[k].number == number),
            decreases self@.milestones.len() - i,
        {
            if str_eq(self.milestones[i].project_id.as_str(), pid) && self.milestones[i].number
                == number {
                proof {
                    assert(milestone_numbered(pid@, number as int)(self@.milestones[i as int]));
                }
                return true;
            }
            i = i + 1;
        }
        proof {
            if has_row(self@.milestones, milestone_numbered(pid@, number as int)) {
                let k = choose|k: int|
                    0 <= k < self@.milestones.len() && milestone_numbered(pid@, number as int)(
                        #[trigger] self@.milestones[k],
                    );
            }
        }
        false
    }

    /// Is there another milestone, of this project, with this number?
    fn find_other_numbered(&self, id: &str, pid: &str, number: i32) -> (r: bool)
        ensures
            r == has_row(self@.milestones, other_with_number(id@, pid@, number as int)),
    {
        let mut i: usize = 0;
        while i < self.milestones.len()
            invariant
                i <= self@.milestones.len(),
                forall|k: int|
                    0 <= k < i ==> !((#[trigger] self@.milestones[k]).id@ != id@
                        && self@.milestones[k].project_id@ == pid@ && self@.milestones[k].number
                        == number),
            decreases self@.milestones.len() - i,
        {
            if !str_eq(self.milestones[i].id.as_str(), id) && str_eq(
                self.milestones[i].project_id.as_str(),
                pid,
            ) && self.milestones[i].number == number {
                proof {
                    assert(other_with_number(id@, pid@, number as int)(
                        self@.milestones[i as int],
                    ));
                }
                return true;
            }
            i = i + 1;
        }
        proof {
            if has_row(self@.milestones, other_with_number(id@, pid@, number as int)) {
                let k = choose|k: int|
                    0 <= k < self@.milestones.len() && other_with_number(id@, pid@, number as int)(
                        #[trigger] self@.milestones[k],
                    );
            }
        }
        false
    }

    /// Add a milestone to its project.
    pub fn add_milestone(&mut self, milestone: &Milestone) -> (r: Result<(), RepoError>)
        requires
            old(self)@.wf(),
        ensures
            final(self)@.wf(),
            (final(self)@, r) == old(self)@.added_milestone(*milestone),
    {
        let ghost v0 = self@;
        if let Option::Some(_) = self.find_milestone_idx(milestone.id.as_str()) {
            return Result::Err(RepoError::Conflict);
        }
        if self.find_numbered(milestone.project_id.as_str(), milestone.number) {
            return Result::Err(RepoError::Conflict);
        }
        if let Option::None = self.find_project_idx(milestone.project_id.as_str()) {
            return Result::Err(RepoError::InvalidReference);
        }
        if !self.opt_person_check(&milestone.technical_lead) {
            return Result::Err(RepoError::InvalidReference);
        }
        self.milestones.push(milestone.clone());
        proof {
            lemma_wf_after_milestone_push(v0, *milestone);
        }
        Result::Ok(())
    }

    /// All milestones of a project, ordered by number. An unknown project
    /// simply has none.
    pub fn get_milestones(&self, project_id: &str) -> (r: Vec<Milestone>)
        ensures
            r@.to_multiset() == self@.milestones.filter(milestone_of(project_id@)).to_multiset(),
            sorted_by(r@, milestone_number_le()),
    {
        let mut out: Vec<Milestone> = Vec::new();
        let mut i: usize = 0;
        proof {
            broadcast use vstd::seq_lib::group_to_multiset_ensures;

            reveal(Seq::filter);
            assert(self@.milestones.take(0).filter(milestone_of(project_id@)) =~= Seq::empty());
        }
        while i < self.milestones.len()
            invariant
                i <= self@.milestones.len(),
                out@.to_multiset() == self@.milestones.take(i as int).filter(
                    milestone_of(project_id@),
                ).to_multiset(),
                sorted_by(out@, milestone_number_le()),
            decreases self@.milestones.len() - i,
        {
            let ghost q = milestone_of(project_id@);
            proof {
                lemma_filter_take_step(self@.milestones, q, i as int);
            }
            if str_eq(self.milestones[i].project_id.as_str(), project_id) {
                let row = self.milestones[i].clone();
                proof {
                    assert(q(self@.milestones[i as int]));
                }
                insert_milestone_sorted(&mut out, row);
                proof {
                    broadcast use vstd::seq_lib::group_to_multiset_ensures;

                    assert(self@.milestones.take(i + 1).filter(q) == self@.milestones.take(
                        i as int,
                    ).filter(q).push(self@.milestones[i as int]));
                    assert(self@.milestones.take(i as int).filter(q).push(
                        self@.milestones[i as int],
                    ).to_multiset() =~= self@.milestones.take(i as int).filter(
                        q,
                    ).to_multiset().insert(self@.milestones[i as int]));
                }
            } else {
                proof {
                    assert(!q(self@.milestones[i as int]));
                }
            }
            i = i + 1;
        }
        proof {
            assert(self@.milestones.take(self@.milestones.len() as int) =~= self@.milestones);
        }
        out
    }

    /// Update a milestone: a full-row replace of the mutable columns,
    /// re-stamping the update time. The project it belongs to never changes.
    pub fn update_milestone(&mut self, milestone: &Milestone) -> (r: Result<(), RepoError>)
        requires
            old(self)@.wf(),
        ensures
            final(self)@.wf(),
            exists|stamp: i64| (final(self)@, r) == old(self)@.updated_milestone(
                *milestone,
                stamp,
            ),
    {
        let ghost v0 = self@;
        let idx = match self.find_milestone_idx(milestone.id.as_str()) {
            Option::Some(i) => i,
            Option::None => {
                proof {
                    assert forall|k: int|
                        0 <= k < v0.milestones.len() implies !milestone_with(milestone.id@)(
                        #[trigger] v0.milestones[k],
                    ) by {
                        if milestone_with(milestone.id@)(v0.milestones[k]) {
                            assert(milestone_exists(v0.milestones, milestone.id@));
                        }
                    }
                    lemma_first_where_none(v0.milestones, milestone_with(milestone.id@));
                    assert((self@, Result::Err::<(), RepoError>(RepoError::NotFound))
                        == v0.updated_milestone(*milestone, 0));
                }
                return Result::Err(RepoError::NotFound);
            },
        };
        proof {
            assert(milestone_with(milestone.id@)(v0.milestones[idx as int]));
            assert(forall|k: int|
                0 <= k < idx ==> !milestone_with(milestone.id@)(#[trigger] v0.milestones[k]));
            lemma_first_where_at(v0.milestones, milestone_with(milestone.id@), idx as int);
        }
        if self.find_other_numbered(
            milestone.id.as_str(),
            self.milestones[idx].project_id.clone().as_str(),
            milestone.number,
        ) {
            proof {
                assert((self@, Result::Err::<(), RepoError>(RepoError::Conflict))
                    == v0.updated_milestone(*milestone, 0));
            }
            return Result::Err(RepoError::Conflict);
        }
        if !self.opt_person_check(&milestone.technical_lead) {
            proof {
                assert((self@, Result::Err::<(), RepoError>(RepoError::InvalidReference))
                    == v0.updated_milestone(*milestone, 0));
            }
            return Result::Err(RepoError::InvalidReference);
        }
        let t = now_millis();
        let prev_updated = self.milestones[idx].updated_at;
        let stamp: i64 = if t >= prev_updated {
            t
        } else {
            prev_updated
        };
        let row = Milestone {
            id: self.milestones[idx].id.clone(),
            project_id: self.milestones[idx].project_id.clone(),
            number: milestone.number,
            name: milestone.name.clone(),
            description: clone_opt_text(&milestone.description),
            technical_lead: clone_opt_text(&milestone.technical_lead),
            team: clone_opt_text(&milestone.team),
            design_doc_url: clone_opt_text(&milestone.design_doc_url),
            due_date: clone_opt_time(&milestone.due_date),
            jira_epic: clone_opt_text(&milestone.jira_epic),
            created_at: self.milestones[idx].created_at,
            updated_at: stamp,
        };
        proof {
            assert(row == patched_milestone(v0.milestones[idx as int], *milestone, t));
        }
        self.milestones[idx] = row;
        proof {
            lemma_after_milestone_update(v0, *milestone, t, idx as int, self@);
            assert((self@, Result::Ok::<(), RepoError>(())) == v0.updated_milestone(
                *milestone,
                t,
            ));
        }
        Result::Ok(())
    }

    /// Delete a milestone; its notes and resources go with it.
    pub fn delete_milestone(&mut self, id: &str) -> (r: Result<(), RepoError>)
        requires
            old(self)@.wf(),
        ensures
            final(self)@.wf(),
            (final(self)@, r) == old(self)@.deleted_milestone(id@),
    {
        let ghost v0 = self@;
        if let Option::None = self.find_milestone_idx(id) {
            return Result::Err(RepoError::NotFound);
        }
        let mut kept: Vec<Milestone> = Vec::new();
        let mut i: usize = 0;
        proof {
            reveal(Seq::filter);
            assert(v0.milestones.take(0).filter(milestone_not(id@)) =~= Seq::empty());
        }
        while i < self.milestones.len()
            invariant
                i <= self@.milestones.len(),
                self@ == v0,
                kept@ == v0.milestones.take(i as int).filter(milestone_not(id@)),
            decreases self@.milestones.len() - i,
        {
            let ghost keep = milestone_not(id@);
            proof {
                lemma_filter_take_step(v0.milestones, keep, i as int);
            }
            if !str_eq(self.milestones[i].id.as_str(), id) {
                proof {
                    assert(keep(v0.milestones[i as int]));
                }
                kept.push(self.milestones[i].clone());
            } else {
                proof {
                    assert(!keep(v0.milestones[i as int]));
                }
            }
            i = i + 1;
        }
        proof {
            assert(v0.milestones.take(v0.milestones.len() as int) =~= v0.milestones);
        }
        let mut kept_notes: Vec<MilestoneNote> = Vec::new();
        let mut j: usize = 0;
        proof {
            reveal(Seq::filter);
            assert(v0.milestone_notes.take(0).filter(mnote_not_of(id@)) =~= Seq::empty());
        }
        while j < self.milestone_notes.len()
            invariant
                j <= self@.milestone_notes.len(),
                self@ == v0,
                kept_notes@ == v0.milestone_notes.take(j as int).filter(mnote_not_of(id@)),
            decreases self@.milestone_notes.len() - j,
        {
            let ghost keep = mnote_not_of(id@);
            proof {
                lemma_filter_take_step(v0.milestone_notes, keep, j as int);
            }
            if !str_eq(self.milestone_notes[j].milestone_id.as_str(), id) {
                proof {
                    assert(keep(v0.milestone_notes[j as int]));
                }
                kept_notes.push(self.milestone_notes[j].clone());
            } else {
                proof {
                    assert(!keep(v0.milestone_notes[j as int]));
                }
            }
            j = j + 1;
        }
        proof {
            assert(v0.milestone_notes.take(v0.milestone_notes.len() as int)
                =~= v0.milestone_notes);
        }
        let mut kept_res: Vec<MilestoneResource> = Vec::new();
        let mut k: usize = 0;
        proof {
            reveal(Seq::filter);
            assert(v0.milestone_resources.take(0).filter(mres_not_of(id@)) =~= Seq::empty());
        }
        while k < self.milestone_resources.len()
            invariant
                k <= self@.milestone_resources.len(),
                self@ == v0,
                kept_res@ == v0.milestone_resources.take(k as int).filter(mres_not_of(id@)),
            decreases self@.milestone_resources.len() - k,
        {
            let ghost keep = mres_not_of(id@);
            proof {
                lemma_filter_take_step(v0.milestone_resources, keep, k as int);
            }
            if !str_eq(self.milestone_resources[k].milestone_id.as_str(), id) {
                proof {
                    assert(keep(v0.milestone_resources[k as int]));
                }
                kept_res.push(self.milestone_resources[k].clone());
            } else {
                proof {
                    assert(!keep(v0.milestone_resources[k as int]));
                }
            }
            k = k + 1;
        }
        proof {
            assert(v0.milestone_resources.take(v0.milestone_resources.len() as int)
                =~= v0.milestone_resources);
        }
        self.milestones = kept;
        self.milestone_notes = kept_notes;
        self.milestone_resources = kept_res;
        proof {
            lemma_wf_after_milestone_delete(v0, id@, self@);
        }
        Result::Ok(())
    }
}

/// Pushing a fresh, reference-satisfying milestone keeps the store invariant.
proof fn lemma_wf_after_milestone_push(v: StoreView, m: Milestone)
    requires
        v.wf(),
        !milestone_exists(v.milestones, m.id@),
        !has_row(v.milestones, milestone_numbered(m.project_id@, m.number as int)),
        project_exists(v.projects, m.project_id@),
        opt_person_ref(v.people, m.technical_lead),
    ensures
        (StoreView { milestones: v.milestones.push(m), ..v }).wf(),
{
    let w = StoreView { milestones: v.milestones.push(m), ..v };
    let n = v.milestones.len() as int;
    assert(forall|i: int| 0 <= i < n ==> #[trigger] w.milestones[i] == v.milestones[i]);
    assert(w.milestones[n] == m);
    assert(w.milestones_ok()) by {
        assert(forall|i: int|
            0 <= i < n ==> (#[trigger] v.milestones[i]).id@ != m.id@);
        assert forall|i: int, j: int|
            0 <= i < j < w.milestones.len() implies !((
        #[trigger] w.milestones[i]).project_id@ == (#[trigger] w.milestones[j]).project_id@
            && w.milestones[i].number == w.milestones[j].number) by {
            if j == n && w.milestones[i].project_id@ == m.project_id@ && w.milestones[i].number
                == m.number {
                assert(milestone_numbered(m.project_id@, m.number as int)(v.milestones[i]));
            }
        }
    }
    assert(w.milestone_resources_ok()) by {
        assert forall|i: int| 0 <= i < w.milestone_resources.len() implies milestone_exists(
            w.milestones,
            (#[trigger] w.milestone_resources[i]).milestone_id@,
        ) && person_exists(w.people, w.milestone_resources[i].person_email@) by {
            lemma_has_row_push(
                v.milestones,
                m,
                milestone_with(v.milestone_resources[i].milestone_id@),
            );
        }
    }
    assert(w.milestone_notes_ok()) by {
        assert forall|i: int| 0 <= i < w.milestone_notes.len() implies milestone_exists(
            w.milestones,
            (#[trigger] w.milestone_notes[i]).milestone_id@,
        ) by {
            lemma_has_row_push(
                v.milestones,
                m,
                milestone_with(v.milestone_notes[i].milestone_id@),
            );
        }
    }
    assert(w.people_ok());
    assert(w.teams_ok());
    assert(w.members_ok());
    assert(w.projects_ok());
    assert(w.stakeholders_ok());
    assert(w.project_resources_ok());
    assert(w.project_notes_ok());
    assert(w.stakeholder_notes_ok());
}

/// Replacing one milestone's mutable columns keeps the store invariant
/// and is exactly the mapped table of `updated_milestone`.
proof fn lemma_after_milestone_update(v: StoreView, m: Milestone, stamp: i64, idx: int, w: StoreView)
    requires
        v.wf(),
        0 <= idx < v.milestones.len(),
        v.milestones[idx].id@ == m.id@,
        !has_row(v.milestones, other_with_number(m.id@, v.milestones[idx].project_id@, m.number as int)),
        opt_person_ref(v.people, m.technical_lead),
        w == (StoreView {
            milestones: v.milestones.update(idx, patched_milestone(v.milestones[idx], m, stamp)),
            ..v
        }),
    ensures
        w.wf(),
        w == (StoreView {
            milestones: v.milestones.map_values(
                |q: Milestone|
                    if q.id@ == m.id@ {
                        patched_milestone(q, m, stamp)
                    } else {
                        q
                    },
            ),
            ..v
        }),
{
    let mapped = v.milestones.map_values(
        |q: Milestone|
            if q.id@ == m.id@ {
                patched_milestone(q, m, stamp)
            } else {
                q
            },
    );
    assert(w.milestones =~= mapped) by {
        assert forall|i: int| 0 <= i < v.milestones.len() implies w.milestones[i] == mapped[i] by {
            if i != idx {
                assert(v.milestones[i].id@ != m.id@);
            }
        }
    }
    assert(forall|i: int|
        0 <= i < w.milestones.len() ==> (#[trigger] w.milestones[i]).id@ == v.milestones[i].id@
            && w.milestones[i].project_id@ == v.milestones[i].project_id@);
    assert forall|e: Seq<char>| true implies milestone_exists(w.milestones, e) == milestone_exists(
        v.milestones,
        e,
    ) by {
        lemma_has_row_same(v.milestones, w.milestones, milestone_with(e));
    }
    assert(w.milestones_ok()) by {
        assert forall|i: int, j: int|
            0 <= i < j < w.milestones.len() implies !((
        #[trigger] w.milestones[i]).project_id@ == (#[trigger] w.milestones[j]).project_id@
            && w.milestones[i].number == w.milestones[j].number) by {
            if i == idx && w.milestones[j].project_id@ == v.milestones[idx].project_id@
                && w.milestones[j].number == m.number {
                assert(other_with_number(m.id@, v.milestones[idx].project_id@, m.number as int)(
                    v.milestones[j],
                ));
            }
            if j == idx && w.milestones[i].project_id@ == v.milestones[idx].project_id@
                && w.milestones[i].number == m.number {
                assert(other_with_number(m.id@, v.milestones[idx].project_id@, m.number as int)(
                    v.milestones[i],
                ));
            }
        }
        assert forall|i: int| 0 <= i < w.milestones.len() implies {
            let q = #[trigger] w.milestones[i];
            project_exists(w.projects, q.project_id@) && opt_person_ref(
                w.people,
                q.technical_lead,
            )
        } by {
            if i != idx {
                assert(w.milestones[i] == v.milestones[i]);
            }
        }
    }
    assert(w.milestone_resources_ok());
    assert(w.milestone_notes_ok());
    assert(w.people_ok());
    assert(w.teams_ok());
    assert(w.members_ok());
    assert(w.projects_ok());
    assert(w.stakeholders_ok());
    assert(w.project_resources_ok());
    assert(w.project_notes_ok());
    assert(w.stakeholder_notes_ok());
}

/// Removing a milestone with its notes and resources keeps the invariant.
proof fn lemma_wf_after_milestone_delete(v: StoreView, id: Seq<char>, w: StoreView)
    requires
        v.wf(),
        w == (StoreView {
            milestones: v.milestones.filter(milestone_not(id)),
            milestone_notes: v.milestone_notes.filter(mnote_not_of(id)),
            milestone_resources: v.milestone_resources.filter(mres_not_of(id)),
            ..v
        }),
    ensures
        w.wf(),
{
    lemma_filter_membership(v.milestones, milestone_not(id));
    lemma_filter_membership(v.milestone_notes, mnote_not_of(id));
    lemma_filter_membership(v.milestone_resources, mres_not_of(id));
    assert(w.milestones_ok()) by {
        lemma_filter_pairwise(
            v.milestones,
            milestone_not(id),
            |a: Milestone, b: Milestone|
                a.id@ != b.id@ && !(a.project_id@ == b.project_id@ && a.number == b.number),
        );
        assert forall|i: int| 0 <= i < w.milestones.len() implies {
            let q = #[trigger] w.milestones[i];
            project_exists(w.projects, q.project_id@) && opt_person_ref(
                w.people,
                q.technical_lead,
            )
        } by {
            let k = choose|k: int| 0 <= k < v.milestones.len() && v.milestones[k] == w.milestones[i];
        }
    }
    assert(w.milestone_notes_ok()) by {
        lemma_filter_pairwise(
            v.milestone_notes,
            mnote_not_of(id),
            |a: MilestoneNote, b: MilestoneNote| a.id@ != b.id@,
        );
        assert forall|i: int| 0 <= i < w.milestone_notes.len() implies milestone_exists(
            w.milestones,
            (#[trigger] w.milestone_notes[i]).milestone_id@,
        ) by {
            let q = w.milestone_notes[i];
            let k = choose|k: int| 0 <= k < v.milestone_notes.len() && v.milestone_notes[k] == q;
            assert(q.milestone_id@ != id);
            assert(milestone_exists(v.milestones, q.milestone_id@));
            let j = choose|j: int|
                0 <= j < v.milestones.len() && milestone_with(q.milestone_id@)(
                    #[trigger] v.milestones[j],
                );
            lemma_has_row_filter(v.milestones, milestone_not(id), milestone_with(q.milestone_id@));
        }
    }
    assert(w.milestone_resources_ok()) by {
        lemma_filter_pairwise(
            v.milestone_resources,
            mres_not_of(id),
            |a: MilestoneResource, b: MilestoneResource|
                !(a.milestone_id@ == b.milestone_id@ && a.person_email@ == b.person_email@),
        );
        assert forall|i: int| 0 <= i < w.milestone_resources.len() implies milestone_exists(
            w.milestones,
            (#[trigger] w.milestone_resources[i]).milestone_id@,
        ) && person_exists(w.people, w.milestone_resources[i].person_email@) by {
            let q = w.milestone_resources[i];
            let k = choose|k: int|
                0 <= k < v.milestone_resources.len() && v.milestone_resources[k] == q;
            assert(q.milestone_id@ != id);
            assert(milestone_exists(v.milestones, q.milestone_id@));
            let j = choose|j: int|
                0 <= j < v.milestones.len() && milestone_with(q.milestone_id@)(
                    #[trigger] v.milestones[j],
                );
            lemma_has_row_filter(v.milestones, milestone_not(id), milestone_with(q.milestone_id@));
        }
    }
    assert(w.people_ok());
    assert(w.teams_ok());
    assert(w.members_ok());
    assert(w.projects_ok());
    assert(w.stakeholders_ok());
    assert(w.project_resources_ok());
    assert(w.project_notes_ok());
    assert(w.stakeholder_notes_ok());
}

/// Insert a milestone into a number-sorted vector, keeping it sorted.
pub(crate) fn insert_milestone_sorted(v: &mut Vec<Milestone>, x: Milestone)
    requires
        sorted_by(old(v)@, milestone_number_le()),
    ensures
        final(v)@.to_multiset() == old(v)@.to_multiset().insert(x),
        sorted_by(final(v)@, milestone_number_le()),
{
    let mut j: usize = 0;
    let mut found: bool = false;
    while !found && j < v.len()
        invariant
            j <= v@.len(),
            sorted_by(v@, milestone_number_le()),
            forall|k: int| 0 <= k < j ==> milestone_number_le()(#[trigger] v@[k], x),
            found ==> j < v@.len() && milestone_number_le()(x, v@[j as int]),
        decreases v@.len() - j + (if found { 0int } else { 1int }),
    {
        let ghost leq = milestone_number_le();
        if x.number <= v[j].number {
            found = true;
            proof {
                assert(leq(x, v@[j as int]));
            }
        } else {
            proof {
                assert(leq(v@[j as int], x));
            }
            j = j + 1;
        }
    }
    proof {
        let leq = milestone_number_le();
        if (j as int) < v@.len() {
            assert forall|k: int| j <= k < v@.len() implies leq(x, #[trigger] v@[k]) by {
                if k > j {
                    assert(leq(v@[j as int], v@[k]));
                }
            }
        }
        crate::seqkit::lemma_sorted_insert(v@, j as int, x, leq);
        crate::seqkit::lemma_insert_to_multiset(v@, j as int, x);
    }
    v.insert(j, x);
}

} // verus!
