//! Free-text notes owned by projects, milestones and stakeholder links:
//! independent timestamped records, listed newest first, removed with
//! their parent.

use vstd::prelude::*;
use vstd::relations::sorted_by;
use crate::err::RepoError;
use crate::model::{MilestoneNote, ProjectNote, StakeholderNote};
use crate::seqkit::{
    lemma_filter_take_step, lemma_filter_membership, lemma_filter_pairwise,
};
use crate::store::{
    has_row, milestone_exists, milestone_note_of, milestone_note_with, project_exists,
    project_note_of, project_note_with, stakeholder_exists, stakeholder_note_of,
    stakeholder_note_with, Store, StoreView,
};
use crate::strkit::str_eq;
use crate::utils::now_millis;

verus! {

/// Newest-first order on project notes.
pub open spec fn pnote_newest_first() -> spec_fn(ProjectNote, ProjectNote) -> bool {
    |a: ProjectNote, b: ProjectNote| a.created_at >= b.created_at
}

/// Newest-first order on milestone notes.
pub open spec fn mnote_newest_first() -> spec_fn(MilestoneNote, MilestoneNote) -> bool {
    |a: MilestoneNote, b: MilestoneNote| a.created_at >= b.created_at
}

/// Newest-first order on stakeholder notes.
pub open spec fn snote_newest_first() -> spec_fn(StakeholderNote, StakeholderNote) -> bool {
    |a: StakeholderNote, b: StakeholderNote| a.created_at >= b.created_at
}

/// Keeps every project note but the one with this identifier.
pub open spec fn pnote_not(id: Seq<char>) -> spec_fn(ProjectNote) -> bool {
    |n: ProjectNote| n.id@ != id
}

/// Keeps every milestone note but the one with this identifier.
pub open spec fn mnote_not(id: Seq<char>) -> spec_fn(MilestoneNote) -> bool {
    |n: MilestoneNote| n.id@ != id
}

/// Keeps every stakeholder note but the one with this identifier.
pub open spec fn snote_not(id: Seq<char>) -> spec_fn(StakeholderNote) -> bool {
    |n: StakeholderNote| n.id@ != id
}

/// A project note as an update leaves it: title and body from the given
/// value, identity, owner and creation time kept, update time stamped.
pub open spec fn patched_pnote(prev: ProjectNote, n: ProjectNote, stamp: i64) -> ProjectNote {
    ProjectNote {
        id: prev.id,
        project_id: prev.project_id,
        title: n.title,
        body: n.body,
        created_at: prev.created_at,
        updated_at: if stamp >= prev.updated_at {
            stamp
        } else {
            prev.updated_at
        },
    }
}

/// A milestone note as an update leaves it.
pub open spec fn patched_mnote(prev: MilestoneNote, n: MilestoneNote, stamp: i64) -> MilestoneNote {
    MilestoneNote {
        id: prev.id,
        milestone_id: prev.milestone_id,
        title: n.title,
        body: n.body,
        created_at: prev.created_at,
        updated_at: if stamp >= prev.updated_at {
            stamp
        } else {
            prev.updated_at
        },
    }
}

/// A stakeholder note as an update leaves it.
pub open spec fn patched_snote(prev: StakeholderNote, n: StakeholderNote, stamp: i64) -> StakeholderNote {
    StakeholderNote {
        id: prev.id,
        project_id: prev.project_id,
        stakeholder_email: prev.stakeholder_email,
        title: n.title,
        body: n.body,
        created_at: prev.created_at,
        updated_at: if stamp >= prev.updated_at {
            stamp
        } else {
            prev.updated_at
        },
    }
}

impl StoreView {
    /// Adding a project note: a duplicate identifier is a conflict and the
    /// project must exist.
    pub open spec fn added_project_note(self, n: ProjectNote) -> (StoreView, Result<(), RepoError>) {
        if has_row(self.project_notes, project_note_with(n.id@)) {
            (self, Result::Err(RepoError::Conflict))
        } else if !project_exists(self.projects, n.project_id@) {
            (self, Result::Err(RepoError::InvalidReference))
        } else {
            (StoreView { project_notes: self.project_notes.push(n), ..self }, Result::Ok(()))
        }
    }

    /// Updating a project note: the row must exist; title and body are
    /// replaced and the update time stamped.
    pub open spec fn updated_project_note(self, n: ProjectNote, stamp: i64) -> (
        StoreView,
        Result<(), RepoError>,
    ) {
        if !has_row(self.project_notes, project_note_with(n.id@)) {
            (self, Result::Err(RepoError::NotFound))
        } else {
            (
                StoreView {
                    project_notes: self.project_notes.map_values(
                        |q: ProjectNote|
                            if q.id@ == n.id@ {
                                patched_pnote(q, n, stamp)
                            } else {
                                q
                            },
                    ),
                    ..self
                },
                Result::Ok(()),
            )
        }
    }

    /// Deleting a project note; nothing depends on it.
    pub open spec fn deleted_project_note(self, id: Seq<char>) -> (StoreView, Result<(), RepoError>) {
        if !has_row(self.project_notes, project_note_with(id)) {
            (self, Result::Err(RepoError::NotFound))
        } else {
            (
                StoreView { project_notes: self.project_notes.filter(pnote_not(id)), ..self },
                Result::Ok(()),
            )
        }
    }

    /// Adding a milestone note: a duplicate identifier is a conflict and
    /// the milestone must exist.
    pub open spec fn added_milestone_note(self, n: MilestoneNote) -> (StoreView, Result<(), RepoError>) {
        if has_row(self.milestone_notes, milestone_note_with(n.id@)) {
            (self, Result::Err(RepoError::Conflict))
        } else if !milestone_exists(self.milestones, n.milestone_id@) {
            (self, Result::Err(RepoError::InvalidReference))
        } else {
            (StoreView { milestone_notes: self.milestone_notes.push(n), ..self }, Result::Ok(()))
        }
    }

    /// Updating a milestone note: the row must exist.
    pub open spec fn updated_milestone_note(self, n: MilestoneNote, stamp: i64) -> (
        StoreView,
        Result<(), RepoError>,
    ) {
        if !has_row(self.milestone_notes, milestone_note_with(n.id@)) {
            (self, Result::Err(RepoError::NotFound))
        } else {
            (
                StoreView {
                    milestone_notes: self.milestone_notes.map_values(
                        |q: MilestoneNote|
                            if q.id@ == n.id@ {
                                patched_mnote(q, n, stamp)
                            } else {
                                q
                            },
                    ),
                    ..self
                },
                Result::Ok(()),
            )
        }
    }

    /// Deleting a milestone note; nothing depends on it.
    pub open spec fn deleted_milestone_note(self, id: Seq<char>) -> (StoreView, Result<(), RepoError>) {
        if !has_row(self.milestone_notes, milestone_note_with(id)) {
            (self, Result::Err(RepoError::NotFound))
        } else {
            (
                StoreView { milestone_notes: self.milestone_notes.filter(mnote_not(id)), ..self },
                Result::Ok(()),
            )
        }
    }

    /// Adding a stakeholder note: a duplicate identifier is a conflict and
    /// the stakeholder link must exist.
    pub open spec fn added_stakeholder_note(self, n: StakeholderNote) -> (StoreView, Result<(), RepoError>) {
        if has_row(self.stakeholder_notes, stakeholder_note_with(n.id@)) {
            (self, Result::Err(RepoError::Conflict))
        } else if !stakeholder_exists(self.stakeholders, n.project_id@, n.stakeholder_email@) {
            (self, Result::Err(RepoError::InvalidReference))
        } else {
            (
                StoreView { stakeholder_notes: self.stakeholder_notes.push(n), ..self },
                Result::Ok(()),
            )
        }
    }

    /// Updating a stakeholder note: the row must exist.
    pub open spec fn updated_stakeholder_note(self, n: StakeholderNote, stamp: i64) -> (
        StoreView,
        Result<(), RepoError>,
    ) {
        if !has_row(self.stakeholder_notes, stakeholder_note_with(n.id@)) {
            (self, Result::Err(RepoError::NotFound))
        } else {
            (
                StoreView {
                    stakeholder_notes: self.stakeholder_notes.map_values(
                        |q: StakeholderNote|
                            if q.id@ == n.id@ {
                                patched_snote(q, n, stamp)
                            } else {
                                q
                            },
                    ),
                    ..self
                },
                Result::Ok(()),
            )
        }
    }

    /// Deleting a stakeholder note; nothing depends on it.
    pub open spec fn deleted_stakeholder_note(self, id: Seq<char>) -> (StoreView, Result<(), RepoError>) {
        if !has_row(self.stakeholder_notes, stakeholder_note_with(id)) {
            (self, Result::Err(RepoError::NotFound))
        } else {
            (
                StoreView {
                    stakeholder_notes: self.stakeholder_notes.filter(snote_not(id)),
                    ..self
                },
                Result::Ok(()),
            )
        }
    }
}

impl Store {
    /// The index of the project note with this identifier, if any.
    fn find_pnote_idx(&self, id: &str) -> (r: Option<usize>)
        ensures
            match r {
                Option::Some(i) => i < self@.project_notes.len()
                    && self@.project_notes[i as int].id@ == id@,
                Option::None => !has_row(self@.project_notes, project_note_with(id@)),
            },
    {
        let mut i: usize = 0;
        while i < self.project_notes.len()
            invariant
                i <= self@.project_notes.len(),
                forall|k: int| 0 <= k < i ==> (#[trigger] self@.project_notes[k]).id@ != id@,
            decreases self@.project_notes.len() - i,
        {
            if str_eq(self.project_notes[i].id.as_str(), id) {
                return Option::Some(i);
            }
            i = i + 1;
        }
        proof {
            if has_row(self@.project_notes, project_note_with(id@)) {
                let k = choose|k: int|
                    0 <= k < self@.project_notes.len() && project_note_with(id@)(
                        #[trigger] self@.project_notes[k],
                    );
            }
        }
        Option::None
    }

    /// The index of the milestone note with this identifier, if any.
    fn find_mnote_idx(&self, id: &str) -> (r: Option<usize>)
        ensures
            match r {
                Option::Some(i) => i < self@.milestone_notes.len()
                    && self@.milestone_notes[i as int].id@ == id@,
                Option::None => !has_row(self@.milestone_notes, milestone_note_with(id@)),
            },
    {
        let mut i: usize = 0;
        while i < self.milestone_notes.len()
            invariant
                i <= self@.milestone_notes.len(),
                forall|k: int| 0 <= k < i ==> (#[trigger] self@.milestone_notes[k]).id@ != id@,
            decreases self@.milestone_notes.len() - i,
        {
            if str_eq(self.milestone_notes[i].id.as_str(), id) {
                return Option::Some(i);
            }
            i = i + 1;
        }
        proof {
            if has_row(self@.milestone_notes, milestone_note_with(id@)) {
                let k = choose|k: int|
                    0 <= k < self@.milestone_notes.len() && milestone_note_with(id@)(
                        #[trigger] self@.milestone_notes[k],
                    );
            }
        }
        Option::None
    }

    /// The index of the stakeholder note with this identifier, if any.
    fn find_snote_idx(&self, id: &str) -> (r: Option<usize>)
        ensures
            match r {
                Option::Some(i) => i < self@.stakeholder_notes.len()
                    && self@.stakeholder_notes[i as int].id@ == id@,
                Option::None => !has_row(self@.stakeholder_notes, stakeholder_note_with(id@)),
            },
    {
        let mut i: usize = 0;
        while i < self.stakeholder_notes.len()
            invariant
                i <= self@.stakeholder_notes.len(),
                forall|k: int| 0 <= k < i ==> (#[trigger] self@.stakeholder_notes[k]).id@ != id@,
            decreases self@.stakeholder_notes.len() - i,
        {
            if str_eq(self.stakeholder_notes[i].id.as_str(), id) {
                return Option::Some(i);
            }
            i = i + 1;
        }
        proof {
            if has_row(self@.stakeholder_notes, stakeholder_note_with(id@)) {
                let k = choose|k: int|
                    0 <= k < self@.stakeholder_notes.len() && stakeholder_note_with(id@)(
                        #[trigger] self@.stakeholder_notes[k],
                    );
            }
        }
        Option::None
    }

    /// Add a note to a project.
    pub fn add_project_note(&mut self, note: &ProjectNote) -> (r: Result<(), RepoError>)
        requires
            old(self)@.wf(),
        ensures
            final(self)@.wf(),
            (final(self)@, r) == old(self)@.added_project_note(*note),
    {
        let ghost v0 = self@;
        if let Option::Some(_) = self.find_pnote_idx(note.id.as_str()) {
            proof {
                assert(project_note_with(note.id@)(
                    v0.project_notes[choose|k: int|
                        0 <= k < v0.project_notes.len() && (#[trigger] v0.project_notes[k]).id@
                            == note.id@],
                ));
            }
            return Result::Err(RepoError::Conflict);
        }
        if let Option::None = self.find_project_idx(note.project_id.as_str()) {
            return Result::Err(RepoError::InvalidReference);
        }
        self.project_notes.push(note.clone());
        proof {
            lemma_wf_after_pnote_push(v0, *note);
        }
        Result::Ok(())
    }

    /// The notes of a project, newest first.
    pub fn get_project_notes(&self, project_id: &str) -> (r: Vec<ProjectNote>)
        ensures
            r@.to_multiset() == self@.project_notes.filter(
                project_note_of(project_id@),
            ).to_multiset(),
            sorted_by(r@, pnote_newest_first()),
    {
        let mut out: Vec<ProjectNote> = Vec::new();
        let mut i: usize = 0;
        proof {
            broadcast use vstd::seq_lib::group_to_multiset_ensures;

            reveal(Seq::filter);
            assert(self@.project_notes.take(0).filter(project_note_of(project_id@))
                =~= Seq::empty());
        }
        while i < self.project_notes.len()
            invariant
                i <= self@.project_notes.len(),
                out@.to_multiset() == self@.project_notes.take(i as int).filter(
                    project_note_of(project_id@),
                ).to_multiset(),
                sorted_by(out@, pnote_newest_first()),
            decreases self@.project_notes.len() - i,
        {
            let ghost q = project_note_of(project_id@);
            proof {
                lemma_filter_take_step(self@.project_notes, q, i as int);
            }
            if str_eq(self.project_notes[i].project_id.as_str(), project_id) {
                let row = self.project_notes[i].clone();
                proof {
                    assert(q(self@.project_notes[i as int]));
                }
                insert_pnote_sorted(&mut out, row);
                proof {
                    broadcast use vstd::seq_lib::group_to_multiset_ensures;

                    assert(self@.project_notes.take(i + 1).filter(q) == self@.project_notes.take(
                        i as int,
                    ).filter(q).push(self@.project_notes[i as int]));
                    assert(self@.project_notes.take(i as int).filter(q).push(
                        self@.project_notes[i as int],
                    ).to_multiset() =~= self@.project_notes.take(i as int).filter(
                        q,
                    ).to_multiset().insert(self@.project_notes[i as int]));
                }
            } else {
                proof {
                    assert(!q(self@.project_notes[i as int]));
                }
            }
            i = i + 1;
        }
        proof {
            assert(self@.project_notes.take(self@.project_notes.len() as int)
                =~= self@.project_notes);
        }
        out
    }

    /// Update a project note's title and body, re-stamping the update time.
    pub fn update_project_note(&mut self, note: &ProjectNote) -> (r: Result<(), RepoError>)
        requires
            old(self)@.wf(),
        ensures
            final(self)@.wf(),
            exists|stamp: i64| (final(self)@, r) == old(self)@.updated_project_note(*note, stamp),
    {
        let ghost v0 = self@;
        let idx = match self.find_pnote_idx(note.id.as_str()) {
            Option::Some(i) => i,
            Option::None => {
                proof {
                    assert((self@, Result::Err::<(), RepoError>(RepoError::NotFound))
                        == v0.updated_project_note(*note, 0));
                }
                return Result::Err(RepoError::NotFound);
            },
        };
        proof {
            assert(project_note_with(note.id@)(v0.project_notes[idx as int]));
        }
        let t = now_millis();
        let prev_updated = self.project_notes[idx].updated_at;
        let stamp: i64 = if t >= prev_updated {
            t
        } else {
            prev_updated
        };
        let row = ProjectNote {
            id: self.project_notes[idx].id.clone(),
            project_id: self.project_notes[idx].project_id.clone(),
            title: note.title.clone(),
            body: note.body.clone(),
            created_at: self.project_notes[idx].created_at,
            updated_at: stamp,
        };
        proof {
            assert(row == patched_pnote(v0.project_notes[idx as int], *note, t));
        }
        self.project_notes[idx] = row;
        proof {
            lemma_after_pnote_update(v0, *note, t, idx as int, self@);
            assert((self@, Result::Ok::<(), RepoError>(())) == v0.updated_project_note(*note, t));
        }
        Result::Ok(())
    }

    /// Delete a project note.
    pub fn delete_project_note(&mut self, id: &str) -> (r: Result<(), RepoError>)
        requires
            old(self)@.wf(),
        ensures
            final(self)@.wf(),
            (final(self)@, r) == old(self)@.deleted_project_note(id@),
    {
        let ghost v0 = self@;
        match self.find_pnote_idx(id) {
            Option::None => {
                return Result::Err(RepoError::NotFound);
            },
            Option::Some(i) => {
                proof {
                    assert(project_note_with(id@)(v0.project_notes[i as int]));
                }
            },
        }
        let mut kept: Vec<ProjectNote> = Vec::new();
        let mut i: usize = 0;
        proof {
            reveal(Seq::filter);
            assert(v0.project_notes.take(0).filter(pnote_not(id@)) =~= Seq::empty());
        }
        while i < self.project_notes.len()
            invariant
                i <= self@.project_notes.len(),
                self@ == v0,
                kept@ == v0.project_notes.take(i as int).filter(pnote_not(id@)),
            decreases self@.project_notes.len() - i,
        {
            let ghost keep = pnote_not(id@);
            proof {
                lemma_filter_take_step(v0.project_notes, keep, i as int);
            }
            if !str_eq(self.project_notes[i].id.as_str(), id) {
                proof {
                    assert(keep(v0.project_notes[i as int]));
                }
                kept.push(self.project_notes[i].clone());
            } else {
                proof {
                    assert(!keep(v0.project_notes[i as int]));
                }
            }
            i = i + 1;
        }
        proof {
            assert(v0.project_notes.take(v0.project_notes.len() as int) =~= v0.project_notes);
        }
        self.project_notes = kept;
        proof {
            lemma_wf_after_pnotes_filter(v0, pnote_not(id@), self@);
        }
        Result::Ok(())
    }

    /// Add a note to a milestone.
    pub fn add_milestone_note(&mut self, note: &MilestoneNote) -> (r: Result<(), RepoError>)
        requires
            old(self)@.wf(),
        ensures
            final(self)@.wf(),
            (final(self)@, r) == old(self)@.added_milestone_note(*note),
    {
        let ghost v0 = self@;
        if let Option::Some(_) = self.find_mnote_idx(note.id.as_str()) {
            proof {
                assert(milestone_note_with(note.id@)(
                    v0.milestone_notes[choose|k: int|
                        0 <= k < v0.milestone_notes.len() && (#[trigger] v0.milestone_notes[k]).id@
                            == note.id@],
                ));
            }
            return Result::Err(RepoError::Conflict);
        }
        if let Option::None = self.find_milestone_idx(note.milestone_id.as_str()) {
            return Result::Err(RepoError::InvalidReference);
        }
        self.milestone_notes.push(note.clone());
        proof {
            lemma_wf_after_mnote_push(v0, *note);
        }
        Result::Ok(())
    }

    /// The notes of a milestone, newest first.
    pub fn get_milestone_notes(&self, milestone_id: &str) -> (r: Vec<MilestoneNote>)
        ensures
            r@.to_multiset() == self@.milestone_notes.filter(
                milestone_note_of(milestone_id@),
            ).to_multiset(),
            sorted_by(r@, mnote_newest_first()),
    {
        let mut out: Vec<MilestoneNote> = Vec::new();
        let mut i: usize = 0;
        proof {
            broadcast use vstd::seq_lib::group_to_multiset_ensures;

            reveal(Seq::filter);
            assert(self@.milestone_notes.take(0).filter(milestone_note_of(milestone_id@))
                =~= Seq::empty());
        }
        while i < self.milestone_notes.len()
            invariant
                i <= self@.milestone_notes.len(),
                out@.to_multiset() == self@.milestone_notes.take(i as int).filter(
                    milestone_note_of(milestone_id@),
                ).to_multiset(),
                sorted_by(out@, mnote_newest_first()),
            decreases self@.milestone_notes.len() - i,
        {
            let ghost q = milestone_note_of(milestone_id@);
            proof {
                lemma_filter_take_step(self@.milestone_notes, q, i as int);
            }
            if str_eq(self.milestone_notes[i].milestone_id.as_str(), milestone_id) {
                let row = self.milestone_notes[i].clone();
                proof {
                    assert(q(self@.milestone_notes[i as int]));
                }
                insert_mnote_sorted(&mut out, row);
                proof {
                    broadcast use vstd::seq_lib::group_to_multiset_ensures;

                    assert(self@.milestone_notes.take(i + 1).filter(q)
                        == self@.milestone_notes.take(i as int).filter(q).push(
                        self@.milestone_notes[i as int],
                    ));
                    assert(self@.milestone_notes.take(i as int).filter(q).push(
                        self@.milestone_notes[i as int],
                    ).to_multiset() =~= self@.milestone_notes.take(i as int).filter(
                        q,
                    ).to_multiset().insert(self@.milestone_notes[i as int]));
                }
            } else {
                proof {
                    assert(!q(self@.milestone_notes[i as int]));
                }
            }
            i = i + 1;
        }
        proof {
            assert(self@.milestone_notes.take(self@.milestone_notes.len() as int)
                =~= self@.milestone_notes);
        }
        out
    }

    /// Update a milestone note's title and body, re-stamping the update time.
    pub fn update_milestone_note(&mut self, note: &MilestoneNote) -> (r: Result<(), RepoError>)
        requires
            old(self)@.wf(),
        ensures
            final(self)@.wf(),
            exists|stamp: i64| (final(self)@, r) == old(self)@.updated_milestone_note(
                *note,
                stamp,
            ),
    {
        let ghost v0 = self@;
        let idx = match self.find_mnote_idx(note.id.as_str()) {
            Option::Some(i) => i,
            Option::None => {
                proof {
                    assert((self@, Result::Err::<(), RepoError>(RepoError::NotFound))
                        == v0.updated_milestone_note(*note, 0));
                }
                return Result::Err(RepoError::NotFound);
            },
        };
        proof {
            assert(milestone_note_with(note.id@)(v0.milestone_notes[idx as int]));
        }
        let t = now_millis();
        let prev_updated = self.milestone_notes[idx].updated_at;
        let stamp: i64 = if t >= prev_updated {
            t
        } else {
            prev_updated
        };
        let row = MilestoneNote {
            id: self.milestone_notes[idx].id.clone(),
            milestone_id: self.milestone_notes[idx].milestone_id.clone(),
            title: note.title.clone(),
            body: note.body.clone(),
            created_at: self.milestone_notes[idx].created_at,
            updated_at: stamp,
        };
        proof {
            assert(row == patched_mnote(v0.milestone_notes[idx as int], *note, t));
        }
        self.milestone_notes[idx] = row;
        proof {
            lemma_after_mnote_update(v0, *note, t, idx as int, self@);
            assert((self@, Result::Ok::<(), RepoError>(())) == v0.updated_milestone_note(
                *note,
                t,
            ));
        }
        Result::Ok(())
    }

    /// Delete a milestone note.
    pub fn delete_milestone_note(&mut self, id: &str) -> (r: Result<(), RepoError>)
        requires
            old(self)@.wf(),
        ensures
            final(self)@.wf(),
            (final(self)@, r) == old(self)@.deleted_milestone_note(id@),
    {
        let ghost v0 = self@;
        match self.find_mnote_idx(id) {
            Option::None => {
                return Result::Err(RepoError::NotFound);
            },
            Option::Some(i) => {
                proof {
                    assert(milestone_note_with(id@)(v0.milestone_notes[i as int]));
                }
            },
        }
        let mut kept: Vec<MilestoneNote> = Vec::new();
        let mut i: usize = 0;
        proof {
            reveal(Seq::filter);
            assert(v0.milestone_notes.take(0).filter(mnote_not(id@)) =~= Seq::empty());
        }
        while i < self.milestone_notes.len()
            invariant
                i <= self@.milestone_notes.len(),
                self@ == v0,
                kept@ == v0.milestone_notes.take(i as int).filter(mnote_not(id@)),
            decreases self@.milestone_notes.len() - i,
        {
            let ghost keep = mnote_not(id@);
            proof {
                lemma_filter_take_step(v0.milestone_notes, keep, i as int);
            }
            if !str_eq(self.milestone_notes[i].id.as_str(), id) {
                proof {
                    assert(keep(v0.milestone_notes[i as int]));
                }
                kept.push(self.milestone_notes[i].clone());
            } else {
                proof {
                    assert(!keep(v0.milestone_notes[i as int]));
                }
            }
            i = i + 1;
        }
        proof {
            assert(v0.milestone_notes.take(v0.milestone_notes.len() as int)
                =~= v0.milestone_notes);
        }
        self.milestone_notes = kept;
        proof {
            lemma_wf_after_mnotes_filter(v0, mnote_not(id@), self@);
        }
        Result::Ok(())
    }

    /// Add a note to a stakeholder link.
    pub fn add_stakeholder_note(&mut self, note: &StakeholderNote) -> (r: Result<(), RepoError>)
        requires
            old(self)@.wf(),
        ensures
            final(self)@.wf(),
            (final(self)@, r) == old(self)@.added_stakeholder_note(*note),
    {
        let ghost v0 = self@;
        if let Option::Some(_) = self.find_snote_idx(note.id.as_str()) {
            proof {
                assert(stakeholder_note_with(note.id@)(
                    v0.stakeholder_notes[choose|k: int|
                        0 <= k < v0.stakeholder_notes.len() && (
                        #[trigger] v0.stakeholder_notes[k]).id@ == note.id@],
                ));
            }
            return Result::Err(RepoError::Conflict);
        }
        if !self.stakeholder_pair_exists(
            note.project_id.as_str(),
            note.stakeholder_email.as_str(),
        ) {
            return Result::Err(RepoError::InvalidReference);
        }
        self.stakeholder_notes.push(note.clone());
        proof {
            lemma_wf_after_snote_push(v0, *note);
        }
        Result::Ok(())
    }

    /// Is there a stakeholder link with this composite key?
    fn stakeholder_pair_exists(&self, pid: &str, email: &str) -> (r: bool)
        ensures
            r == stakeholder_exists(self@.stakeholders, pid@, email@),
    {
        let mut i: usize = 0;
        while i < self.stakeholders.len()
            invariant
                i <= self@.stakeholders.len(),
                forall|k: int|
                    0 <= k < i ==> !((#[trigger] self@.stakeholders[k]).project_id@ == pid@
                        && self@.stakeholders[k].stakeholder_email@ == email@),
            decreases self@.stakeholders.len() - i,
        {
            if str_eq(self.stakeholders[i].project_id.as_str(), pid) && str_eq(
                self.stakeholders[i].stakeholder_email.as_str(),
                email,
            ) {
                proof {
                    assert(crate::store::stakeholder_with(pid@, email@)(
                        self@.stakeholders[i as int],
                    ));
                }
                return true;
            }
            i = i + 1;
        }
        proof {
            if stakeholder_exists(self@.stakeholders, pid@, email@) {
                let k = choose|k: int|
                    0 <= k < self@.stakeholders.len() && crate::store::stakeholder_with(
                        pid@,
                        email@,
                    )(#[trigger] self@.stakeholders[k]);
            }
        }
        false
    }

    /// The notes of a stakeholder link, newest first.
    pub fn get_stakeholder_notes(&self, project_id: &str, stakeholder_email: &str) -> (r: Vec<
        StakeholderNote,
    >)
        ensures
            r@.to_multiset() == self@.stakeholder_notes.filter(
                stakeholder_note_of(project_id@, stakeholder_email@),
            ).to_multiset(),
            sorted_by(r@, snote_newest_first()),
    {
        let mut out: Vec<StakeholderNote> = Vec::new();
        let mut i: usize = 0;
        proof {
            broadcast use vstd::seq_lib::group_to_multiset_ensures;

            reveal(Seq::filter);
            assert(self@.stakeholder_notes.take(0).filter(
                stakeholder_note_of(project_id@, stakeholder_email@),
            ) =~= Seq::empty());
        }
        while i < self.stakeholder_notes.len()
            invariant
                i <= self@.stakeholder_notes.len(),
                out@.to_multiset() == self@.stakeholder_notes.take(i as int).filter(
                    stakeholder_note_of(project_id@, stakeholder_email@),
                ).to_multiset(),
                sorted_by(out@, snote_newest_first()),
            decreases self@.stakeholder_notes.len() - i,
        {
            let ghost q = stakeholder_note_of(project_id@, stakeholder_email@);
            proof {
                lemma_filter_take_step(self@.stakeholder_notes, q, i as int);
            }
            if str_eq(self.stakeholder_notes[i].project_id.as_str(), project_id) && str_eq(
                self.stakeholder_notes[i].stakeholder_email.as_str(),
                stakeholder_email,
            ) {
                let row = self.stakeholder_notes[i].clone();
                proof {
                    assert(q(self@.stakeholder_notes[i as int]));
                }
                insert_snote_sorted(&mut out, row);
                proof {
                    broadcast use vstd::seq_lib::group_to_multiset_ensures;

                    assert(self@.stakeholder_notes.take(i + 1).filter(q)
                        == self@.stakeholder_notes.take(i as int).filter(q).push(
                        self@.stakeholder_notes[i as int],
                    ));
                    assert(self@.stakeholder_notes.take(i as int).filter(q).push(
                        self@.stakeholder_notes[i as int],
                    ).to_multiset() =~= self@.stakeholder_notes.take(i as int).filter(
                        q,
                    ).to_multiset().insert(self@.stakeholder_notes[i as int]));
                }
            } else {
                proof {
                    assert(!q(self@.stakeholder_notes[i as int]));
                }
            }
            i = i + 1;
        }
        proof {
            assert(self@.stakeholder_notes.take(self@.stakeholder_notes.len() as int)
                =~= self@.stakeholder_notes);
        }
        out
    }

    /// Update a stakeholder note's title and body, re-stamping the update
    /// time.
    pub fn update_stakeholder_note(&mut self, note: &StakeholderNote) -> (r: Result<(), RepoError>)
        requires
            old(self)@.wf(),
        ensures
            final(self)@.wf(),
            exists|stamp: i64| (final(self)@, r) == old(self)@.updated_stakeholder_note(
                *note,
                stamp,
            ),
    {
        let ghost v0 = self@;
        let idx = match self.find_snote_idx(note.id.as_str()) {
            Option::Some(i) => i,
            Option::None => {
                proof {
                    assert((self@, Result::Err::<(), RepoError>(RepoError::NotFound))
                        == v0.updated_stakeholder_note(*note, 0));
                }
                return Result::Err(RepoError::NotFound);
            },
        };
        proof {
            assert(stakeholder_note_with(note.id@)(v0.stakeholder_notes[idx as int]));
        }
        let t = now_millis();
        let prev_updated = self.stakeholder_notes[idx].updated_at;
        let stamp: i64 = if t >= prev_updated {
            t
        } else {
            prev_updated
        };
        let row = StakeholderNote {
            id: self.stakeholder_notes[idx].id.clone(),
            project_id: self.stakeholder_notes[idx].project_id.clone(),
            stakeholder_email: self.stakeholder_notes[idx].stakeholder_email.clone(),
            title: note.title.clone(),
            body: note.body.clone(),
            created_at: self.stakeholder_notes[idx].created_at,
            updated_at: stamp,
        };
        proof {
            assert(row == patched_snote(v0.stakeholder_notes[idx as int], *note, t));
        }
        self.stakeholder_notes[idx] = row;
        proof {
            lemma_after_snote_update(v0, *note, t, idx as int, self@);
            assert((self@, Result::Ok::<(), RepoError>(())) == v0.updated_stakeholder_note(
                *note,
                t,
            ));
        }
        Result::Ok(())
    }

    /// Delete a stakeholder note.
    pub fn delete_stakeholder_note(&mut self, id: &str) -> (r: Result<(), RepoError>)
        requires
            old(self)@.wf(),
        ensures
            final(self)@.wf(),
            (final(self)@, r) == old(self)@.deleted_stakeholder_note(id@),
    {
        let ghost v0 = self@;
        match self.find_snote_idx(id) {
            Option::None => {
                return Result::Err(RepoError::NotFound);
            },
            Option::Some(i) => {
                proof {
                    assert(stakeholder_note_with(id@)(v0.stakeholder_notes[i as int]));
                }
            },
        }
        let mut kept: Vec<StakeholderNote> = Vec::new();
        let mut i: usize = 0;
        proof {
            reveal(Seq::filter);
            assert(v0.stakeholder_notes.take(0).filter(snote_not(id@)) =~= Seq::empty());
        }
        while i < self.stakeholder_notes.len()
            invariant
                i <= self@.stakeholder_notes.len(),
                self@ == v0,
                kept@ == v0.stakeholder_notes.take(i as int).filter(snote_not(id@)),
            decreases self@.stakeholder_notes.len() - i,
        {
            let ghost keep = snote_not(id@);
            proof {
                lemma_filter_take_step(v0.stakeholder_notes, keep, i as int);
            }
            if !str_eq(self.stakeholder_notes[i].id.as_str(), id) {
                proof {
                    assert(keep(v0.stakeholder_notes[i as int]));
                }
                kept.push(self.stakeholder_notes[i].clone());
            } else {
                proof {
                    assert(!keep(v0.stakeholder_notes[i as int]));
                }
            }
            i = i + 1;
        }
        proof {
            assert(v0.stakeholder_notes.take(v0.stakeholder_notes.len() as int)
                =~= v0.stakeholder_notes);
        }
        self.stakeholder_notes = kept;
        proof {
            lemma_wf_after_snotes_filter(v0, snote_not(id@), self@);
        }
        Result::Ok(())
    }
}

/// Pushing a fresh project note whose project exists keeps the invariant.
proof fn lemma_wf_after_pnote_push(v: StoreView, n: ProjectNote)
    requires
        v.wf(),
        !has_row(v.project_notes, project_note_with(n.id@)),
        project_exists(v.projects, n.project_id@),
    ensures
        (StoreView { project_notes: v.project_notes.push(n), ..v }).wf(),
{
    let w = StoreView { project_notes: v.project_notes.push(n), ..v };
    let m = v.project_notes.len() as int;
    assert(forall|i: int| 0 <= i < m ==> #[trigger] w.project_notes[i] == v.project_notes[i]);
    assert(w.project_notes[m] == n);
    assert(w.project_notes_ok()) by {
        assert forall|i: int, j: int|
            0 <= i < j < w.project_notes.len() implies (#[trigger] w.project_notes[i]).id@ != (
        #[trigger] w.project_notes[j]).id@ by {
            if j == m && w.project_notes[i].id@ == n.id@ {
                assert(project_note_with(n.id@)(v.project_notes[i]));
            }
        }
    }
    assert(w.people_ok());
    assert(w.teams_ok());
    assert(w.members_ok());
    assert(w.projects_ok());
    assert(w.milestones_ok());
    assert(w.stakeholders_ok());
    assert(w.project_resources_ok());
    assert(w.milestone_resources_ok());
    assert(w.milestone_notes_ok());
    assert(w.stakeholder_notes_ok());
}

/// Replacing one project note's text keeps the invariant and matches the
/// mapped table of `updated_project_note`.
proof fn lemma_after_pnote_update(v: StoreView, n: ProjectNote, stamp: i64, idx: int, w: StoreView)
    requires
        v.wf(),
        0 <= idx < v.project_notes.len(),
        v.project_notes[idx].id@ == n.id@,
        w == (StoreView {
            project_notes: v.project_notes.update(idx, patched_pnote(v.project_notes[idx], n, stamp)),
            ..v
        }),
    ensures
        w.wf(),
        (w, Result::Ok::<(), RepoError>(())) == v.updated_project_note(n, stamp),
{
    let mapped = v.project_notes.map_values(
        |q: ProjectNote|
            if q.id@ == n.id@ {
                patched_pnote(q, n, stamp)
            } else {
                q
            },
    );
    assert(w.project_notes =~= mapped) by {
        assert forall|i: int| 0 <= i < v.project_notes.len() implies w.project_notes[i]
            == mapped[i] by {
            if i != idx {
                assert(v.project_notes[i].id@ != n.id@);
            }
        }
    }
    assert(forall|i: int|
        0 <= i < w.project_notes.len() ==> (#[trigger] w.project_notes[i]).id@
            == v.project_notes[i].id@ && w.project_notes[i].project_id@
            == v.project_notes[i].project_id@);
    assert(w.project_notes_ok());
    assert(w.people_ok());
    assert(w.teams_ok());
    assert(w.members_ok());
    assert(w.projects_ok());
    assert(w.milestones_ok());
    assert(w.stakeholders_ok());
    assert(w.project_resources_ok());
    assert(w.milestone_resources_ok());
    assert(w.milestone_notes_ok());
    assert(w.stakeholder_notes_ok());
    let sv = v.updated_project_note(n, stamp).0;
    assert(sv.project_notes =~= mapped) by {
        assert(forall|i: int|
            0 <= i < v.project_notes.len() ==> #[trigger] sv.project_notes[i] == mapped[i]);
    }
    assert(sv == w);
}

/// Dropping project notes by any predicate keeps the invariant: nothing
/// references them.
proof fn lemma_wf_after_pnotes_filter(v: StoreView, keep: spec_fn(ProjectNote) -> bool, w: StoreView)
    requires
        v.wf(),
        w == (StoreView { project_notes: v.project_notes.filter(keep), ..v }),
    ensures
        w.wf(),
{
    lemma_filter_membership(v.project_notes, keep);
    assert(w.project_notes_ok()) by {
        lemma_filter_pairwise(
            v.project_notes,
            keep,
            |a: ProjectNote, b: ProjectNote| a.id@ != b.id@,
        );
        assert forall|i: int| 0 <= i < w.project_notes.len() implies project_exists(
            w.projects,
            (#[trigger] w.project_notes[i]).project_id@,
        ) by {
            let k = choose|k: int|
                0 <= k < v.project_notes.len() && v.project_notes[k] == w.project_notes[i];
        }
    }
    assert(w.people_ok());
    assert(w.teams_ok());
    assert(w.members_ok());
    assert(w.projects_ok());
    assert(w.milestones_ok());
    assert(w.stakeholders_ok());
    assert(w.project_resources_ok());
    assert(w.milestone_resources_ok());
    assert(w.milestone_notes_ok());
    assert(w.stakeholder_notes_ok());
}

/// Pushing a fresh milestone note whose milestone exists keeps the invariant.
proof fn lemma_wf_after_mnote_push(v: StoreView, n: MilestoneNote)
    requires
        v.wf(),
        !has_row(v.milestone_notes, milestone_note_with(n.id@)),
        milestone_exists(v.milestones, n.milestone_id@),
    ensures
        (StoreView { milestone_notes: v.milestone_notes.push(n), ..v }).wf(),
{
    let w = StoreView { milestone_notes: v.milestone_notes.push(n), ..v };
    let m = v.milestone_notes.len() as int;
    assert(forall|i: int| 0 <= i < m ==> #[trigger] w.milestone_notes[i] == v.milestone_notes[i]);
    assert(w.milestone_notes[m] == n);
    assert(w.milestone_notes_ok()) by {
        assert forall|i: int, j: int|
            0 <= i < j < w.milestone_notes.len() implies (#[trigger] w.milestone_notes[i]).id@
            != (#[trigger] w.milestone_notes[j]).id@ by {
            if j == m && w.milestone_notes[i].id@ == n.id@ {
                assert(milestone_note_with(n.id@)(v.milestone_notes[i]));
            }
        }
    }
    assert(w.people_ok());
    assert(w.teams_ok());
    assert(w.members_ok());
    assert(w.projects_ok());
    assert(w.milestones_ok());
    assert(w.stakeholders_ok());
    assert(w.project_resources_ok());
    assert(w.milestone_resources_ok());
    assert(w.project_notes_ok());
    assert(w.stakeholder_notes_ok());
}

/// Replacing one milestone note's text keeps the invariant and matches
/// the mapped table of `updated_milestone_note`.
proof fn lemma_after_mnote_update(v: StoreView, n: MilestoneNote, stamp: i64, idx: int, w: StoreView)
    requires
        v.wf(),
        0 <= idx < v.milestone_notes.len(),
        v.milestone_notes[idx].id@ == n.id@,
        w == (StoreView {
            milestone_notes: v.milestone_notes.update(
                idx,
                patched_mnote(v.milestone_notes[idx], n, stamp),
            ),
            ..v
        }),
    ensures
        w.wf(),
        (w, Result::Ok::<(), RepoError>(())) == v.updated_milestone_note(n, stamp),
{
    let mapped = v.milestone_notes.map_values(
        |q: MilestoneNote|
            if q.id@ == n.id@ {
                patched_mnote(q, n, stamp)
            } else {
                q
            },
    );
    assert(w.milestone_notes =~= mapped) by {
        assert forall|i: int| 0 <= i < v.milestone_notes.len() implies w.milestone_notes[i]
            == mapped[i] by {
            if i != idx {
                assert(v.milestone_notes[i].id@ != n.id@);
            }
        }
    }
    assert(forall|i: int|
        0 <= i < w.milestone_notes.len() ==> (#[trigger] w.milestone_notes[i]).id@
            == v.milestone_notes[i].id@ && w.milestone_notes[i].milestone_id@
            == v.milestone_notes[i].milestone_id@);
    assert(w.milestone_notes_ok());
    assert(w.people_ok());
    assert(w.teams_ok());
    assert(w.members_ok());
    assert(w.projects_ok());
    assert(w.milestones_ok());
    assert(w.stakeholders_ok());
    assert(w.project_resources_ok());
    assert(w.milestone_resources_ok());
    assert(w.project_notes_ok());
    assert(w.stakeholder_notes_ok());
    let sv = v.updated_milestone_note(n, stamp).0;
    assert(sv.milestone_notes =~= mapped) by {
        assert(forall|i: int|
            0 <= i < v.milestone_notes.len() ==> #[trigger] sv.milestone_notes[i] == mapped[i]);
    }
    assert(sv == w);
}

/// Dropping milestone notes by any predicate keeps the invariant.
proof fn lemma_wf_after_mnotes_filter(
    v: StoreView,
    keep: spec_fn(MilestoneNote) -> bool,
    w: StoreView,
)
    requires
        v.wf(),
        w == (StoreView { milestone_notes: v.milestone_notes.filter(keep), ..v }),
    ensures
        w.wf(),
{
    lemma_filter_membership(v.milestone_notes, keep);
    assert(w.milestone_notes_ok()) by {
        lemma_filter_pairwise(
            v.milestone_notes,
            keep,
            |a: MilestoneNote, b: MilestoneNote| a.id@ != b.id@,
        );
        assert forall|i: int| 0 <= i < w.milestone_notes.len() implies milestone_exists(
            w.milestones,
            (#[trigger] w.milestone_notes[i]).milestone_id@,
        ) by {
            let k = choose|k: int|
                0 <= k < v.milestone_notes.len() && v.milestone_notes[k] == w.milestone_notes[i];
        }
    }
    assert(w.people_ok());
    assert(w.teams_ok());
    assert(w.members_ok());
    assert(w.projects_ok());
    assert(w.milestones_ok());
    assert(w.stakeholders_ok());
    assert(w.project_resources_ok());
    assert(w.milestone_resources_ok());
    assert(w.project_notes_ok());
    assert(w.stakeholder_notes_ok());
}

/// Pushing a fresh stakeholder note whose link exists keeps the invariant.
proof fn lemma_wf_after_snote_push(v: StoreView, n: StakeholderNote)
    requires
        v.wf(),
        !has_row(v.stakeholder_notes, stakeholder_note_with(n.id@)),
        stakeholder_exists(v.stakeholders, n.project_id@, n.stakeholder_email@),
    ensures
        (StoreView { stakeholder_notes: v.stakeholder_notes.push(n), ..v }).wf(),
{
    let w = StoreView { stakeholder_notes: v.stakeholder_notes.push(n), ..v };
    let m = v.stakeholder_notes.len() as int;
    assert(forall|i: int|
        0 <= i < m ==> #[trigger] w.stakeholder_notes[i] == v.stakeholder_notes[i]);
    assert(w.stakeholder_notes[m] == n);
    assert(w.stakeholder_notes_ok()) by {
        assert forall|i: int, j: int|
            0 <= i < j < w.stakeholder_notes.len() implies (
        #[trigger] w.stakeholder_notes[i]).id@ != (#[trigger] w.stakeholder_notes[j]).id@ by {
            if j == m && w.stakeholder_notes[i].id@ == n.id@ {
                assert(stakeholder_note_with(n.id@)(v.stakeholder_notes[i]));
            }
        }
    }
    assert(w.people_ok());
    assert(w.teams_ok());
    assert(w.members_ok());
    assert(w.projects_ok());
    assert(w.milestones_ok());
    assert(w.stakeholders_ok());
    assert(w.project_resources_ok());
    assert(w.milestone_resources_ok());
    assert(w.project_notes_ok());
    assert(w.milestone_notes_ok());
}

/// Replacing one stakeholder note's text keeps the invariant and matches
/// the mapped table of `updated_stakeholder_note`.
proof fn lemma_after_snote_update(
    v: StoreView,
    n: StakeholderNote,
    stamp: i64,
    idx: int,
    w: StoreView,
)
    requires
        v.wf(),
        0 <= idx < v.stakeholder_notes.len(),
        v.stakeholder_notes[idx].id@ == n.id@,
        w == (StoreView {
            stakeholder_notes: v.stakeholder_notes.update(
                idx,
                patched_snote(v.stakeholder_notes[idx], n, stamp),
            ),
            ..v
        }),
    ensures
        w.wf(),
        (w, Result::Ok::<(), RepoError>(())) == v.updated_stakeholder_note(n, stamp),
{
    let mapped = v.stakeholder_notes.map_values(
        |q: StakeholderNote|
            if q.id@ == n.id@ {
                patched_snote(q, n, stamp)
            } else {
                q
            },
    );
    assert(w.stakeholder_notes =~= mapped) by {
        assert forall|i: int| 0 <= i < v.stakeholder_notes.len() implies w.stakeholder_notes[i]
            == mapped[i] by {
            if i != idx {
                assert(v.stakeholder_notes[i].id@ != n.id@);
            }
        }
    }
    assert(forall|i: int|
        0 <= i < w.stakeholder_notes.len() ==> (#[trigger] w.stakeholder_notes[i]).id@
            == v.stakeholder_notes[i].id@ && w.stakeholder_notes[i].project_id@
            == v.stakeholder_notes[i].project_id@ && w.stakeholder_notes[i].stakeholder_email@
            == v.stakeholder_notes[i].stakeholder_email@);
    assert(w.stakeholder_notes_ok());
    assert(w.people_ok());
    assert(w.teams_ok());
    assert(w.members_ok());
    assert(w.projects_ok());
    assert(w.milestones_ok());
    assert(w.stakeholders_ok());
    assert(w.project_resources_ok());
    assert(w.milestone_resources_ok());
    assert(w.project_notes_ok());
    assert(w.milestone_notes_ok());
    let sv = v.updated_stakeholder_note(n, stamp).0;
    assert(sv.stakeholder_notes =~= mapped) by {
        assert(forall|i: int|
            0 <= i < v.stakeholder_notes.len() ==> #[trigger] sv.stakeholder_notes[i]
                == mapped[i]);
    }
    assert(sv == w);
}

/// Dropping stakeholder notes by any predicate keeps the invariant.
proof fn lemma_wf_after_snotes_filter(
    v: StoreView,
    keep: spec_fn(StakeholderNote) -> bool,
    w: StoreView,
)
    requires
        v.wf(),
        w == (StoreView { stakeholder_notes: v.stakeholder_notes.filter(keep), ..v }),
    ensures
        w.wf(),
{
    lemma_filter_membership(v.stakeholder_notes, keep);
    assert(w.stakeholder_notes_ok()) by {
        lemma_filter_pairwise(
            v.stakeholder_notes,
            keep,
            |a: StakeholderNote, b: StakeholderNote| a.id@ != b.id@,
        );
        assert forall|i: int| 0 <= i < w.stakeholder_notes.len() implies stakeholder_exists(
            w.stakeholders,
            (#[trigger] w.stakeholder_notes[i]).project_id@,
            (#[trigger] w.stakeholder_notes[i]).stakeholder_email@,
        ) by {
            let k = choose|k: int|
                0 <= k < v.stakeholder_notes.len() && v.stakeholder_notes[k]
                    == w.stakeholder_notes[i];
        }
    }
    assert(w.people_ok());
    assert(w.teams_ok());
    assert(w.members_ok());
    assert(w.projects_ok());
    assert(w.milestones_ok());
    assert(w.stakeholders_ok());
    assert(w.project_resources_ok());
    assert(w.milestone_resources_ok());
    assert(w.project_notes_ok());
    assert(w.milestone_notes_ok());
}

/// Insert a project note into a newest-first vector, keeping the order.
fn insert_pnote_sorted(v: &mut Vec<ProjectNote>, x: ProjectNote)
    requires
        sorted_by(old(v)@, pnote_newest_first()),
    ensures
        final(v)@.to_multiset() == old(v)@.to_multiset().insert(x),
        sorted_by(final(v)@, pnote_newest_first()),
{
    let mut j: usize = 0;
    let mut found: bool = false;
    while !found && j < v.len()
        invariant
            j <= v@.len(),
            sorted_by(v@, pnote_newest_first()),
            forall|k: int| 0 <= k < j ==> pnote_newest_first()(#[trigger] v@[k], x),
            found ==> j < v@.len() && pnote_newest_first()(x, v@[j as int]),
        decreases v@.len() - j + (if found { 0int } else { 1int }),
    {
        let ghost leq = pnote_newest_first();
        if x.created_at >= v[j].created_at {
            found = true;
            proof {
                assert(leq(x, v@[j as int]));
            }
        } else {
            proof {
                assert(leq(v@[j as int], x));
            }
            j = j + 1;
        }
    }
    proof {
        let leq = pnote_newest_first();
        if (j as int) < v@.len() {
            assert forall|k: int| j <= k < v@.len() implies leq(x, #[trigger] v@[k]) by {
                if k > j {
                    assert(leq(v@[j as int], v@[k]));
                }
            }
        }
        crate::seqkit::lemma_sorted_insert(v@, j as int, x, leq);
        crate::seqkit::lemma_insert_to_multiset(v@, j as int, x);
    }
    v.insert(j, x);
}

/// Insert a milestone note into a newest-first vector, keeping the order.
fn insert_mnote_sorted(v: &mut Vec<MilestoneNote>, x: MilestoneNote)
    requires
        sorted_by(old(v)@, mnote_newest_first()),
    ensures
        final(v)@.to_multiset() == old(v)@.to_multiset().insert(x),
        sorted_by(final(v)@, mnote_newest_first()),
{
    let mut j: usize = 0;
    let mut found: bool = false;
    while !found && j < v.len()
        invariant
            j <= v@.len(),
            sorted_by(v@, mnote_newest_first()),
            forall|k: int| 0 <= k < j ==> mnote_newest_first()(#[trigger] v@[k], x),
            found ==> j < v@.len() && mnote_newest_first()(x, v@[j as int]),
        decreases v@.len() - j + (if found { 0int } else { 1int }),
    {
        let ghost leq = mnote_newest_first();
        if x.created_at >= v[j].created_at {
            found = true;
            proof {
                assert(leq(x, v@[j as int]));
            }
        } else {
            proof {
                assert(leq(v@[j as int], x));
            }
            j = j + 1;
        }
    }
    proof {
        let leq = mnote_newest_first();
        if (j as int) < v@.len() {
            assert forall|k: int| j <= k < v@.len() implies leq(x, #[trigger] v@[k]) by {
                if k > j {
                    assert(leq(v@[j as int], v@[k]));
                }
            }
        }
        crate::seqkit::lemma_sorted_insert(v@, j as int, x, leq);
        crate::seqkit::lemma_insert_to_multiset(v@, j as int, x);
    }
    v.insert(j, x);
}

/// Insert a stakeholder note into a newest-first vector, keeping the order.
fn insert_snote_sorted(v: &mut Vec<StakeholderNote>, x: StakeholderNote)
    requires
        sorted_by(old(v)@, snote_newest_first()),
    ensures
        final(v)@.to_multiset() == old(v)@.to_multiset().insert(x),
        sorted_by(final(v)@, snote_newest_first()),
{
    let mut j: usize = 0;
    let mut found: bool = false;
    while !found && j < v.len()
        invariant
            j <= v@.len(),
            sorted_by(v@, snote_newest_first()),
            forall|k: int| 0 <= k < j ==> snote_newest_first()(#[trigger] v@[k], x),
            found ==> j < v@.len() && snote_newest_first()(x, v@[j as int]),
        decreases v@.len() - j + (if found { 0int } else { 1int }),
    {
        let ghost leq = snote_newest_first();
        if x.created_at >= v[j].created_at {
            found = true;
            proof {
                assert(leq(x, v@[j as int]));
            }
        } else {
            proof {
                assert(leq(v@[j as int], x));
            }
            j = j + 1;
        }
    }
    proof {
        let leq = snote_newest_first();
        if (j as int) < v@.len() {
            assert forall|k: int| j <= k < v@.len() implies leq(x, #[trigger] v@[k]) by {
                if k > j {
                    assert(leq(v@[j as int], v@[k]));
                }
            }
        }
        crate::seqkit::lemma_sorted_insert(v@, j as int, x, leq);
        crate::seqkit::lemma_insert_to_multiset(v@, j as int, x);
    }
    v.insert(j, x);
}

} // verus!
