//! The store's general guarantees, stated and proved over the same view
//! transitions that the repository contracts use: migration idempotence,
//! cascade integrity, natural-key uniqueness, creation round trips,
//! monotone update stamps, and absence versus error.

use vstd::prelude::*;
use crate::err::RepoError;
use crate::model::{Milestone, Person, Project, Team};
use crate::projects::{
    milestone_not_of, mnote_not_of_project, mres_not_of_project, project_not,
    project_note_not_of, stakeholder_not_of, stakeholder_note_not_of,
};
use crate::milestones::{milestone_not, mnote_not_of, mres_not_of};
use crate::schema::{has_version, ledger_max, SchemaV};
use crate::seqkit::{first_where, lemma_filter_membership, lemma_first_where_at,
    lemma_first_where_none};
use crate::store::{
    has_row, member_with, milestone_numbered, person_exists, person_with, project_exists,
    project_with, team_exists, team_with, milestone_exists, StoreView,
};

verus! {

/// A schema that a completed open leaves behind: every table and column
/// present, and the ledger at the newest version.
pub open spec fn schema_current(s: SchemaV) -> bool {
    &&& s.tables_created
    &&& s.projects_has_type
    &&& s.project_notes_has_updated_at
    &&& s.milestone_notes_has_updated_at
    &&& s.stakeholder_notes_has_updated_at
    &&& s.projects_has_team
    &&& s.milestones_has_team
    &&& s.versions.len() > 0
    &&& has_version(s.versions, 1)
    &&& has_version(s.versions, 2)
    &&& has_version(s.versions, 3)
    &&& has_version(s.versions, 4)
    &&& ledger_max(s.versions) == 4
}

/// Opening a fresh database — creating the tables and applying the whole
/// migration sequence — succeeds and leaves the schema current, whatever
/// the clock read.
pub proof fn lemma_open_fresh_schema(t0: i64, t1: i64)
    ensures
        ({
            let init = SchemaV::empty().initialized(t0);
            let (m, r) = init.migrated(t1);
            r is Ok && schema_current(m)
        }),
{
    let init = SchemaV::empty().initialized(t0);
    let e1 = crate::schema::VersionEntry { version: 1, applied_at: t0 };
    assert(init.versions == Seq::<crate::schema::VersionEntry>::empty().push(e1));
    assert(ledger_max(init.versions) == 1);
    let (m, r) = init.migrated(t1);
    let a = init.step_two(t1);
    let b = a.step_three(t1);
    let c = b.step_four(t1);
    let e2 = crate::schema::VersionEntry { version: 2, applied_at: t1 };
    let e3 = crate::schema::VersionEntry { version: 3, applied_at: t1 };
    let e4 = crate::schema::VersionEntry { version: 4, applied_at: t1 };
    assert(a.versions == init.versions.push(e2));
    crate::schema::lemma_ledger_max_push(init.versions, e2);
    assert(b.versions == a.versions.push(e3));
    crate::schema::lemma_ledger_max_push(a.versions, e3);
    assert(c.versions == b.versions.push(e4));
    crate::schema::lemma_ledger_max_push(b.versions, e4);
    assert(m == c);
    assert(has_version(m.versions, 1)) by {
        assert(m.versions[0] == e1);
    }
    assert(has_version(m.versions, 2)) by {
        assert(m.versions[1] == e2);
    }
    assert(has_version(m.versions, 3)) by {
        assert(m.versions[2] == e3);
    }
    assert(has_version(m.versions, 4)) by {
        assert(m.versions[3] == e4);
    }
}

/// Migration idempotence: running the whole open sequence — table
/// creation and migrations — against an already-current schema changes
/// nothing and raises no error, whatever the clock reads. Together with
/// `lemma_open_fresh_schema`, opening twice equals opening once: the
/// schema version and the column set are identical.
pub proof fn lemma_open_idempotent(s: SchemaV, t0: i64, t1: i64)
    requires
        schema_current(s),
    ensures
        s.initialized(t0) == s,
        s.initialized(t0).migrated(t1) == (s, Result::<(), RepoError>::Ok(())),
{
    assert(s.initialized(t0) == s) by {
        assert(crate::schema::ledger_record(s.versions, 1, t0) == s.versions);
    }
    crate::schema::lemma_ledger_max_props(s.versions);
    assert(s.migrated(t1) == (s, Result::<(), RepoError>::Ok(())));
}

/// Cascade integrity for projects: deleting a project removes every one
/// of its milestones, stakeholder links, resources and notes — including
/// its milestones' notes and resources and its stakeholders' notes —
/// while people, teams and memberships are untouched.
pub proof fn lemma_project_cascade(v: StoreView, id: Seq<char>)
    requires
        v.wf(),
        project_exists(v.projects, id),
    ensures
        ({
            let (w, r) = v.deleted_project(id);
            &&& r is Ok
            &&& !project_exists(w.projects, id)
            &&& forall|i: int|
                0 <= i < w.milestones.len() ==> (#[trigger] w.milestones[i]).project_id@ != id
            &&& forall|i: int|
                0 <= i < w.stakeholders.len() ==> (#[trigger] w.stakeholders[i]).project_id@ != id
            &&& forall|i: int|
                0 <= i < w.project_resources.len() ==> (
                #[trigger] w.project_resources[i]).project_id@ != id
            &&& forall|i: int|
                0 <= i < w.project_notes.len() ==> (#[trigger] w.project_notes[i]).project_id@
                    != id
            &&& forall|i: int|
                0 <= i < w.stakeholder_notes.len() ==> (
                #[trigger] w.stakeholder_notes[i]).project_id@ != id
            &&& forall|i: int|
                0 <= i < w.milestone_resources.len() ==> !has_row(
                    v.milestones,
                    crate::projects::milestone_id_of(
                        (#[trigger] w.milestone_resources[i]).milestone_id@,
                        id,
                    ),
                )
            &&& forall|i: int|
                0 <= i < w.milestone_notes.len() ==> !has_row(
                    v.milestones,
                    crate::projects::milestone_id_of(
                        (#[trigger] w.milestone_notes[i]).milestone_id@,
                        id,
                    ),
                )
            &&& w.people == v.people
            &&& w.teams == v.teams
            &&& w.team_members == v.team_members
        }),
{
    let (w, r) = v.deleted_project(id);
    lemma_filter_membership(v.projects, project_not(id));
    lemma_filter_membership(v.milestones, milestone_not_of(id));
    lemma_filter_membership(v.stakeholders, stakeholder_not_of(id));
    lemma_filter_membership(v.project_resources, crate::projects::project_resource_not_of(id));
    lemma_filter_membership(v.milestone_resources, mres_not_of_project(v.milestones, id));
    lemma_filter_membership(v.project_notes, project_note_not_of(id));
    lemma_filter_membership(v.milestone_notes, mnote_not_of_project(v.milestones, id));
    lemma_filter_membership(v.stakeholder_notes, stakeholder_note_not_of(id));
    assert(!project_exists(w.projects, id)) by {
        if has_row(w.projects, project_with(id)) {
            let k = choose|k: int|
                0 <= k < w.projects.len() && project_with(id)(#[trigger] w.projects[k]);
        }
    }
}

/// Cascade integrity for milestones: deleting a milestone removes its
/// notes and resources but leaves the projects, every other milestone,
/// and everything else untouched.
pub proof fn lemma_milestone_cascade(v: StoreView, id: Seq<char>)
    requires
        v.wf(),
        milestone_exists(v.milestones, id),
    ensures
        ({
            let (w, r) = v.deleted_milestone(id);
            &&& r is Ok
            &&& !milestone_exists(w.milestones, id)
            &&& forall|i: int|
                0 <= i < w.milestone_notes.len() ==> (
                #[trigger] w.milestone_notes[i]).milestone_id@ != id
            &&& forall|i: int|
                0 <= i < w.milestone_resources.len() ==> (
                #[trigger] w.milestone_resources[i]).milestone_id@ != id
            &&& w.projects == v.projects
            &&& forall|i: int|
                0 <= i < v.milestones.len() && (#[trigger] v.milestones[i]).id@ != id
                    ==> w.milestones.contains(v.milestones[i])
            &&& w.people == v.people
            &&& w.teams == v.teams
            &&& w.team_members == v.team_members
            &&& w.stakeholders == v.stakeholders
        }),
{
    let (w, r) = v.deleted_milestone(id);
    lemma_filter_membership(v.milestones, milestone_not(id));
    lemma_filter_membership(v.milestone_notes, mnote_not_of(id));
    lemma_filter_membership(v.milestone_resources, mres_not_of(id));
    assert(!milestone_exists(w.milestones, id)) by {
        if has_row(w.milestones, crate::store::milestone_with(id)) {
            let k = choose|k: int|
                0 <= k < w.milestones.len() && crate::store::milestone_with(id)(
                    #[trigger] w.milestones[k],
                );
        }
    }
    assert forall|i: int|
        0 <= i < v.milestones.len() && (#[trigger] v.milestones[i]).id@
            != id implies w.milestones.contains(v.milestones[i]) by {
        #[allow(deprecated)]
        v.milestones.filter_lemma(milestone_not(id));
    }
}

/// Natural-key uniqueness: creating a person whose email already exists
/// fails with a conflict and changes nothing.
pub proof fn lemma_duplicate_person_conflict(v: StoreView, p: Person)
    requires
        v.wf(),
        person_exists(v.people, p.email@),
    ensures
        v.created_person(p) == (v, Result::<(), RepoError>::Err(RepoError::Conflict)),
{
}

/// Natural-key uniqueness: creating a team whose name already exists
/// fails with a conflict and changes nothing.
pub proof fn lemma_duplicate_team_conflict(v: StoreView, t: Team)
    requires
        v.wf(),
        team_exists(v.teams, t.name@),
    ensures
        v.created_team(t) == (v, Result::<(), RepoError>::Err(RepoError::Conflict)),
{
}

/// Natural-key uniqueness: adding a milestone whose `(project, number)`
/// pair already exists fails with a conflict and changes nothing.
pub proof fn lemma_duplicate_milestone_number_conflict(v: StoreView, m: Milestone)
    requires
        v.wf(),
        has_row(v.milestones, milestone_numbered(m.project_id@, m.number as int)),
    ensures
        v.added_milestone(m) == (v, Result::<(), RepoError>::Err(RepoError::Conflict)),
{
}

/// Round trip: after a successful create, finding the person by email
/// returns exactly the created value — the stored row is the given one.
pub proof fn lemma_person_round_trip(v: StoreView, p: Person)
    requires
        v.wf(),
        v.created_person(p).1 is Ok,
    ensures
        first_where(v.created_person(p).0.people, person_with(p.email@)) == Option::Some(p),
{
    let w = v.created_person(p).0;
    let n = v.people.len() as int;
    assert(w.people[n] == p);
    assert(person_with(p.email@)(p));
    assert forall|k: int| 0 <= k < n implies !person_with(p.email@)(#[trigger] w.people[k]) by {
        assert(w.people[k] == v.people[k]);
        if person_with(p.email@)(v.people[k]) {
            assert(person_exists(v.people, p.email@));
        }
    }
    lemma_first_where_at(w.people, person_with(p.email@), n);
}

/// Round trip: after a successful create, finding the team by name
/// returns exactly the created value.
pub proof fn lemma_team_round_trip(v: StoreView, t: Team)
    requires
        v.wf(),
        v.created_team(t).1 is Ok,
    ensures
        first_where(v.created_team(t).0.teams, team_with(t.name@)) == Option::Some(t),
{
    let w = v.created_team(t).0;
    let n = v.teams.len() as int;
    assert(w.teams[n] == t);
    assert(team_with(t.name@)(t));
    assert forall|k: int| 0 <= k < n implies !team_with(t.name@)(#[trigger] w.teams[k]) by {
        assert(w.teams[k] == v.teams[k]);
        if team_with(t.name@)(v.teams[k]) {
            assert(team_exists(v.teams, t.name@));
        }
    }
    lemma_first_where_at(w.teams, team_with(t.name@), n);
}

/// Round trip: after a successful create, finding the project by
/// identifier returns exactly the created value.
pub proof fn lemma_project_round_trip(v: StoreView, p: Project)
    requires
        v.wf(),
        v.created_project(p).1 is Ok,
    ensures
        first_where(v.created_project(p).0.projects, project_with(p.id@)) == Option::Some(p),
{
    let w = v.created_project(p).0;
    let n = v.projects.len() as int;
    assert(w.projects[n] == p);
    assert(project_with(p.id@)(p));
    assert forall|k: int| 0 <= k < n implies !project_with(p.id@)(#[trigger] w.projects[k]) by {
        assert(w.projects[k] == v.projects[k]);
        if project_with(p.id@)(v.projects[k]) {
            assert(project_exists(v.projects, p.id@));
        }
    }
    lemma_first_where_at(w.projects, project_with(p.id@), n);
}

/// Update stamps never move backwards: after a successful person update,
/// every row's update time is at least what it was, and creation times
/// are untouched.
pub proof fn lemma_person_update_stamp_monotone(v: StoreView, p: Person, t: i64)
    requires
        v.wf(),
        v.updated_person(p, t).1 is Ok,
    ensures
        ({
            let w = v.updated_person(p, t).0;
            &&& w.people.len() == v.people.len()
            &&& forall|i: int|
                0 <= i < v.people.len() ==> (#[trigger] w.people[i]).updated_at
                    >= v.people[i].updated_at && w.people[i].created_at == v.people[i].created_at
        }),
{
}

/// Update stamps never move backwards on teams either.
pub proof fn lemma_team_update_stamp_monotone(v: StoreView, t: Team, stamp: i64)
    requires
        v.wf(),
        v.updated_team(t, stamp).1 is Ok,
    ensures
        ({
            let w = v.updated_team(t, stamp).0;
            &&& w.teams.len() == v.teams.len()
            &&& forall|i: int|
                0 <= i < v.teams.len() ==> (#[trigger] w.teams[i]).updated_at
                    >= v.teams[i].updated_at && w.teams[i].created_at == v.teams[i].created_at
        }),
{
}

/// Update stamps never move backwards on projects either.
pub proof fn lemma_project_update_stamp_monotone(v: StoreView, p: Project, stamp: i64)
    requires
        v.wf(),
        v.updated_project(p, stamp).1 is Ok,
    ensures
        ({
            let w = v.updated_project(p, stamp).0;
            &&& w.projects.len() == v.projects.len()
            &&& forall|i: int|
                0 <= i < v.projects.len() ==> (#[trigger] w.projects[i]).updated_at
                    >= v.projects[i].updated_at && w.projects[i].created_at
                    == v.projects[i].created_at
        }),
{
}

/// Update stamps never move backwards on milestones either.
pub proof fn lemma_milestone_update_stamp_monotone(v: StoreView, m: Milestone, stamp: i64)
    requires
        v.wf(),
        v.updated_milestone(m, stamp).1 is Ok,
    ensures
        ({
            let w = v.updated_milestone(m, stamp).0;
            &&& w.milestones.len() == v.milestones.len()
            &&& forall|i: int|
                0 <= i < v.milestones.len() ==> (#[trigger] w.milestones[i]).updated_at
                    >= v.milestones[i].updated_at && w.milestones[i].created_at
                    == v.milestones[i].created_at
        }),
{
}

/// Absence is not an error: finding a missing person yields no value.
pub proof fn lemma_find_missing_person(v: StoreView, email: Seq<char>)
    requires
        !person_exists(v.people, email),
    ensures
        first_where(v.people, person_with(email)) is None,
{
    assert forall|k: int|
        0 <= k < v.people.len() implies !person_with(email)(#[trigger] v.people[k]) by {
        if person_with(email)(v.people[k]) {
            assert(person_exists(v.people, email));
        }
    }
    lemma_first_where_none(v.people, person_with(email));
}

/// A missing key is an error for mutations: updating or deleting a
/// missing person, or removing a missing membership, is `NotFound` and
/// changes nothing.
pub proof fn lemma_missing_key_not_found(
    v: StoreView,
    p: Person,
    email: Seq<char>,
    team: Seq<char>,
    t: i64,
)
    requires
        v.wf(),
        !person_exists(v.people, p.email@),
        !person_exists(v.people, email),
        !has_row(v.team_members, member_with(team, email)),
    ensures
        v.updated_person(p, t) == (v, Result::<(), RepoError>::Err(RepoError::NotFound)),
        v.deleted_person(email) == (v, Result::<(), RepoError>::Err(RepoError::NotFound)),
        v.removed_member(team, email) == (v, Result::<(), RepoError>::Err(RepoError::NotFound)),
{
}

} // verus!
