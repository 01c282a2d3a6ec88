//! The person repository: typed CRUD and name search over the `people`
//! table. Every operation is specified by a transition on the store view
//! and preserves the store invariant.

use vstd::prelude::*;
use vstd::relations::sorted_by;
use crate::err::RepoError;
use crate::model::{clone_opt_text, Person};
use crate::seqkit::{
    first_where, lemma_filter_take_step, lemma_first_where_at, lemma_first_where_none,
    lemma_insert_to_multiset, lemma_sorted_insert, lemma_filter_membership,
    lemma_filter_pairwise,
};
use crate::store::{
    lemma_has_row_filter, lemma_has_row_push, lemma_has_row_same, opt_person_ref,
    person_exists, person_with, team_exists, project_exists, milestone_exists, Store, StoreView,
};
use crate::strkit::{chars_le, has_substring, lower_seq, name_matches, str_eq, str_le};
use crate::utils::now_millis;

verus! {

/// Name order on people: the stable, human-meaningful listing order.
pub open spec fn person_name_le() -> spec_fn(Person, Person) -> bool {
    |a: Person, b: Person| chars_le(a.name@, b.name@)
}

/// Does a person's name contain the query, case-insensitively?
pub open spec fn person_name_match(q: Seq<char>) -> spec_fn(Person) -> bool {
    |p: Person| has_substring(lower_seq(p.name@), lower_seq(q))
}

/// Keeps every person but the one with this email.
pub open spec fn person_not(email: Seq<char>) -> spec_fn(Person) -> bool {
    |p: Person| p.email@ != email
}

/// Keeps every membership row but those of this person.
pub open spec fn member_not_person(email: Seq<char>) -> spec_fn(crate::model::TeamMember) -> bool {
    |m: crate::model::TeamMember| m.person_email@ != email
}

/// A manager reference acceptable on insertion: absent, resolving, or the
/// inserted person's own address (the row satisfies it itself).
pub open spec fn manager_ok_for_insert(people: Seq<Person>, p: Person) -> bool {
    match p.manager {
        Option::None => true,
        Option::Some(m) => person_exists(people, m@) || m@ == p.email@,
    }
}

/// The row as a full-row update leaves it: mutable fields from the given
/// value, identity and creation time from the stored row, and the update
/// stamp never moving backwards.
pub open spec fn patched_person(prev: Person, p: Person, t: i64) -> Person {
    Person {
        email: prev.email,
        name: p.name,
        team: p.team,
        manager: p.manager,
        notes: p.notes,
        created_at: prev.created_at,
        updated_at: if t >= prev.updated_at {
            t
        } else {
            prev.updated_at
        },
    }
}

impl StoreView {
    /// Creating a person: a duplicate email is a conflict; a dangling
    /// manager reference is refused; otherwise the row is appended as given.
    pub open spec fn created_person(self, p: Person) -> (StoreView, Result<(), RepoError>) {
        if person_exists(self.people, p.email@) {
            (self, Result::Err(RepoError::Conflict))
        } else if !manager_ok_for_insert(self.people, p) {
            (self, Result::Err(RepoError::InvalidReference))
        } else {
            (StoreView { people: self.people.push(p), ..self }, Result::Ok(()))
        }
    }

    /// Updating a person: the row must exist, a dangling manager reference
    /// is refused, and the stored row is replaced by the patched one.
    pub open spec fn updated_person(self, p: Person, t: i64) -> (StoreView, Result<(), RepoError>) {
        if !person_exists(self.people, p.email@) {
            (self, Result::Err(RepoError::NotFound))
        } else if !opt_person_ref(self.people, p.manager) {
            (self, Result::Err(RepoError::InvalidReference))
        } else {
            (
                StoreView {
                    people: self.people.map_values(
                        |q: Person|
                            if q.email@ == p.email@ {
                                patched_person(q, p, t)
                            } else {
                                q
                            },
                    ),
                    ..self
                },
                Result::Ok(()),
            )
        }
    }

    /// Is this person still referenced from any other row? Such a person
    /// may not be deleted.
    pub open spec fn person_referenced(self, email: Seq<char>) -> bool {
        ||| manager_ref_in_people(self.people, email)
        ||| manager_ref_in_teams(self.teams, email)
        ||| people_ref_in_projects(self.projects, email)
        ||| lead_ref_in_milestones(self.milestones, email)
        ||| email_in_stakeholders(self.stakeholders, email)
        ||| email_in_project_resources(self.project_resources, email)
        ||| email_in_milestone_resources(self.milestone_resources, email)
    }

    /// Deleting a person: the row must exist and be unreferenced; the
    /// person's membership rows are removed with it, nothing else.
    pub open spec fn deleted_person(self, email: Seq<char>) -> (StoreView, Result<(), RepoError>) {
        if !person_exists(self.people, email) {
            (self, Result::Err(RepoError::NotFound))
        } else if self.person_referenced(email) {
            (self, Result::Err(RepoError::InvalidReference))
        } else {
            (
                StoreView {
                    people: self.people.filter(person_not(email)),
                    team_members: self.team_members.filter(member_not_person(email)),
                    ..self
                },
                Result::Ok(()),
            )
        }
    }
}


/// Another person names this email as manager.
pub open spec fn manager_ref_in_people(people: Seq<Person>, email: Seq<char>) -> bool {
    exists|i: int|
        0 <= i < people.len() && (#[trigger] people[i]).email@ != email && (people[i].manager
            matches Option::Some(m) && m@ == email)
}

/// A team names this email as manager.
pub open spec fn manager_ref_in_teams(teams: Seq<crate::model::Team>, email: Seq<char>) -> bool {
    exists|i: int|
        0 <= i < teams.len() && ((#[trigger] teams[i]).manager matches Option::Some(m) && m@
            == email)
}

/// A project names this email in one of its people fields.
pub open spec fn people_ref_in_projects(
    projects: Seq<crate::model::Project>,
    email: Seq<char>,
) -> bool {
    exists|i: int|
        0 <= i < projects.len() && {
            let p = #[trigger] projects[i];
            (p.requirements_owner matches Option::Some(m) && m@ == email) || (p.technical_lead
                matches Option::Some(m) && m@ == email) || (p.manager matches Option::Some(m)
                && m@ == email)
        }
}

/// A milestone names this email as technical lead.
pub open spec fn lead_ref_in_milestones(
    milestones: Seq<crate::model::Milestone>,
    email: Seq<char>,
) -> bool {
    exists|i: int|
        0 <= i < milestones.len() && ((#[trigger] milestones[i]).technical_lead
            matches Option::Some(m) && m@ == email)
}

/// A stakeholder link carries this email.
pub open spec fn email_in_stakeholders(
    stakeholders: Seq<crate::model::ProjectStakeholder>,
    email: Seq<char>,
) -> bool {
    exists|i: int| 0 <= i < stakeholders.len() && (#[trigger] stakeholders[i]).stakeholder_email@
        == email
}

/// A project resource row carries this email.
pub open spec fn email_in_project_resources(
    rows: Seq<crate::model::ProjectResource>,
    email: Seq<char>,
) -> bool {
    exists|i: int| 0 <= i < rows.len() && (#[trigger] rows[i]).person_email@ == email
}

/// A milestone resource row carries this email.
pub open spec fn email_in_milestone_resources(
    rows: Seq<crate::model::MilestoneResource>,
    email: Seq<char>,
) -> bool {
    exists|i: int| 0 <= i < rows.len() && (#[trigger] rows[i]).person_email@ == email
}

/// Scan for a manager reference among other people.
fn scan_people_manager(people: &Vec<Person>, email: &str) -> (r: bool)
    ensures
        r == manager_ref_in_people(people@, email@),
{
    let mut i: usize = 0;
    while i < people.len()
        invariant
            i <= people@.len(),
            forall|k: int|
                0 <= k < i ==> !((#[trigger] people@[k]).email@ != email@ && (
                people@[k].manager matches Option::Some(m) && m@ == email@)),
        decreases people@.len() - i,
    {
        if !str_eq(people[i].email.as_str(), email) {
            if let Option::Some(m) = &people[i].manager {
                if str_eq(m.as_str(), email) {
                    return true;
                }
            }
        }
        i = i + 1;
    }
    proof {
        if manager_ref_in_people(people@, email@) {
            let k = choose|k: int|
                0 <= k < people@.len() && (#[trigger] people@[k]).email@ != email@ && (
                people@[k].manager matches Option::Some(m) && m@ == email@);
        }
    }
    false
}

/// Scan for a manager reference among teams.
fn scan_teams_manager(teams: &Vec<crate::model::Team>, email: &str) -> (r: bool)
    ensures
        r == manager_ref_in_teams(teams@, email@),
{
    let mut i: usize = 0;
    while i < teams.len()
        invariant
            i <= teams@.len(),
            forall|k: int|
                0 <= k < i ==> !((#[trigger] teams@[k]).manager matches Option::Some(m) && m@
                    == email@),
        decreases teams@.len() - i,
    {
        if let Option::Some(m) = &teams[i].manager {
            if str_eq(m.as_str(), email) {
                return true;
            }
        }
        i = i + 1;
    }
    proof {
        if manager_ref_in_teams(teams@, email@) {
            let k = choose|k: int|
                0 <= k < teams@.len() && ((#[trigger] teams@[k]).manager matches Option::Some(m)
                    && m@ == email@);
        }
    }
    false
}

/// Scan for a people reference among projects.
fn scan_projects_people(projects: &Vec<crate::model::Project>, email: &str) -> (r: bool)
    ensures
        r == people_ref_in_projects(projects@, email@),
{
    let mut i: usize = 0;
    while i < projects.len()
        invariant
            i <= projects@.len(),
            forall|k: int|
                0 <= k < i ==> !{
                    let p = #[trigger] projects@[k];
                    (p.requirements_owner matches Option::Some(m) && m@ == email@) || (
                    p.technical_lead matches Option::Some(m) && m@ == email@) || (
                    p.manager matches Option::Some(m) && m@ == email@)
                },
        decreases projects@.len() - i,
    {
        if let Option::Some(m) = &projects[i].requirements_owner {
            if str_eq(m.as_str(), email) {
                return true;
            }
        }
        if let Option::Some(m) = &projects[i].technical_lead {
            if str_eq(m.as_str(), email) {
                return true;
            }
        }
        if let Option::Some(m) = &projects[i].manager {
            if str_eq(m.as_str(), email) {
                return true;
            }
        }
        i = i + 1;
    }
    proof {
        if people_ref_in_projects(projects@, email@) {
            let k = choose|k: int|
                0 <= k < projects@.len() && {
                    let p = #[trigger] projects@[k];
                    (p.requirements_owner matches Option::Some(m) && m@ == email@) || (
                    p.technical_lead matches Option::Some(m) && m@ == email@) || (
                    p.manager matches Option::Some(m) && m@ == email@)
                };
        }
    }
    false
}

/// Scan for a lead reference among milestones.
fn scan_milestones_lead(milestones: &Vec<crate::model::Milestone>, email: &str) -> (r: bool)
    ensures
        r == lead_ref_in_milestones(milestones@, email@),
{
    let mut i: usize = 0;
    while i < milestones.len()
        invariant
            i <= milestones@.len(),
            forall|k: int|
                0 <= k < i ==> !((#[trigger] milestones@[k]).technical_lead
                    matches Option::Some(m) && m@ == email@),
        decreases milestones@.len() - i,
    {
        if let Option::Some(m) = &milestones[i].technical_lead {
            if str_eq(m.as_str(), email) {
                return true;
            }
        }
        i = i + 1;
    }
    proof {
        if lead_ref_in_milestones(milestones@, email@) {
            let k = choose|k: int|
                0 <= k < milestones@.len() && ((#[trigger] milestones@[k]).technical_lead
                    matches Option::Some(m) && m@ == email@);
        }
    }
    false
}

/// Scan for this email among stakeholder links.
fn scan_stakeholder_emails(
    stakeholders: &Vec<crate::model::ProjectStakeholder>,
    email: &str,
) -> (r: bool)
    ensures
        r == email_in_stakeholders(stakeholders@, email@),
{
    let mut i: usize = 0;
    while i < stakeholders.len()
        invariant
            i <= stakeholders@.len(),
            forall|k: int|
                0 <= k < i ==> (#[trigger] stakeholders@[k]).stakeholder_email@ != email@,
        decreases stakeholders@.len() - i,
    {
        if str_eq(stakeholders[i].stakeholder_email.as_str(), email) {
            return true;
        }
        i = i + 1;
    }
    proof {
        if email_in_stakeholders(stakeholders@, email@) {
            let k = choose|k: int|
                0 <= k < stakeholders@.len() && (#[trigger] stakeholders@[k]).stakeholder_email@
                    == email@;
        }
    }
    false
}

/// Scan for this email among project resource rows.
fn scan_project_resource_emails(
    rows: &Vec<crate::model::ProjectResource>,
    email: &str,
) -> (r: bool)
    ensures
        r == email_in_project_resources(rows@, email@),
{
    let mut i: usize = 0;
    while i < rows.len()
        invariant
            i <= rows@.len(),
            forall|k: int| 0 <= k < i ==> (#[trigger] rows@[k]).person_email@ != email@,
        decreases rows@.len() - i,
    {
        if str_eq(rows[i].person_email.as_str(), email) {
            return true;
        }
        i = i + 1;
    }
    proof {
        if email_in_project_resources(rows@, email@) {
            let k = choose|k: int|
                0 <= k < rows@.len() && (#[trigger] rows@[k]).person_email@ == email@;
        }
    }
    false
}

/// Scan for this email among milestone resource rows.
fn scan_milestone_resource_emails(
    rows: &Vec<crate::model::MilestoneResource>,
    email: &str,
) -> (r: bool)
    ensures
        r == email_in_milestone_resources(rows@, email@),
{
    let mut i: usize = 0;
    while i < rows.len()
        invariant
            i <= rows@.len(),
            forall|k: int| 0 <= k < i ==> (#[trigger] rows@[k]).person_email@ != email@,
        decreases rows@.len() - i,
    {
        if str_eq(rows[i].person_email.as_str(), email) {
            return true;
        }
        i = i + 1;
    }
    proof {
        if email_in_milestone_resources(rows@, email@) {
            let k = choose|k: int|
                0 <= k < rows@.len() && (#[trigger] rows@[k]).person_email@ == email@;
        }
    }
    false
}

impl Store {
    /// The index of the person with this email, if any.
    pub(crate) fn find_person_idx(&self, email: &str) -> (r: Option<usize>)
        ensures
            match r {
                Option::Some(i) => i < self@.people.len() && self@.people[i as int].email@
                    == email@ && (forall|k: int|
                    0 <= k < i ==> (#[trigger] self@.people[k]).email@ != email@),
                Option::None => !person_exists(self@.people, email@),
            },
    {
        let mut i: usize = 0;
        while i < self.people.len()
            invariant
                i <= self@.people.len(),
                forall|k: int| 0 <= k < i ==> (#[trigger] self@.people[k]).email@ != email@,
            decreases self@.people.len() - i,
        {
            if str_eq(self.people[i].email.as_str(), email) {
                return Option::Some(i);
            }
            i = i + 1;
        }
        proof {
            if person_exists(self@.people, email@) {
                let k = choose|k: int|
                    0 <= k < self@.people.len() && person_with(email@)(#[trigger] self@.people[k]);
            }
        }
        Option::None
    }

    /// Does an optional person reference resolve?
    pub(crate) fn opt_person_check(&self, o: &Option<String>) -> (r: bool)
        ensures
            r == opt_person_ref(self@.people, *o),
    {
        match o {
            Option::None => true,
            Option::Some(m) => {
                match self.find_person_idx(m.as_str()) {
                    Option::Some(_) => true,
                    Option::None => false,
                }
            },
        }
    }

    /// Create a new person.
    pub fn create_person(&mut self, person: &Person) -> (r: Result<(), RepoError>)
        requires
            old(self)@.wf(),
        ensures
            final(self)@.wf(),
            (final(self)@, r) == old(self)@.created_person(*person),
    {
        let ghost v0 = self@;
        if let Option::Some(_) = self.find_person_idx(person.email.as_str()) {
            return Result::Err(RepoError::Conflict);
        }
        let manager_ok: bool = match &person.manager {
            Option::None => true,
            Option::Some(m) => {
                if str_eq(m.as_str(), person.email.as_str()) {
                    true
                } else {
                    match self.find_person_idx(m.as_str()) {
                        Option::Some(_) => true,
                        Option::None => false,
                    }
                }
            },
        };
        if !manager_ok {
            return Result::Err(RepoError::InvalidReference);
        }
        self.people.push(person.clone());
        proof {
            lemma_wf_after_person_push(v0, *person);
        }
        Result::Ok(())
    }

    /// Find a person by email; absence is not an error.
    pub fn find_by_email(&self, email: &str) -> (r: Option<Person>)
        ensures
            r == first_where(self@.people, person_with(email@)),
    {
        match self.find_person_idx(email) {
            Option::Some(i) => {
                proof {
                    assert(person_with(email@)(self@.people[i as int]));
                    assert(forall|k: int|
                        0 <= k < i ==> !person_with(email@)(#[trigger] self@.people[k]));
                    lemma_first_where_at(self@.people, person_with(email@), i as int);
                }
                Option::Some(self.people[i].clone())
            },
            Option::None => {
                proof {
                    assert(forall|k: int|
                        0 <= k < self@.people.len() ==> !person_with(email@)(
                            #[trigger] self@.people[k],
                        )) by {
                        if exists|k: int|
                            0 <= k < self@.people.len() && person_with(email@)(
                                #[trigger] self@.people[k],
                            ) {
                            assert(person_exists(self@.people, email@));
                        }
                    }
                    lemma_first_where_none(self@.people, person_with(email@));
                }
                Option::None
            },
        }
    }

    /// List all people, ordered by name.
    pub fn list_people(&self) -> (r: Vec<Person>)
        ensures
            r@.to_multiset() == self@.people.to_multiset(),
            sorted_by(r@, person_name_le()),
    {
        let mut out: Vec<Person> = Vec::new();
        let mut i: usize = 0;
        proof {
            broadcast use vstd::seq_lib::group_to_multiset_ensures;

            assert(self@.people.take(0) =~= Seq::empty());
        }
        while i < self.people.len()
            invariant
                i <= self@.people.len(),
                out@.to_multiset() == self@.people.take(i as int).to_multiset(),
                sorted_by(out@, person_name_le()),
            decreases self@.people.len() - i,
        {
            let row = self.people[i].clone();
            insert_person_sorted(&mut out, row);
            proof {
                broadcast use vstd::seq_lib::group_to_multiset_ensures;

                assert(self@.people.take(i + 1) =~= self@.people.take(i as int).push(
                    self@.people[i as int],
                ));
                assert(self@.people.take(i as int).push(self@.people[i as int]).to_multiset()
                    =~= self@.people.take(i as int).to_multiset().insert(
                    self@.people[i as int],
                ));
            }
            i = i + 1;
        }
        proof {
            assert(self@.people.take(self@.people.len() as int) =~= self@.people);
        }
        out
    }

    /// Search people by name: a case-insensitive substring match, ordered
    /// by name and capped at the page size. The cap means callers must not
    /// assume every match is returned.
    pub fn search_by_name(&self, query: &str) -> (r: Vec<Person>)
        ensures
            exists|full: Seq<Person>|
                {
                    &&& (#[trigger] full.to_multiset()) == self@.people.filter(
                        person_name_match(query@),
                    ).to_multiset()
                    &&& sorted_by(full, person_name_le())
                    &&& r@ == if full.len() <= 20 {
                        full
                    } else {
                        full.take(20)
                    }
                },
    {
        let mut out: Vec<Person> = Vec::new();
        let mut i: usize = 0;
        proof {
            broadcast use vstd::seq_lib::group_to_multiset_ensures;

            reveal(Seq::filter);
            assert(self@.people.take(0).filter(person_name_match(query@)) =~= Seq::empty());
        }
        while i < self.people.len()
            invariant
                i <= self@.people.len(),
                out@.to_multiset() == self@.people.take(i as int).filter(
                    person_name_match(query@),
                ).to_multiset(),
                sorted_by(out@, person_name_le()),
            decreases self@.people.len() - i,
        {
            let ghost q = person_name_match(query@);
            proof {
                lemma_filter_take_step(self@.people, q, i as int);
            }
            if name_matches(self.people[i].name.as_str(), query) {
                let row = self.people[i].clone();
                proof {
                    assert(q(self@.people[i as int]));
                }
                insert_person_sorted(&mut out, row);
                proof {
                    broadcast use vstd::seq_lib::group_to_multiset_ensures;

                    assert(self@.people.take(i + 1).filter(q) == self@.people.take(
                        i as int,
                    ).filter(q).push(self@.people[i as int]));
                    assert(self@.people.take(i as int).filter(q).push(
                        self@.people[i as int],
                    ).to_multiset() =~= self@.people.take(i as int).filter(q).to_multiset().insert(
                        self@.people[i as int],
                    ));
                }
            } else {
                proof {
                    assert(!q(self@.people[i as int]));
                }
            }
            i = i + 1;
        }
        proof {
            assert(self@.people.take(self@.people.len() as int) =~= self@.people);
        }
        let ghost full = out@;
        if out.len() > 20 {
            out.truncate(20);
        }
        proof {
            if full.len() <= 20 {
                assert(out@ == full);
            }
            assert(full.to_multiset() == self@.people.filter(
                person_name_match(query@),
            ).to_multiset());
        }
        out
    }

    /// Update a person: a full-row replace of the mutable fields,
    /// re-stamping the update time.
    pub fn update_person(&mut self, person: &Person) -> (r: Result<(), RepoError>)
        requires
            old(self)@.wf(),
        ensures
            final(self)@.wf(),
            exists|t: i64| (final(self)@, r) == old(self)@.updated_person(*person, t),
    {
        let ghost v0 = self@;
        let idx = match self.find_person_idx(person.email.as_str()) {
            Option::Some(i) => i,
            Option::None => {
                proof {
                    assert((final(self)@, Result::Err::<(), RepoError>(RepoError::NotFound))
                        == v0.updated_person(*person, 0));
                }
                return Result::Err(RepoError::NotFound);
            },
        };
        let manager_ok: bool = match &person.manager {
            Option::None => true,
            Option::Some(m) => {
                match self.find_person_idx(m.as_str()) {
                    Option::Some(_) => true,
                    Option::None => false,
                }
            },
        };
        if !manager_ok {
            proof {
                assert((final(self)@, Result::Err::<(), RepoError>(RepoError::InvalidReference))
                    == v0.updated_person(*person, 0));
            }
            return Result::Err(RepoError::InvalidReference);
        }
        let t = now_millis();
        let prev_updated = self.people[idx].updated_at;
        let stamp: i64 = if t >= prev_updated {
            t
        } else {
            prev_updated
        };
        let row = Person {
            email: self.people[idx].email.clone(),
            name: person.name.clone(),
            team: clone_opt_text(&person.team),
            manager: clone_opt_text(&person.manager),
            notes: clone_opt_text(&person.notes),
            created_at: self.people[idx].created_at,
            updated_at: stamp,
        };
        proof {
            assert(row == patched_person(v0.people[idx as int], *person, t));
        }
        self.people[idx] = row;
        proof {
            lemma_after_person_update(v0, *person, t, idx as int, self@);
            assert((self@, Result::Ok::<(), RepoError>(())) == v0.updated_person(*person, t));
        }
        Result::Ok(())
    }

    /// Delete a person. The row must not be referenced from any other
    /// table; the person's own membership rows are removed with it.
    pub fn delete_person(&mut self, email: &str) -> (r: Result<(), RepoError>)
        requires
            old(self)@.wf(),
        ensures
            final(self)@.wf(),
            (final(self)@, r) == old(self)@.deleted_person(email@),
    {
        let ghost v0 = self@;
        if let Option::None = self.find_person_idx(email) {
            return Result::Err(RepoError::NotFound);
        }
        if self.person_referenced_exec(email) {
            return Result::Err(RepoError::InvalidReference);
        }
        let mut kept: Vec<Person> = Vec::new();
        let mut i: usize = 0;
        proof {
            reveal(Seq::filter);
            assert(v0.people.take(0).filter(person_not(email@)) =~= Seq::empty());
        }
        while i < self.people.len()
            invariant
                i <= self@.people.len(),
                self@ == v0,
                kept@ == v0.people.take(i as int).filter(person_not(email@)),
            decreases self@.people.len() - i,
        {
            let ghost keep_p = person_not(email@);
            proof {
                lemma_filter_take_step(v0.people, keep_p, i as int);
            }
            if !str_eq(self.people[i].email.as_str(), email) {
                proof {
                    assert(keep_p(v0.people[i as int]));
                }
                kept.push(self.people[i].clone());
            } else {
                proof {
                    assert(!keep_p(v0.people[i as int]));
                }
            }
            i = i + 1;
        }
        proof {
            assert(v0.people.take(v0.people.len() as int) =~= v0.people);
        }
        let mut kept_members: Vec<crate::model::TeamMember> = Vec::new();
        let mut j: usize = 0;
        proof {
            reveal(Seq::filter);
            assert(v0.team_members.take(0).filter(member_not_person(email@)) =~= Seq::empty());
        }
        while j < self.team_members.len()
            invariant
                j <= self@.team_members.len(),
                self@ == v0,
                kept_members@ == v0.team_members.take(j as int).filter(member_not_person(email@)),
            decreases self@.team_members.len() - j,
        {
            let ghost keep_m = member_not_person(email@);
            proof {
                lemma_filter_take_step(v0.team_members, keep_m, j as int);
            }
            if !str_eq(self.team_members[j].person_email.as_str(), email) {
                proof {
                    assert(keep_m(v0.team_members[j as int]));
                }
                kept_members.push(self.team_members[j].clone());
            } else {
                proof {
                    assert(!keep_m(v0.team_members[j as int]));
                }
            }
            j = j + 1;
        }
        proof {
            assert(v0.team_members.take(v0.team_members.len() as int) =~= v0.team_members);
        }
        self.people = kept;
        self.team_members = kept_members;
        proof {
            lemma_wf_after_person_delete(v0, email@, self@);
        }
        Result::Ok(())
    }

    /// Is this email referenced from any row other than the person's own?
    fn person_referenced_exec(&self, email: &str) -> (r: bool)
        ensures
            r == self@.person_referenced(email@),
    {
        if scan_people_manager(&self.people, email) {
            return true;
        }
        if scan_teams_manager(&self.teams, email) {
            return true;
        }
        if scan_projects_people(&self.projects, email) {
            return true;
        }
        if scan_milestones_lead(&self.milestones, email) {
            return true;
        }
        if scan_stakeholder_emails(&self.stakeholders, email) {
            return true;
        }
        if scan_project_resource_emails(&self.project_resources, email) {
            return true;
        }
        if scan_milestone_resource_emails(&self.milestone_resources, email) {
            return true;
        }
        false
    }
}


/// Pushing a fresh, reference-satisfying person keeps the store invariant.
proof fn lemma_wf_after_person_push(v: StoreView, p: Person)
    requires
        v.wf(),
        !person_exists(v.people, p.email@),
        manager_ok_for_insert(v.people, p),
    ensures
        (StoreView { people: v.people.push(p), ..v }).wf(),
{
    let w = StoreView { people: v.people.push(p), ..v };
    let n = v.people.len() as int;
    assert forall|e: Seq<char>| person_exists(v.people, e) implies person_exists(
        w.people,
        e,
    ) by {
        lemma_has_row_push(v.people, p, person_with(e));
    }
    assert forall|i: int| 0 <= i < w.people.len() implies opt_person_ref(
        w.people,
        (#[trigger] w.people[i]).manager,
    ) by {
        if i < n {
            assert(w.people[i] == v.people[i]);
        } else {
            assert(w.people[i] == p);
            match p.manager {
                Option::None => {},
                Option::Some(m) => {
                    if m@ == p.email@ {
                        lemma_has_row_push(v.people, p, person_with(m@));
                        assert(person_with(m@)(p));
                    }
                },
            }
        }
    }
    assert(w.people_ok()) by {
        assert(forall|i: int, j: int|
            0 <= i < j < w.people.len() ==> (#[trigger] w.people[i]).email@ != (
            #[trigger] w.people[j]).email@) by {
            assert(forall|i: int| 0 <= i < n ==> #[trigger] w.people[i] == v.people[i]);
            assert(w.people[n] == p);
            assert(forall|i: int|
                0 <= i < n ==> (#[trigger] v.people[i]).email@ != p.email@);
        }
    }
    assert(w.teams_ok());
    assert(w.members_ok());
    assert(w.projects_ok());
    assert(w.milestones_ok());
    assert(w.stakeholders_ok());
    assert(w.project_resources_ok());
    assert(w.milestone_resources_ok());
    assert(w.project_notes_ok());
    assert(w.milestone_notes_ok());
    assert(w.stakeholder_notes_ok());
}

/// Replacing one person's mutable fields keeps the store invariant and is
/// exactly the mapped table of `updated_person`.
proof fn lemma_after_person_update(v: StoreView, p: Person, t: i64, idx: int, w: StoreView)
    requires
        v.wf(),
        0 <= idx < v.people.len(),
        v.people[idx].email@ == p.email@,
        opt_person_ref(v.people, p.manager),
        w == (StoreView { people: v.people.update(idx, patched_person(v.people[idx], p, t)), ..v }),
    ensures
        w.wf(),
        w == (StoreView {
            people: v.people.map_values(
                |q: Person|
                    if q.email@ == p.email@ {
                        patched_person(q, p, t)
                    } else {
                        q
                    },
            ),
            ..v
        }),
{
    let mapped = v.people.map_values(
        |q: Person|
            if q.email@ == p.email@ {
                patched_person(q, p, t)
            } else {
                q
            },
    );
    assert(w.people =~= mapped) by {
        assert forall|i: int| 0 <= i < v.people.len() implies w.people[i] == mapped[i] by {
            if i != idx {
                assert(v.people[i].email@ != p.email@);
            }
        }
    }
    // emails are unchanged position for position
    assert(forall|i: int|
        0 <= i < w.people.len() ==> (#[trigger] w.people[i]).email@ == v.people[i].email@);
    assert forall|e: Seq<char>| true implies person_exists(w.people, e) == person_exists(
        v.people,
        e,
    ) by {
        lemma_has_row_same(v.people, w.people, person_with(e));
    }
    assert(w.people_ok()) by {
        assert forall|i: int| 0 <= i < w.people.len() implies opt_person_ref(
            w.people,
            (#[trigger] w.people[i]).manager,
        ) by {
            if i == idx {
                assert(w.people[i].manager == p.manager);
            } else {
                assert(w.people[i] == v.people[i]);
            }
        }
    }
    assert(w.teams_ok());
    assert(w.members_ok());
    assert(w.projects_ok());
    assert(w.milestones_ok());
    assert(w.stakeholders_ok());
    assert(w.project_resources_ok());
    assert(w.milestone_resources_ok());
    assert(w.project_notes_ok());
    assert(w.milestone_notes_ok());
    assert(w.stakeholder_notes_ok());
}

/// Removing an unreferenced person and their membership rows keeps the
/// store invariant.
proof fn lemma_wf_after_person_delete(v: StoreView, email: Seq<char>, w: StoreView)
    requires
        v.wf(),
        !v.person_referenced(email),
        w == (StoreView {
            people: v.people.filter(person_not(email)),
            team_members: v.team_members.filter(member_not_person(email)),
            ..v
        }),
    ensures
        w.wf(),
{
    let keep_p = person_not(email);
    let keep_m = member_not_person(email);
    lemma_filter_membership(v.people, keep_p);
    lemma_filter_membership(v.team_members, keep_m);
    // surviving references resolve in the filtered people table
    assert forall|e: Seq<char>|
        person_exists(v.people, e) && e != email implies person_exists(w.people, e) by {
        let i = choose|i: int| 0 <= i < v.people.len() && person_with(e)(#[trigger] v.people[i]);
        lemma_has_row_filter(v.people, keep_p, person_with(e));
    }
    assert(w.people_ok()) by {
        lemma_filter_pairwise(
            v.people,
            keep_p,
            |a: Person, b: Person| a.email@ != b.email@,
        );
        assert forall|i: int| 0 <= i < w.people.len() implies opt_person_ref(
            w.people,
            (#[trigger] w.people[i]).manager,
        ) by {
            let q = w.people[i];
            let k = choose|k: int| 0 <= k < v.people.len() && v.people[k] == q;
            match q.manager {
                Option::None => {},
                Option::Some(m) => {
                    assert(opt_person_ref(v.people, q.manager));
                    if m@ == email {
                        // q would be a referencing row: q.email != email
                        assert(q.email@ != email);
                        assert(manager_ref_in_people(v.people, email));
                        assert(v.person_referenced(email));
                        assert(false);
                    }
                },
            }
        }
    }
    assert(w.teams_ok()) by {
        assert forall|i: int| 0 <= i < w.teams.len() implies opt_person_ref(
            w.people,
            (#[trigger] w.teams[i]).manager,
        ) by {
            match w.teams[i].manager {
                Option::None => {},
                Option::Some(m) => {
                    assert(m@ != email);
                },
            }
        }
    }
    assert(w.members_ok()) by {
        lemma_filter_pairwise(
            v.team_members,
            keep_m,
            |a: crate::model::TeamMember, b: crate::model::TeamMember|
                !(a.team_name@ == b.team_name@ && a.person_email@ == b.person_email@),
        );
        assert forall|i: int| 0 <= i < w.team_members.len() implies team_exists(
            w.teams,
            (#[trigger] w.team_members[i]).team_name@,
        ) && person_exists(w.people, w.team_members[i].person_email@) by {
            let q = w.team_members[i];
            let k = choose|k: int| 0 <= k < v.team_members.len() && v.team_members[k] == q;
            assert(q.person_email@ != email);
        }
    }
    assert(w.projects_ok()) by {
        assert forall|i: int| 0 <= i < w.projects.len() implies {
            let p = #[trigger] w.projects[i];
            opt_person_ref(w.people, p.requirements_owner) && opt_person_ref(
                w.people,
                p.technical_lead,
            ) && opt_person_ref(w.people, p.manager)
        } by {
            let p = w.projects[i];
            match p.requirements_owner {
                Option::None => {},
                Option::Some(m) => {
                    assert(m@ != email);
                },
            }
            match p.technical_lead {
                Option::None => {},
                Option::Some(m) => {
                    assert(m@ != email);
                },
            }
            match p.manager {
                Option::None => {},
                Option::Some(m) => {
                    assert(m@ != email);
                },
            }
        }
    }
    assert(w.milestones_ok()) by {
        assert forall|i: int| 0 <= i < w.milestones.len() implies {
            let m = #[trigger] w.milestones[i];
            project_exists(w.projects, m.project_id@) && opt_person_ref(
                w.people,
                m.technical_lead,
            )
        } by {
            let q = w.milestones[i];
            match q.technical_lead {
                Option::None => {},
                Option::Some(m) => {
                    assert(m@ != email);
                },
            }
        }
    }
    assert(w.stakeholders_ok()) by {
        assert forall|i: int| 0 <= i < w.stakeholders.len() implies {
            let s = #[trigger] w.stakeholders[i];
            project_exists(w.projects, s.project_id@) && person_exists(
                w.people,
                s.stakeholder_email@,
            )
        } by {
            assert(w.stakeholders[i].stakeholder_email@ != email);
        }
    }
    assert(w.project_resources_ok()) by {
        assert forall|i: int| 0 <= i < w.project_resources.len() implies {
            let s = #[trigger] w.project_resources[i];
            project_exists(w.projects, s.project_id@) && person_exists(
                w.people,
                s.person_email@,
            )
        } by {
            assert(w.project_resources[i].person_email@ != email);
        }
    }
    assert(w.milestone_resources_ok()) by {
        assert forall|i: int| 0 <= i < w.milestone_resources.len() implies {
            let s = #[trigger] w.milestone_resources[i];
            milestone_exists(w.milestones, s.milestone_id@) && person_exists(
                w.people,
                s.person_email@,
            )
        } by {
            assert(w.milestone_resources[i].person_email@ != email);
        }
    }
    assert(w.project_notes_ok());
    assert(w.milestone_notes_ok());
    assert(w.stakeholder_notes_ok());
}

/// Insert a person into a name-sorted vector, keeping it sorted.
pub(crate) fn insert_person_sorted(v: &mut Vec<Person>, x: Person)
    requires
        sorted_by(old(v)@, person_name_le()),
    ensures
        final(v)@.to_multiset() == old(v)@.to_multiset().insert(x),
        sorted_by(final(v)@, person_name_le()),
{
    let mut j: usize = 0;
    let mut found: bool = false;
    while !found && j < v.len()
        invariant
            j <= v@.len(),
            sorted_by(v@, person_name_le()),
            forall|k: int| 0 <= k < j ==> person_name_le()(#[trigger] v@[k], x),
            found ==> j < v@.len() && person_name_le()(x, v@[j as int]),
        decreases v@.len() - j + (if found { 0int } else { 1int }),
    {
        let ghost leq = person_name_le();
        if str_le(x.name.as_str(), v[j].name.as_str()) {
            found = true;
            proof {
                assert(leq(x, v@[j as int]));
            }
        } else {
            proof {
                crate::strkit::lemma_chars_le_total(x.name@, v@[j as int].name@);
                assert(leq(v@[j as int], x));
            }
            j = j + 1;
        }
    }
    proof {
        let leq = person_name_le();
        if (j as int) < v@.len() {
            assert(leq(x, v@[j as int]));
            assert forall|k: int| j <= k < v@.len() implies leq(x, #[trigger] v@[k]) by {
                if k > j {
                    assert(leq(v@[j as int], v@[k]));
                    crate::strkit::lemma_chars_le_trans(x.name@, v@[j as int].name@, v@[k].name@);
                }
            }
        }
        lemma_sorted_insert(v@, j as int, x, leq);
        lemma_insert_to_multiset(v@, j as int, x);
    }
    v.insert(j, x);
}

} // verus!
