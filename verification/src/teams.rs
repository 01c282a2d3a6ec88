//! The team repository: CRUD, name search and membership operations.
//! Membership preconditions are validated ahead of the storage constraint,
//! so a missing team and a missing person are reported as distinct errors.

use vstd::prelude::*;
use vstd::relations::sorted_by;
use crate::err::RepoError;
use crate::model::{clone_opt_text, Person, Team, TeamMember};
use crate::seqkit::{
    first_where, lemma_filter_take_step, lemma_first_where_at, lemma_first_where_none,
    lemma_filter_membership, lemma_filter_pairwise,
};
use crate::people::{insert_person_sorted, person_name_le};
use crate::store::{
    has_row, lemma_has_row_filter, lemma_has_row_push, lemma_has_row_same, member_with,
    opt_person_ref, person_exists, team_exists, team_with, Store, StoreView,
};
use crate::strkit::{chars_le, has_substring, lower_seq, name_matches, str_eq, str_le};
use crate::utils::now_millis;

verus! {

/// Name order on teams.
pub open spec fn team_name_le() -> spec_fn(Team, Team) -> bool {
    |a: Team, b: Team| chars_le(a.name@, b.name@)
}

/// Does a team's name contain the query, case-insensitively?
pub open spec fn team_name_match(q: Seq<char>) -> spec_fn(Team) -> bool {
    |t: Team| has_substring(lower_seq(t.name@), lower_seq(q))
}

/// Keeps every team but the one with this name.
pub open spec fn team_not(name: Seq<char>) -> spec_fn(Team) -> bool {
    |t: Team| t.name@ != name
}

/// Keeps every membership row but those of this team.
pub open spec fn member_not_team(name: Seq<char>) -> spec_fn(TeamMember) -> bool {
    |m: TeamMember| m.team_name@ != name
}

/// Keeps every membership row but the one of this team and person.
pub open spec fn member_not(team: Seq<char>, email: Seq<char>) -> spec_fn(TeamMember) -> bool {
    |m: TeamMember| !(m.team_name@ == team && m.person_email@ == email)
}

/// Is this person a member of this team?
pub open spec fn person_in_team(members: Seq<TeamMember>, team: Seq<char>) -> spec_fn(
    Person,
) -> bool {
    |p: Person| has_row(members, member_with(team, p.email@))
}

/// A team row as a full-row update leaves it.
pub open spec fn patched_team(prev: Team, t: Team, stamp: i64) -> Team {
    Team {
        name: prev.name,
        description: t.description,
        manager: t.manager,
        created_at: prev.created_at,
        updated_at: if stamp >= prev.updated_at {
            stamp
        } else {
            prev.updated_at
        },
    }
}

impl StoreView {
    /// Creating a team: a duplicate name is a conflict; a dangling manager
    /// reference is refused; otherwise the row is appended as given.
    pub open spec fn created_team(self, t: Team) -> (StoreView, Result<(), RepoError>) {
        if team_exists(self.teams, t.name@) {
            (self, Result::Err(RepoError::Conflict))
        } else if !opt_person_ref(self.people, t.manager) {
            (self, Result::Err(RepoError::InvalidReference))
        } else {
            (StoreView { teams: self.teams.push(t), ..self }, Result::Ok(()))
        }
    }

    /// Updating a team: the row must exist and the manager reference resolve.
    pub open spec fn updated_team(self, t: Team, stamp: i64) -> (StoreView, Result<(), RepoError>) {
        if !team_exists(self.teams, t.name@) {
            (self, Result::Err(RepoError::NotFound))
        } else if !opt_person_ref(self.people, t.manager) {
            (self, Result::Err(RepoError::InvalidReference))
        } else {
            (
                StoreView {
                    teams: self.teams.map_values(
                        |q: Team|
                            if q.name@ == t.name@ {
                                patched_team(q, t, stamp)
                            } else {
                                q
                            },
                    ),
                    ..self
                },
                Result::Ok(()),
            )
        }
    }

    /// Deleting a team removes its membership rows with it and never the
    /// person rows.
    pub open spec fn deleted_team(self, name: Seq<char>) -> (StoreView, Result<(), RepoError>) {
        if !team_exists(self.teams, name) {
            (self, Result::Err(RepoError::NotFound))
        } else {
            (
                StoreView {
                    teams: self.teams.filter(team_not(name)),
                    team_members: self.team_members.filter(member_not_team(name)),
                    ..self
                },
                Result::Ok(()),
            )
        }
    }

    /// Adding a member: the team and the person must already exist, each
    /// violation reported as its own kind — a missing team is the
    /// addressed row being absent, a missing person a dangling reference;
    /// a duplicate pair is a conflict.
    pub open spec fn add_member_check(self, team: Seq<char>, email: Seq<char>) -> Result<
        (),
        RepoError,
    > {
        if !team_exists(self.teams, team) {
            Result::Err(RepoError::NotFound)
        } else if !person_exists(self.people, email) {
            Result::Err(RepoError::InvalidReference)
        } else if has_row(self.team_members, member_with(team, email)) {
            Result::Err(RepoError::Conflict)
        } else {
            Result::Ok(())
        }
    }

    /// Removing a member: the pair must exist.
    pub open spec fn removed_member(self, team: Seq<char>, email: Seq<char>) -> (
        StoreView,
        Result<(), RepoError>,
    ) {
        if !has_row(self.team_members, member_with(team, email)) {
            (self, Result::Err(RepoError::NotFound))
        } else {
            (
                StoreView {
                    team_members: self.team_members.filter(member_not(team, email)),
                    ..self
                },
                Result::Ok(()),
            )
        }
    }
}

impl Store {
    /// The index of the team with this name, if any.
    fn find_team_idx(&self, name: &str) -> (r: Option<usize>)
        ensures
            match r {
                Option::Some(i) => i < self@.teams.len() && self@.teams[i as int].name@ == name@
                    && (forall|k: int|
                    0 <= k < i ==> (#[trigger] self@.teams[k]).name@ != name@),
                Option::None => !team_exists(self@.teams, name@),
            },
    {
        let mut i: usize = 0;
        while i < self.teams.len()
            invariant
                i <= self@.teams.len(),
                forall|k: int| 0 <= k < i ==> (#[trigger] self@.teams[k]).name@ != name@,
            decreases self@.teams.len() - i,
        {
            if str_eq(self.teams[i].name.as_str(), name) {
                return Option::Some(i);
            }
            i = i + 1;
        }
        proof {
            if team_exists(self@.teams, name@) {
                let k = choose|k: int|
                    0 <= k < self@.teams.len() && team_with(name@)(#[trigger] self@.teams[k]);
            }
        }
        Option::None
    }

    /// Is there a membership row for this team and person?
    fn find_member(&self, team: &str, email: &str) -> (r: bool)
        ensures
            r == has_row(self@.team_members, member_with(team@, email@)),
    {
        let mut i: usize = 0;
        while i < self.team_members.len()
            invariant
                i <= self@.team_members.len(),
                forall|k: int|
                    0 <= k < i ==> !((#[trigger] self@.team_members[k]).team_name@ == team@
                        && self@.team_members[k].person_email@ == email@),
            decreases self@.team_members.len() - i,
        {
            if str_eq(self.team_members[i].team_name.as_str(), team) && str_eq(
                self.team_members[i].person_email.as_str(),
                email,
            ) {
                proof {
                    assert(member_with(team@, email@)(self@.team_members[i as int]));
                }
                return true;
            }
            i = i + 1;
        }
        proof {
            if has_row(self@.team_members, member_with(team@, email@)) {
                let k = choose|k: int|
                    0 <= k < self@.team_members.len() && member_with(team@, email@)(
                        #[trigger] self@.team_members[k],
                    );
            }
        }
        false
    }

    /// Create a new team.
    pub fn create_team(&mut self, team: &Team) -> (r: Result<(), RepoError>)
        requires
            old(self)@.wf(),
        ensures
            final(self)@.wf(),
            (final(self)@, r) == old(self)@.created_team(*team),
    {
        let ghost v0 = self@;
        if let Option::Some(_) = self.find_team_idx(team.name.as_str()) {
            return Result::Err(RepoError::Conflict);
        }
        let manager_ok: bool = match &team.manager {
            Option::None => true,
            Option::Some(m) => {
                match self.find_person_idx(m.as_str()) {
                    Option::Some(_) => true,
                    Option::None => false,
                }
            },
        };
        if !manager_ok {
            return Result::Err(RepoError::InvalidReference);
        }
        self.teams.push(team.clone());
        proof {
            lemma_wf_after_team_push(v0, *team);
        }
        Result::Ok(())
    }

    /// Find a team by name; absence is not an error.
    pub fn find_by_name(&self, name: &str) -> (r: Option<Team>)
        ensures
            r == first_where(self@.teams, team_with(name@)),
    {
        match self.find_team_idx(name) {
            Option::Some(i) => {
                proof {
                    assert(team_with(name@)(self@.teams[i as int]));
                    assert(forall|k: int|
                        0 <= k < i ==> !team_with(name@)(#[trigger] self@.teams[k]));
                    lemma_first_where_at(self@.teams, team_with(name@), i as int);
                }
                Option::Some(self.teams[i].clone())
            },
            Option::None => {
                proof {
                    assert(forall|k: int|
                        0 <= k < self@.teams.len() ==> !team_with(name@)(
                            #[trigger] self@.teams[k],
                        )) by {
                        if exists|k: int|
                            0 <= k < self@.teams.len() && team_with(name@)(
                                #[trigger] self@.teams[k],
                            ) {
                            assert(team_exists(self@.teams, name@));
                        }
                    }
                    lemma_first_where_none(self@.teams, team_with(name@));
                }
                Option::None
            },
        }
    }

    /// List all teams, ordered by name.
    pub fn list_teams(&self) -> (r: Vec<Team>)
        ensures
            r@.to_multiset() == self@.teams.to_multiset(),
            sorted_by(r@, team_name_le()),
    {
        let mut out: Vec<Team> = Vec::new();
        let mut i: usize = 0;
        proof {
            broadcast use vstd::seq_lib::group_to_multiset_ensures;

            assert(self@.teams.take(0) =~= Seq::empty());
        }
        while i < self.teams.len()
            invariant
                i <= self@.teams.len(),
                out@.to_multiset() == self@.teams.take(i as int).to_multiset(),
                sorted_by(out@, team_name_le()),
            decreases self@.teams.len() - i,
        {
            let row = self.teams[i].clone();
            insert_team_sorted(&mut out, row);
            proof {
                broadcast use vstd::seq_lib::group_to_multiset_ensures;

                assert(self@.teams.take(i + 1) =~= self@.teams.take(i as int).push(
                    self@.teams[i as int],
                ));
                assert(self@.teams.take(i as int).push(self@.teams[i as int]).to_multiset()
                    =~= self@.teams.take(i as int).to_multiset().insert(self@.teams[i as int]));
            }
            i = i + 1;
        }
        proof {
            assert(self@.teams.take(self@.teams.len() as int) =~= self@.teams);
        }
        out
    }

    /// Search teams by name: case-insensitive substring match, ordered by
    /// name, capped at the page size.
    pub fn search_teams_by_name(&self, query: &str) -> (r: Vec<Team>)
        ensures
            exists|full: Seq<Team>|
                {
                    &&& (#[trigger] full.to_multiset()) == self@.teams.filter(
                        team_name_match(query@),
                    ).to_multiset()
                    &&& sorted_by(full, team_name_le())
                    &&& r@ == if full.len() <= 20 {
                        full
                    } else {
                        full.take(20)
                    }
                },
    {
        let mut out: Vec<Team> = Vec::new();
        let mut i: usize = 0;
        proof {
            broadcast use vstd::seq_lib::group_to_multiset_ensures;

            reveal(Seq::filter);
            assert(self@.teams.take(0).filter(team_name_match(query@)) =~= Seq::empty());
        }
        while i < self.teams.len()
            invariant
                i <= self@.teams.len(),
                out@.to_multiset() == self@.teams.take(i as int).filter(
                    team_name_match(query@),
                ).to_multiset(),
                sorted_by(out@, team_name_le()),
            decreases self@.teams.len() - i,
        {
            let ghost q = team_name_match(query@);
            proof {
                lemma_filter_take_step(self@.teams, q, i as int);
            }
            if name_matches(self.teams[i].name.as_str(), query) {
                let row = self.teams[i].clone();
                proof {
                    assert(q(self@.teams[i as int]));
                }
                insert_team_sorted(&mut out, row);
                proof {
                    broadcast use vstd::seq_lib::group_to_multiset_ensures;

                    assert(self@.teams.take(i + 1).filter(q) == self@.teams.take(i as int).filter(
                        q,
                    ).push(self@.teams[i as int]));
                    assert(self@.teams.take(i as int).filter(q).push(
                        self@.teams[i as int],
                    ).to_multiset() =~= self@.teams.take(i as int).filter(q).to_multiset().insert(
                        self@.teams[i as int],
                    ));
                }
            } else {
                proof {
                    assert(!q(self@.teams[i as int]));
                }
            }
            i = i + 1;
        }
        proof {
            assert(self@.teams.take(self@.teams.len() as int) =~= self@.teams);
        }
        let ghost full = out@;
        if out.len() > 20 {
            out.truncate(20);
        }
        proof {
            if full.len() <= 20 {
                assert(out@ == full);
            }
            assert(full.to_multiset() == self@.teams.filter(team_name_match(query@)).to_multiset());
        }
        out
    }

    /// Update a team: replace description and manager, re-stamping the
    /// update time.
    pub fn update_team(&mut self, team: &Team) -> (r: Result<(), RepoError>)
        requires
            old(self)@.wf(),
        ensures
            final(self)@.wf(),
            exists|stamp: i64| (final(self)@, r) == old(self)@.updated_team(*team, stamp),
    {
        let ghost v0 = self@;
        let idx = match self.find_team_idx(team.name.as_str()) {
            Option::Some(i) => i,
            Option::None => {
                proof {
                    assert((self@, Result::Err::<(), RepoError>(RepoError::NotFound))
                        == v0.updated_team(*team, 0));
                }
                return Result::Err(RepoError::NotFound);
            },
        };
        let manager_ok: bool = match &team.manager {
            Option::None => true,
            Option::Some(m) => {
                match self.find_person_idx(m.as_str()) {
                    Option::Some(_) => true,
                    Option::None => false,
                }
            },
        };
        if !manager_ok {
            proof {
                assert((self@, Result::Err::<(), RepoError>(RepoError::InvalidReference))
                    == v0.updated_team(*team, 0));
            }
            return Result::Err(RepoError::InvalidReference);
        }
        let t = now_millis();
        let prev_updated = self.teams[idx].updated_at;
        let stamp: i64 = if t >= prev_updated {
            t
        } else {
            prev_updated
        };
        let row = Team {
            name: self.teams[idx].name.clone(),
            description: clone_opt_text(&team.description),
            manager: clone_opt_text(&team.manager),
            created_at: self.teams[idx].created_at,
            updated_at: stamp,
        };
        proof {
            assert(row == patched_team(v0.teams[idx as int], *team, t));
        }
        self.teams[idx] = row;
        proof {
            lemma_after_team_update(v0, *team, t, idx as int, self@);
            assert((self@, Result::Ok::<(), RepoError>(())) == v0.updated_team(*team, t));
        }
        Result::Ok(())
    }

    /// Delete a team. Its membership rows go with it; the people stay.
    pub fn delete_team(&mut self, name: &str) -> (r: Result<(), RepoError>)
        requires
            old(self)@.wf(),
        ensures
            final(self)@.wf(),
            (final(self)@, r) == old(self)@.deleted_team(name@),
    {
        let ghost v0 = self@;
        if let Option::None = self.find_team_idx(name) {
            return Result::Err(RepoError::NotFound);
        }
        let mut kept: Vec<Team> = Vec::new();
        let mut i: usize = 0;
        proof {
            reveal(Seq::filter);
            assert(v0.teams.take(0).filter(team_not(name@)) =~= Seq::empty());
        }
        while i < self.teams.len()
            invariant
                i <= self@.teams.len(),
                self@ == v0,
                kept@ == v0.teams.take(i as int).filter(team_not(name@)),
            decreases self@.teams.len() - i,
        {
            let ghost keep = team_not(name@);
            proof {
                lemma_filter_take_step(v0.teams, keep, i as int);
            }
            if !str_eq(self.teams[i].name.as_str(), name) {
                proof {
                    assert(keep(v0.teams[i as int]));
                }
                kept.push(self.teams[i].clone());
            } else {
                proof {
                    assert(!keep(v0.teams[i as int]));
                }
            }
            i = i + 1;
        }
        proof {
            assert(v0.teams.take(v0.teams.len() as int) =~= v0.teams);
        }
        let mut kept_members: Vec<TeamMember> = Vec::new();
        let mut j: usize = 0;
        proof {
            reveal(Seq::filter);
            assert(v0.team_members.take(0).filter(member_not_team(name@)) =~= Seq::empty());
        }
        while j < self.team_members.len()
            invariant
                j <= self@.team_members.len(),
                self@ == v0,
                kept_members@ == v0.team_members.take(j as int).filter(member_not_team(name@)),
            decreases self@.team_members.len() - j,
        {
            let ghost keep = member_not_team(name@);
            proof {
                lemma_filter_take_step(v0.team_members, keep, j as int);
            }
            if !str_eq(self.team_members[j].team_name.as_str(), name) {
                proof {
                    assert(keep(v0.team_members[j as int]));
                }
                kept_members.push(self.team_members[j].clone());
            } else {
                proof {
                    assert(!keep(v0.team_members[j as int]));
                }
            }
            j = j + 1;
        }
        proof {
            assert(v0.team_members.take(v0.team_members.len() as int) =~= v0.team_members);
        }
        self.teams = kept;
        self.team_members = kept_members;
        proof {
            lemma_wf_after_team_delete(v0, name@, self@);
        }
        Result::Ok(())
    }

    /// Add a member to a team, validating both references first.
    pub fn add_member(&mut self, team_name: &str, person_email: &str) -> (r: Result<
        (),
        RepoError,
    >)
        requires
            old(self)@.wf(),
        ensures
            final(self)@.wf(),
            r == old(self)@.add_member_check(team_name@, person_email@),
            r is Err ==> final(self)@ == old(self)@,
            r is Ok ==> exists|row: TeamMember|
                {
                    &&& (#[trigger] row.team_name)@ == team_name@
                    &&& row.person_email@ == person_email@
                    &&& final(self)@ == (StoreView {
                        team_members: old(self)@.team_members.push(row),
                        ..old(self)@
                    })
                },
    {
        let ghost v0 = self@;
        if let Option::None = self.find_team_idx(team_name) {
            return Result::Err(RepoError::NotFound);
        }
        if let Option::None = self.find_person_idx(person_email) {
            return Result::Err(RepoError::InvalidReference);
        }
        if self.find_member(team_name, person_email) {
            return Result::Err(RepoError::Conflict);
        }
        let row = TeamMember::new(String::from_str(team_name), String::from_str(person_email));
        let ghost grow = row;
        self.team_members.push(row);
        proof {
            lemma_wf_after_member_push(v0, grow);
            assert(self@ == (StoreView { team_members: v0.team_members.push(grow), ..v0 }));
        }
        Result::Ok(())
    }

    /// Remove a member from a team.
    pub fn remove_member(&mut self, team_name: &str, person_email: &str) -> (r: Result<
        (),
        RepoError,
    >)
        requires
            old(self)@.wf(),
        ensures
            final(self)@.wf(),
            (final(self)@, r) == old(self)@.removed_member(team_name@, person_email@),
    {
        let ghost v0 = self@;
        if !self.find_member(team_name, person_email) {
            return Result::Err(RepoError::NotFound);
        }
        let mut kept: Vec<TeamMember> = Vec::new();
        let mut i: usize = 0;
        proof {
            reveal(Seq::filter);
            assert(v0.team_members.take(0).filter(member_not(team_name@, person_email@))
                =~= Seq::empty());
        }
        while i < self.team_members.len()
            invariant
                i <= self@.team_members.len(),
                self@ == v0,
                kept@ == v0.team_members.take(i as int).filter(
                    member_not(team_name@, person_email@),
                ),
            decreases self@.team_members.len() - i,
        {
            let ghost keep = member_not(team_name@, person_email@);
            proof {
                lemma_filter_take_step(v0.team_members, keep, i as int);
            }
            if str_eq(self.team_members[i].team_name.as_str(), team_name) && str_eq(
                self.team_members[i].person_email.as_str(),
                person_email,
            ) {
                proof {
                    assert(!keep(v0.team_members[i as int]));
                }
            } else {
                proof {
                    assert(keep(v0.team_members[i as int]));
                }
                kept.push(self.team_members[i].clone());
            }
            i = i + 1;
        }
        proof {
            assert(v0.team_members.take(v0.team_members.len() as int) =~= v0.team_members);
        }
        self.team_members = kept;
        proof {
            lemma_wf_after_members_filter(v0, member_not(team_name@, person_email@), self@);
        }
        Result::Ok(())
    }

    /// All members of a team, ordered by name. An unknown team simply has
    /// no members.
    pub fn get_members(&self, team_name: &str) -> (r: Vec<Person>)
        ensures
            r@.to_multiset() == self@.people.filter(
                person_in_team(self@.team_members, team_name@),
            ).to_multiset(),
            sorted_by(r@, person_name_le()),
    {
        let mut out: Vec<Person> = Vec::new();
        let mut i: usize = 0;
        proof {
            broadcast use vstd::seq_lib::group_to_multiset_ensures;

            reveal(Seq::filter);
            assert(self@.people.take(0).filter(person_in_team(self@.team_members, team_name@))
                =~= Seq::empty());
        }
        while i < self.people.len()
            invariant
                i <= self@.people.len(),
                out@.to_multiset() == self@.people.take(i as int).filter(
                    person_in_team(self@.team_members, team_name@),
                ).to_multiset(),
                sorted_by(out@, person_name_le()),
            decreases self@.people.len() - i,
        {
            let ghost q = person_in_team(self@.team_members, team_name@);
            proof {
                lemma_filter_take_step(self@.people, q, i as int);
            }
            if self.find_member(team_name, self.people[i].email.as_str()) {
                let row = self.people[i].clone();
                proof {
                    assert(q(self@.people[i as int]));
                }
                insert_person_sorted(&mut out, row);
                proof {
                    broadcast use vstd::seq_lib::group_to_multiset_ensures;

                    assert(self@.people.take(i + 1).filter(q) == self@.people.take(
                        i as int,
                    ).filter(q).push(self@.people[i as int]));
                    assert(self@.people.take(i as int).filter(q).push(
                        self@.people[i as int],
                    ).to_multiset() =~= self@.people.take(i as int).filter(q).to_multiset().insert(
                        self@.people[i as int],
                    ));
                }
            } else {
                proof {
                    assert(!q(self@.people[i as int]));
                }
            }
            i = i + 1;
        }
        proof {
            assert(self@.people.take(self@.people.len() as int) =~= self@.people);
        }
        out
    }
}

/// Pushing a fresh, reference-satisfying team keeps the store invariant.
proof fn lemma_wf_after_team_push(v: StoreView, t: Team)
    requires
        v.wf(),
        !team_exists(v.teams, t.name@),
        opt_person_ref(v.people, t.manager),
    ensures
        (StoreView { teams: v.teams.push(t), ..v }).wf(),
{
    let w = StoreView { teams: v.teams.push(t), ..v };
    let n = v.teams.len() as int;
    assert(forall|i: int| 0 <= i < n ==> #[trigger] w.teams[i] == v.teams[i]);
    assert(w.teams[n] == t);
    assert(w.teams_ok()) by {
        assert(forall|i: int|
            0 <= i < n ==> (#[trigger] v.teams[i]).name@ != t.name@);
    }
    assert(w.members_ok()) by {
        assert forall|i: int| 0 <= i < w.team_members.len() implies team_exists(
            w.teams,
            (#[trigger] w.team_members[i]).team_name@,
        ) && person_exists(w.people, w.team_members[i].person_email@) by {
            lemma_has_row_push(v.teams, t, team_with(v.team_members[i].team_name@));
        }
    }
    assert(w.people_ok());
    assert(w.projects_ok());
    assert(w.milestones_ok());
    assert(w.stakeholders_ok());
    assert(w.project_resources_ok());
    assert(w.milestone_resources_ok());
    assert(w.project_notes_ok());
    assert(w.milestone_notes_ok());
    assert(w.stakeholder_notes_ok());
}

/// Replacing one team's mutable fields keeps the store invariant and is
/// exactly the mapped table of `updated_team`.
proof fn lemma_after_team_update(v: StoreView, t: Team, stamp: i64, idx: int, w: StoreView)
    requires
        v.wf(),
        0 <= idx < v.teams.len(),
        v.teams[idx].name@ == t.name@,
        opt_person_ref(v.people, t.manager),
        w == (StoreView { teams: v.teams.update(idx, patched_team(v.teams[idx], t, stamp)), ..v }),
    ensures
        w.wf(),
        w == (StoreView {
            teams: v.teams.map_values(
                |q: Team|
                    if q.name@ == t.name@ {
                        patched_team(q, t, stamp)
                    } else {
                        q
                    },
            ),
            ..v
        }),
{
    let mapped = v.teams.map_values(
        |q: Team|
            if q.name@ == t.name@ {
                patched_team(q, t, stamp)
            } else {
                q
            },
    );
    assert(w.teams =~= mapped) by {
        assert forall|i: int| 0 <= i < v.teams.len() implies w.teams[i] == mapped[i] by {
            if i != idx {
                assert(v.teams[i].name@ != t.name@);
            }
        }
    }
    assert(forall|i: int|
        0 <= i < w.teams.len() ==> (#[trigger] w.teams[i]).name@ == v.teams[i].name@);
    assert forall|e: Seq<char>| true implies team_exists(w.teams, e) == team_exists(
        v.teams,
        e,
    ) by {
        lemma_has_row_same(v.teams, w.teams, team_with(e));
    }
    assert(w.teams_ok()) by {
        assert forall|i: int| 0 <= i < w.teams.len() implies opt_person_ref(
            w.people,
            (#[trigger] w.teams[i]).manager,
        ) by {
            if i == idx {
                assert(w.teams[i].manager == t.manager);
            } else {
                assert(w.teams[i] == v.teams[i]);
            }
        }
    }
    assert(w.members_ok());
    assert(w.people_ok());
    assert(w.projects_ok());
    assert(w.milestones_ok());
    assert(w.stakeholders_ok());
    assert(w.project_resources_ok());
    assert(w.milestone_resources_ok());
    assert(w.project_notes_ok());
    assert(w.milestone_notes_ok());
    assert(w.stakeholder_notes_ok());
}

/// Removing a team and its membership rows keeps the store invariant.
proof fn lemma_wf_after_team_delete(v: StoreView, name: Seq<char>, w: StoreView)
    requires
        v.wf(),
        w == (StoreView {
            teams: v.teams.filter(team_not(name)),
            team_members: v.team_members.filter(member_not_team(name)),
            ..v
        }),
    ensures
        w.wf(),
{
    let keep_t = team_not(name);
    let keep_m = member_not_team(name);
    lemma_filter_membership(v.teams, keep_t);
    lemma_filter_membership(v.team_members, keep_m);
    assert(w.teams_ok()) by {
        lemma_filter_pairwise(v.teams, keep_t, |a: Team, b: Team| a.name@ != b.name@);
        assert forall|i: int| 0 <= i < w.teams.len() implies opt_person_ref(
            w.people,
            (#[trigger] w.teams[i]).manager,
        ) by {
            let k = choose|k: int| 0 <= k < v.teams.len() && v.teams[k] == w.teams[i];
        }
    }
    assert(w.members_ok()) by {
        lemma_filter_pairwise(
            v.team_members,
            keep_m,
            |a: TeamMember, b: TeamMember|
                !(a.team_name@ == b.team_name@ && a.person_email@ == b.person_email@),
        );
        assert forall|i: int| 0 <= i < w.team_members.len() implies team_exists(
            w.teams,
            (#[trigger] w.team_members[i]).team_name@,
        ) && person_exists(w.people, w.team_members[i].person_email@) by {
            let q = w.team_members[i];
            let k = choose|k: int| 0 <= k < v.team_members.len() && v.team_members[k] == q;
            assert(q.team_name@ != name);
            assert(team_exists(v.teams, q.team_name@));
            let j = choose|j: int|
                0 <= j < v.teams.len() && team_with(q.team_name@)(#[trigger] v.teams[j]);
            lemma_has_row_filter(v.teams, keep_t, team_with(q.team_name@));
        }
    }
    assert(w.people_ok());
    assert(w.projects_ok());
    assert(w.milestones_ok());
    assert(w.stakeholders_ok());
    assert(w.project_resources_ok());
    assert(w.milestone_resources_ok());
    assert(w.project_notes_ok());
    assert(w.milestone_notes_ok());
    assert(w.stakeholder_notes_ok());
}

/// Pushing a membership row whose team and person exist keeps the invariant.
proof fn lemma_wf_after_member_push(v: StoreView, m: TeamMember)
    requires
        v.wf(),
        team_exists(v.teams, m.team_name@),
        person_exists(v.people, m.person_email@),
        !has_row(v.team_members, member_with(m.team_name@, m.person_email@)),
    ensures
        (StoreView { team_members: v.team_members.push(m), ..v }).wf(),
{
    let w = StoreView { team_members: v.team_members.push(m), ..v };
    let n = v.team_members.len() as int;
    assert(forall|i: int| 0 <= i < n ==> #[trigger] w.team_members[i] == v.team_members[i]);
    assert(w.team_members[n] == m);
    assert(w.members_ok()) by {
        assert forall|i: int, j: int|
            0 <= i < j < w.team_members.len() implies !((
        #[trigger] w.team_members[i]).team_name@ == (#[trigger] w.team_members[j]).team_name@
            && w.team_members[i].person_email@ == w.team_members[j].person_email@) by {
            if j == n && w.team_members[i].team_name@ == m.team_name@
                && w.team_members[i].person_email@ == m.person_email@ {
                assert(member_with(m.team_name@, m.person_email@)(v.team_members[i]));
            }
        }
    }
    assert(w.people_ok());
    assert(w.teams_ok());
    assert(w.projects_ok());
    assert(w.milestones_ok());
    assert(w.stakeholders_ok());
    assert(w.project_resources_ok());
    assert(w.milestone_resources_ok());
    assert(w.project_notes_ok());
    assert(w.milestone_notes_ok());
    assert(w.stakeholder_notes_ok());
}

/// Dropping membership rows by any predicate keeps the invariant: nothing
/// references them.
proof fn lemma_wf_after_members_filter(
    v: StoreView,
    keep: spec_fn(TeamMember) -> bool,
    w: StoreView,
)
    requires
        v.wf(),
        w == (StoreView { team_members: v.team_members.filter(keep), ..v }),
    ensures
        w.wf(),
{
    lemma_filter_membership(v.team_members, keep);
    assert(w.members_ok()) by {
        lemma_filter_pairwise(
            v.team_members,
            keep,
            |a: TeamMember, b: TeamMember|
                !(a.team_name@ == b.team_name@ && a.person_email@ == b.person_email@),
        );
        assert forall|i: int| 0 <= i < w.team_members.len() implies team_exists(
            w.teams,
            (#[trigger] w.team_members[i]).team_name@,
        ) && person_exists(w.people, w.team_members[i].person_email@) by {
            let q = w.team_members[i];
            let k = choose|k: int| 0 <= k < v.team_members.len() && v.team_members[k] == q;
        }
    }
    assert(w.people_ok());
    assert(w.teams_ok());
    assert(w.projects_ok());
    assert(w.milestones_ok());
    assert(w.stakeholders_ok());
    assert(w.project_resources_ok());
    assert(w.milestone_resources_ok());
    assert(w.project_notes_ok());
    assert(w.milestone_notes_ok());
    assert(w.stakeholder_notes_ok());
}

/// Insert a team into a name-sorted vector, keeping it sorted.
pub(crate) fn insert_team_sorted(v: &mut Vec<Team>, x: Team)
    requires
        sorted_by(old(v)@, team_name_le()),
    ensures
        final(v)@.to_multiset() == old(v)@.to_multiset().insert(x),
        sorted_by(final(v)@, team_name_le()),
{
    let mut j: usize = 0;
    let mut found: bool = false;
    while !found && j < v.len()
        invariant
            j <= v@.len(),
            sorted_by(v@, team_name_le()),
            forall|k: int| 0 <= k < j ==> team_name_le()(#[trigger] v@[k], x),
            found ==> j < v@.len() && team_name_le()(x, v@[j as int]),
        decreases v@.len() - j + (if found { 0int } else { 1int }),
    {
        let ghost leq = team_name_le();
        if str_le(x.name.as_str(), v[j].name.as_str()) {
            found = true;
            proof {
                assert(leq(x, v@[j as int]));
            }
        } else {
            proof {
                crate::strkit::lemma_chars_le_total(x.name@, v@[j as int].name@);
                assert(leq(v@[j as int], x));
            }
            j = j + 1;
        }
    }
    proof {
        let leq = team_name_le();
        if (j as int) < v@.len() {
            assert(leq(x, v@[j as int]));
            assert forall|k: int| j <= k < v@.len() implies leq(x, #[trigger] v@[k]) by {
                if k > j {
                    assert(leq(v@[j as int], v@[k]));
                    crate::strkit::lemma_chars_le_trans(x.name@, v@[j as int].name@, v@[k].name@);
                }
            }
        }
        crate::seqkit::lemma_sorted_insert(v@, j as int, x, leq);
        crate::seqkit::lemma_insert_to_multiset(v@, j as int, x);
    }
    v.insert(j, x);
}

} // verus!
