//! The schema manager: table creation and the forward-only, idempotent
//! migration engine over a version ledger.
//!
//! The schema is modelled by which tables and columns exist and by the
//! ledger of applied versions. Creating the base tables brings in every
//! column except the later `team` additions; each migration step first
//! probes whether its column is already there, adds it only if missing,
//! and then records its version in the ledger, so re-running the whole
//! sequence on a current schema changes nothing.

use vstd::prelude::*;
use crate::err::RepoError;
use crate::utils::now_millis;

verus! {

/// One row of the version ledger.
#[derive(Clone, Copy, Debug, PartialEq, Eq, Structural)]
pub struct VersionEntry {
    /// The migration version recorded.
    pub version: i32,
    /// When it was recorded (UTC milliseconds).
    pub applied_at: i64,
}

/// The mathematical shape of the schema.
pub struct SchemaV {
    /// The base tables exist.
    pub tables_created: bool,
    /// `projects` has its `type` column.
    pub projects_has_type: bool,
    /// `project_notes` has its `updated_at` column.
    pub project_notes_has_updated_at: bool,
    /// `milestone_notes` has its `updated_at` column.
    pub milestone_notes_has_updated_at: bool,
    /// `stakeholder_notes` has its `updated_at` column.
    pub stakeholder_notes_has_updated_at: bool,
    /// `projects` has its `team` column.
    pub projects_has_team: bool,
    /// `milestones` has its `team` column.
    pub milestones_has_team: bool,
    /// The version ledger, in recording order.
    pub versions: Seq<VersionEntry>,
}

/// The ledger records version `v`.
pub open spec fn has_version(s: Seq<VersionEntry>, v: int) -> bool {
    exists|i: int| 0 <= i < s.len() && #[trigger] s[i].version == v
}

/// The highest version the ledger records.
pub open spec fn ledger_max(s: Seq<VersionEntry>) -> int
    decreases s.len(),
{
    if s.len() == 0 {
        0
    } else if s.len() == 1 {
        s[0].version as int
    } else if s.last().version as int > ledger_max(s.drop_last()) {
        s.last().version as int
    } else {
        ledger_max(s.drop_last())
    }
}

/// Appending an entry raises the maximum exactly to it, if above.
pub proof fn lemma_ledger_max_push(s: Seq<VersionEntry>, e: VersionEntry)
    ensures
        ledger_max(s.push(e)) == if s.len() == 0 || e.version as int > ledger_max(s) {
            e.version as int
        } else {
            ledger_max(s)
        },
{
    assert(s.push(e).drop_last() =~= s);
    assert(s.push(e).last() == e);
}

/// The maximum is recorded, and nothing above it is.
pub proof fn lemma_ledger_max_props(s: Seq<VersionEntry>)
    requires
        s.len() > 0,
    ensures
        has_version(s, ledger_max(s)),
        forall|v: int| has_version(s, v) ==> v <= ledger_max(s),
    decreases s.len(),
{
    if s.len() == 1 {
        assert(s[0].version == ledger_max(s));
    } else {
        lemma_ledger_max_props(s.drop_last());
        let m = ledger_max(s.drop_last());
        let i = choose|i: int| 0 <= i < s.drop_last().len() && #[trigger] s.drop_last()[i].version == m;
        assert(s[i].version == m);
        assert(s[s.len() - 1] == s.last());
        assert(ledger_max(s) >= m);
        assert(ledger_max(s) >= s.last().version);
        assert forall|v: int| has_version(s, v) implies v <= ledger_max(s) by {
            let j = choose|j: int| 0 <= j < s.len() && #[trigger] s[j].version == v;
            if j < s.len() - 1 {
                assert(s.drop_last()[j].version == v);
                assert(has_version(s.drop_last(), v));
                assert(v <= m);
            } else {
                assert(s[j] == s.last());
            }
        }
    }
}

/// Record `v` in a ledger, unless it is already there.
pub open spec fn ledger_record(s: Seq<VersionEntry>, v: i32, t: i64) -> Seq<VersionEntry> {
    if has_version(s, v as int) {
        s
    } else {
        s.push(VersionEntry { version: v, applied_at: t })
    }
}

impl SchemaV {
    /// A database file with no tables at all.
    pub open spec fn empty() -> SchemaV {
        SchemaV {
            tables_created: false,
            projects_has_type: false,
            project_notes_has_updated_at: false,
            milestone_notes_has_updated_at: false,
            stakeholder_notes_has_updated_at: false,
            projects_has_team: false,
            milestones_has_team: false,
            versions: Seq::empty(),
        }
    }

    /// Base-table creation: tables that are missing are created with every
    /// column but the `team` additions, existing tables are left alone, and
    /// version 1 is recorded if absent.
    pub open spec fn initialized(self, t: i64) -> SchemaV {
        SchemaV {
            tables_created: true,
            projects_has_type: self.projects_has_type || !self.tables_created,
            project_notes_has_updated_at: self.project_notes_has_updated_at
                || !self.tables_created,
            milestone_notes_has_updated_at: self.milestone_notes_has_updated_at
                || !self.tables_created,
            stakeholder_notes_has_updated_at: self.stakeholder_notes_has_updated_at
                || !self.tables_created,
            projects_has_team: self.projects_has_team,
            milestones_has_team: self.milestones_has_team,
            versions: ledger_record(self.versions, 1, t),
        }
    }

    /// The step to version 2: the `type` column on `projects`.
    pub open spec fn step_two(self, t: i64) -> SchemaV {
        SchemaV {
            projects_has_type: true,
            versions: ledger_record(self.versions, 2, t),
            ..self
        }
    }

    /// The step to version 3: `updated_at` on the three note tables.
    pub open spec fn step_three(self, t: i64) -> SchemaV {
        SchemaV {
            project_notes_has_updated_at: true,
            milestone_notes_has_updated_at: true,
            stakeholder_notes_has_updated_at: true,
            versions: ledger_record(self.versions, 3, t),
            ..self
        }
    }

    /// The step to version 4: the `team` column on `projects` and `milestones`.
    pub open spec fn step_four(self, t: i64) -> SchemaV {
        SchemaV {
            projects_has_team: true,
            milestones_has_team: true,
            versions: ledger_record(self.versions, 4, t),
            ..self
        }
    }

    /// The full migration run: read the current version once, then apply
    /// every pending step in increasing order, recording each. Without
    /// tables or a ledger row there is nothing to migrate against, which
    /// is an engine failure.
    pub open spec fn migrated(self, t: i64) -> (SchemaV, Result<(), RepoError>) {
        if !self.tables_created || self.versions.len() == 0 {
            (self, Result::Err(RepoError::StorageFailure))
        } else {
            let cur = ledger_max(self.versions);
            let a = if cur < 2 {
                self.step_two(t)
            } else {
                self
            };
            let b = if cur < 3 {
                a.step_three(t)
            } else {
                a
            };
            let c = if cur < 4 {
                b.step_four(t)
            } else {
                b
            };
            (c, Result::Ok(()))
        }
    }
}

/// The schema as held by a live store.
#[derive(Debug)]
pub struct SchemaState {
    /// The base tables exist.
    pub tables_created: bool,
    /// `projects` has its `type` column.
    pub projects_has_type: bool,
    /// `project_notes` has its `updated_at` column.
    pub project_notes_has_updated_at: bool,
    /// `milestone_notes` has its `updated_at` column.
    pub milestone_notes_has_updated_at: bool,
    /// `stakeholder_notes` has its `updated_at` column.
    pub stakeholder_notes_has_updated_at: bool,
    /// `projects` has its `team` column.
    pub projects_has_team: bool,
    /// `milestones` has its `team` column.
    pub milestones_has_team: bool,
    /// The version ledger, in recording order.
    pub versions: Vec<VersionEntry>,
}

impl View for SchemaState {
    type V = SchemaV;

    open spec fn view(&self) -> SchemaV {
        SchemaV {
            tables_created: self.tables_created,
            projects_has_type: self.projects_has_type,
            project_notes_has_updated_at: self.project_notes_has_updated_at,
            milestone_notes_has_updated_at: self.milestone_notes_has_updated_at,
            stakeholder_notes_has_updated_at: self.stakeholder_notes_has_updated_at,
            projects_has_team: self.projects_has_team,
            milestones_has_team: self.milestones_has_team,
            versions: self.versions@,
        }
    }
}

impl SchemaState {
    /// The schema of a database file that does not exist yet.
    pub fn new_empty() -> (s: SchemaState)
        ensures
            s@ == SchemaV::empty(),
    {
        let s = SchemaState {
            tables_created: false,
            projects_has_type: false,
            project_notes_has_updated_at: false,
            milestone_notes_has_updated_at: false,
            stakeholder_notes_has_updated_at: false,
            projects_has_team: false,
            milestones_has_team: false,
            versions: Vec::new(),
        };
        proof {
            assert(s@.versions =~= SchemaV::empty().versions);
        }
        s
    }
}

/// Does the ledger already record this version?
fn ledger_has(v: &Vec<VersionEntry>, ver: i32) -> (r: bool)
    ensures
        r == has_version(v@, ver as int),
{
    let mut i: usize = 0;
    while i < v.len()
        invariant
            i <= v@.len(),
            forall|k: int| 0 <= k < i ==> #[trigger] v@[k].version != ver,
        decreases v@.len() - i,
    {
        if v[i].version == ver {
            return true;
        }
        i = i + 1;
    }
    false
}

/// Record a version in the ledger unless it is already there
/// (the insert-or-ignore of the engine).
fn ledger_push(v: &mut Vec<VersionEntry>, ver: i32, t: i64)
    ensures
        final(v)@ == ledger_record(old(v)@, ver, t),
{
    if !ledger_has(v, ver) {
        v.push(VersionEntry { version: ver, applied_at: t });
    }
}

/// Create all tables and indexes if missing and record the initial version.
///
/// Creating the base tables is idempotent: tables that exist are left as
/// they are, and the initial ledger row is inserted only once.
pub fn initialize_schema(s: &mut SchemaState)
    ensures
        exists|t: i64| final(s)@ == old(s)@.initialized(t),
{
    let t = now_millis();
    if !s.tables_created {
        s.tables_created = true;
        s.projects_has_type = true;
        s.project_notes_has_updated_at = true;
        s.milestone_notes_has_updated_at = true;
        s.stakeholder_notes_has_updated_at = true;
    }
    ledger_push(&mut s.versions, 1, t);
    proof {
        assert(final(s)@ == old(s)@.initialized(t));
    }
}

/// The current schema version: the highest the ledger records.
/// An empty ledger cannot be read, which is an engine failure.
pub fn get_schema_version(s: &SchemaState) -> (r: Result<i32, RepoError>)
    ensures
        match r {
            Result::Ok(v) => s@.versions.len() > 0 && v as int == ledger_max(s@.versions),
            Result::Err(e) => s@.versions.len() == 0 && e == RepoError::StorageFailure,
        },
{
    if s.versions.len() == 0 {
        return Result::Err(RepoError::StorageFailure);
    }
    let mut m: i32 = s.versions[0].version;
    let mut i: usize = 1;
    proof {
        assert(s.versions@.take(1).drop_last() =~= s.versions@.take(0));
        assert(s.versions@.take(1) =~= seq![s.versions@[0]]);
    }
    while i < s.versions.len()
        invariant
            1 <= i <= s@.versions.len(),
            m as int == ledger_max(s@.versions.take(i as int)),
        decreases s@.versions.len() - i,
    {
        proof {
            assert(s@.versions.take(i + 1).drop_last() =~= s@.versions.take(i as int));
            assert(s@.versions.take(i + 1).last() == s@.versions[i as int]);
            assert(s@.versions.take(i + 1).len() == i + 1 >= 2);
        }
        if s.versions[i].version > m {
            m = s.versions[i].version;
        }
        i = i + 1;
    }
    proof {
        assert(s@.versions.take(s@.versions.len() as int) =~= s@.versions);
    }
    Result::Ok(m)
}

/// Apply every pending migration, in strictly increasing order, each step
/// probing for its column before adding it and recording its version
/// unconditionally.
pub fn apply_migrations(s: &mut SchemaState) -> (r: Result<(), RepoError>)
    ensures
        exists|t: i64| (final(s)@, r) == old(s)@.migrated(t),
{
    let ghost s0 = s@;
    if !s.tables_created {
        proof {
            assert((final(s)@, Result::Err::<(), RepoError>(RepoError::StorageFailure)) == s0.migrated(0));
        }
        return Result::Err(RepoError::StorageFailure);
    }
    let cur = match get_schema_version(s) {
        Result::Ok(v) => v,
        Result::Err(e) => {
            proof {
                assert((final(s)@, Result::Err::<(), RepoError>(RepoError::StorageFailure)) == s0.migrated(0));
            }
            return Result::Err(e);
        },
    };
    let t = now_millis();
    if cur < 2 {
        if !s.projects_has_type {
            s.projects_has_type = true;
        }
        ledger_push(&mut s.versions, 2, t);
        proof {
            assert(s@ == s0.step_two(t));
        }
    }
    let ghost s2 = s@;
    if cur < 3 {
        if !s.project_notes_has_updated_at {
            s.project_notes_has_updated_at = true;
        }
        if !s.milestone_notes_has_updated_at {
            s.milestone_notes_has_updated_at = true;
        }
        if !s.stakeholder_notes_has_updated_at {
            s.stakeholder_notes_has_updated_at = true;
        }
        ledger_push(&mut s.versions, 3, t);
        proof {
            assert(s@ == s2.step_three(t));
        }
    }
    let ghost s3 = s@;
    if cur < 4 {
        if !s.projects_has_team {
            s.projects_has_team = true;
        }
        if !s.milestones_has_team {
            s.milestones_has_team = true;
        }
        ledger_push(&mut s.versions, 4, t);
        proof {
            assert(s@ == s3.step_four(t));
        }
    }
    proof {
        assert((final(s)@, Result::Ok::<(), RepoError>(())) == s0.migrated(t));
    }
    Result::Ok(())
}

} // verus!
