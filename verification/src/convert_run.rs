//! A conversion run as a state machine: the order in which each game taken
//! up by a conversion is inspected, decoded, written in the new format,
//! checked, and then either recorded or reverted. The caller performs each
//! action and reports how it went; the machine decides what comes next.

use crate::archive::{archive_type_name, ArchiveType};
use crate::common::{ids_unique, rom_located, romfile_path, games_located};
use crate::convert_roms::{
    holds_disk, is_arcade_chd, unarchived_positions, unarchived_roms, xso_archive_eligible, ArchiveRoutes, ChdRoutes,
    NszRoutes, OriginalRoutes, RvzRoutes, XsoRoutes,
};
use crate::common::ISO_EXTENSION;
use crate::model::{Rom, Romfile};
use crate::text::{chars_of, has_suffix};
use vstd::prelude::*;

verus! {

/// Which routed list a job's game comes from.
#[derive(Clone, Copy, Debug, PartialEq, Eq, Structural)]
pub enum Route {
    Archives,
    CueBins,
    Isos,
    Csos,
    Zsos,
    Nsps,
    Nszs,
    Rvzs,
    Chds,
    Others,
}

/// What a failed check removes before the game is left as it was.
#[derive(Clone, Copy, Debug, PartialEq, Eq, Structural)]
pub enum Revert {
    /// Nothing: what was written lies in the scratch directory.
    Keep,
    /// The first file written (the archive or image every output went into).
    DeleteFirst,
    /// Every file written.
    DeleteAll,
}

/// The work done for one game.
#[derive(Clone, Copy, Debug, PartialEq, Eq, Structural)]
pub struct ConversionJob {
    /// The routed list the game is in, and its position there.
    pub route: Route,
    pub game: usize,
    /// Whether the game is first inspected: a tool to find, children or a
    /// `chdman` version that rule it out.
    pub guarded: bool,
    /// Whether the source is first decoded (extracted, unpacked) to the
    /// scratch directory.
    pub decode: bool,
    /// How many files are written, each checked in turn.
    pub outputs: usize,
    /// Whether every output is checked, each failed one dropped on its own;
    /// otherwise checking stops at the first failure, which reverts the game.
    pub check_all: bool,
    pub revert: Revert,
    /// Whether the game's changes are committed even after a failed check.
    pub commit_after_failure: bool,
    /// Whether the new file takes the source's path (recompression).
    pub rename_to_source: bool,
}

/// Where a run stands.
#[derive(Clone, Copy, Debug, PartialEq, Eq, Structural)]
pub enum Phase {
    Inspecting,
    Decoding,
    Creating,
    /// Output `k` is being checked.
    Checking(usize),
    /// Output `k` failed and is being dropped.
    Dropping(usize),
    Reverting,
    Persisting,
    /// The game's transaction is being committed or rolled back.
    Closing,
    Done,
}

/// How the last action went.
#[derive(Clone, Copy, Debug, PartialEq, Eq, Structural)]
pub enum ConversionEvent {
    /// The answer to [`ConversionAction::Inspect`].
    Inspected { tool_missing: bool, has_children: bool, needs_newer_chdman: bool },
    /// The action is done.
    StepDone,
    /// The output checked passed or not.
    Checked(bool),
    /// The action failed: the run ends with that error.
    Failed,
}

/// What the caller does next.
#[derive(Clone, Copy, Debug, PartialEq, Eq, Structural)]
pub enum ConversionAction {
    /// Find the tool the job needs, whether the source has children, and
    /// whether `chdman` is too old to split its tracks.
    Inspect(usize),
    /// Decode the source of a job into the scratch directory.
    Decode(usize),
    /// Write the job's outputs.
    Create(usize),
    /// Check output `k` of a job against its ROM.
    CheckOutput(usize, usize),
    /// Drop output `k` of a job, which failed its check.
    DeleteOutput(usize, usize),
    /// Remove what a job wrote, as said.
    Revert(usize, Revert),
    /// Record the job: the steps of `persist_steps(true, diff, rename_to_source)`.
    Persist { job: usize, diff: bool, rename_to_source: bool },
    /// Commit the job's transaction.
    Commit(usize),
    /// Drop the job's transaction, leaving the game as it was.
    Rollback(usize),
    /// Every job is done.
    Finished,
    /// A tool is missing: the run stops without an error.
    Stopped,
    /// An action failed: the run stops with its error.
    Aborted,
    /// The event does not answer the last action; nothing changes.
    Ignored,
}

/// A conversion run.
#[derive(Clone, Debug)]
pub struct ConversionRun {
    pub jobs: Vec<ConversionJob>,
    /// Whether outputs are checked.
    pub check: bool,
    /// Whether sizes before and after are reported.
    pub diff: bool,
    /// The job in hand.
    pub current: usize,
    pub phase: Phase,
    /// How many outputs of the job in hand failed their check.
    pub failures: usize,
}

/// `s` at job `current`, in `phase`, with `failures`.
pub open spec fn at(s: ConversionRun, current: int, phase: Phase, failures: int) -> ConversionRun {
    ConversionRun { jobs: s.jobs, check: s.check, diff: s.diff, current: current as usize, phase, failures: failures as usize }
}

/// The work of job `j` begins: with decoding when it has some, else with
/// writing.
pub open spec fn start_work(s: ConversionRun, j: int) -> (ConversionRun, ConversionAction) {
    if s.jobs@[j].decode {
        (at(s, j, Phase::Decoding, 0), ConversionAction::Decode(j as usize))
    } else {
        (at(s, j, Phase::Creating, 0), ConversionAction::Create(j as usize))
    }
}

/// Job `j` begins, or the run finishes when there is none.
pub open spec fn begin_job(s: ConversionRun, j: int) -> (ConversionRun, ConversionAction) {
    if j >= s.jobs@.len() {
        (at(s, s.jobs@.len() as int, Phase::Done, 0), ConversionAction::Finished)
    } else if s.jobs@[j].guarded {
        (at(s, j, Phase::Inspecting, 0), ConversionAction::Inspect(j as usize))
    } else {
        start_work(s, j)
    }
}

/// The job in hand is recorded and committed; with no outputs there is
/// nothing to record.
pub open spec fn persist(s: ConversionRun) -> (ConversionRun, ConversionAction) {
    let j = s.current as int;
    if s.jobs@[j].outputs == 0 {
        (at(s, j, Phase::Closing, 0), ConversionAction::Commit(j as usize))
    } else {
        (
            at(s, j, Phase::Persisting, 0),
            ConversionAction::Persist { job: j as usize, diff: s.diff, rename_to_source: s.jobs@[j].rename_to_source },
        )
    }
}

/// The job in hand failed its check: it is closed without being recorded.
pub open spec fn close_failed(s: ConversionRun) -> (ConversionRun, ConversionAction) {
    let j = s.current as int;
    if s.jobs@[j].commit_after_failure {
        (at(s, j, Phase::Closing, s.failures as int), ConversionAction::Commit(j as usize))
    } else {
        (at(s, j, Phase::Closing, s.failures as int), ConversionAction::Rollback(j as usize))
    }
}

/// After output `k` of the job in hand: the next output is checked, or the
/// job is recorded when none failed, or closed when some did.
pub open spec fn after_output(s: ConversionRun, k: int) -> (ConversionRun, ConversionAction) {
    let j = s.current as int;
    if k + 1 < s.jobs@[j].outputs {
        (at(s, j, Phase::Checking((k + 1) as usize), s.failures as int), ConversionAction::CheckOutput(j as usize, (k + 1) as usize))
    } else if s.failures == 0 {
        persist(s)
    } else {
        close_failed(s)
    }
}

/// The job in hand has been written: its outputs are checked when asked,
/// else it is recorded.
pub open spec fn after_create(s: ConversionRun) -> (ConversionRun, ConversionAction) {
    let j = s.current as int;
    if s.check && s.jobs@[j].outputs > 0 {
        (at(s, j, Phase::Checking(0), 0), ConversionAction::CheckOutput(j as usize, 0))
    } else {
        persist(s)
    }
}

/// The next state and action of a run on an event.
pub open spec fn conversion_transition(s: ConversionRun, e: ConversionEvent) -> (ConversionRun, ConversionAction) {
    let j = s.current as int;
    match s.phase {
        Phase::Done => (s, ConversionAction::Ignored),
        _ => match e {
            ConversionEvent::Failed => (at(s, j, Phase::Done, 0), ConversionAction::Aborted),
            ConversionEvent::Inspected { tool_missing, has_children, needs_newer_chdman } => match s.phase {
                Phase::Inspecting => if tool_missing {
                    (at(s, j, Phase::Done, 0), ConversionAction::Stopped)
                } else if has_children || needs_newer_chdman {
                    (at(s, j, Phase::Closing, 0), ConversionAction::Rollback(j as usize))
                } else {
                    start_work(s, j)
                },
                _ => (s, ConversionAction::Ignored),
            },
            ConversionEvent::StepDone => match s.phase {
                Phase::Decoding => (at(s, j, Phase::Creating, 0), ConversionAction::Create(j as usize)),
                Phase::Creating => after_create(s),
                Phase::Dropping(k) => after_output(s, k as int),
                Phase::Reverting => close_failed(s),
                Phase::Persisting => (at(s, j, Phase::Closing, 0), ConversionAction::Commit(j as usize)),
                Phase::Closing => begin_job(s, j + 1),
                _ => (s, ConversionAction::Ignored),
            },
            ConversionEvent::Checked(passed) => match s.phase {
                Phase::Checking(k) => if passed {
                    after_output(s, k as int)
                } else if s.jobs@[j].check_all {
                    (at(s, j, Phase::Dropping(k), s.failures + 1), ConversionAction::DeleteOutput(j as usize, k))
                } else {
                    (at(s, j, Phase::Reverting, s.failures + 1), ConversionAction::Revert(j as usize, s.jobs@[j].revert))
                },
                _ => (s, ConversionAction::Ignored),
            },
        },
    }
}

impl ConversionRun {
    /// The run is consistent: a job in hand while not done, an output in
    /// range while checking, failures counted only among checked outputs.
    pub open spec fn wf(&self) -> bool {
        &&& self.current <= self.jobs@.len()
        &&& self.phase != Phase::Done ==> self.current < self.jobs@.len()
        &&& match self.phase {
            Phase::Checking(k) => k < self.jobs@[self.current as int].outputs && self.failures <= k,
            Phase::Dropping(k) => k < self.jobs@[self.current as int].outputs && 0 < self.failures <= k + 1,
            Phase::Reverting => self.failures <= self.jobs@[self.current as int].outputs,
            Phase::Closing => self.failures <= self.jobs@[self.current as int].outputs,
            _ => self.failures == 0,
        }
    }
}

/// A run of `jobs`, before its first action.
pub open spec fn fresh_run(jobs: Vec<ConversionJob>, check: bool, diff: bool) -> ConversionRun {
    ConversionRun { jobs, check, diff, current: 0, phase: Phase::Closing, failures: 0 }
}

/// Start a run of `jobs`: the first job begins, or the run finishes at once.
pub fn start_run(jobs: Vec<ConversionJob>, check: bool, diff: bool) -> (r: (ConversionRun, ConversionAction))
    ensures
        r == begin_job(fresh_run(jobs, check, diff), 0),
        r.0.wf(),
{
    let s = ConversionRun { jobs, check, diff, current: 0, phase: Phase::Closing, failures: 0 };
    begin_job_exec(s, 0)
}

fn at_exec(s: ConversionRun, current: usize, phase: Phase, failures: usize) -> (r: ConversionRun)
    ensures
        r == at(s, current as int, phase, failures as int),
{
    ConversionRun { jobs: s.jobs, check: s.check, diff: s.diff, current, phase, failures }
}

fn start_work_exec(s: ConversionRun, j: usize) -> (r: (ConversionRun, ConversionAction))
    requires
        j < s.jobs@.len(),
    ensures
        r == start_work(s, j as int),
        r.0.wf(),
{
    if s.jobs[j].decode {
        (at_exec(s, j, Phase::Decoding, 0), ConversionAction::Decode(j))
    } else {
        (at_exec(s, j, Phase::Creating, 0), ConversionAction::Create(j))
    }
}

fn begin_job_exec(s: ConversionRun, j: usize) -> (r: (ConversionRun, ConversionAction))
    requires
        j <= s.jobs@.len(),
    ensures
        r == begin_job(s, j as int),
        r.0.wf(),
{
    if j >= s.jobs.len() {
        let n = s.jobs.len();
        (at_exec(s, n, Phase::Done, 0), ConversionAction::Finished)
    } else if s.jobs[j].guarded {
        (at_exec(s, j, Phase::Inspecting, 0), ConversionAction::Inspect(j))
    } else {
        start_work_exec(s, j)
    }
}

fn persist_exec(s: ConversionRun) -> (r: (ConversionRun, ConversionAction))
    requires
        s.current < s.jobs@.len(),
    ensures
        r == persist(s),
        r.0.wf(),
{
    let j = s.current;
    if s.jobs[j].outputs == 0 {
        (at_exec(s, j, Phase::Closing, 0), ConversionAction::Commit(j))
    } else {
        let diff = s.diff;
        let rename_to_source = s.jobs[j].rename_to_source;
        (at_exec(s, j, Phase::Persisting, 0), ConversionAction::Persist { job: j, diff, rename_to_source })
    }
}

fn close_failed_exec(s: ConversionRun) -> (r: (ConversionRun, ConversionAction))
    requires
        s.current < s.jobs@.len(),
        s.failures <= s.jobs@[s.current as int].outputs,
    ensures
        r == close_failed(s),
        r.0.wf(),
{
    let j = s.current;
    let f = s.failures;
    if s.jobs[j].commit_after_failure {
        (at_exec(s, j, Phase::Closing, f), ConversionAction::Commit(j))
    } else {
        (at_exec(s, j, Phase::Closing, f), ConversionAction::Rollback(j))
    }
}

fn after_output_exec(s: ConversionRun, k: usize) -> (r: (ConversionRun, ConversionAction))
    requires
        s.current < s.jobs@.len(),
        k < s.jobs@[s.current as int].outputs,
        s.failures <= k + 1,
    ensures
        r == after_output(s, k as int),
        r.0.wf(),
{
    let j = s.current;
    let f = s.failures;
    if k + 1 < s.jobs[j].outputs {
        (at_exec(s, j, Phase::Checking(k + 1), f), ConversionAction::CheckOutput(j, k + 1))
    } else if f == 0 {
        persist_exec(s)
    } else {
        close_failed_exec(s)
    }
}

fn after_create_exec(s: ConversionRun) -> (r: (ConversionRun, ConversionAction))
    requires
        s.current < s.jobs@.len(),
    ensures
        r == after_create(s),
        r.0.wf(),
{
    let j = s.current;
    if s.check && s.jobs[j].outputs > 0 {
        (at_exec(s, j, Phase::Checking(0), 0), ConversionAction::CheckOutput(j, 0))
    } else {
        persist_exec(s)
    }
}

/// One step of a conversion run: the state and action that follow `event`.
pub fn conversion_next(s: ConversionRun, event: ConversionEvent) -> (r: (ConversionRun, ConversionAction))
    requires
        s.wf(),
    ensures
        r == conversion_transition(s, event),
        r.0.wf(),
{
    let j = s.current;
    match s.phase {
        Phase::Done => (s, ConversionAction::Ignored),
        phase => match event {
            ConversionEvent::Failed => (at_exec(s, j, Phase::Done, 0), ConversionAction::Aborted),
            ConversionEvent::Inspected { tool_missing, has_children, needs_newer_chdman } => match phase {
                Phase::Inspecting => if tool_missing {
                    (at_exec(s, j, Phase::Done, 0), ConversionAction::Stopped)
                } else if has_children || needs_newer_chdman {
                    (at_exec(s, j, Phase::Closing, 0), ConversionAction::Rollback(j))
                } else {
                    start_work_exec(s, j)
                },
                _ => (s, ConversionAction::Ignored),
            },
            ConversionEvent::StepDone => match phase {
                Phase::Decoding => (at_exec(s, j, Phase::Creating, 0), ConversionAction::Create(j)),
                Phase::Creating => after_create_exec(s),
                Phase::Dropping(k) => after_output_exec(s, k),
                Phase::Reverting => close_failed_exec(s),
                Phase::Persisting => (at_exec(s, j, Phase::Closing, 0), ConversionAction::Commit(j)),
                Phase::Closing => {
                    let count = s.jobs.len();
                    assert(j < count);
                    begin_job_exec(s, j + 1)
                },
                _ => (s, ConversionAction::Ignored),
            },
            ConversionEvent::Checked(passed) => match phase {
                Phase::Checking(k) => if passed {
                    after_output_exec(s, k)
                } else if s.jobs[j].check_all {
                    let f = s.failures + 1;
                    (at_exec(s, j, Phase::Dropping(k), f), ConversionAction::DeleteOutput(j, k))
                } else {
                    let f = s.failures + 1;
                    let revert = s.jobs[j].revert;
                    (at_exec(s, j, Phase::Reverting, f), ConversionAction::Revert(j, revert))
                },
                _ => (s, ConversionAction::Ignored),
            },
        },
    }
}

/// A game is recorded only when none of its checked outputs failed: the
/// record action comes only from a state with no failure counted, and never
/// in answer to a failed check.
pub proof fn lemma_failed_check_never_persists(s: ConversionRun, e: ConversionEvent)
    requires
        s.wf(),
    ensures
        conversion_transition(s, e).1 is Persist ==> s.failures == 0 && !(e matches ConversionEvent::Checked(false)),
{
}

/// An inspected job whose source has children, or whose tracks need a newer
/// `chdman` than the one found, is skipped: the answer is its rollback, and
/// whatever comes next, the job is never decoded, written or recorded.
pub proof fn lemma_inspection_skips(s: ConversionRun, has_children: bool, needs_newer_chdman: bool, e: ConversionEvent)
    requires
        s.wf(),
        s.phase == Phase::Inspecting,
        has_children || needs_newer_chdman,
    ensures
        ({
            let j = s.current;
            let (s1, a1) = conversion_transition(
                s,
                ConversionEvent::Inspected { tool_missing: false, has_children, needs_newer_chdman },
            );
            let a2 = conversion_transition(s1, e).1;
            &&& a1 == ConversionAction::Rollback(j)
            &&& s1.wf()
            &&& a2 != ConversionAction::Decode(j)
            &&& a2 != ConversionAction::Create(j)
            &&& !(a2 matches ConversionAction::Persist { job, .. } && job == j)
            &&& !(a2 matches ConversionAction::CheckOutput(k, _) && k == j)
        }),
{
    let j = s.current;
    let (s1, a1) = conversion_transition(s, ConversionEvent::Inspected { tool_missing: false, has_children, needs_newer_chdman });
    assert(s1 == at(s, j as int, Phase::Closing, 0));
    assert(s1.phase == Phase::Closing && s1.current == j);
    let a2 = conversion_transition(s1, e).1;
    if e == ConversionEvent::StepDone {
        assert(conversion_transition(s1, e) == begin_job(s1, j + 1));
        assert(s1.jobs@.len() == s1.jobs.len());
        if j + 1 < s1.jobs@.len() {
            assert(((j + 1) as usize) as int == j + 1);
        }
    }
}

/// A failed check that stops a job leads to its revert, and the revert to
/// closing the job unrecorded: what it wrote is removed and the source and
/// its record are left alone.
pub proof fn lemma_failed_check_reverts(s: ConversionRun, k: usize)
    requires
        s.wf(),
        s.phase == Phase::Checking(k),
        !s.jobs@[s.current as int].check_all,
    ensures
        ({
            let (s1, a1) = conversion_transition(s, ConversionEvent::Checked(false));
            let (s2, a2) = conversion_transition(s1, ConversionEvent::StepDone);
            &&& a1 == ConversionAction::Revert(s.current, s.jobs@[s.current as int].revert)
            &&& a2 == (if s.jobs@[s.current as int].commit_after_failure {
                ConversionAction::Commit(s.current)
            } else {
                ConversionAction::Rollback(s.current)
            })
            &&& s2.phase == Phase::Closing
        }),
{
}

// === the jobs of each conversion ===

/// Which games of a routed list get a job.
#[derive(Clone, Copy, Debug, PartialEq, Eq, Structural)]
pub enum Take {
    All,
    /// All but arcade disks, whose CHDs are left as they are.
    NotArcadeDisk,
    /// Only games of a single ISO image.
    SingleIso,
}

/// The game of `roms` gets a job.
pub open spec fn taken(t: Take, roms: Seq<Rom>) -> bool {
    match t {
        Take::All => true,
        Take::NotArcadeDisk => !holds_disk(roms),
        Take::SingleIso => roms.len() == 1 && has_suffix(roms[0].name@, ISO_EXTENSION@),
    }
}

/// The shape shared by the jobs of one routed list.
#[derive(Clone, Copy, Debug, PartialEq, Eq, Structural)]
pub struct Shape {
    pub guarded: bool,
    pub decode: bool,
    /// One output per ROM of the game, else a single one.
    pub per_rom: bool,
    pub check_all: bool,
    pub revert: Revert,
    pub commit_after_failure: bool,
    pub rename_to_source: bool,
}

/// The job of game `i`, of `roms`, of `route`, in `shape`.
pub open spec fn shaped(route: Route, i: int, roms: Seq<Rom>, shape: Shape) -> ConversionJob {
    ConversionJob {
        route,
        game: i as usize,
        guarded: shape.guarded,
        decode: shape.decode,
        outputs: if shape.per_rom { roms.len() as usize } else { 1 },
        check_all: shape.check_all,
        revert: shape.revert,
        commit_after_failure: shape.commit_after_failure,
        rename_to_source: shape.rename_to_source,
    }
}

/// The jobs of the games of `route` that `t` takes, in order.
pub open spec fn route_jobs(route: Route, games: Seq<(i64, Vec<Rom>)>, t: Take, shape: Shape) -> Seq<ConversionJob>
    decreases games.len(),
{
    if games.len() == 0 {
        seq![]
    } else {
        let n = games.len() - 1;
        let rest = route_jobs(route, games.drop_last(), t, shape);
        if taken(t, games[n].1@) {
            rest.push(shaped(route, n, games[n].1@, shape))
        } else {
            rest
        }
    }
}

fn takes(t: Take, roms: &Vec<Rom>) -> (b: bool)
    ensures
        b == taken(t, roms@),
{
    match t {
        Take::All => true,
        Take::NotArcadeDisk => !is_arcade_chd(roms),
        Take::SingleIso => xso_archive_eligible(roms),
    }
}

/// Append the jobs of the games of `route` that `t` takes.
fn push_route(jobs: &mut Vec<ConversionJob>, route: Route, games: &Vec<(i64, Vec<Rom>)>, t: Take, shape: Shape)
    ensures
        final(jobs)@ == old(jobs)@ + route_jobs(route, games@, t, shape),
{
    let ghost base = jobs@;
    let mut i: usize = 0;
    assert(games@.take(0) =~= Seq::<(i64, Vec<Rom>)>::empty());
    assert(jobs@ =~= base + route_jobs(route, games@.take(0), t, shape));
    while i < games.len()
        invariant
            i <= games@.len(),
            jobs@ == base + route_jobs(route, games@.take(i as int), t, shape),
        decreases games.len() - i,
    {
        proof {
            assert(games@.take(i + 1).drop_last() =~= games@.take(i as int));
            assert(games@.take(i + 1)[i as int] == games@[i as int]);
        }
        let roms = &games[i].1;
        if takes(t, roms) {
            let outputs = if shape.per_rom { roms.len() } else { 1 };
            jobs.push(ConversionJob {
                route,
                game: i,
                guarded: shape.guarded,
                decode: shape.decode,
                outputs,
                check_all: shape.check_all,
                revert: shape.revert,
                commit_after_failure: shape.commit_after_failure,
                rename_to_source: shape.rename_to_source,
            });
            assert(jobs@ =~= base + route_jobs(route, games@.take(i + 1), t, shape));
        } else {
            assert(jobs@ =~= base + route_jobs(route, games@.take(i + 1), t, shape));
        }
        i += 1;
    }
    assert(games@.take(i as int) =~= games@);
}

/// A job that decodes its source into one output, deleted on a failed check.
pub open spec fn decoding() -> Shape {
    Shape { guarded: false, decode: true, per_rom: false, check_all: false, revert: Revert::DeleteFirst, commit_after_failure: false, rename_to_source: false }
}

/// A job that writes one output straight from its source.
pub open spec fn direct() -> Shape {
    Shape { guarded: false, decode: false, per_rom: false, check_all: false, revert: Revert::DeleteFirst, commit_after_failure: false, rename_to_source: false }
}

/// A job that decodes a CHD, inspected first (its tool, its children, the
/// `chdman` version), into one output per ROM.
pub open spec fn from_chd() -> Shape {
    Shape { guarded: true, decode: true, per_rom: true, check_all: false, revert: Revert::DeleteFirst, commit_after_failure: false, rename_to_source: false }
}

/// A recompression: the file is decoded and written anew in its own
/// format, taking its own path; `commit` says whether the game's changes are
/// kept after a failed check.
pub open spec fn recompressing(commit: bool) -> Shape {
    Shape { guarded: false, decode: true, per_rom: false, check_all: false, revert: Revert::DeleteFirst, commit_after_failure: commit, rename_to_source: true }
}

fn decoding_exec() -> (s: Shape) ensures s == decoding() {
    Shape { guarded: false, decode: true, per_rom: false, check_all: false, revert: Revert::DeleteFirst, commit_after_failure: false, rename_to_source: false }
}

fn direct_exec() -> (s: Shape) ensures s == direct() {
    Shape { guarded: false, decode: false, per_rom: false, check_all: false, revert: Revert::DeleteFirst, commit_after_failure: false, rename_to_source: false }
}

fn from_chd_exec() -> (s: Shape) ensures s == from_chd() {
    Shape { guarded: true, decode: true, per_rom: true, check_all: false, revert: Revert::DeleteFirst, commit_after_failure: false, rename_to_source: false }
}

fn recompressing_exec(commit: bool) -> (s: Shape) ensures s == recompressing(commit) {
    Shape { guarded: false, decode: true, per_rom: false, check_all: false, revert: Revert::DeleteFirst, commit_after_failure: commit, rename_to_source: true }
}

/// The first ROM of the game lies in an archive of type `t` already.
pub open spec fn already_in(f: Seq<Romfile>, roms: Seq<Rom>, t: ArchiveType) -> bool {
    roms.len() > 0 && has_suffix(romfile_path(f, roms[0].romfile_id->0), archive_type_name(t))
}

/// The job of an archived game in a conversion to archives of type `t`:
/// written anew in that type (or recompressed in its own, when asked) one
/// output per ROM; a game already of type `t` keeps its path and loses
/// nothing on a failed check, and one not recompressed has nothing to do.
pub open spec fn rebuilt_job(f: Seq<Romfile>, i: int, roms: Seq<Rom>, t: ArchiveType, recompress: bool) -> ConversionJob {
    let same = already_in(f, roms, t);
    ConversionJob {
        route: Route::Archives,
        game: i as usize,
        guarded: false,
        decode: false,
        outputs: if !same || recompress { roms.len() as usize } else { 0 },
        check_all: false,
        revert: if same { Revert::Keep } else { Revert::DeleteFirst },
        commit_after_failure: false,
        rename_to_source: same,
    }
}

/// The job of a game of loose files in a conversion to archives of type `t`:
/// a lone file of a non-arcade system is archived on its own; otherwise each
/// file not yet in such an archive is added to the game's, every one
/// checked and each failed one dropped.
pub open spec fn packed_job(f: Seq<Romfile>, i: int, roms: Seq<Rom>, t: ArchiveType, arcade: bool) -> ConversionJob {
    if roms.len() == 1 && !arcade {
        shaped(Route::Others, i, roms, direct())
    } else {
        ConversionJob {
            route: Route::Others,
            game: i as usize,
            guarded: false,
            decode: false,
            outputs: unarchived_positions(f, roms, archive_type_name(t)).len() as usize,
            check_all: true,
            revert: Revert::Keep,
            commit_after_failure: false,
            rename_to_source: false,
        }
    }
}

/// The jobs of a conversion to archives of type `t`, in the order of the
/// routes: CHDs (arcade disks left out), CSOs, NSZs, RVZs and ZSOs decoded
/// first, then archives, then loose files.
pub open spec fn archive_jobs(
    f: Seq<Romfile>,
    r: ArchiveRoutes,
    t: ArchiveType,
    recompress: bool,
    arcade: bool,
) -> Seq<ConversionJob> {
    route_jobs(Route::Chds, r.chds@, Take::NotArcadeDisk, from_chd())
        + route_jobs(Route::Csos, r.csos@, Take::All, decoding())
        + route_jobs(Route::Nszs, r.nszs@, Take::All, decoding())
        + route_jobs(Route::Rvzs, r.rvzs@, Take::All, decoding())
        + route_jobs(Route::Zsos, r.zsos@, Take::All, decoding())
        + Seq::new(r.archives@.len(), |i: int| rebuilt_job(f, i, r.archives@[i].1@, t, recompress))
        + Seq::new(r.others@.len(), |i: int| packed_job(f, i, r.others@[i].1@, t, arcade))
}

/// The run of a conversion to archives of type `t` over the routed games.
pub fn archive_run(
    routes: &ArchiveRoutes,
    romfiles: &Vec<Romfile>,
    t: ArchiveType,
    recompress: bool,
    arcade: bool,
    check: bool,
    diff: bool,
) -> (r: (ConversionRun, ConversionAction))
    requires
        ids_unique(romfiles@),
        games_located(romfiles@, routes.archives@),
        games_located(romfiles@, routes.others@),
    ensures
        r.0.jobs@ == archive_jobs(romfiles@, *routes, t, recompress, arcade),
        r == begin_job(fresh_run(r.0.jobs, check, diff), 0),
        r.0.wf(),
{
    let mut jobs: Vec<ConversionJob> = Vec::new();
    push_route(&mut jobs, Route::Chds, &routes.chds, Take::NotArcadeDisk, from_chd_exec());
    push_route(&mut jobs, Route::Csos, &routes.csos, Take::All, decoding_exec());
    push_route(&mut jobs, Route::Nszs, &routes.nszs, Take::All, decoding_exec());
    push_route(&mut jobs, Route::Rvzs, &routes.rvzs, Take::All, decoding_exec());
    push_route(&mut jobs, Route::Zsos, &routes.zsos, Take::All, decoding_exec());
    let ghost head = jobs@;
    let ext = chars_of(t.as_str());
    let mut i: usize = 0;
    while i < routes.archives.len()
        invariant
            i <= routes.archives@.len(),
            ids_unique(romfiles@),
            games_located(romfiles@, routes.archives@),
            ext@ == archive_type_name(t),
            jobs@ == head + Seq::new(i as nat, |k: int| rebuilt_job(romfiles@, k, routes.archives@[k].1@, t, recompress)),
        decreases routes.archives.len() - i,
    {
        let roms = &routes.archives[i].1;
        let same = if roms.len() > 0 {
            assert(rom_located(romfiles@, roms@[0]));
            let id = match roms[0].romfile_id {
                Some(id) => id,
                None => 0,
            };
            crate::common::romfile_ends_with(romfiles, id, &ext)
        } else {
            false
        };
        let outputs = if !same || recompress { roms.len() } else { 0 };
        let ghost before = jobs@;
        jobs.push(ConversionJob {
            route: Route::Archives,
            game: i,
            guarded: false,
            decode: false,
            outputs,
            check_all: false,
            revert: if same { Revert::Keep } else { Revert::DeleteFirst },
            commit_after_failure: false,
            rename_to_source: same,
        });
        assert(jobs@ =~= head + Seq::new((i + 1) as nat, |k: int| rebuilt_job(romfiles@, k, routes.archives@[k].1@, t, recompress)));
        i += 1;
    }
    let ghost mid = jobs@;
    let mut i: usize = 0;
    while i < routes.others.len()
        invariant
            i <= routes.others@.len(),
            ids_unique(romfiles@),
            games_located(romfiles@, routes.others@),
            jobs@ == mid + Seq::new(i as nat, |k: int| packed_job(romfiles@, k, routes.others@[k].1@, t, arcade)),
        decreases routes.others.len() - i,
    {
        let roms = &routes.others[i].1;
        let job = if roms.len() == 1 && !arcade {
            ConversionJob {
                route: Route::Others,
                game: i,
                guarded: false,
                decode: false,
                outputs: 1,
                check_all: false,
                revert: Revert::DeleteFirst,
                commit_after_failure: false,
                rename_to_source: false,
            }
        } else {
            assert forall|k: int| 0 <= k < roms@.len() implies rom_located(romfiles@, #[trigger] roms@[k]) by {
                assert(rom_located(romfiles@, routes.others@[i as int].1@[k]));
            }
            let missing = unarchived_roms(roms, romfiles, t);
            ConversionJob {
                route: Route::Others,
                game: i,
                guarded: false,
                decode: false,
                outputs: missing.len(),
                check_all: true,
                revert: Revert::Keep,
                commit_after_failure: false,
                rename_to_source: false,
            }
        };
        jobs.push(job);
        assert(jobs@ =~= mid + Seq::new((i + 1) as nat, |k: int| packed_job(romfiles@, k, routes.others@[k].1@, t, arcade)));
        i += 1;
    }
    start_run(jobs, check, diff)
}

/// A job inspected first (its tool, and whether its source holds what the
/// conversion takes), then decoded into one output.
pub open spec fn inspected_decoding() -> Shape {
    Shape { guarded: true, decode: true, per_rom: false, check_all: false, revert: Revert::DeleteFirst, commit_after_failure: false, rename_to_source: false }
}

/// A job inspected first, then written straight from its source.
pub open spec fn inspected_direct() -> Shape {
    Shape { guarded: true, decode: false, per_rom: false, check_all: false, revert: Revert::DeleteFirst, commit_after_failure: false, rename_to_source: false }
}

/// A recompression inspected first (a CHD's children and parent).
pub open spec fn inspected_recompressing() -> Shape {
    Shape { guarded: true, decode: true, per_rom: false, check_all: false, revert: Revert::DeleteFirst, commit_after_failure: false, rename_to_source: true }
}

/// An unpacking into the original files, inspected first, one output per
/// ROM, all deleted on a failed check.
pub open spec fn unpacking() -> Shape {
    Shape { guarded: true, decode: false, per_rom: true, check_all: false, revert: Revert::DeleteAll, commit_after_failure: false, rename_to_source: false }
}

fn inspected_decoding_exec() -> (s: Shape) ensures s == inspected_decoding() {
    Shape { guarded: true, decode: true, per_rom: false, check_all: false, revert: Revert::DeleteFirst, commit_after_failure: false, rename_to_source: false }
}

fn inspected_direct_exec() -> (s: Shape) ensures s == inspected_direct() {
    Shape { guarded: true, decode: false, per_rom: false, check_all: false, revert: Revert::DeleteFirst, commit_after_failure: false, rename_to_source: false }
}

fn inspected_recompressing_exec() -> (s: Shape) ensures s == inspected_recompressing() {
    Shape { guarded: true, decode: true, per_rom: false, check_all: false, revert: Revert::DeleteFirst, commit_after_failure: false, rename_to_source: true }
}

fn unpacking_exec() -> (s: Shape) ensures s == unpacking() {
    Shape { guarded: true, decode: false, per_rom: true, check_all: false, revert: Revert::DeleteAll, commit_after_failure: false, rename_to_source: false }
}

/// The jobs of a conversion to CHD: archives (inspected for what they hold,
/// then extracted), CUE/BIN images, ISOs, CSOs and ZSOs (decoded), hard disk
/// and LaserDisc images (inspected), then CHDs recompressed when asked.
pub open spec fn chd_jobs(r: ChdRoutes, recompress: bool) -> Seq<ConversionJob> {
    route_jobs(Route::Archives, r.archives@, Take::All, inspected_decoding())
        + route_jobs(Route::CueBins, r.cue_bins@, Take::All, direct())
        + route_jobs(Route::Isos, r.isos@, Take::All, direct())
        + route_jobs(Route::Csos, r.csos@, Take::All, decoding())
        + route_jobs(Route::Zsos, r.zsos@, Take::All, decoding())
        + route_jobs(Route::Others, r.others@, Take::All, inspected_direct())
        + if recompress {
            route_jobs(Route::Chds, r.chds@, Take::All, inspected_recompressing())
        } else {
            seq![]
        }
}

/// The run of a conversion to CHD over the routed games.
pub fn chd_run(routes: &ChdRoutes, recompress: bool, check: bool, diff: bool) -> (r: (ConversionRun, ConversionAction))
    ensures
        r.0.jobs@ == chd_jobs(*routes, recompress),
        r == begin_job(fresh_run(r.0.jobs, check, diff), 0),
        r.0.wf(),
{
    let mut jobs: Vec<ConversionJob> = Vec::new();
    push_route(&mut jobs, Route::Archives, &routes.archives, Take::All, inspected_decoding_exec());
    push_route(&mut jobs, Route::CueBins, &routes.cue_bins, Take::All, direct_exec());
    push_route(&mut jobs, Route::Isos, &routes.isos, Take::All, direct_exec());
    push_route(&mut jobs, Route::Csos, &routes.csos, Take::All, decoding_exec());
    push_route(&mut jobs, Route::Zsos, &routes.zsos, Take::All, decoding_exec());
    push_route(&mut jobs, Route::Others, &routes.others, Take::All, inspected_direct_exec());
    let ghost head = jobs@;
    if recompress {
        push_route(&mut jobs, Route::Chds, &routes.chds, Take::All, inspected_recompressing_exec());
    } else {
        assert(jobs@ =~= head + Seq::<ConversionJob>::empty());
    }
    start_run(jobs, check, diff)
}

/// The jobs of a conversion to a compressed ISO: archives of a single ISO
/// (extracted), ISOs, CHDs (inspected, then unpacked), images of the other
/// compressed format (decoded), then images of this format recompressed
/// when asked.
pub open spec fn xso_jobs(r: XsoRoutes, recompress: bool) -> Seq<ConversionJob> {
    route_jobs(Route::Archives, r.archives@, Take::SingleIso, decoding())
        + route_jobs(Route::Isos, r.isos@, Take::All, direct())
        + route_jobs(Route::Chds, r.chds@, Take::All, inspected_decoding())
        + route_jobs(Route::Csos, r.opposite@, Take::All, decoding())
        + if recompress {
            route_jobs(Route::Zsos, r.same@, Take::All, recompressing(false))
        } else {
            seq![]
        }
}

/// The run of a conversion to a compressed ISO over the routed games; the
/// routes `Csos` and `Zsos` of its jobs name the lists of the other and of
/// the same format.
pub fn xso_run(routes: &XsoRoutes, recompress: bool, check: bool, diff: bool) -> (r: (ConversionRun, ConversionAction))
    ensures
        r.0.jobs@ == xso_jobs(*routes, recompress),
        r == begin_job(fresh_run(r.0.jobs, check, diff), 0),
        r.0.wf(),
{
    let mut jobs: Vec<ConversionJob> = Vec::new();
    push_route(&mut jobs, Route::Archives, &routes.archives, Take::SingleIso, decoding_exec());
    push_route(&mut jobs, Route::Isos, &routes.isos, Take::All, direct_exec());
    push_route(&mut jobs, Route::Chds, &routes.chds, Take::All, inspected_decoding_exec());
    push_route(&mut jobs, Route::Csos, &routes.opposite, Take::All, decoding_exec());
    let ghost head = jobs@;
    if recompress {
        push_route(&mut jobs, Route::Zsos, &routes.same, Take::All, recompressing_exec(false));
    } else {
        assert(jobs@ =~= head + Seq::<ConversionJob>::empty());
    }
    start_run(jobs, check, diff)
}

/// The jobs of a conversion to NSZ: archives (inspected for an NSP, then
/// extracted), NSPs, then NSZs recompressed when asked.
pub open spec fn nsz_jobs(r: NszRoutes, recompress: bool) -> Seq<ConversionJob> {
    route_jobs(Route::Archives, r.archives@, Take::All, inspected_decoding())
        + route_jobs(Route::Nsps, r.nsps@, Take::All, direct())
        + if recompress {
            route_jobs(Route::Nszs, r.nszs@, Take::All, recompressing(false))
        } else {
            seq![]
        }
}

/// The run of a conversion to NSZ over the routed games.
pub fn nsz_run(routes: &NszRoutes, recompress: bool, check: bool, diff: bool) -> (r: (ConversionRun, ConversionAction))
    ensures
        r.0.jobs@ == nsz_jobs(*routes, recompress),
        r == begin_job(fresh_run(r.0.jobs, check, diff), 0),
        r.0.wf(),
{
    let mut jobs: Vec<ConversionJob> = Vec::new();
    push_route(&mut jobs, Route::Archives, &routes.archives, Take::All, inspected_decoding_exec());
    push_route(&mut jobs, Route::Nsps, &routes.nsps, Take::All, direct_exec());
    let ghost head = jobs@;
    if recompress {
        push_route(&mut jobs, Route::Nszs, &routes.nszs, Take::All, recompressing_exec(false));
    } else {
        assert(jobs@ =~= head + Seq::<ConversionJob>::empty());
    }
    start_run(jobs, check, diff)
}

/// The jobs of a conversion to RVZ: archives of a single ISO (extracted),
/// ISOs, then RVZs recompressed when asked, whose games' changes are kept
/// even after a failed check.
pub open spec fn rvz_jobs(r: RvzRoutes, recompress: bool) -> Seq<ConversionJob> {
    route_jobs(Route::Archives, r.archives@, Take::SingleIso, decoding())
        + route_jobs(Route::Isos, r.isos@, Take::All, direct())
        + if recompress {
            route_jobs(Route::Rvzs, r.rvzs@, Take::All, recompressing(true))
        } else {
            seq![]
        }
}

/// The run of a conversion to RVZ over the routed games.
pub fn rvz_run(routes: &RvzRoutes, recompress: bool, check: bool, diff: bool) -> (r: (ConversionRun, ConversionAction))
    ensures
        r.0.jobs@ == rvz_jobs(*routes, recompress),
        r == begin_job(fresh_run(r.0.jobs, check, diff), 0),
        r.0.wf(),
{
    let mut jobs: Vec<ConversionJob> = Vec::new();
    push_route(&mut jobs, Route::Archives, &routes.archives, Take::SingleIso, decoding_exec());
    push_route(&mut jobs, Route::Isos, &routes.isos, Take::All, direct_exec());
    let ghost head = jobs@;
    if recompress {
        push_route(&mut jobs, Route::Rvzs, &routes.rvzs, Take::All, recompressing_exec(true));
    } else {
        assert(jobs@ =~= head + Seq::<ConversionJob>::empty());
    }
    start_run(jobs, check, diff)
}

/// The jobs of a conversion back to the original files: archives and CHDs
/// (arcade disks left out) unpacked one output per ROM, all removed on a
/// failed check; CSOs, NSZs, RVZs and ZSOs written back as they were.
pub open spec fn original_jobs(r: OriginalRoutes) -> Seq<ConversionJob> {
    route_jobs(Route::Archives, r.archives@, Take::All, unpacking())
        + route_jobs(Route::Chds, r.chds@, Take::NotArcadeDisk, unpacking())
        + route_jobs(Route::Csos, r.csos@, Take::All, direct())
        + route_jobs(Route::Nszs, r.nszs@, Take::All, direct())
        + route_jobs(Route::Rvzs, r.rvzs@, Take::All, direct())
        + route_jobs(Route::Zsos, r.zsos@, Take::All, direct())
}

/// The run of a conversion back to the original files over the routed games.
pub fn original_run(routes: &OriginalRoutes, check: bool, diff: bool) -> (r: (ConversionRun, ConversionAction))
    ensures
        r.0.jobs@ == original_jobs(*routes),
        r == begin_job(fresh_run(r.0.jobs, check, diff), 0),
        r.0.wf(),
{
    let mut jobs: Vec<ConversionJob> = Vec::new();
    push_route(&mut jobs, Route::Archives, &routes.archives, Take::All, unpacking_exec());
    push_route(&mut jobs, Route::Chds, &routes.chds, Take::NotArcadeDisk, unpacking_exec());
    push_route(&mut jobs, Route::Csos, &routes.csos, Take::All, direct_exec());
    push_route(&mut jobs, Route::Nszs, &routes.nszs, Take::All, direct_exec());
    push_route(&mut jobs, Route::Rvzs, &routes.rvzs, Take::All, direct_exec());
    push_route(&mut jobs, Route::Zsos, &routes.zsos, Take::All, direct_exec());
    start_run(jobs, check, diff)
}

} // verus!
