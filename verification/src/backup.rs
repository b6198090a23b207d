//! One backup as a machine: what it does next, and where each answer leads.

use vstd::prelude::*;
use crate::cli::{BackupArgs, ExitCode};
use crate::coverage::{covers, fully_covers, lemma_nothing_failed, no_fetch, FetchPhase};
use crate::error::{sink_error_text, ClientError, SinkError};
use crate::json::{Json, JsonView};
use crate::orchestrate::{
    all_loaded, dataset_failed, discovered, discovery, failure_summary, law_exit_code_says_what_happened,
    load_phase, lock_result, product_outcomes, ready, removes_spool, retention, run_backup_result,
    run_exit, run_summary, spool_failed, unmarked, unmarked_notice, unmarked_summary, wants_shrink_check,
    wants_views, BackupRun, Discovery, LoadPhase, LockAttempt, RunResult,
};
use crate::rows::FetchCtx;
use crate::runs::{
    any_failed, failed, ledger_row, outcome_documents, overall_status, runs_row, status_word,
    write_marker, MarkerStep, MarkerWrite, ResourceOutcome, MARKER_ATTEMPTS,
};
use crate::schemas::ObjectSchema;
use crate::text::{maybe_text, texts};

verus! {

/// What a backup is doing.
#[derive(Debug, Clone, Copy, PartialEq, Eq, Structural)]
pub enum Phase {
    /// Taking the lock.
    Lock,
    /// Asking for the schemas.
    Discover,
    /// Making its spool, and sweeping those of earlier runs.
    Spool,
    /// Fetching into the spool.
    Fetch,
    /// Making sure of the dataset.
    Dataset,
    /// Loading the spool.
    Load,
    /// Comparing itself with the run before.
    Compare,
    /// Writing its row into the ledger.
    Mark,
    /// Removing its spool.
    Clean,
    /// Making the views anew.
    Views,
    /// Nothing more.
    Over,
}

/// Where a backup can go on from a phase.
pub open spec fn follows(args: BackupArgs, from: Phase, to: Phase) -> bool {
    match from {
        Phase::Lock => to == Phase::Discover || to == Phase::Over,
        Phase::Discover => to == Phase::Over || (to == Phase::Spool && !args.dry_run),
        Phase::Spool => to == Phase::Fetch || to == Phase::Over,
        Phase::Fetch => to == Phase::Dataset,
        Phase::Dataset => to == Phase::Load || to == Phase::Over,
        Phase::Load => to == Phase::Mark || (to == Phase::Compare && !args.no_shrink_check),
        Phase::Compare => to == Phase::Mark,
        Phase::Mark => to == Phase::Mark || to == Phase::Clean || to == Phase::Over || (to
            == Phase::Views && !args.no_views),
        Phase::Clean => to == Phase::Over || (to == Phase::Views && !args.no_views),
        Phase::Views => to == Phase::Over,
        Phase::Over => false,
    }
}

/// The place of a phase in the order of a backup.
pub open spec fn rank(p: Phase) -> int {
    match p {
        Phase::Lock => 0,
        Phase::Discover => 1,
        Phase::Spool => 2,
        Phase::Fetch => 3,
        Phase::Dataset => 4,
        Phase::Load => 5,
        Phase::Compare => 6,
        Phase::Mark => 7,
        Phase::Clean => 8,
        Phase::Views => 9,
        Phase::Over => 10,
    }
}

/// Whether a backup with these arguments can go through these phases.
pub open spec fn course(args: BackupArgs, phases: Seq<Phase>) -> bool {
    &&& phases.len() > 0
    &&& phases[0] == if args.no_lock {
        Phase::Discover
    } else {
        Phase::Lock
    }
    &&& forall|i: int|
        0 < i < phases.len() ==> follows(args, phases[i - 1], #[trigger] phases[i])
}

/// A backup only goes forward: nothing is fetched once loading has begun, and nothing is loaded
/// once the row that makes the snapshot count is being written.
pub proof fn law_phases_go_forward(args: BackupArgs, phases: Seq<Phase>, i: int, j: int)
    requires
        course(args, phases),
        0 <= i <= j < phases.len(),
    ensures
        rank(phases[i]) <= rank(phases[j]),
    decreases j - i,
{
    if i < j {
        law_phases_go_forward(args, phases, i, j - 1);
        assert(follows(args, phases[j - 1], phases[j]));
    }
}

/// A dry run takes the lock and asks for the schemas, and does nothing else: it has no spool, loads
/// nothing and marks nothing.
pub proof fn law_dry_run_writes_nothing(args: BackupArgs, phases: Seq<Phase>, i: int)
    requires
        course(args, phases),
        args.dry_run,
        0 <= i < phases.len(),
    ensures
        phases[i] == Phase::Lock || phases[i] == Phase::Discover || phases[i] == Phase::Over,
    decreases i,
{
    if i > 0 {
        law_dry_run_writes_nothing(args, phases, i - 1);
        assert(follows(args, phases[i - 1], phases[i]));
    }
}

/// Unless it was told to go without, a backup takes the lock before it asks for anything, and goes
/// no further where it does not get it.
pub proof fn law_lock_comes_first(args: BackupArgs, phases: Seq<Phase>, i: int)
    requires
        course(args, phases),
        !args.no_lock,
        0 <= i < phases.len(),
        phases[i] != Phase::Lock,
        phases[i] != Phase::Over,
    ensures
        phases[0] == Phase::Lock,
        i >= 1,
        phases[1] == Phase::Discover,
    decreases i,
{
    assert(follows(args, phases[0], phases[1]));
    if i > 1 {
        assert(follows(args, phases[i - 1], phases[i]));
        if phases[i - 1] == Phase::Lock {
            lemma_lock_once(args, phases, i - 1);
        } else {
            law_lock_comes_first(args, phases, i - 1);
        }
    }
}

proof fn lemma_lock_once(args: BackupArgs, phases: Seq<Phase>, i: int)
    requires
        course(args, phases),
        0 < i < phases.len(),
    ensures
        phases[i] != Phase::Lock,
{
    assert(follows(args, phases[i - 1], phases[i]));
}

/// A snapshot is marked only after everything has been loaded that was to be: between the first
/// phase and the writing of the row lie the fetch, the dataset and the load.
pub proof fn law_row_is_written_after_the_load(args: BackupArgs, phases: Seq<Phase>, i: int)
    requires
        course(args, phases),
        0 <= i < phases.len(),
        phases[i] == Phase::Mark,
    ensures
        exists|k: int| 0 <= k < i && #[trigger] phases[k] == Phase::Load,
    decreases i,
{
    assert(i > 0);
    assert(follows(args, phases[i - 1], phases[i]));
    if phases[i - 1] == Phase::Mark {
        law_row_is_written_after_the_load(args, phases, i - 1);
        let k = choose|k: int| 0 <= k < i - 1 && #[trigger] phases[k] == Phase::Load;
        assert(phases[k] == Phase::Load);
    } else if phases[i - 1] == Phase::Compare {
        assert(i > 1);
        assert(follows(args, phases[i - 2], phases[i - 1]));
        assert(phases[i - 2] == Phase::Load);
    } else {
        assert(phases[i - 1] == Phase::Load);
    }
}

/// A backup under way.
#[derive(Debug)]
pub struct Backup {
    pub ctx: FetchCtx,
    pub args: BackupArgs,
    pub phase: Phase,
    pub run: Option<BackupRun>,
    pub fetch: FetchPhase,
    pub load: LoadPhase,
    pub outcomes: Vec<ResourceOutcome>,
    pub loaded: Vec<usize>,
    pub violations: Vec<String>,
    pub finished_at: String,
    pub marker: MarkerWrite,
    pub result: Option<RunResult>,
}

/// Whether a backup is over with this result.
pub open spec fn over(b: Backup, exit: ExitCode, summary: JsonView) -> bool {
    &&& b.phase == Phase::Over
    &&& match b.result {
        Some(r) => r.exit == exit && r.summary@ == summary,
        None => false,
    }
}

/// Whether a step of a backup kept what it is about, and went where it may go. What it covers is
/// settled by discovery.
pub open spec fn stepped(before: Backup, after: Backup) -> bool {
    &&& after.wf()
    &&& after.ctx == before.ctx
    &&& after.args == before.args
    &&& before.phase != Phase::Discover ==> after.run == before.run
    &&& follows(before.args, before.phase, after.phase)
}

/// Whether a result says that the snapshot is complete, whether something in it shrank or not. That
/// of a dry run says nothing of a snapshot.
pub open spec fn says_complete(r: RunResult, args: BackupArgs) -> bool {
    (r.exit == ExitCode::Complete && !args.dry_run) || r.exit == ExitCode::ShrinkCheck
}

/// Whether a run may say that it is complete: it covers its plan, nothing of it failed, and what came
/// through was loaded.
pub open spec fn complete_run(b: Backup) -> bool {
    &&& b.run matches Some(run) && covers(run, b.outcomes@)
    &&& all_loaded(b.outcomes@, b.loaded@)
    &&& status_word(b.outcomes@) == "complete"@
}

/// A run that is called complete covers its plan. Where its result says so, or its row in the ledger
/// does, there is an outcome for each resource that its plan asks for:
/// for every object its records and then each feed, and each other category that is not skipped.
/// None of them failed, what was skipped is the records of an object that has none, with its feeds,
/// and all the rest was loaded. Its plan is the one that its arguments and the schemas make.
pub proof fn law_complete_run_covers_its_plan(b: Backup)
    requires
        b.wf(),
        match b.result {
            Some(r) => says_complete(r, b.args),
            None => rank(b.phase) >= rank(Phase::Mark) && status_word(b.outcomes@)
                == "complete"@,
        },
    ensures
        b.run matches Some(run) && ready(run, b.ctx, b.args, run.schemas@) && fully_covers(
            run,
            b.outcomes@,
        ),
        all_loaded(b.outcomes@, b.loaded@),
{
    let run = b.run->Some_0;
    let outcomes = b.outcomes@;
    assert(covers(run, outcomes));
    reveal_strlit("failed");
    reveal_strlit("partial");
    reveal_strlit("complete");
    assert("failed"@[0] == 'f' && "partial"@[0] == 'p' && "complete"@[0] == 'c');
    assert forall|i: int| 0 <= i < outcomes.len() implies !failed(#[trigger] outcomes[i]) by {
        if failed(outcomes[i]) {
            assert(any_failed(outcomes));
        }
    }
    lemma_nothing_failed(run, outcomes);
}

/// Begins a backup. One that was told to go without the lock asks for the schemas at once.
pub fn run_backup(ctx: FetchCtx, args: BackupArgs) -> (r: Backup)
    ensures
        r.wf(),
        r.ctx == ctx,
        r.args == args,
        r.phase == if args.no_lock {
            Phase::Discover
        } else {
            Phase::Lock
        },
{
    let phase = if args.no_lock {
        Phase::Discover
    } else {
        Phase::Lock
    };
    Backup {
        ctx,
        args,
        phase,
        run: None,
        fetch: no_fetch(),
        load: load_phase(Vec::new(), 0),
        outcomes: Vec::new(),
        loaded: Vec::new(),
        violations: Vec::new(),
        finished_at: String::new(),
        marker: write_marker(),
        result: None,
    }
}

impl Backup {
    /// Whether the backup has what its phase needs. What it fetches, loads and says is that of its
    /// plan from the fetch on.
    pub open spec fn wf(&self) -> bool {
        &&& self.load.wf()
        &&& 1 <= self.marker.attempts <= MARKER_ATTEMPTS
        &&& rank(self.phase) >= rank(Phase::Spool) && self.phase != Phase::Over ==> self.run is Some
        &&& self.phase == Phase::Over <==> self.result is Some
        &&& rank(self.phase) < rank(Phase::Mark) ==> self.marker.attempts == 1
        &&& match self.run {
            Some(run) => {
                &&& ready(run, self.ctx, self.args, run.schemas@)
                &&& self.phase == Phase::Fetch ==> self.fetch.wf() && self.fetch.of(run)
                &&& self.phase == Phase::Dataset || self.phase == Phase::Load ==> covers(
                    run,
                    product_outcomes(self.load.products@),
                )
                &&& rank(Phase::Compare) <= rank(self.phase) < rank(Phase::Over) ==> covers(
                    run,
                    self.outcomes@,
                ) && all_loaded(self.outcomes@, self.loaded@)
            },
            None => true,
        }
        &&& self.result matches Some(r) ==> says_complete(r, self.args) ==> complete_run(*self)
    }

    fn stop(&mut self, r: RunResult)
        requires
            old(self).wf(),
            old(self).phase != Phase::Over,
            says_complete(r, old(self).args) ==> complete_run(*old(self)),
        ensures
            final(self).wf(),
            final(self).ctx == old(self).ctx,
            final(self).args == old(self).args,
            final(self).run == old(self).run,
            final(self).outcomes == old(self).outcomes,
            final(self).loaded == old(self).loaded,
            final(self).phase == Phase::Over,
            final(self).result == Some(r),
    {
        self.result = Some(r);
        self.phase = Phase::Over;
    }

    /// Takes what became of the lock.
    pub fn locked(&mut self, lock: &LockAttempt)
        requires
            old(self).wf(),
            old(self).phase == Phase::Lock,
        ensures
            stepped(*old(self), *final(self)),
            match lock {
                LockAttempt::NotWanted => final(self).phase == Phase::Discover,
                LockAttempt::Taken => final(self).phase == Phase::Discover,
                LockAttempt::Held => over(
                    *final(self),
                    ExitCode::LockHeld,
                    failure_summary(old(self).ctx.run_id@, "another run holds the lock"@),
                ),
                LockAttempt::Failed(e) => over(
                    *final(self),
                    ExitCode::Failed,
                    failure_summary(old(self).ctx.run_id@, "lockfile: "@ + e@),
                ),
            },
    {
        match lock_result(&self.ctx.run_id, lock) {
            Some(r) => self.stop(r),
            None => {
                self.phase = Phase::Discover;
            },
        }
    }

    /// Takes the schemas of the workspace, or why there are none.
    pub fn discovered(&mut self, schemas: Result<Vec<ObjectSchema>, ClientError>)
        requires
            old(self).wf(),
            old(self).phase == Phase::Discover,
        ensures
            stepped(*old(self), *final(self)),
            final(self).phase == Phase::Spool || final(self).phase == Phase::Over,
            discovery(
                match final(self).result {
                    Some(r) => Discovery::Stop(r),
                    None => Discovery::Fetch(final(self).run->Some_0),
                },
                old(self).ctx,
                old(self).args,
                schemas,
            ),
    {
        match discovered(self.ctx.clone(), &self.args, schemas) {
            Discovery::Stop(r) => {
                self.stop(r);
            },
            Discovery::Fetch(run) => {
                self.run = Some(run);
                self.phase = Phase::Spool;
            },
        }
    }

    /// Takes whether the spool could be made.
    pub fn spooled(&mut self, result: Result<(), String>)
        requires
            old(self).wf(),
            old(self).phase == Phase::Spool,
        ensures
            stepped(*old(self), *final(self)),
            match result {
                Ok(_) => final(self).phase == Phase::Fetch && final(self).fetch.order@.len() == 0
                    && final(self).fetch.products@.len() == 0,
                Err(e) => over(
                    *final(self),
                    ExitCode::Failed,
                    failure_summary(old(self).ctx.run_id@, "spool: "@ + e@),
                ),
            },
    {
        match result {
            Ok(()) => {
                if let Some(run) = &self.run {
                    self.fetch = run.fetch_phase();
                }
                self.phase = Phase::Fetch;
            },
            Err(e) => {
                let r = spool_failed(&self.ctx.run_id, &e);
                self.stop(r);
            },
        }
    }

    /// Ends the fetch, once everything has been tried. Whatever failed, the backup goes on with the
    /// rest.
    pub fn fetched(&mut self)
        requires
            old(self).wf(),
            old(self).phase == Phase::Fetch,
            old(self).fetch.at_end(),
        ensures
            stepped(*old(self), *final(self)),
            final(self).phase == Phase::Dataset,
            final(self).load.products == old(self).fetch.products,
            final(self).load.at == 0,
            final(self).load.ensured@.len() == 0,
            final(self).load.expiration == retention(old(self).args.partition_expiration_days),
    {
        let mut fetch = no_fetch();
        std::mem::swap(&mut fetch, &mut self.fetch);
        let products = fetch.finish();
        self.load = load_phase(products, self.args.partition_expiration_days);
        self.phase = Phase::Dataset;
    }

    /// Takes whether the dataset is there.
    pub fn dataset_ready(&mut self, result: Result<(), &SinkError>)
        requires
            old(self).wf(),
            old(self).phase == Phase::Dataset,
        ensures
            stepped(*old(self), *final(self)),
            match result {
                Ok(_) => final(self).phase == Phase::Load && final(self).load == old(self).load,
                Err(e) => over(
                    *final(self),
                    ExitCode::Failed,
                    failure_summary(
                        old(self).ctx.run_id@,
                        "ensure dataset: "@ + sink_error_text(*e),
                    ),
                ),
            },
    {
        match result {
            Ok(()) => {
                self.phase = Phase::Load;
            },
            Err(e) => {
                let r = dataset_failed(&self.ctx.run_id, e);
                self.stop(r);
            },
        }
    }

    /// Ends the load, once everything has been tried. A complete run is compared with the one
    /// before, unless it was told not to be; any other ends at this time.
    pub fn loads_done(&mut self, now: String)
        requires
            old(self).wf(),
            old(self).phase == Phase::Load,
            old(self).load.at == old(self).load.products@.len(),
        ensures
            stepped(*old(self), *final(self)),
            final(self).outcomes@ == product_outcomes(old(self).load.products@),
            final(self).loaded == old(self).load.loaded,
            final(self).violations@.len() == 0,
            final(self).finished_at == now,
            final(self).marker == old(self).marker,
            final(self).phase == if !old(self).args.no_shrink_check && status_word(
                final(self).outcomes@,
            ) == "complete"@ {
                Phase::Compare
            } else {
                Phase::Mark
            },
    {
        let mut load = load_phase(Vec::new(), 0);
        std::mem::swap(&mut load, &mut self.load);
        let (outcomes, loaded) = load.finish();
        self.outcomes = outcomes;
        self.loaded = loaded;
        self.violations = Vec::new();
        self.finished_at = now;
        let status = overall_status(&self.outcomes);
        self.phase = if wants_shrink_check(&self.args, status) {
            Phase::Compare
        } else {
            Phase::Mark
        };
    }

    /// Takes what is said of the resources that shrank too much. The run ends at this time.
    pub fn compared(&mut self, violations: Vec<String>, now: String)
        requires
            old(self).wf(),
            old(self).phase == Phase::Compare,
        ensures
            stepped(*old(self), *final(self)),
            final(self).phase == Phase::Mark,
            final(self).outcomes == old(self).outcomes,
            final(self).loaded == old(self).loaded,
            final(self).violations == violations,
            final(self).finished_at == now,
            final(self).marker == old(self).marker,
    {
        self.violations = violations;
        self.finished_at = now;
        self.phase = Phase::Mark;
    }

    /// The row that makes the snapshot count.
    pub fn row(&self) -> (r: Json)
        ensures
            r@ == ledger_row(
                self.ctx.run_id@,
                self.ctx.snapshot_at@,
                self.finished_at@,
                status_word(self.outcomes@),
                JsonView::Array(outcome_documents(self.outcomes@)),
            ),
    {
        let status = overall_status(&self.outcomes);
        runs_row(
            &self.ctx.run_id,
            &self.ctx.snapshot_at,
            &self.finished_at,
            status,
            &self.outcomes,
        )
    }

    /// Ends a run that is marked.
    fn end(&mut self, views: Json)
        requires
            old(self).wf(),
            rank(Phase::Mark) <= rank(old(self).phase) < rank(Phase::Over),
        ensures
            final(self).wf(),
            final(self).ctx == old(self).ctx,
            final(self).args == old(self).args,
            final(self).run == old(self).run,
            ended(*old(self), *final(self), views@),
    {
        proof {
            law_exit_code_says_what_happened(self.outcomes@, self.violations@.len());
        }
        let status = overall_status(&self.outcomes);
        let r = run_backup_result(
            &self.ctx,
            &self.finished_at,
            status,
            &self.violations,
            views,
            &self.outcomes,
        );
        self.stop(r);
    }

    /// Takes how an attempt at writing the row went. It is tried again a few times. A run that
    /// stays unmarked has failed, and what is to be said of that is handed out; any other goes on to
    /// clean up, to its views, or to its end.
    pub fn marked(&mut self, result: Result<(), String>) -> (notice: Option<String>)
        requires
            old(self).wf(),
            old(self).phase == Phase::Mark,
        ensures
            stepped(*old(self), *final(self)),
            maybe_text(notice) == match result {
                Err(e) => if old(self).marker.attempts < MARKER_ATTEMPTS {
                    None
                } else {
                    Some(unmarked_notice(old(self).ctx.run_id@, e@))
                },
                Ok(_) => None,
            },
            match result {
                Err(e) => if old(self).marker.attempts < MARKER_ATTEMPTS {
                    &&& final(self).phase == Phase::Mark
                    &&& final(self).marker.attempts == old(self).marker.attempts + 1
                    &&& kept(*old(self), *final(self))
                } else {
                    over(
                        *final(self),
                        ExitCode::Failed,
                        unmarked_summary(old(self).ctx.run_id@, e@),
                    )
                },
                Ok(_) => {
                    let status = status_word(old(self).outcomes@);
                    if status == "complete"@ {
                        &&& final(self).phase == Phase::Clean
                        &&& kept(*old(self), *final(self))
                    } else if !old(self).args.no_views && status != "failed"@ {
                        &&& final(self).phase == Phase::Views
                        &&& kept(*old(self), *final(self))
                    } else {
                        ended(*old(self), *final(self), JsonView::Null)
                    }
                },
            },
    {
        match self.marker.attempted(result) {
            MarkerStep::Again => {},
            MarkerStep::GiveUp(e) => {
                let (r, notice) = unmarked(&self.ctx.run_id, &e);
                self.stop(r);
                return Some(notice);
            },
            MarkerStep::Written => {
                let status = overall_status(&self.outcomes);
                if removes_spool(status) {
                    self.phase = Phase::Clean;
                } else if wants_views(&self.args, status) {
                    self.phase = Phase::Views;
                } else {
                    self.end(Json::Null);
                }
            },
        }
        None
    }

    /// Goes on once the spool is removed, or could not be: the next run sweeps it then.
    pub fn cleaned(&mut self)
        requires
            old(self).wf(),
            old(self).phase == Phase::Clean,
        ensures
            stepped(*old(self), *final(self)),
            if !old(self).args.no_views && status_word(old(self).outcomes@) != "failed"@ {
                &&& final(self).phase == Phase::Views
                &&& kept(*old(self), *final(self))
            } else {
                ended(*old(self), *final(self), JsonView::Null)
            },
    {
        let status = overall_status(&self.outcomes);
        if wants_views(&self.args, status) {
            self.phase = Phase::Views;
        } else {
            self.end(Json::Null);
        }
    }

    /// Takes what is said of the views. Their failures are reported, and change nothing about how
    /// the run ends.
    pub fn viewed(&mut self, views: Json)
        requires
            old(self).wf(),
            old(self).phase == Phase::Views,
        ensures
            stepped(*old(self), *final(self)),
            ended(*old(self), *final(self), views@),
    {
        self.end(views);
    }
}

/// Whether a backup kept what it says at its end, and the time at which it ended.
pub open spec fn kept(before: Backup, after: Backup) -> bool {
    &&& after.outcomes == before.outcomes
    &&& after.loaded == before.loaded
    &&& after.violations == before.violations
    &&& after.finished_at == before.finished_at
}

/// Whether a backup is over, and says what it came to: the same time and the same outcomes as its
/// row.
pub open spec fn ended(before: Backup, after: Backup, views: JsonView) -> bool {
    over(
        after,
        run_exit(status_word(before.outcomes@), before.violations@.len()),
        run_summary(
            before.ctx,
            before.finished_at@,
            status_word(before.outcomes@),
            texts(before.violations@),
            views,
            before.outcomes@,
        ),
    )
}

/// A backup that came to its end says what its outcomes say: failed where the records of some object
/// did, partial where something else did, shrunk where nothing failed but something shrank, and
/// complete otherwise.
pub proof fn law_backup_ends_as_its_outcomes_say(before: Backup, after: Backup, views: JsonView)
    requires
        ended(before, after, views),
    ensures
        after.phase == Phase::Over,
        after.result matches Some(r) && {
            &&& r.exit == ExitCode::Failed <==> crate::runs::records_failed(before.outcomes@)
            &&& r.exit == ExitCode::Partial <==> crate::runs::any_failed(before.outcomes@)
                && !crate::runs::records_failed(before.outcomes@)
            &&& r.exit == ExitCode::ShrinkCheck <==> !crate::runs::any_failed(before.outcomes@)
                && before.violations@.len() > 0
            &&& r.exit == ExitCode::Complete <==> !crate::runs::any_failed(before.outcomes@)
                && before.violations@.len() == 0
            &&& crate::json::at(r.summary@, "status"@) == JsonView::Text(
                status_word(before.outcomes@),
            )
            &&& crate::json::at(r.summary@, "run_id"@) == JsonView::Text(before.ctx.run_id@)
            &&& crate::json::at(r.summary@, "views"@) == views
        },
{
    crate::orchestrate::law_exit_code_says_what_happened(
        before.outcomes@,
        before.violations@.len(),
    );
    crate::orchestrate::law_runs_say_what_they_came_to(
        before.ctx,
        before.finished_at@,
        status_word(before.outcomes@),
        texts(before.violations@),
        views,
        before.outcomes@,
    );
    crate::runs::law_ledger_row_says(
        before.ctx.run_id@,
        before.ctx.snapshot_at@,
        before.finished_at@,
        status_word(before.outcomes@),
        JsonView::Array(crate::runs::outcome_documents(before.outcomes@)),
    );
}

/// What may come next: nothing is fetched in a dry run, nothing is compared where that is switched
/// off, no view is made where none is wanted, and nothing is marked but behind the load.
pub proof fn law_switches_are_minded(args: BackupArgs, from: Phase, to: Phase)
    requires
        follows(args, from, to),
    ensures
        from == Phase::Discover && args.dry_run ==> to == Phase::Over,
        to == Phase::Compare ==> from == Phase::Load && !args.no_shrink_check,
        to == Phase::Views ==> (from == Phase::Mark || from == Phase::Clean) && !args.no_views,
        to == Phase::Mark ==> from == Phase::Load || from == Phase::Compare || from == Phase::Mark,
        to == Phase::Load ==> from == Phase::Dataset,
        to == Phase::Fetch ==> from == Phase::Spool,
        from != Phase::Over,
{
}

} // verus!
