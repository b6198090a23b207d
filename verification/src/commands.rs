//! The commands besides the backup: listing the objects, checking the permissions, and repairing
//! the ledger.

use vstd::prelude::*;
use crate::admin::{bare_request, table_address, ApiRequest, BqSink, Method};
use crate::cli::ExitCode;
use crate::clock::{rfc3339, run_time, timestamp, uuid_parsed, uuid_seconds, RunTime, END_OF_YEARS};
use crate::error::{client_error_text, sink_error_text, ClientError, SinkError};
use crate::json::{at, fields, lemma_found_at, no_fields, object, put, Json, JsonView};
use crate::plan::{merge, merged};
use crate::runs::{ledger_row, ledger_row_json, resource_counts};
use crate::schemas::{schema_views, ObjectSchema, SchemaView};
use crate::secret::{resource_text, SecretRef};
use crate::spool::RunSpool;
use crate::tables::check_table_spec;
use crate::text::{decimal, join, joined, show_u64};

verus! {

/// How a command ends that the Clarify API did not let finish.
pub open spec fn client_exit(e: ClientError) -> ExitCode {
    match e {
        ClientError::Auth { .. } => ExitCode::ConfigAuth,
        _ => ExitCode::Failed,
    }
}

/// How a command ends that the Clarify API did not let finish: a rejected key is a matter of
/// configuration.
pub fn exit_of(e: &ClientError) -> (r: ExitCode)
    ensures
        r == client_exit(*e),
{
    match e {
        ClientError::Auth { .. } => ExitCode::ConfigAuth,
        _ => ExitCode::Failed,
    }
}

// ---- objects ----

/// The table of objects with their relationships.
pub open spec fn objects_text(list: Seq<SchemaView>) -> Seq<char>
    decreases list.len(),
{
    if list.len() == 0 {
        "object\trelationships\n"@
    } else {
        objects_text(list.drop_last()) + list.last().slug + "\t"@ + joined(
            list.last().relationships,
            ","@,
        ) + "\n"@
    }
}

/// Lists the objects whose records can be backed up, each once.
pub fn run_objects(schemas: Result<&Vec<ObjectSchema>, &ClientError>) -> (r: (ExitCode, String))
    ensures
        match schemas {
            Ok(list) => r.0 == ExitCode::Complete && r.1@ == objects_text(
                merged(schema_views(list@)),
            ),
            Err(e) => r.0 == client_exit(*e) && r.1@ == client_error_text(*e),
        },
{
    match schemas {
        Err(e) => (exit_of(e), e.message()),
        Ok(list) => {
            let objects = merge(list);
            let ghost all = schema_views(objects@);
            let mut out = "object\trelationships\n".to_owned();
            let mut i: usize = 0;
            assert(all.take(0) =~= Seq::empty());
            while i < objects.len()
                invariant
                    i <= objects@.len(),
                    all == schema_views(objects@),
                    out@ == objects_text(all.take(i as int)),
                decreases objects@.len() - i,
            {
                assert(all.take(i + 1).drop_last() =~= all.take(i as int));
                assert(all.take(i + 1).last() == objects@[i as int]@);
                out.append(&objects[i].slug);
                out.append("\t");
                out.append(&join(&objects[i].relationships, ","));
                out.append("\n");
                i += 1;
            }
            assert(all.take(objects@.len() as int) =~= all);
            (ExitCode::Complete, out)
        },
    }
}

// ---- check ----

/// One thing that was checked.
#[derive(Debug)]
pub struct Probe {
    pub name: &'static str,
    pub ok: bool,
    pub detail: String,
}

/// What the report says of one probe.
pub open spec fn probe_line(p: Probe) -> Seq<char> {
    (if p.ok {
        "ok    "@
    } else {
        "FAIL  "@
    }) + p.name@ + ": "@ + p.detail@ + "\n"@
}

/// What the report says.
pub open spec fn report_text(probes: Seq<Probe>) -> Seq<char>
    decreases probes.len(),
{
    if probes.len() == 0 {
        Seq::empty()
    } else {
        report_text(probes.drop_last()) + probe_line(probes.last())
    }
}

/// Whether every probe went well.
pub open spec fn all_ok(probes: Seq<Probe>) -> bool {
    forall|i: int| 0 <= i < probes.len() ==> (#[trigger] probes[i]).ok
}

/// What is checked next.
#[derive(Debug, Clone, Copy, PartialEq, Eq, Structural)]
pub enum CheckPhase {
    /// Whether the key can be read.
    Secret,
    /// Whether the workspace answers.
    Clarify,
    /// Nothing on the Clarify side, for want of a key.
    NoKey,
    /// Whether the dataset can be queried.
    Dataset,
    /// Whether a table can be created.
    Tables,
    /// Whether the table that was created can be removed.
    Removal,
    /// Nothing more.
    Done,
}

/// A check that is under way.
#[derive(Debug)]
pub struct CheckRun {
    pub probes: Vec<Probe>,
    pub phase: CheckPhase,
}

/// Whether `after` is `before` with one probe more, and goes on with `phase`.
pub open spec fn probed(
    before: CheckRun,
    after: CheckRun,
    phase: CheckPhase,
    name: Seq<char>,
    ok: bool,
    detail: Seq<char>,
) -> bool {
    &&& after.phase == phase
    &&& after.probes@.len() == before.probes@.len() + 1
    &&& after.probes@.drop_last() == before.probes@
    &&& after.probes@.last().name@ == name
    &&& after.probes@.last().ok == ok
    &&& after.probes@.last().detail@ == detail
}

/// The query by which a dataset is checked.
pub open spec fn check_query(project: Seq<char>, dataset: Seq<char>) -> Seq<char> {
    "SELECT 1 FROM `"@ + project + "."@ + dataset + ".INFORMATION_SCHEMA.TABLES` LIMIT 1"@
}

/// The query by which a dataset is checked.
pub fn check_sql(sink: &BqSink) -> (r: String)
    ensures
        r@ == check_query(sink.project@, sink.dataset@),
{
    let mut s = "SELECT 1 FROM `".to_owned();
    s.append(sink.project());
    s.append(".");
    s.append(sink.dataset());
    s.append(".INFORMATION_SCHEMA.TABLES` LIMIT 1");
    s
}

/// Whether a failure says that the dataset is not there.
pub open spec fn missing(e: SinkError) -> bool {
    match e {
        SinkError::Http { status, .. } => status == 404,
        _ => false,
    }
}

/// Begins to check: nothing permanent is created, and every probe is reported.
pub fn run_check() -> (r: CheckRun)
    ensures
        r.probes@.len() == 0,
        r.phase == CheckPhase::Secret,
{
    CheckRun { probes: Vec::new(), phase: CheckPhase::Secret }
}

impl CheckRun {
    fn step(&mut self, phase: CheckPhase, name: &'static str, ok: bool, detail: String)
        ensures
            probed(*old(self), *final(self), phase, name@, ok, detail@),
    {
        self.probes.push(Probe { name, ok, detail });
        assert(self.probes@.drop_last() =~= old(self).probes@);
        self.phase = phase;
    }

    /// The key is given, so that no secret is read.
    pub fn secret_given(&mut self)
        requires
            old(self).phase == CheckPhase::Secret,
        ensures
            probed(
                *old(self),
                *final(self),
                CheckPhase::Clarify,
                "secret"@,
                true,
                "skipped (CLARIFY_API_KEY env override)"@,
            ),
    {
        self.step(
            CheckPhase::Clarify,
            "secret",
            true,
            "skipped (CLARIFY_API_KEY env override)".to_owned(),
        );
    }

    /// The secret was read, or not.
    pub fn secret_read(&mut self, secret: &SecretRef, result: Result<(), &SinkError>)
        requires
            old(self).phase == CheckPhase::Secret,
        ensures
            match result {
                Ok(_) => probed(
                    *old(self),
                    *final(self),
                    CheckPhase::Clarify,
                    "secret"@,
                    true,
                    "read "@ + resource_text(secret@),
                ),
                Err(e) => probed(
                    *old(self),
                    *final(self),
                    CheckPhase::NoKey,
                    "secret"@,
                    false,
                    sink_error_text(*e),
                ),
            },
    {
        match result {
            Ok(()) => {
                let mut s = "read ".to_owned();
                s.append(&secret.resource_name());
                self.step(CheckPhase::Clarify, "secret", true, s);
            },
            Err(e) => {
                self.step(CheckPhase::NoKey, "secret", false, e.message());
            },
        }
    }

    /// There is no key, so that the workspace is not asked.
    pub fn clarify_skipped(&mut self)
        requires
            old(self).phase == CheckPhase::NoKey,
        ensures
            probed(
                *old(self),
                *final(self),
                CheckPhase::Dataset,
                "clarify"@,
                false,
                "skipped: no API key"@,
            ),
    {
        self.step(CheckPhase::Dataset, "clarify", false, "skipped: no API key".to_owned());
    }

    /// The workspace answered with its schemas, or not.
    pub fn clarify(&mut self, schemas: Result<&Vec<ObjectSchema>, &ClientError>)
        requires
            old(self).phase == CheckPhase::Clarify,
        ensures
            match schemas {
                Ok(list) => probed(
                    *old(self),
                    *final(self),
                    CheckPhase::Dataset,
                    "clarify"@,
                    true,
                    decimal(merged(schema_views(list@)).len()) + " record objects discovered"@,
                ),
                Err(e) => probed(
                    *old(self),
                    *final(self),
                    CheckPhase::Dataset,
                    "clarify"@,
                    false,
                    client_error_text(*e),
                ),
            },
    {
        match schemas {
            Ok(list) => {
                let objects = merge(list);
                assert(schema_views(objects@).len() == objects@.len());
                let mut s = show_u64(objects.len() as u64);
                s.append(" record objects discovered");
                self.step(CheckPhase::Dataset, "clarify", true, s);
            },
            Err(e) => {
                self.step(CheckPhase::Dataset, "clarify", false, e.message());
            },
        }
    }

    /// The dataset was queried. One that is not there yet is no failure, since the first backup
    /// creates it; there is nothing to create tables in then.
    pub fn dataset(&mut self, sink: &BqSink, result: Result<(), &SinkError>)
        requires
            old(self).phase == CheckPhase::Dataset,
        ensures
            match result {
                Ok(_) => probed(
                    *old(self),
                    *final(self),
                    CheckPhase::Tables,
                    "dataset"@,
                    true,
                    sink.project@ + "."@ + sink.dataset@ + " reachable"@,
                ),
                Err(e) => if missing(*e) {
                    &&& final(self).phase == CheckPhase::Done
                    &&& final(self).probes@.len() == old(self).probes@.len() + 2
                    &&& final(self).probes@.take(old(self).probes@.len() as int) == old(
                        self,
                    ).probes@
                    &&& ({
                        let d = final(self).probes@[old(self).probes@.len() as int];
                        &&& d.name@ == "dataset"@
                        &&& d.ok
                        &&& d.detail@ == sink.project@ + "."@ + sink.dataset@
                            + " does not exist yet (the first backup run will create it)"@
                    })
                    &&& ({
                        let t = final(self).probes@.last();
                        &&& t.name@ == "tables"@
                        &&& t.ok
                        &&& t.detail@ == "skipped (no dataset yet)"@
                    })
                } else {
                    probed(
                        *old(self),
                        *final(self),
                        CheckPhase::Tables,
                        "dataset"@,
                        false,
                        sink_error_text(*e),
                    )
                },
            },
    {
        let mut name = sink.project().to_owned();
        name.append(".");
        name.append(sink.dataset());
        match result {
            Ok(()) => {
                name.append(" reachable");
                self.step(CheckPhase::Tables, "dataset", true, name);
            },
            Err(e) => {
                let gone = match e {
                    SinkError::Http { status, .. } => *status == 404,
                    _ => false,
                };
                if gone {
                    name.append(" does not exist yet (the first backup run will create it)");
                    let ghost first = self.probes@;
                    self.step(CheckPhase::Done, "dataset", true, name);
                    let ghost second = self.probes@;
                    self.step(
                        CheckPhase::Done,
                        "tables",
                        true,
                        "skipped (no dataset yet)".to_owned(),
                    );
                    assert(self.probes@.drop_last() == second);
                    assert(self.probes@.take(first.len() as int) =~= second.drop_last());
                    assert(self.probes@[first.len() as int] == second.last());
                } else {
                    self.step(CheckPhase::Tables, "dataset", false, e.message());
                }
            },
        }
    }

    /// The scratch table was created, or not. One that was created is removed next, and nothing is
    /// reported before.
    pub fn table_created(&mut self, result: Result<(), &SinkError>)
        requires
            old(self).phase == CheckPhase::Tables,
        ensures
            match result {
                Ok(_) => final(self).phase == CheckPhase::Removal && final(self).probes == old(
                    self,
                ).probes,
                Err(e) => probed(
                    *old(self),
                    *final(self),
                    CheckPhase::Done,
                    "tables"@,
                    false,
                    sink_error_text(*e),
                ),
            },
    {
        match result {
            Ok(()) => {
                self.phase = CheckPhase::Removal;
            },
            Err(e) => {
                self.step(CheckPhase::Done, "tables", false, e.message());
            },
        }
    }

    /// The request that removes the scratch table.
    pub fn removal(&self, sink: &BqSink) -> (r: ApiRequest)
        requires
            self.phase == CheckPhase::Removal,
        ensures
            bare_request(r, Method::Delete, table_address(*sink, "_clarify_bq_check"@)),
    {
        sink.delete_table(&check_table_spec().name)
    }

    /// The scratch table was removed, or not.
    pub fn table_removed(&mut self, result: Result<(), &SinkError>)
        requires
            old(self).phase == CheckPhase::Removal,
        ensures
            match result {
                Ok(_) => probed(
                    *old(self),
                    *final(self),
                    CheckPhase::Done,
                    "tables"@,
                    true,
                    "create+delete _clarify_bq_check"@,
                ),
                Err(e) => probed(
                    *old(self),
                    *final(self),
                    CheckPhase::Done,
                    "tables"@,
                    false,
                    sink_error_text(*e),
                ),
            },
    {
        match result {
            Ok(()) => {
                self.step(
                    CheckPhase::Done,
                    "tables",
                    true,
                    "create+delete _clarify_bq_check".to_owned(),
                );
            },
            Err(e) => {
                self.step(CheckPhase::Done, "tables", false, e.message());
            },
        }
    }

    /// The report: every probe on a line of its own. Any failure is a matter of configuration or
    /// authentication.
    pub fn finish(self) -> (r: (ExitCode, String))
        requires
            self.phase == CheckPhase::Done,
        ensures
            r.0 == if all_ok(self.probes@) {
                ExitCode::Complete
            } else {
                ExitCode::ConfigAuth
            },
            r.1@ == report_text(self.probes@),
    {
        let mut report = String::new();
        let mut failed = false;
        let mut i: usize = 0;
        assert(self.probes@.take(0) =~= Seq::empty());
        while i < self.probes.len()
            invariant
                i <= self.probes@.len(),
                report@ == report_text(self.probes@.take(i as int)),
                failed == !all_ok(self.probes@.take(i as int)),
            decreases self.probes@.len() - i,
        {
            let p = &self.probes[i];
            let ghost now = self.probes@.take(i + 1);
            assert(now.drop_last() =~= self.probes@.take(i as int));
            assert(now.last() == *p);
            let mut line = if p.ok {
                "ok    ".to_owned()
            } else {
                "FAIL  ".to_owned()
            };
            line.append(p.name);
            line.append(": ");
            line.append(&p.detail);
            line.append("\n");
            report.append(&line);
            proof {
                let before = self.probes@.take(i as int);
                if p.ok && all_ok(before) {
                    assert forall|k: int| 0 <= k < now.len() implies (#[trigger] now[k]).ok by {
                        if k < i {
                            assert(now[k] == before[k]);
                        }
                    }
                }
                if !p.ok {
                    assert(!now[i as int].ok);
                }
                if !all_ok(before) {
                    let k = choose|k: int| 0 <= k < before.len() && !(#[trigger] before[k]).ok;
                    assert(!now[k].ok);
                }
            }
            if !p.ok {
                failed = true;
            }
            i += 1;
        }
        assert(self.probes@.take(self.probes@.len() as int) =~= self.probes@);
        (
            if failed {
                ExitCode::ConfigAuth
            } else {
                ExitCode::Complete
            },
            report,
        )
    }
}

// ---- views ----

/// How the making of the views ended, and what is said of it: any view that is missing makes it
/// partial.
pub fn run_views(dataset: &str, created: u64, errors: &Vec<String>) -> (r: (ExitCode, String))
    ensures
        r.0 == if errors@.len() == 0 {
            ExitCode::Complete
        } else {
            ExitCode::Partial
        },
        r.1@ == decimal(created as nat) + " views in "@ + dataset@,
{
    let mut s = show_u64(created);
    s.append(" views in ");
    s.append(dataset);
    (
        if errors.len() == 0 {
            ExitCode::Complete
        } else {
            ExitCode::Partial
        },
        s,
    )
}

// ---- mark-complete ----

/// The repair of a run whose data is there but whose row is not.
#[derive(Debug)]
pub struct Repair {
    pub run_id: String,
    pub snapshot_at: String,
    /// The row to write.
    pub row: Json,
    /// The spool that it goes through.
    pub spool: RunSpool,
}

/// The key of the load job that writes a repaired row.
pub const REPAIR_JOB_KEY: &'static str = "runs_repair";

/// The resources of a repaired run: which there were is not known any more.
pub open spec fn repaired_resources() -> JsonView {
    JsonView::Object(fields().push(("repaired"@, JsonView::Bool(true))))
}

/// Whether `r` is the repair of a run that began so many seconds after the beginning of 1970.
pub open spec fn repairs(r: Repair, run_id: Seq<char>, seconds: u64, finished_at: Seq<char>) -> bool {
    &&& r.run_id@ == run_id
    &&& r.snapshot_at@ == rfc3339(seconds)
    &&& r.row@ == ledger_row(
        run_id,
        rfc3339(seconds),
        finished_at,
        "complete"@,
        repaired_resources(),
    )
    &&& r.spool.dir@ == "repair-"@ + run_id
}

/// Prepares the repair of a run whose identifier says this of its time.
pub fn repair_of(run_id: &str, time: &RunTime, finished_at: &str) -> (r: Result<Repair, String>)
    requires
        time matches RunTime::At(s) ==> *s < END_OF_YEARS,
    ensures
        match r {
            Ok(x) => time matches RunTime::At(s) && repairs(x, run_id@, *s, finished_at@),
            Err(e) => match time {
                RunTime::NoUuid(d) => e@ == "run_id is not a UUID: "@ + d@,
                RunTime::NoTime => e@ == "run_id is not a UUIDv7 (no timestamp)"@,
                RunTime::At(_) => false,
            },
        },
{
    match time {
        RunTime::NoUuid(d) => {
            let mut e = "run_id is not a UUID: ".to_owned();
            e.append(d);
            Err(e)
        },
        RunTime::NoTime => Err("run_id is not a UUIDv7 (no timestamp)".to_owned()),
        RunTime::At(seconds) => {
            let snapshot_at = match timestamp(*seconds) {
                Some(s) => s,
                None => String::new(),
            };
            let mut m = no_fields();
            put(&mut m, "repaired", Json::Bool(true));
            let row = ledger_row_json(run_id, &snapshot_at, finished_at, "complete", object(m));
            let mut dir = "repair-".to_owned();
            dir.append(run_id);
            Ok(
                Repair {
                    run_id: run_id.to_owned(),
                    snapshot_at,
                    row,
                    spool: RunSpool::create(&dir),
                },
            )
        },
    }
}

/// Prepares the repair of a run, with its time read out of its identifier; none where that time
/// lies beyond the year 9999, which has no form.
pub fn run_mark_complete(run_id: &str, finished_at: &str) -> (r: Option<Result<Repair, String>>)
    ensures
        match r {
            None => uuid_parsed(run_id@) matches Ok(id) && uuid_seconds(id) matches Some(s) && s
                >= END_OF_YEARS,
            Some(Ok(x)) => uuid_parsed(run_id@) matches Ok(id) && uuid_seconds(id) matches Some(s)
                && s < END_OF_YEARS && repairs(x, run_id@, s, finished_at@),
            Some(Err(e)) => match uuid_parsed(run_id@) {
                Err(d) => e@ == "run_id is not a UUID: "@ + d,
                Ok(id) => uuid_seconds(id) is None && e@
                    == "run_id is not a UUIDv7 (no timestamp)"@,
            },
        },
{
    let time = run_time(run_id);
    if let RunTime::At(seconds) = &time {
        if *seconds >= END_OF_YEARS {
            return None;
        }
    }
    Some(repair_of(run_id, &time, finished_at))
}

/// How the repair of a run ends that is refused.
pub fn repair_refused(e: String) -> (r: (ExitCode, String))
    ensures
        r.0 == ExitCode::ConfigAuth,
        r.1@ == e@,
{
    (ExitCode::ConfigAuth, e)
}

impl Repair {
    /// How the repair ends, once the row is written or not.
    pub fn finish(&self, result: Result<(), String>) -> (r: (ExitCode, String))
        ensures
            match result {
                Ok(_) => r.0 == ExitCode::Complete && r.1@ == "marked run "@ + self.run_id@
                    + " complete (snapshot_at "@ + self.snapshot_at@ + ")"@,
                Err(e) => r.0 == ExitCode::Failed && r.1@ == e@,
            },
    {
        match result {
            Ok(()) => {
                let mut s = "marked run ".to_owned();
                s.append(&self.run_id);
                s.append(" complete (snapshot_at ");
                s.append(&self.snapshot_at);
                s.append(")");
                (ExitCode::Complete, s)
            },
            Err(e) => (ExitCode::Failed, e),
        }
    }
}

/// A repaired run counts nothing, so that the run after it is compared with nothing.
pub proof fn law_repaired_run_counts_nothing()
    ensures
        resource_counts(Some(repaired_resources())) == Map::<Seq<char>, u64>::empty(),
{
}

// ---- what the commands say ----

/// A rejected key is a matter of configuration, and any other failure of the API is a failure.
pub proof fn law_how_failed_commands_end(e: ClientError)
    ensures
        client_exit(e) == ExitCode::ConfigAuth <==> e is Auth,
        client_exit(e) == ExitCode::Failed <==> !(e is Auth),
{
}

/// Each object has a line of its own behind those before it, with its slug, a tab, and its
/// relationships separated by commas; a heading comes first.
pub proof fn law_objects_have_a_line_each(list: Seq<SchemaView>, s: SchemaView)
    ensures
        objects_text(Seq::empty()) == "object\trelationships\n"@,
        objects_text(list.push(s)) == objects_text(list) + (s.slug + "\t"@ + joined(
            s.relationships,
            ","@,
        ) + "\n"@),
{
    assert(list.push(s).drop_last() =~= list);
    assert(objects_text(list.push(s)) =~= objects_text(list) + (s.slug + "\t"@ + joined(
        s.relationships,
        ","@,
    ) + "\n"@));
}

/// Each probe has a line of its own behind those before it, which says how it went.
pub proof fn law_probes_have_a_line_each(probes: Seq<Probe>, p: Probe)
    ensures
        report_text(Seq::empty()) == Seq::<char>::empty(),
        p.ok ==> report_text(probes.push(p)) == report_text(probes) + ("ok    "@ + p.name@ + ": "@
            + p.detail@ + "\n"@),
        !p.ok ==> report_text(probes.push(p)) == report_text(probes) + ("FAIL  "@ + p.name@ + ": "@
            + p.detail@ + "\n"@),
{
    assert(probes.push(p).drop_last() =~= probes);
}

/// A check is passed exactly where none of its probes failed.
pub proof fn law_one_failed_probe_fails_the_check(probes: Seq<Probe>)
    ensures
        all_ok(probes) <==> !exists|i: int| 0 <= i < probes.len() && !(#[trigger] probes[i]).ok,
{
    if !all_ok(probes) {
        let i = choose|i: int| 0 <= i < probes.len() && !(#[trigger] probes[i]).ok;
        assert(!probes[i].ok);
    }
}

/// The dataset is checked by a query that reads no data: the list of its tables.
pub proof fn law_dataset_is_checked_by_its_tables(project: Seq<char>, dataset: Seq<char>)
    ensures
        check_query(project, dataset) == "SELECT 1 FROM `"@ + (project + "."@ + dataset)
            + ".INFORMATION_SCHEMA.TABLES` LIMIT 1"@,
{
    assert("SELECT 1 FROM `"@ + project + "."@ + dataset =~= "SELECT 1 FROM `"@ + (project + "."@
        + dataset));
}

/// Only a status of 404 says that a dataset is missing.
pub proof fn law_which_failures_say_missing(e: SinkError)
    ensures
        missing(e) <==> e is Http && e->Http_status == 404,
{
}

/// A repaired run is complete from now on, under its own identifier and at the time that its
/// identifier says, and its row says that it was repaired.
pub proof fn law_repaired_runs_are_complete(
    r: Repair,
    run_id: Seq<char>,
    seconds: u64,
    finished_at: Seq<char>,
)
    requires
        repairs(r, run_id, seconds, finished_at),
    ensures
        at(r.row@, "run_id"@) == JsonView::Text(run_id),
        at(r.row@, "status"@) == JsonView::Text("complete"@),
        at(r.row@, "snapshot_at"@) == JsonView::Text(rfc3339(seconds)),
        at(r.row@, "finished_at"@) == JsonView::Text(finished_at),
        at(at(r.row@, "resources"@), "repaired"@) == JsonView::Bool(true),
        r.run_id@ == run_id,
        r.snapshot_at@ == rfc3339(seconds),
        r.spool.dir@ != run_id,
{
    crate::runs::law_ledger_row_says(
        run_id,
        rfc3339(seconds),
        finished_at,
        "complete"@,
        repaired_resources(),
    );
    lemma_found_at(repaired_resources()->Object_0, 0);
    reveal_strlit("repair-");
    assert("repair-"@.len() == 7);
}

} // verus!
