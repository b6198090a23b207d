use clarify_bq::admin::{BqSink, Method};
use clarify_bq::backup::{run_backup, Phase};
use clarify_bq::cli::{BackupArgs, ConnArgs, ExitCode, Format};
use clarify_bq::commands::{
    check_sql, repair_of, repair_refused, run_check, run_mark_complete, run_objects, run_views, CheckPhase,
    REPAIR_JOB_KEY,
};
use clarify_bq::config::{Config, KeySource};
use clarify_bq::clock::{new_run_id, RunTime};
use clarify_bq::envelope::{LinkedEnvelope, Links, ResourcesEnvelope, ResourcesMeta};
use clarify_bq::error::{ClientError, SinkError};
use clarify_bq::coverage::{FetchAction, FetchPhase};
use clarify_bq::fetch::{
    lists_to_fetch, note_lists, ObjectAction, ObjectRun, SpoolProduct, FEED_BREAKER,
};
use clarify_bq::http::ClarifyClient;
use clarify_bq::json::Json;
use clarify_bq::orchestrate::{
    dataset_failed, discovered, load_phase, lock_result, previous_counts, removes_spool,
    run_backup_result, spool_failed, unmarked, views_summary, wanted_feeds, wants_shrink_check,
    wants_views, BackupRun, Discovery, FetchTask, LoadAction, LockAttempt, RunResult,
};
use clarify_bq::plan::Category;
use clarify_bq::rows::{FeedKind, FetchCtx, RowKind};
use clarify_bq::runs::ResourceOutcome;
use clarify_bq::schemas::{extract, ObjectSchema};
use clarify_bq::spool::RunSpool;
use clarify_bq::tables::sanitize;

fn doc(text: &str) -> Json {
    Json::parse(text).unwrap()
}

fn sink() -> BqSink {
    BqSink::new(
        "http://127.0.0.1:9998".to_string(),
        "proj".to_string(),
        "ds".to_string(),
        "US".to_string(),
    )
}

fn client() -> ClarifyClient {
    ClarifyClient::new("http://127.0.0.1:9999".to_string(), "sk".to_string(), "acme".to_string())
}

fn discovered_schemas() -> Vec<ObjectSchema> {
    [
        r#"{"type": "schema", "id": "https://example.test/schemas/core/person",
             "attributes": {"title": "person", "xClarifyNamespace": "objects",
                "properties": {"company_id": {"xClarifyRelationship": {"entity": "company"}}}}}"#,
        r#"{"type": "schema", "id": "https://example.test/schemas/entities/person",
             "attributes": {"title": "person", "xClarifyNamespace": "objects",
                "properties": {"company_id": {"xClarifyRelationship": {"entity": "company"}}}}}"#,
        r#"{"type": "schema", "id": "https://example.test/schemas/entities/deal",
             "attributes": {"title": "deal", "xClarifyNamespace": "objects", "properties": {}}}"#,
    ]
    .iter()
    .map(|t| extract(&doc(t)))
    .collect()
}

fn conn() -> ConnArgs {
    ConnArgs {
        workspace: "acme".to_string(),
        project: "proj".to_string(),
        secret: None,
        dataset: "ds".to_string(),
        location: "US".to_string(),
    }
}

fn http(status: u16, body: &str) -> SinkError {
    SinkError::Http { status, url: "u".to_string(), body: body.to_string() }
}

// ---- commands ----

#[test]
fn objects_lists_discovered_slugs() {
    let schemas = discovered_schemas();
    let (exit, out) = run_objects(Ok(&schemas));
    assert_eq!(exit, ExitCode::Complete);
    assert!(out.contains("person\tcompany_id"));
    assert!(out.contains("deal"));
    assert_eq!(out.matches("person").count(), 1, "core/entities duplicates collapsed");
    assert_eq!(out, "object\trelationships\nperson\tcompany_id\ndeal\t\n");
}

#[test]
fn objects_that_cannot_be_listed_say_why() {
    let denied = ClientError::Auth { status: 403, hint: "h".to_string() };
    assert_eq!(run_objects(Err(&denied)).0, ExitCode::ConfigAuth);
    let down = ClientError::Http { status: 500, url: "u".to_string(), attempts: 5 };
    let (exit, out) = run_objects(Err(&down));
    assert_eq!(exit, ExitCode::Failed);
    assert_eq!(out, "HTTP 500 from u after 5 attempts");
}

#[test]
fn check_reports_probes_and_fails_on_denied_dataset() {
    let cfg = Config::resolve(&conn(), Some("sk_env".to_string())).unwrap();
    let s = sink();
    let mut check = run_check();
    match cfg.key_source() {
        KeySource::Given(_) => check.secret_given(),
        KeySource::Secret(_) => panic!("the key is given"),
    }
    check.clarify(Ok(&discovered_schemas()));
    assert_eq!(check_sql(&s), "SELECT 1 FROM `proj.ds.INFORMATION_SCHEMA.TABLES` LIMIT 1");
    let denied = s.queried(403, &doc(r#"{"error": {"message": "denied"}}"#));
    check.dataset(&s, Err(&denied.unwrap_err()));
    assert_eq!(check.phase, CheckPhase::Tables);
    check.table_created(Ok(()));
    assert_eq!(check.phase, CheckPhase::Removal);
    let removal = check.removal(&s);
    assert_eq!(removal.method, Method::Delete);
    assert!(removal.url.ends_with("/datasets/ds/tables/_clarify_bq_check"));
    check.table_removed(Ok(()));
    let (exit, report) = check.finish();
    assert_eq!(exit, ExitCode::ConfigAuth, "report:\n{report}");
    assert!(report.contains("ok    secret: skipped"));
    assert!(report.contains("ok    clarify: 2 record objects"));
    assert!(report.contains("FAIL  dataset"));
    assert!(report.contains("ok    tables"));
}

#[test]
fn check_treats_missing_dataset_as_informational() {
    let s = sink();
    let mut check = run_check();
    check.secret_given();
    check.clarify(Ok(&discovered_schemas()));
    let gone = s.queried(404, &doc(r#"{"error": {"message": "Not found: Dataset proj:ds"}}"#));
    check.dataset(&s, Err(&gone.unwrap_err()));
    assert_eq!(check.phase, CheckPhase::Done);
    let (exit, report) = check.finish();
    assert_eq!(exit, ExitCode::Complete, "report:\n{report}");
    assert!(report.contains("ok    dataset: proj.ds does not exist yet"));
    assert!(report.contains("ok    tables: skipped"));
}

#[test]
fn check_goes_on_without_a_key() {
    let mut c = conn();
    c.secret = Some("projects/p/secrets/k".to_string());
    let cfg = Config::resolve(&c, None).unwrap();
    let mut check = run_check();
    match cfg.key_source() {
        KeySource::Secret(secret) => check.secret_read(secret, Err(&http(403, "denied"))),
        KeySource::Given(_) => panic!("the key is a secret"),
    }
    assert_eq!(check.phase, CheckPhase::NoKey);
    check.clarify_skipped();
    check.dataset(&sink(), Ok(()));
    check.table_created(Ok(()));
    check.table_removed(Err(&http(403, "no")));
    let (exit, report) = check.finish();
    assert_eq!(exit, ExitCode::ConfigAuth);
    assert_eq!(
        report,
        "FAIL  secret: HTTP 403 from u: denied\nFAIL  clarify: skipped: no API key\nok    dataset: proj.ds reachable\nFAIL  tables: HTTP 403 from u: no\n"
    );
    let mut denied = run_check();
    denied.secret_given();
    denied.clarify(Ok(&vec![]));
    denied.dataset(&sink(), Ok(()));
    denied.table_created(Err(&http(403, "no")));
    assert_eq!(denied.phase, CheckPhase::Done, "there is no table to remove");
    assert_eq!(denied.probes[3].detail, "HTTP 403 from u: no");
    let mut read = run_check();
    match cfg.key_source() {
        KeySource::Secret(secret) => read.secret_read(secret, Ok(())),
        KeySource::Given(_) => panic!("the key is a secret"),
    }
    assert_eq!(read.probes[0].detail, "read projects/p/secrets/k/versions/latest");
}

#[test]
fn views_that_are_missing_are_partial() {
    assert_eq!(run_views("d_latest", 9, &vec![]), (ExitCode::Complete, "9 views in d_latest".into()));
    let e = vec!["view for person: config: denied".to_string()];
    assert_eq!(run_views("d_latest", 8, &e).0, ExitCode::Partial);
}

#[test]
fn mark_complete_loads_runs_row_with_derived_timestamp() {
    let run_id = new_run_id().unwrap();
    let repair = run_mark_complete(&run_id, "2026-07-20T00:00:00Z").unwrap().unwrap();
    assert_eq!(repair.spool.dir, format!("repair-{run_id}"));
    assert_eq!(REPAIR_JOB_KEY, "runs_repair");
    let line = repair.spool.writer("runs").write_row(&repair.row);
    let upload = sink().submit_chunk("runs", "job", line.as_bytes());
    let body = String::from_utf8_lossy(&upload.body).to_string();
    assert!(body.contains("\"status\":\"complete\""));
    assert!(body.contains("\"repaired\":true"));
    let (exit, msg) = repair.finish(Ok(()));
    assert_eq!(exit, ExitCode::Complete, "msg: {msg}");
    assert!(msg.contains(&run_id));
}

#[test]
fn mark_complete_rejects_non_uuid() {
    let refused = run_mark_complete("not-a-uuid", "t").unwrap().unwrap_err();
    let (exit, msg) = repair_refused(refused);
    assert_eq!(exit, ExitCode::ConfigAuth);
    assert!(msg.starts_with("run_id is not a UUID: "));
    let untimed = run_mark_complete("2f1b7c3e-6f0f-4b6a-9d4b-0e2f8c9a1b2c", "t");
    assert_eq!(untimed.unwrap().unwrap_err(), "run_id is not a UUIDv7 (no timestamp)");
    // The milliseconds of this one lie beyond the year 9999.
    assert!(run_mark_complete("ffffffff-ffff-7abc-8def-0123456789ab", "t").is_none());
}

#[test]
fn a_repaired_row_has_the_time_of_its_run() {
    let repair = repair_of("id", &RunTime::At(0), "end").unwrap();
    assert_eq!(
        repair.row.show(),
        r#"{"finished_at":"end","resources":{"repaired":true},"run_id":"id","snapshot_at":"1970-01-01T00:00:00Z","status":"complete"}"#
    );
    assert_eq!(
        repair.finish(Ok(())).1,
        "marked run id complete (snapshot_at 1970-01-01T00:00:00Z)"
    );
    let (exit, msg) = repair.finish(Err("load: x".to_string()));
    assert_eq!((exit, msg.as_str()), (ExitCode::Failed, "load: x"));
    assert_eq!(
        repair_of("id", &RunTime::NoUuid("bad".to_string()), "end").unwrap_err(),
        "run_id is not a UUID: bad"
    );
}

// ---- the backup ----

fn args(dry_run: bool) -> BackupArgs {
    BackupArgs {
        conn: conn(),
        objects: vec![],
        skip: vec![],
        dry_run,
        no_lock: true,
        no_shrink_check: false,
        partition_expiration_days: 400,
        views_dataset: None,
        no_views: false,
        output: Format::Text,
    }
}

fn ctx() -> FetchCtx {
    FetchCtx { run_id: "run".to_string(), snapshot_at: "2026-07-20T00:00:00Z".to_string() }
}

fn happy_schemas() -> Vec<ObjectSchema> {
    vec![extract(&doc(
        r#"{"type": "schema", "id": "sch_1", "attributes": {
                "entity": "person",
                "fields": {"company": {"type": "relationship"}}
            }}"#,
    ))]
}

fn records_page() -> ResourcesEnvelope {
    ResourcesEnvelope {
        data: vec![
            doc(r#"{"type": "person", "id": "rec_1", "attributes": {"name": "Synthetic One"},
                     "relationships": {"company": {"data": null}}}"#),
            doc(r#"{"type": "person", "id": "rec_2", "attributes": {"name": "Synthetic Two"},
                     "relationships": {"company": {"data": null}}}"#),
        ],
        meta: ResourcesMeta { total_records: Some(2) },
    }
}

fn now() -> String {
    "2026-07-20T00:00:01Z".to_string()
}

/// Fetches everything from a workspace with one object, two records, one activity for each and one
/// user. Records or users may fail.
fn fetch_into(
    phase: &mut FetchPhase,
    run: &BackupRun,
    records: Option<ClientError>,
    users: Option<ClientError>,
) {
    let spool = RunSpool::create(&run.ctx.run_id);
    let mut records = records;
    loop {
        match phase.next() {
            FetchAction::Done => break,
            FetchAction::Objects => {
                for (i, schema) in run.plan.objects.iter().enumerate() {
                    let (slug, table) = &run.tables[i];
                    assert_eq!(slug, &schema.slug);
                    let mut f = run.ctx.fetch_object(&client(), &spool, schema, table, now());
                    let result = match records.take() {
                        Some(e) => Err(e),
                        None => {
                            assert_eq!(f.page(&run.ctx, &records_page()).len(), 2);
                            assert!(f.scan.done);
                            Ok(())
                        }
                    };
                    let o = f.finish(&run.ctx, phase.kinds.clone(), result, now());
                    let o = through_feeds(run, &spool, o);
                    assert!(phase.takes(i, &o));
                    phase.object_done(i, o);
                }
            }
            FetchAction::Flat(category) => {
                let result = match (category, &users) {
                    (Category::Users, Some(e)) => Err(e.message()),
                    (Category::Users, None) => Ok(1),
                    (Category::Schemas, _) => {
                        Ok(run.spool_schemas(&mut spool.writer("schemas")).len() as u64)
                    }
                    (Category::Settings, _) => Ok(run
                        .ctx
                        .write_items(
                            &mut spool.writer("settings"),
                            &RowKind::Settings,
                            &vec![doc(r#"{"orgDescription": "synthetic"}"#)],
                        )
                        .len() as u64),
                    _ => Ok(0),
                };
                phase.flat_done(&run.ctx, &spool, now(), result, now());
            }
        }
    }
}

/// Takes an object through its feeds: one activity for each record, and no attachments.
fn through_feeds(run: &BackupRun, spool: &RunSpool, mut o: ObjectRun) -> ObjectRun {
    loop {
        match o.next() {
            ObjectAction::Done => return o,
            ObjectAction::Skip(_) => o.skip_feed(&run.ctx, now(), now()),
            ObjectAction::Feed(_) => o.begin_feed(&run.ctx, spool, now()),
            ObjectAction::Feeding => {
                let feed = o.feed.as_mut().unwrap();
                while feed.next().is_some() {
                    let items = match feed.kind {
                        FeedKind::Activities => vec![doc(
                            r#"{"type": "activity", "id": "act_1", "attributes": {"kind": "comment"}}"#,
                        )],
                        FeedKind::Attachments => vec![],
                    };
                    feed.fed(&run.ctx, Ok(&items));
                }
                o.end_feed(&run.ctx, Ok(()), now());
            }
        }
    }
}

fn fetch(run: &BackupRun, records: Option<ClientError>, users: Option<ClientError>) -> Vec<SpoolProduct> {
    let mut phase = run.fetch_phase();
    fetch_into(&mut phase, run, records, users);
    phase.finish()
}

/// What a backup did: how it ended, the tables that it made sure of, what it loaded, and the phases
/// that it went through.
struct Done {
    result: RunResult,
    tables: Vec<String>,
    jobs: Vec<String>,
    phases: Vec<Phase>,
}

/// Runs a backup to its end. Everything but the records and the users comes, and every request to
/// BigQuery succeeds.
fn backup(
    args: BackupArgs,
    schemas: Vec<ObjectSchema>,
    records: Option<ClientError>,
    users: Option<ClientError>,
) -> Done {
    let mut b = run_backup(ctx(), args);
    let mut schemas = Some(schemas);
    let (mut records, mut users) = (records, users);
    let (mut tables, mut jobs, mut phases) = (Vec::new(), Vec::new(), Vec::new());
    while b.phase != Phase::Over {
        phases.push(b.phase);
        match b.phase {
            Phase::Lock => b.locked(&LockAttempt::Taken),
            Phase::Discover => b.discovered(Ok(schemas.take().unwrap())),
            Phase::Spool => b.spooled(Ok(())),
            Phase::Fetch => {
                let run = b.run.as_ref().unwrap();
                fetch_into(&mut b.fetch, run, records.take(), users.take());
                b.fetched();
            }
            Phase::Dataset => b.dataset_ready(Ok(())),
            Phase::Load => match b.load.next() {
                LoadAction::EnsureTable(spec) => {
                    tables.push(spec.name);
                    b.load.table_ensured(Ok(()));
                }
                LoadAction::Load(job) => {
                    jobs.push(format!("{} {} {}", job.table, job.job_key, job.path));
                    b.load.loaded(Ok(()));
                }
                LoadAction::Done => b.loads_done(now()),
            },
            Phase::Compare => b.compared(vec![], now()),
            Phase::Mark => assert!(b.marked(Ok(())).is_none()),
            Phase::Clean => b.cleaned(),
            Phase::Views => b.viewed(views_summary("ds_latest", 9, &vec![])),
            Phase::Over => {}
        }
    }
    Done { result: b.result.unwrap(), tables, jobs, phases }
}

fn ready() -> BackupRun {
    match discovered(ctx(), &args(false), Ok(happy_schemas())) {
        Discovery::Fetch(run) => run,
        Discovery::Stop(r) => panic!("the run stopped: {}", r.summary.show()),
    }
}

fn said<'a>(summary: &'a Json, resource: &str) -> &'a Json {
    match summary.get("resources") {
        Some(Json::Array(list)) => list
            .iter()
            .find(|o| o.get("resource").unwrap().is_text(resource))
            .unwrap_or_else(|| panic!("no outcome for {resource}")),
        _ => panic!("no resources"),
    }
}

#[test]
fn happy_path_backs_up_everything_and_marks_complete() {
    let done = backup(args(false), happy_schemas(), None, None);
    let result = done.result;
    assert_eq!(result.exit, ExitCode::Complete, "summary: {}", result.summary.show());
    assert!(result.summary.get("status").unwrap().is_text("complete"));
    assert_eq!(said(&result.summary, "records_person").get("count").unwrap().as_u64(), Some(2));
    assert_eq!(said(&result.summary, "activities:person").get("count").unwrap().as_u64(), Some(2));
    assert_eq!(said(&result.summary, "users").get("count").unwrap().as_u64(), Some(1));
    assert_eq!(said(&result.summary, "settings").get("count").unwrap().as_u64(), Some(1));
    assert_eq!(
        done.tables,
        vec![
            "records_person", "activities", "attachments", "schemas", "lists", "list_rows",
            "users", "workflows", "settings"
        ]
    );
    assert_eq!(done.jobs[0], "records_person records_person records_person.ndjson");
    assert_eq!(done.jobs[1], "activities activities_person activities__person.ndjson");
    assert_eq!(done.jobs.len(), 9);
    // Spool removed on success.
    assert!(done.phases.contains(&Phase::Mark) && done.phases.contains(&Phase::Clean));
    assert!(removes_spool("complete") && !removes_spool("partial"));
}

#[test]
fn dry_run_writes_nothing() {
    let done = backup(args(true), happy_schemas(), None, None);
    assert_eq!(done.result.exit, ExitCode::Complete);
    assert!(matches!(done.result.summary.get("dry_run"), Some(Json::Bool(true))));
    assert_eq!(done.phases, vec![Phase::Discover]);
    assert!(done.tables.is_empty() && done.jobs.is_empty());
    let two = backup(args(true), discovered_schemas(), None, None);
    assert_eq!(
        two.result.summary.get("objects").unwrap().show(),
        r#"[{"object":"deal","table":"records_deal"},{"object":"person","table":"records_person"}]"#
    );
}

#[test]
fn aux_failure_is_partial_exit() {
    let denied = ClientError::Auth { status: 403, hint: "h".to_string() };
    let done = backup(args(false), happy_schemas(), None, Some(denied));
    let result = done.result;
    assert_eq!(result.exit, ExitCode::Partial, "summary: {}", result.summary.show());
    assert!(result.summary.get("status").unwrap().is_text("partial"));
    assert!(said(&result.summary, "users").get("status").unwrap().is_text("failed"));
    assert!(said(&result.summary, "records_person").get("status").unwrap().is_text("ok"));
    assert!(!done.tables.contains(&"users".to_string()), "what failed is not loaded");
    assert!(!done.phases.contains(&Phase::Clean), "the spool is kept");
}

#[test]
fn records_failure_is_failed_exit() {
    let down = ClientError::Http { status: 500, url: "u".to_string(), attempts: 5 };
    let result = backup(args(false), happy_schemas(), Some(down), None).result;
    assert_eq!(result.exit, ExitCode::Failed, "summary: {}", result.summary.show());
    assert!(result.summary.get("status").unwrap().is_text("failed"));
    assert!(said(&result.summary, "records_person").get("status").unwrap().is_text("failed"));
    assert!(said(&result.summary, "activities:person").get("status").unwrap().is_text("skipped"));
}

#[test]
fn an_object_without_records_fails_no_run() {
    let none = ClientError::Http { status: 404, url: "u".to_string(), attempts: 1 };
    let done = backup(args(false), happy_schemas(), Some(none), None);
    assert_eq!(done.result.exit, ExitCode::Complete);
    let o = said(&done.result.summary, "records_person");
    assert!(o.get("status").unwrap().is_text("skipped"));
    assert!(o.get("error").unwrap().is_text("object has no records endpoint (404); skipped"));
    assert!(!done.tables.contains(&"records_person".to_string()));
}

#[test]
fn an_object_brings_its_records_and_then_each_feed() {
    let run = ready();
    let spool = RunSpool::create("run");
    let kinds = vec![FeedKind::Activities, FeedKind::Attachments];
    let begin = || {
        run.ctx.fetch_object(&client(), &spool, &run.plan.objects[0], &run.tables[0].1, now())
    };
    let lost = ClientError::Transport("gone".to_string());
    let o = begin().finish(&run.ctx, kinds.clone(), Err(lost), now());
    assert_eq!(o.next(), ObjectAction::Skip(FeedKind::Activities));
    let products = through_feeds(&run, &spool, o).finish();
    let said: Vec<String> =
        products.iter().map(|p| format!("{} {}", p.resource, p.outcome.status)).collect();
    assert_eq!(
        said,
        vec!["records_person failed", "activities:person skipped", "attachments:person skipped"]
    );
    assert!(products.iter().all(|p| p.path.is_none()));
    let mut f = begin();
    f.page(&run.ctx, &records_page());
    let mut o = f.finish(&run.ctx, vec![FeedKind::Attachments], Ok(()), now());
    assert_eq!(o.next(), ObjectAction::Feed(FeedKind::Attachments));
    o.begin_feed(&run.ctx, &spool, now());
    assert_eq!(o.next(), ObjectAction::Feeding);
    assert_eq!(o.feed.as_ref().unwrap().record_ids, vec!["rec_1", "rec_2"]);
    o.end_feed(&run.ctx, Err("spool: full".to_string()), now());
    assert_eq!(o.next(), ObjectAction::Done);
    let products = o.finish();
    assert_eq!(products.len(), 2);
    assert_eq!(products[0].outcome.count, 2);
    assert_eq!(products[1].outcome.error.as_deref(), Some("spool: full"));
}

#[test]
fn a_fetch_takes_each_object_once() {
    let run = match discovered(ctx(), &args(false), Ok(discovered_schemas())) {
        Discovery::Fetch(run) => run,
        Discovery::Stop(_) => panic!("the run goes on"),
    };
    let spool = RunSpool::create("run");
    let mut phase = run.fetch_phase();
    let fetched = |i: usize| {
        let f = run.ctx.fetch_object(
            &client(),
            &spool,
            &run.plan.objects[i],
            &run.tables[i].1,
            now(),
        );
        let kinds = vec![FeedKind::Activities, FeedKind::Attachments];
        let lost = ClientError::Transport("gone".to_string());
        f.finish(&run.ctx, kinds, Err(lost), now())
    };
    assert!(!phase.takes(1, &fetched(1)), "its feeds are not through");
    let second = through_feeds(&run, &spool, fetched(1));
    assert!(!phase.takes(0, &second), "it is another object");
    assert!(phase.takes(1, &second));
    phase.object_done(1, second);
    assert!(!phase.takes(1, &through_feeds(&run, &spool, fetched(1))), "it is there already");
    assert_eq!(phase.next(), FetchAction::Objects);
    phase.object_done(0, through_feeds(&run, &spool, fetched(0)));
    assert_eq!(phase.next(), FetchAction::Flat(Category::Schemas));
    let resources: Vec<&str> = phase.products.iter().map(|p| p.resource.as_str()).collect();
    assert_eq!(
        resources,
        vec![
            "records_deal", "activities:deal", "attachments:deal", "records_person",
            "activities:person", "attachments:person"
        ]
    );
}

#[test]
fn list_rows_follow_lists_that_came() {
    let only = |skip: &[&str]| {
        let mut a = args(false);
        a.skip = skip.iter().map(|s| s.to_string()).collect();
        match discovered(ctx(), &a, Ok(happy_schemas())) {
            Discovery::Fetch(run) => run,
            Discovery::Stop(_) => panic!("the run goes on"),
        }
    };
    let rest = ["records", "schemas", "users", "workflows", "settings"];
    let spool = RunSpool::create("run");
    let fetch_lists = |run: &BackupRun, lists: Result<u64, String>| {
        let mut phase = run.fetch_phase();
        assert_eq!(phase.next(), FetchAction::Flat(Category::Lists));
        phase.flat_done(&run.ctx, &spool, now(), lists, now());
        if phase.next() == FetchAction::Flat(Category::ListRows) {
            phase.flat_done(&run.ctx, &spool, now(), Ok(4), now());
        }
        assert_eq!(phase.next(), FetchAction::Done);
        let names: Vec<String> = phase.finish().into_iter().map(|p| p.resource).collect();
        names
    };
    let both = only(&rest);
    assert_eq!(fetch_lists(&both, Ok(3)), vec!["lists", "list_rows"]);
    assert_eq!(fetch_lists(&both, Err("e".to_string())), vec!["lists"]);
    let mut skip = rest.to_vec();
    skip.push("lists");
    let rows = only(&skip);
    assert_eq!(fetch_lists(&rows, Ok(3)), vec!["list_rows"]);
    assert_eq!(fetch_lists(&rows, Err("e".to_string())), Vec::<String>::new());
    let mut skip = rest.to_vec();
    skip.push("list_rows");
    assert_eq!(fetch_lists(&only(&skip), Ok(3)), vec!["lists"]);
}

#[test]
fn discovery_stops_a_run_that_cannot_go_on() {
    let stop = |a: BackupArgs, s: Result<Vec<ObjectSchema>, ClientError>| {
        match discovered(ctx(), &a, s) {
            Discovery::Stop(r) => r,
            Discovery::Fetch(_) => panic!("the run cannot go on"),
        }
    };
    let r = stop(args(false), Err(ClientError::Auth { status: 401, hint: "h".to_string() }));
    assert_eq!(r.exit, ExitCode::ConfigAuth);
    assert_eq!(
        r.summary.show(),
        r#"{"error":"authentication rejected (HTTP 401): h","run_id":"run"}"#
    );
    let r = stop(args(false), Err(ClientError::Transport("gone".to_string())));
    assert_eq!(r.exit, ExitCode::Failed);
    let mut wrong = args(false);
    wrong.objects = vec!["ghost".to_string()];
    assert_eq!(stop(wrong, Ok(happy_schemas())).exit, ExitCode::ConfigAuth);
    let clash = vec![
        extract(&doc(r#"{"attributes":{"entity":"a-b"}}"#)),
        extract(&doc(r#"{"attributes":{"entity":"a_b"}}"#)),
    ];
    let r = stop(args(false), Ok(clash));
    assert_eq!(r.exit, ExitCode::ConfigAuth);
    assert!(r.summary.get("error").unwrap().as_str().unwrap().contains("both map to table"));
}

#[test]
fn a_run_without_the_lock_stops() {
    assert!(lock_result("run", &LockAttempt::NotWanted).is_none());
    assert!(lock_result("run", &LockAttempt::Taken).is_none());
    let held = lock_result("run", &LockAttempt::Held).unwrap();
    assert_eq!(held.exit, ExitCode::LockHeld);
    assert_eq!(held.summary.show(), r#"{"error":"another run holds the lock","run_id":"run"}"#);
    let broken = lock_result("run", &LockAttempt::Failed("denied".to_string())).unwrap();
    assert_eq!(broken.exit, ExitCode::Failed);
    assert!(broken.summary.get("error").unwrap().is_text("lockfile: denied"));
    assert!(spool_failed("run", "full").summary.get("error").unwrap().is_text("spool: full"));
    assert_eq!(dataset_failed("run", &http(403, "no")).exit, ExitCode::Failed);
}

#[test]
fn skipped_categories_are_not_fetched() {
    let mut a = args(false);
    a.skip = vec!["lists".to_string(), "users".to_string(), "attachments".to_string()];
    let run = match discovered(ctx(), &a, Ok(happy_schemas())) {
        Discovery::Fetch(run) => run,
        Discovery::Stop(_) => panic!("the run goes on"),
    };
    assert_eq!(
        run.tasks(),
        vec![
            FetchTask::Objects { activities: true, attachments: false },
            FetchTask::Schemas,
            FetchTask::Lists { keep: false, rows: true },
            FetchTask::Linked(Category::Workflows),
            FetchTask::Settings,
        ]
    );
    assert_eq!(wanted_feeds(true, false), vec![FeedKind::Activities]);
}

#[test]
fn feeds_that_fail_are_skipped_and_the_circuit_opens() {
    let c = ctx();
    let spool = RunSpool::create("run");
    let ids: Vec<String> = (1..=6).map(|i| format!("rec_{i}")).collect();
    let mut feed = c.fetch_per_record(&spool, FeedKind::Activities, "person", ids, now());
    let down = ClientError::Http { status: 500, url: "u".to_string(), attempts: 5 };
    let item = vec![doc(r#"{"id": "act_1"}"#)];
    assert_eq!(feed.next().unwrap(), "rec_1");
    feed.fed(&c, Err(&down));
    let lines = feed.fed(&c, Ok(&item));
    assert_eq!(
        lines,
        vec!["{\"activity_id\":\"act_1\",\"data\":{\"id\":\"act_1\"},\"object\":\"person\",\"record_id\":\"rec_2\",\"run_id\":\"run\",\"snapshot_at\":\"2026-07-20T00:00:00Z\"}\n"]
    );
    for _ in 0..FEED_BREAKER {
        assert!(feed.next().is_some());
        feed.fed(&c, Err(&down));
    }
    assert!(feed.next().is_none(), "the sixth is not attempted");
    assert_eq!(feed.skipped, 5);
    let p = feed.finish(&c, now());
    assert_eq!(p.outcome.status, "ok");
    assert_eq!(p.outcome.count, 1);
    assert_eq!(p.outcome.consistency, "dirty");
    assert_eq!(
        p.outcome.error.as_deref(),
        Some("5 record feed(s) skipped; last: circuit opened after 3 consecutive failures (1 feed(s) not attempted); last: HTTP 500 from u after 5 attempts")
    );
    let failed = c.feed_failed(FeedKind::Attachments, "person", now(), now(), "spool: full".into());
    assert_eq!(failed.resource, "attachments:person");
    assert_eq!(failed.outcome.status, "failed");
    assert!(failed.path.is_none());
}

#[test]
fn list_rows_come_from_objects_with_records() {
    let mut lists = Vec::new();
    note_lists(
        &mut lists,
        &vec![
            doc(r#"{"id": "lst_1", "attributes": {"entity": "person"}}"#),
            doc(r#"{"id": "lst_2", "attributes": {"entity": "tam_account"}}"#),
            doc(r#"{"id": "lst_3"}"#),
        ],
    );
    let wanted = lists_to_fetch(&lists, &happy_schemas());
    assert_eq!(wanted, vec![("person".to_string(), "lst_1".to_string())]);
    let spool = RunSpool::create("run");
    let page = |id: &str, total: u64| ResourcesEnvelope {
        data: vec![doc(&format!(r#"{{"id": "{id}"}}"#))],
        meta: ResourcesMeta { total_records: Some(total) },
    };
    let two: Vec<(String, String)> =
        ["lst_1", "lst_2", "lst_3"].iter().map(|l| ("person".to_string(), l.to_string())).collect();
    let mut rows = ctx().fetch_list_rows(&spool, &two, &happy_schemas());
    assert_eq!(rows.writer.file, "list_rows.ndjson");
    assert_eq!(rows.next().unwrap().path, "/objects/person/lists/lst_1/resources");
    let lines = rows.page(&ctx(), &page("rec_1", 2));
    assert!(lines[0].contains(r#""list_id":"lst_1","object":"person","record_id":"rec_1""#));
    assert_eq!(rows.next().unwrap().fetched, 1, "the list goes on");
    rows.page(&ctx(), &page("rec_2", 2));
    assert_eq!(rows.next().unwrap().path, "/objects/person/lists/lst_2/resources");
    let gone = ClientError::Http { status: 404, url: "u".to_string(), attempts: 1 };
    rows.failed(&gone);
    assert_eq!(rows.next().unwrap().path, "/objects/person/lists/lst_3/resources");
    rows.page(&ctx(), &page("rec_1", 1));
    assert!(rows.next().is_none());
    assert_eq!(rows.finish(Ok(())), Ok(3));
    let mut lost = ctx().fetch_list_rows(&spool, &two, &happy_schemas());
    lost.failed(&ClientError::Transport("gone".to_string()));
    assert!(lost.next().is_none(), "the other lists are not asked");
    assert_eq!(lost.finish(Ok(())), Err("transport error: gone".to_string()));
    let none = ctx().fetch_list_rows(&spool, &vec![], &happy_schemas());
    assert_eq!(none.finish(Err("spool: full".to_string())), Err("spool: full".to_string()));
}

#[test]
fn linked_collections_are_spooled_page_by_page() {
    let spool = RunSpool::create("run");
    let page = |text: &str, next: Option<&str>| LinkedEnvelope {
        data: vec![doc(text)],
        links: Links { next: next.map(String::from) },
    };
    let mut users = ctx().fetch_linked(&spool, Category::Users).unwrap();
    assert_eq!(users.scan.next.as_deref(), Some("/users"));
    assert_eq!(users.writer.file, "users.ndjson");
    let lines = users.page(&ctx(), &page(r#"{"id": "u_1"}"#, Some("/users?cursor=a")));
    assert!(lines[0].contains(r#""id":"u_1","run_id":"run""#));
    users.page(&ctx(), &page(r#"{"id": "u_2"}"#, None));
    assert!(users.lists.is_empty());
    assert_eq!(users.finish(Ok(())), Ok(2));
    let mut lists = ctx().fetch_linked(&spool, Category::Lists).unwrap();
    let lines =
        lists.page(&ctx(), &page(r#"{"id": "lst_1", "attributes": {"entity": "deal"}}"#, None));
    assert!(lines[0].contains(r#""list_id":"lst_1","object":"deal""#));
    assert_eq!(lists.lists, vec![("deal".to_string(), "lst_1".to_string())]);
    assert_eq!(lists.finish(Err("e".to_string())), Err("e".to_string()));
    assert!(ctx().fetch_linked(&spool, Category::Settings).is_none());
}

#[test]
fn failed_tables_and_loads_fail_their_resources() {
    let run = ready();
    let mut phase = load_phase(fetch(&run, None, None), 0);
    match phase.next() {
        LoadAction::EnsureTable(spec) => {
            assert_eq!(spec.name, "records_person");
            assert_eq!(spec.partition_expiration_days, None, "zero days keep forever");
        }
        _ => panic!("the table comes first"),
    }
    phase.table_ensured(Err(&http(403, "no")));
    assert!(matches!(phase.next(), LoadAction::EnsureTable(_)));
    phase.table_ensured(Ok(()));
    assert!(matches!(phase.next(), LoadAction::Load(_)));
    phase.loaded(Err(&http(500, "down")));
    assert_eq!(
        phase.products[0].outcome.error.as_deref(),
        Some("ensure table: HTTP 403 from u: no")
    );
    assert_eq!(phase.products[1].outcome.status, "failed");
    assert_eq!(phase.products[1].outcome.error.as_deref(), Some("load: HTTP 500 from u: down"));
    assert_eq!(phase.products[2].outcome.status, "ok");
    loop {
        match phase.next() {
            LoadAction::EnsureTable(_) => phase.table_ensured(Ok(())),
            LoadAction::Load(_) => phase.loaded(Ok(())),
            LoadAction::Done => break,
        }
    }
    let (outcomes, loaded) = phase.finish();
    let came: Vec<usize> = (0..outcomes.len()).filter(|i| outcomes[*i].status == "ok").collect();
    assert_eq!(loaded, came);
    assert_eq!(loaded, vec![2, 3, 4, 5, 6, 7, 8]);
}

#[test]
fn load_jobs_and_spool_files_are_all_different() {
    let run = ready();
    let products = fetch(&run, None, None);
    let mut keys: Vec<String> = products.iter().map(|p| sanitize(&p.resource)).collect();
    let mut files: Vec<String> = products.iter().filter_map(|p| p.path.clone()).collect();
    let (n, m) = (keys.len(), files.len());
    keys.sort();
    keys.dedup();
    files.sort();
    files.dedup();
    assert_eq!((keys.len(), files.len()), (n, m));
    assert!(keys.contains(&"activities_person".to_string()));
    // Whatever the slug: both forms of a small sigma become underscores.
    assert_eq!(sanitize("activities:\u{3a3}"), "activities__");
    assert_eq!(sanitize("\u{391}\u{3a3}"), "__");
    assert_eq!(sanitize("activities:\u{212a}x"), "activities_kx");
    assert_eq!(sanitize("\u{130}"), "i_");
}

#[test]
fn only_complete_runs_are_compared() {
    assert!(wants_shrink_check(&args(false), "complete"));
    assert!(!wants_shrink_check(&args(false), "partial"));
    let mut off = args(false);
    off.no_shrink_check = true;
    assert!(!wants_shrink_check(&off, "complete"));
    let cell = Json::Text(r#"[{"resource":"users","status":"ok","count":7}]"#.to_string());
    assert_eq!(previous_counts(Some(&vec![vec![cell]])).get("users"), Some(&7));
    assert!(previous_counts(Some(&vec![])).get("users").is_none());
    assert!(previous_counts(Some(&vec![vec![Json::Null]])).get("users").is_none());
    assert!(previous_counts(None).get("users").is_none());
}

#[test]
fn the_end_of_a_run_says_what_happened() {
    let ok = ResourceOutcome {
        resource: "users".to_string(),
        table: "users".to_string(),
        status: "ok".to_string(),
        count: 1,
        expected: None,
        consistency: "clean".to_string(),
        error: None,
        fetch_started_at: now(),
        fetch_ended_at: now(),
    };
    let shrunk = vec!["users: 2 -> 1 (50.0% drop exceeds 5%)".to_string()];
    let views = views_summary("ds_latest", 3, &vec!["e".to_string()]);
    let r = run_backup_result(&ctx(), "end", "complete", &shrunk, views, &vec![ok]);
    assert_eq!(r.exit, ExitCode::ShrinkCheck);
    assert!(r.summary.show().starts_with(r#"{"finished_at":"end","resources":[{"consistency":"#));
    assert_eq!(
        r.summary.get("views").unwrap().show(),
        r#"{"created":3,"dataset":"ds_latest","errors":["e"]}"#
    );
    assert!(wants_views(&args(false), "partial") && !wants_views(&args(false), "failed"));
    let (r, notice) = unmarked("run", "load: x");
    assert_eq!(r.exit, ExitCode::Failed);
    assert_eq!(r.summary.show(), r#"{"error":"load: x","run_id":"run","status":"unmarked"}"#);
    assert!(notice.ends_with("Repair with: clarify-bq mark-complete run"));
}
