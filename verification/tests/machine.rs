use clarify_bq::backup::{run_backup, Backup, Phase};
use clarify_bq::cli::{BackupArgs, ConnArgs, ExitCode, Format};
use clarify_bq::coverage::FetchAction;
use clarify_bq::error::{ClientError, SinkError};
use clarify_bq::json::Json;
use clarify_bq::orchestrate::{linked_path, views_summary, LoadAction, LockAttempt};
use clarify_bq::plan::Category;
use clarify_bq::rows::FetchCtx;
use clarify_bq::schemas::{extract, ObjectSchema};
use clarify_bq::spool::RunSpool;

fn args() -> BackupArgs {
    BackupArgs {
        conn: ConnArgs {
            workspace: "acme".to_string(),
            project: "proj".to_string(),
            secret: None,
            dataset: "ds".to_string(),
            location: "US".to_string(),
        },
        objects: vec![],
        skip: ["records", "schemas", "lists", "list_rows", "settings"]
            .iter()
            .map(|c| c.to_string())
            .collect(),
        dry_run: false,
        no_lock: false,
        no_shrink_check: false,
        partition_expiration_days: 400,
        views_dataset: None,
        no_views: false,
        output: Format::Json,
    }
}

fn start(args: BackupArgs) -> Backup {
    let ctx = FetchCtx { run_id: "run".to_string(), snapshot_at: "begin".to_string() };
    run_backup(ctx, args)
}

fn schemas() -> Vec<ObjectSchema> {
    vec![extract(&Json::parse(r#"{"id":"s","attributes":{"entity":"person"}}"#).unwrap())]
}

/// Fetches one resource that comes through, and one that does not where `failed` says so.
fn fetch(b: &mut Backup, failed: Option<&str>) {
    let spool = RunSpool::create("run");
    while b.fetch.next() != FetchAction::Done {
        let result = match (b.fetch.next(), failed) {
            (FetchAction::Flat(Category::Users), _) => Ok(7),
            (FetchAction::Flat(Category::Workflows), Some(e)) => Err(e.to_string()),
            (FetchAction::Flat(Category::Workflows), None) => Ok(3),
            (other, _) => panic!("{other:?} is skipped"),
        };
        b.fetch.flat_done(&b.ctx, &spool, "a".to_string(), result, "b".to_string());
    }
    b.fetched();
}

/// Takes a backup from its beginning to the end of its loads.
fn loaded(args: BackupArgs, failed: Option<&str>) -> Backup {
    let mut b = start(args);
    assert_eq!(b.phase, Phase::Lock);
    b.locked(&LockAttempt::Taken);
    assert_eq!(b.phase, Phase::Discover);
    b.discovered(Ok(schemas()));
    assert_eq!(b.phase, Phase::Spool);
    b.spooled(Ok(()));
    assert_eq!(b.phase, Phase::Fetch);
    fetch(&mut b, failed);
    assert_eq!(b.phase, Phase::Dataset);
    b.dataset_ready(Ok(()));
    assert_eq!(b.phase, Phase::Load);
    loop {
        match b.load.next() {
            LoadAction::EnsureTable(_) => b.load.table_ensured(Ok(())),
            LoadAction::Load(_) => b.load.loaded(Ok(())),
            LoadAction::Done => break,
        }
    }
    b.loads_done("end".to_string());
    b
}

fn exit(b: &Backup) -> ExitCode {
    assert_eq!(b.phase, Phase::Over);
    b.result.as_ref().unwrap().exit
}

#[test]
fn a_complete_run_goes_through_every_phase() {
    let mut b = loaded(args(), None);
    assert_eq!(b.phase, Phase::Compare);
    assert_eq!(b.loaded, vec![0, 1]);
    b.compared(vec![], "later".to_string());
    assert_eq!(b.phase, Phase::Mark);
    let row = b.row().show();
    assert!(row.starts_with(r#"{"finished_at":"later","resources":[{"#));
    assert!(row.ends_with(r#"],"run_id":"run","snapshot_at":"begin","status":"complete"}"#));
    b.marked(Ok(()));
    assert_eq!(b.phase, Phase::Clean);
    b.cleaned();
    assert_eq!(b.phase, Phase::Views);
    b.viewed(views_summary("ds_latest", 2, &vec![]));
    assert_eq!(exit(&b), ExitCode::Complete);
    let summary = &b.result.as_ref().unwrap().summary;
    assert!(summary.get("finished_at").unwrap().is_text("later"), "as the row says");
    assert_eq!(summary.get("views").unwrap().get("created").unwrap().as_u64(), Some(2));
}

#[test]
fn a_dry_run_ends_at_discovery() {
    let mut a = args();
    a.skip = vec![];
    a.dry_run = true;
    a.no_lock = true;
    let mut b = start(a);
    assert_eq!(b.phase, Phase::Discover);
    b.discovered(Ok(schemas()));
    assert_eq!(exit(&b), ExitCode::Complete);
    assert_eq!(
        b.result.as_ref().unwrap().summary.show(),
        r#"{"dry_run":true,"objects":[{"object":"person","table":"records_person"}],"plan":"objects: [person]; categories: [records, schemas, lists, list_rows, users, workflows, settings, activities, attachments]","run_id":"run"}"#
    );
}

#[test]
fn a_held_lock_ends_a_run_before_it_begins() {
    let mut b = start(args());
    b.locked(&LockAttempt::Held);
    assert_eq!(exit(&b), ExitCode::LockHeld);
}

#[test]
fn a_run_that_cannot_go_on_fails() {
    let mut b = start(args());
    b.locked(&LockAttempt::NotWanted);
    b.discovered(Err(ClientError::Transport("gone".to_string())));
    assert_eq!(exit(&b), ExitCode::Failed);
    let mut b = start(args());
    b.locked(&LockAttempt::Taken);
    b.discovered(Ok(schemas()));
    b.spooled(Err("full".to_string()));
    assert_eq!(exit(&b), ExitCode::Failed);
    let mut b = start(args());
    b.locked(&LockAttempt::Taken);
    b.discovered(Ok(schemas()));
    b.spooled(Ok(()));
    fetch(&mut b, None);
    b.dataset_ready(Err(&SinkError::Config("denied".to_string())));
    assert_eq!(exit(&b), ExitCode::Failed);
    assert_eq!(
        b.result.as_ref().unwrap().summary.show(),
        r#"{"error":"ensure dataset: config: denied","run_id":"run"}"#
    );
}

#[test]
fn a_partial_run_is_not_compared_and_keeps_its_spool() {
    let mut b = loaded(args(), Some("HTTP 403"));
    assert_eq!(b.phase, Phase::Mark);
    b.marked(Ok(()));
    assert_eq!(b.phase, Phase::Views);
    b.viewed(Json::Null);
    assert_eq!(exit(&b), ExitCode::Partial);
}

#[test]
fn a_run_that_shrank_says_so() {
    let mut a = args();
    a.no_views = true;
    let mut b = loaded(a, None);
    b.compared(vec!["users: 9 -> 7 (22.2% drop exceeds 5%)".to_string()], "later".to_string());
    b.marked(Ok(()));
    assert_eq!(b.phase, Phase::Clean);
    b.cleaned();
    assert_eq!(exit(&b), ExitCode::ShrinkCheck);
}

#[test]
fn a_row_that_cannot_be_written_leaves_the_run_unmarked() {
    let mut a = args();
    a.no_shrink_check = true;
    let mut b = loaded(a, None);
    let row = b.row().show();
    for _ in 0..2 {
        assert_eq!(b.phase, Phase::Mark);
        assert_eq!(b.row().show(), row, "every attempt is at the same row");
        assert!(b.marked(Err("load: x".to_string())).is_none(), "it is tried again");
    }
    assert_eq!(b.phase, Phase::Mark);
    let notice = b.marked(Err("load: y".to_string())).unwrap();
    assert_eq!(
        notice,
        "DATA LOADED BUT UNMARKED, run_id=run: the runs row could not be written (load: y). Repair with: clarify-bq mark-complete run"
    );
    assert_eq!(exit(&b), ExitCode::Failed);
    assert!(b.result.as_ref().unwrap().summary.get("status").unwrap().is_text("unmarked"));
    assert!(b.result.as_ref().unwrap().summary.get("error").unwrap().is_text("load: y"));
}

#[test]
fn linked_categories_have_their_paths() {
    assert_eq!(linked_path(Category::Users), Some("/users"));
    assert_eq!(linked_path(Category::Workflows), Some("/workflows"));
    assert_eq!(linked_path(Category::Lists), Some("/lists"));
    assert_eq!(linked_path(Category::Records), None);
}
