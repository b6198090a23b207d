//! A backup from its beginning to its end: discovering, planning, loading, comparing, marking, and
//! what the run answers.

use vstd::prelude::*;
use crate::admin::{
    expiration_of, law_retention_takes_effect, table_step, AdminStep, BqSink,
};
use crate::cli::{BackupArgs, ExitCode};
use crate::commands::{client_exit, exit_of};
use crate::coverage::{covers, lemma_failing_keeps_cover, sound};
use crate::error::{client_error_text, sink_error_text, success, ClientError, SinkError};
use crate::fetch::{not_there, records_product, ObjectFetch, SpoolProduct};
use crate::json::{
    array, at, fields, items, json_parse, lemma_found_at, no_fields, object, plain, put, readable,
    text, text_array, text_items, Json, JsonView, MAX_DEPTH,
};
use crate::plan::{
    category_name, chosen_categories, chosen_objects, merged, plan_error, plan_text, view_slugs,
    Category, ResourcePlan,
};
use crate::rows::{
    item_row, law_rows_of_legible_items_are_legible, line_reads_back, FeedKind, FetchCtx, RowView,
};
use crate::runs::{
    any_failed, failed, outcome_documents, outcomes_json, parse_prev_counts, records_failed,
    resource_counts, status_word, Counts, ResourceOutcome,
};
use crate::schemas::{schema_views, ObjectSchema, SchemaView};
use crate::spool::{row_line, SpoolWriter};
use crate::tables::{
    clash_message, columns, first_clash, known_table, name_pairs, records_table,
    records_table_names, sanitize, sanitized, slug_tables, slugs, spec_for, table_columns,
    table_expiration, tables_distinct, TableSpec,
};
use crate::text::{has_prefix, holds, maybe_text, same, sorted, sorted_from, texts};

verus! {

/// How a run ended, and what it says of itself.
#[derive(Debug)]
pub struct RunResult {
    pub exit: ExitCode,
    pub summary: Json,
}

/// What a run says that was stopped.
pub open spec fn failure_summary(run_id: Seq<char>, message: Seq<char>) -> JsonView {
    JsonView::Object(
        fields().push(("error"@, JsonView::Text(message))).push(
            ("run_id"@, JsonView::Text(run_id)),
        ),
    )
}

/// Whether a run was stopped in this way.
pub open spec fn stopped(
    r: RunResult,
    run_id: Seq<char>,
    message: Seq<char>,
    exit: ExitCode,
) -> bool {
    r.exit == exit && r.summary@ == failure_summary(run_id, message)
}

fn fail(run_id: &str, message: &str, exit: ExitCode) -> (r: RunResult)
    ensures
        stopped(r, run_id@, message@, exit),
{
    let mut m = no_fields();
    put(&mut m, "error", text(message));
    put(&mut m, "run_id", text(run_id));
    RunResult { exit, summary: object(m) }
}

// ---- before the fetch ----

/// What became of the lock that keeps runs from overlapping.
#[derive(Debug)]
pub enum LockAttempt {
    /// The run was told to go without.
    NotWanted,
    /// The run holds it.
    Taken,
    /// Another run holds it.
    Held,
    /// It cannot be had at all.
    Failed(String),
}

/// Stops a run that did not get the lock, before it asks for anything.
pub fn lock_result(run_id: &str, lock: &LockAttempt) -> (r: Option<RunResult>)
    ensures
        match lock {
            LockAttempt::NotWanted => r is None,
            LockAttempt::Taken => r is None,
            LockAttempt::Held => r matches Some(x) && stopped(
                x,
                run_id@,
                "another run holds the lock"@,
                ExitCode::LockHeld,
            ),
            LockAttempt::Failed(e) => r matches Some(x) && stopped(
                x,
                run_id@,
                "lockfile: "@ + e@,
                ExitCode::Failed,
            ),
        },
{
    match lock {
        LockAttempt::NotWanted => None,
        LockAttempt::Taken => None,
        LockAttempt::Held => Some(fail(run_id, "another run holds the lock", ExitCode::LockHeld)),
        LockAttempt::Failed(e) => {
            let mut s = "lockfile: ".to_owned();
            s.append(e);
            Some(fail(run_id, &s, ExitCode::Failed))
        },
    }
}

/// Stops a run whose spool cannot be made.
pub fn spool_failed(run_id: &str, e: &str) -> (r: RunResult)
    ensures
        stopped(r, run_id@, "spool: "@ + e@, ExitCode::Failed),
{
    let mut s = "spool: ".to_owned();
    s.append(e);
    fail(run_id, &s, ExitCode::Failed)
}

/// Stops a run whose dataset cannot be had.
pub fn dataset_failed(run_id: &str, e: &SinkError) -> (r: RunResult)
    ensures
        stopped(r, run_id@, "ensure dataset: "@ + sink_error_text(*e), ExitCode::Failed),
{
    let mut s = "ensure dataset: ".to_owned();
    s.append(&e.message());
    fail(run_id, &s, ExitCode::Failed)
}

/// A backup that knows what it covers.
#[derive(Debug)]
pub struct BackupRun {
    pub ctx: FetchCtx,
    pub schemas: Vec<ObjectSchema>,
    pub plan: ResourcePlan,
    pub tables: Vec<(String, String)>,
}

/// What discovery leads to.
#[derive(Debug)]
pub enum Discovery {
    /// The run is over, and has written nothing.
    Stop(RunResult),
    /// The run goes on.
    Fetch(BackupRun),
}

/// What a dry run says of one object.
pub open spec fn dry_object(slug: Seq<char>) -> JsonView {
    JsonView::Object(
        fields().push(("object"@, JsonView::Text(slug))).push(
            ("table"@, JsonView::Text(records_table(slug))),
        ),
    )
}

/// What a dry run says of objects, in this order.
pub open spec fn dry_objects(list: Seq<Seq<char>>) -> Seq<JsonView> {
    list.map_values(|s: Seq<char>| dry_object(s))
}

/// What a dry run says.
pub open spec fn dry_summary(
    run_id: Seq<char>,
    plan: Seq<char>,
    sorted_slugs: Seq<Seq<char>>,
) -> JsonView {
    JsonView::Object(
        fields().push(("dry_run"@, JsonView::Bool(true))).push(
            ("objects"@, JsonView::Array(dry_objects(sorted_slugs))),
        ).push(("plan"@, JsonView::Text(plan))).push(("run_id"@, JsonView::Text(run_id))),
    )
}

/// Whether a result is that of a dry run over these objects and categories: they are named in the
/// order of their slugs.
pub open spec fn dry_result(
    r: RunResult,
    run_id: Seq<char>,
    chosen: Seq<Seq<char>>,
    categories: Seq<Category>,
) -> bool {
    &&& r.exit == ExitCode::Complete
    &&& exists|ordered: Seq<Seq<char>>| #[trigger]
        sorted_from(ordered, chosen) && r.summary@ == dry_summary(
            run_id,
            plan_text(chosen, categories.map_values(|c: Category| category_name(c))),
            ordered,
        )
}

/// The objects that a run with these arguments takes.
pub open spec fn run_objects_of(args: BackupArgs, schemas: Seq<ObjectSchema>) -> Seq<SchemaView> {
    chosen_objects(merged(schema_views(schemas)), texts(args.objects@), texts(args.skip@))
}

/// What is wrong with the arguments of a run.
pub open spec fn run_plan_error(args: BackupArgs, schemas: Seq<ObjectSchema>) -> Option<Seq<char>> {
    plan_error(
        view_slugs(merged(schema_views(schemas))),
        texts(args.objects@),
        texts(args.skip@),
    )
}

/// Whether a run is ready to fetch what its arguments and the schemas say.
pub open spec fn ready(
    b: BackupRun,
    ctx: FetchCtx,
    args: BackupArgs,
    schemas: Seq<ObjectSchema>,
) -> bool {
    &&& b.ctx == ctx
    &&& b.schemas@ == schemas
    &&& schema_views(b.plan.objects@) == run_objects_of(args, schemas)
    &&& b.plan.categories@ == chosen_categories(texts(args.skip@))
    &&& name_pairs(b.tables@) == slug_tables(view_slugs(run_objects_of(args, schemas)))
    &&& b.wf()
}

/// Whether discovery leads where it should: a run without schemas, with arguments that make no
/// plan, or with two objects for one table is stopped with the reason; a dry run is stopped with
/// the plan; any other goes on.
pub open spec fn discovery(
    r: Discovery,
    ctx: FetchCtx,
    args: BackupArgs,
    schemas: Result<Vec<ObjectSchema>, ClientError>,
) -> bool {
    match schemas {
        Err(e) => r matches Discovery::Stop(x) && stopped(
            x,
            ctx.run_id@,
            client_error_text(e),
            client_exit(e),
        ),
        Ok(list) => match run_plan_error(args, list@) {
            Some(message) => r matches Discovery::Stop(x) && stopped(
                x,
                ctx.run_id@,
                message,
                ExitCode::ConfigAuth,
            ),
            None => {
                let chosen = view_slugs(run_objects_of(args, list@));
                if !tables_distinct(chosen) {
                    r matches Discovery::Stop(x) && exists|i: int, j: int| #[trigger]
                        first_clash(chosen, i, j) && stopped(
                            x,
                            ctx.run_id@,
                            clash_message(chosen[i], chosen[j]),
                            ExitCode::ConfigAuth,
                        )
                } else if args.dry_run {
                    r matches Discovery::Stop(x) && dry_result(
                        x,
                        ctx.run_id@,
                        chosen,
                        chosen_categories(texts(args.skip@)),
                    )
                } else {
                    r matches Discovery::Fetch(b) && ready(b, ctx, args, list@)
                }
            },
        },
    }
}

fn dry_documents(ordered: &Vec<String>) -> (r: Vec<Json>)
    ensures
        items(r@) == dry_objects(texts(ordered@)),
{
    let ghost want = dry_objects(texts(ordered@));
    let mut out: Vec<Json> = Vec::new();
    let mut i: usize = 0;
    assert(items(out@) =~= want.take(0));
    while i < ordered.len()
        invariant
            i <= ordered@.len(),
            want == dry_objects(texts(ordered@)),
            items(out@) == want.take(i as int),
        decreases ordered@.len() - i,
    {
        let ghost had = out@;
        let mut table = "records_".to_owned();
        table.append(&sanitize(&ordered[i]));
        let mut m = no_fields();
        put(&mut m, "object", text(&ordered[i]));
        put(&mut m, "table", Json::Text(table));
        let doc = object(m);
        out.push(doc);
        assert(items(out@) =~= items(had).push(doc@));
        assert(texts(ordered@)[i as int] == ordered@[i as int]@);
        assert(doc@ == want[i as int]);
        i += 1;
        assert(items(out@) =~= want.take(i as int));
    }
    assert(want.take(ordered@.len() as int) =~= want);
    out
}

fn first_names(tables: &Vec<(String, String)>) -> (r: Vec<String>)
    ensures
        texts(r@) == name_pairs(tables@).map_values(|p: (Seq<char>, Seq<char>)| p.0),
{
    let ghost want = name_pairs(tables@).map_values(|p: (Seq<char>, Seq<char>)| p.0);
    let mut out: Vec<String> = Vec::new();
    let mut i: usize = 0;
    assert(texts(out@) =~= want.take(0));
    while i < tables.len()
        invariant
            i <= tables@.len(),
            want == name_pairs(tables@).map_values(|p: (Seq<char>, Seq<char>)| p.0),
            texts(out@) == want.take(i as int),
        decreases tables@.len() - i,
    {
        let ghost had = out@;
        let s = tables[i].0.clone();
        out.push(s);
        assert(texts(out@) =~= texts(had).push(s@));
        assert(want[i as int] == s@);
        i += 1;
        assert(texts(out@) =~= want.take(i as int));
    }
    assert(want.take(tables@.len() as int) =~= want);
    out
}

/// Takes the schemas of the workspace, or why there are none, and decides whether and with what the
/// run goes on. A dry run ends here, before anything is written.
pub fn discovered(
    ctx: FetchCtx,
    args: &BackupArgs,
    schemas: Result<Vec<ObjectSchema>, ClientError>,
) -> (r: Discovery)
    ensures
        args.dry_run ==> r is Stop,
        discovery(r, ctx, *args, schemas),
{
    let schemas = match schemas {
        Ok(list) => list,
        Err(e) => {
            return Discovery::Stop(fail(&ctx.run_id, &e.message(), exit_of(&e)));
        },
    };
    let plan = match ResourcePlan::build(&schemas, &args.objects, &args.skip) {
        Ok(plan) => plan,
        Err(e) => {
            return Discovery::Stop(fail(&ctx.run_id, &e, ExitCode::ConfigAuth));
        },
    };
    let ghost chosen = view_slugs(run_objects_of(*args, schemas@));
    assert(slugs(plan.objects@) =~= chosen) by {
        assert(schema_views(plan.objects@).len() == plan.objects@.len());
        assert forall|i: int| 0 <= i < plan.objects@.len() implies slugs(plan.objects@)[i]
            == chosen[i] by {
            assert(schema_views(plan.objects@)[i] == plan.objects@[i]@);
        }
    }
    let tables = match records_table_names(&plan.objects) {
        Ok(tables) => tables,
        Err(e) => {
            return Discovery::Stop(fail(&ctx.run_id, &e, ExitCode::ConfigAuth));
        },
    };
    if args.dry_run {
        let names = first_names(&tables);
        assert(texts(names@) =~= chosen);
        let ordered = sorted(names);
        let mut m = no_fields();
        put(&mut m, "dry_run", Json::Bool(true));
        put(&mut m, "objects", array(dry_documents(&ordered)));
        put(&mut m, "plan", Json::Text(plan.describe()));
        put(&mut m, "run_id", text(&ctx.run_id));
        let summary = object(m);
        assert(sorted_from(texts(ordered@), chosen));
        return Discovery::Stop(RunResult { exit: ExitCode::Complete, summary });
    }
    Discovery::Fetch(BackupRun { ctx, schemas, plan, tables })
}

// ---- the fetch ----

/// One part of the fetch.
#[derive(Debug, Clone, Copy, PartialEq, Eq, Structural)]
pub enum FetchTask {
    /// The records of every object, with the feeds that are wanted.
    Objects { activities: bool, attachments: bool },
    /// The schemas that were discovered.
    Schemas,
    /// The lists, to be kept, to get at their rows, or both.
    Lists { keep: bool, rows: bool },
    /// The users or the workflows.
    Linked(Category),
    /// The settings.
    Settings,
}

/// A task that is wanted, or none.
pub open spec fn wanted_task(wanted: bool, task: FetchTask) -> Seq<FetchTask> {
    if wanted {
        seq![task]
    } else {
        Seq::empty()
    }
}

/// What is fetched for these categories, in this order.
pub open spec fn task_list(c: Seq<Category>) -> Seq<FetchTask> {
    wanted_task(
        c.contains(Category::Records),
        FetchTask::Objects {
            activities: c.contains(Category::Activities),
            attachments: c.contains(Category::Attachments),
        },
    ) + wanted_task(c.contains(Category::Schemas), FetchTask::Schemas) + wanted_task(
        c.contains(Category::Lists) || c.contains(Category::ListRows),
        FetchTask::Lists {
            keep: c.contains(Category::Lists),
            rows: c.contains(Category::ListRows),
        },
    ) + wanted_task(c.contains(Category::Users), FetchTask::Linked(Category::Users)) + wanted_task(
        c.contains(Category::Workflows),
        FetchTask::Linked(Category::Workflows),
    ) + wanted_task(c.contains(Category::Settings), FetchTask::Settings)
}

fn add_task(tasks: &mut Vec<FetchTask>, wanted: bool, task: FetchTask)
    ensures
        final(tasks)@ == old(tasks)@ + wanted_task(wanted, task),
{
    if wanted {
        tasks.push(task);
    }
    assert(tasks@ =~= old(tasks)@ + wanted_task(wanted, task));
}

/// The feeds that are wanted, in this order.
pub open spec fn feed_kinds(activities: bool, attachments: bool) -> Seq<FeedKind> {
    (if activities {
        seq![FeedKind::Activities]
    } else {
        Seq::empty()
    }) + (if attachments {
        seq![FeedKind::Attachments]
    } else {
        Seq::empty()
    })
}

/// The feeds that are wanted, in this order.
pub fn wanted_feeds(activities: bool, attachments: bool) -> (r: Vec<FeedKind>)
    ensures
        r@ == feed_kinds(activities, attachments),
{
    let mut out: Vec<FeedKind> = Vec::new();
    if activities {
        out.push(FeedKind::Activities);
    }
    if attachments {
        out.push(FeedKind::Attachments);
    }
    assert(out@ =~= feed_kinds(activities, attachments));
    out
}

/// Where the items of a linked category are listed; the others are no linked collections.
pub fn linked_path(category: Category) -> (r: Option<&'static str>)
    ensures
        match category {
            Category::Users => r matches Some(p) && p@ == "/users"@,
            Category::Workflows => r matches Some(p) && p@ == "/workflows"@,
            Category::Lists => r matches Some(p) && p@ == "/lists"@,
            _ => r is None,
        },
{
    match category {
        Category::Users => Some("/users"),
        Category::Workflows => Some("/workflows"),
        Category::Lists => Some("/lists"),
        _ => None,
    }
}

/// The lines of the schemas.
pub open spec fn schema_lines(ctx: FetchCtx, schemas: Seq<ObjectSchema>) -> Seq<Seq<char>> {
    schemas.map_values(
        |s: ObjectSchema| row_line(item_row(ctx, RowView::Schema { object: s.slug@ }, s.raw@)),
    )
}

/// Whether the line of a schema reads back.
pub open spec fn schema_reads_back(ctx: FetchCtx, s: ObjectSchema) -> bool {
    line_reads_back(ctx, RowView::Schema { object: s.slug@ }, s.raw@)
}

impl BackupRun {
    /// What is fetched, in this order.
    pub fn tasks(&self) -> (r: Vec<FetchTask>)
        ensures
            r@ == task_list(self.plan.categories@),
    {
        let mut out: Vec<FetchTask> = Vec::new();
        let activities = self.plan.includes(Category::Activities);
        let attachments = self.plan.includes(Category::Attachments);
        let keep = self.plan.includes(Category::Lists);
        let rows = self.plan.includes(Category::ListRows);
        add_task(
            &mut out,
            self.plan.includes(Category::Records),
            FetchTask::Objects { activities, attachments },
        );
        add_task(&mut out, self.plan.includes(Category::Schemas), FetchTask::Schemas);
        add_task(&mut out, keep || rows, FetchTask::Lists { keep, rows });
        add_task(
            &mut out,
            self.plan.includes(Category::Users),
            FetchTask::Linked(Category::Users),
        );
        add_task(
            &mut out,
            self.plan.includes(Category::Workflows),
            FetchTask::Linked(Category::Workflows),
        );
        add_task(&mut out, self.plan.includes(Category::Settings), FetchTask::Settings);
        assert(out@ =~= task_list(self.plan.categories@));
        out
    }

    /// Spools the schemas that were discovered, all of them: a line for each.
    pub fn spool_schemas(&self, w: &mut SpoolWriter) -> (r: Vec<String>)
        requires
            old(w).rows + self.schemas@.len() <= u64::MAX,
        ensures
            texts(r@) == schema_lines(self.ctx, self.schemas@),
            forall|i: int|
                0 <= i < self.schemas@.len() ==> schema_reads_back(
                    self.ctx,
                    #[trigger] self.schemas@[i],
                ),
            final(w).rows == old(w).rows + self.schemas@.len(),
            final(w).file == old(w).file,
    {
        let ghost want = schema_lines(self.ctx, self.schemas@);
        let mut out: Vec<String> = Vec::new();
        let mut i: usize = 0;
        assert(texts(out@) =~= want.take(0));
        while i < self.schemas.len()
            invariant
                i <= self.schemas@.len(),
                want == schema_lines(self.ctx, self.schemas@),
                w.rows == old(w).rows + i,
                w.file == old(w).file,
                old(w).rows + self.schemas@.len() <= u64::MAX,
                texts(out@) == want.take(i as int),
                forall|k: int|
                    0 <= k < i ==> schema_reads_back(self.ctx, #[trigger] self.schemas@[k]),
            decreases self.schemas@.len() - i,
        {
            let ghost had = out@;
            let s = &self.schemas[i];
            proof {
                let kind = RowView::Schema { object: s.slug@ };
                if plain(s.raw@, (MAX_DEPTH - 1) as nat) {
                    law_rows_of_legible_items_are_legible(self.ctx, kind, s.raw@, true);
                }
                if readable(s.raw@, (MAX_DEPTH - 1) as nat) {
                    law_rows_of_legible_items_are_legible(self.ctx, kind, s.raw@, false);
                }
            }
            let mut extras = no_fields();
            put(&mut extras, "object", text(&s.slug));
            let line = self.ctx.write_row(w, extras, &s.raw);
            assert(want[i as int] == line@);
            out.push(line);
            assert(texts(out@) =~= texts(had).push(line@));
            i += 1;
            assert(texts(out@) =~= want.take(i as int));
        }
        assert(want.take(self.schemas@.len() as int) =~= want);
        out
    }
}

// ---- the load ----

/// How long partitions stay: zero days mean for ever.
pub open spec fn retention(days: u32) -> Option<u32> {
    if days > 0 {
        Some(days)
    } else {
        None
    }
}

/// A retention of zero days keeps every table for ever, whatever retention it had before, and no
/// retention ever touches the ledger of runs: making sure of such a table leaves it without an
/// expiration, and states that where it had one.
pub proof fn law_zero_days_keep_forever(
    r: AdminStep,
    sink: BqSink,
    spec: TableSpec,
    days: u32,
    status: u16,
    body: JsonView,
)
    requires
        spec.partition_expiration_days == table_expiration(spec.name@, retention(days)),
        days == 0 || spec.name@ == "runs"@,
        table_step(r, sink, spec, status, body),
        status == 404 || success(status),
    ensures
        match r {
            AdminStep::Send(q) => q.body matches Some(b) && expiration_of(b@) == JsonView::Null,
            AdminStep::Done(d) => d is Ok && expiration_of(body) == JsonView::Null,
        },
{
    law_retention_takes_effect(r, sink, spec, status, body);
}

/// The products of a run on their way into their tables, and which of them are there.
#[derive(Debug)]
pub struct LoadPhase {
    pub products: Vec<SpoolProduct>,
    pub at: usize,
    pub loaded: Vec<usize>,
    pub ensured: Vec<String>,
    pub expiration: Option<u32>,
}

/// What the load does next.
#[derive(Debug)]
pub enum LoadAction {
    /// Makes sure that a table is there.
    EnsureTable(TableSpec),
    /// Loads a file into a table.
    Load(LoadJob),
    /// Nothing: everything has been tried.
    Done,
}

/// A file to load.
#[derive(Debug)]
pub struct LoadJob {
    pub table: String,
    pub job_key: String,
    pub path: String,
}

/// Whether there is something to load: a file of a resource that came through.
pub open spec fn loadable(p: SpoolProduct) -> bool {
    p.path is Some && p.outcome.status@ == "ok"@
}

/// Whether `after` is `before`, failed for this reason.
pub open spec fn marked_failed(before: SpoolProduct, after: SpoolProduct, why: Seq<char>) -> bool {
    &&& after.resource == before.resource
    &&& after.table == before.table
    &&& after.path == before.path
    &&& after.outcome.resource == before.outcome.resource
    &&& after.outcome.table == before.outcome.table
    &&& after.outcome.status@ == "failed"@
    &&& after.outcome.count == before.outcome.count
    &&& after.outcome.expected == before.outcome.expected
    &&& after.outcome.consistency == before.outcome.consistency
    &&& maybe_text(after.outcome.error) == Some(why)
    &&& after.outcome.fetch_started_at == before.outcome.fetch_started_at
    &&& after.outcome.fetch_ended_at == before.outcome.fetch_ended_at
}

/// Whether the tables of all products are known.
pub open spec fn tables_known(products: Seq<SpoolProduct>) -> bool {
    forall|i: int| 0 <= i < products.len() ==> known_table((#[trigger] products[i]).table@)
}

/// Begins to load the products of a run.
pub fn load_phase(products: Vec<SpoolProduct>, partition_expiration_days: u32) -> (r: LoadPhase)
    requires
        tables_known(products@),
        sound(products@),
    ensures
        r.wf(),
        r.products == products,
        r.at == 0,
        r.loaded@.len() == 0,
        r.ensured@.len() == 0,
        r.expiration == retention(partition_expiration_days),
{
    LoadPhase {
        products,
        at: 0,
        loaded: Vec::new(),
        ensured: Vec::new(),
        expiration: if partition_expiration_days > 0 {
            Some(partition_expiration_days)
        } else {
            None
        },
    }
}

/// Whether each of the first `n` outcomes that says that its resource came through is among those
/// that were loaded, and each that was loaded says so.
pub open spec fn came_to_rest(outcomes: Seq<ResourceOutcome>, n: int, loaded: Seq<usize>) -> bool {
    &&& forall|k: int|
        0 <= k < n ==> ((#[trigger] outcomes[k]).status@ == "ok"@ <==> loaded.contains(k as usize))
    &&& forall|j: int| 0 <= j < loaded.len() ==> #[trigger] loaded[j] < n
}

/// Nothing that came through is left out of the load: once everything has been tried, a resource
/// whose outcome says that it came through has its file in its table, and any other was marked as
/// failed or brought nothing to load.
pub proof fn law_what_came_through_was_loaded(p: LoadPhase, k: int)
    requires
        p.wf(),
        p.at == p.products@.len(),
        0 <= k < p.products@.len(),
    ensures
        p.products@[k].outcome.status@ == "ok"@ ==> loadable(p.products@[k]),
        p.products@[k].outcome.status@ == "ok"@ <==> p.loaded@.contains(k as usize),
{
    assert(product_outcomes(p.products@)[k] == p.products@[k].outcome);
}

impl LoadPhase {
    /// Whether the tables are known, what came through has a file, and everything before the product
    /// that is next is loaded or did not come through.
    pub open spec fn wf(&self) -> bool {
        &&& self.at <= self.products@.len()
        &&& tables_known(self.products@)
        &&& sound(self.products@)
        &&& came_to_rest(product_outcomes(self.products@), self.at as int, self.loaded@)
    }

    /// Goes on to the next product that has something to load, and says what to do for it: its
    /// table is made sure of before the first load into it.
    pub fn next(&mut self) -> (r: LoadAction)
        requires
            old(self).wf(),
        ensures
            final(self).wf(),
            final(self).products == old(self).products,
            final(self).loaded == old(self).loaded,
            final(self).ensured == old(self).ensured,
            final(self).expiration == old(self).expiration,
            old(self).at <= final(self).at,
            forall|k: int|
                old(self).at <= k < final(self).at ==> !loadable(
                    #[trigger] old(self).products@[k],
                ),
            match r {
                LoadAction::Done => final(self).at == old(self).products@.len(),
                LoadAction::EnsureTable(spec) => {
                    &&& final(self).at < old(self).products@.len()
                    &&& ({
                        let p = old(self).products@[final(self).at as int];
                        &&& loadable(p)
                        &&& !texts(old(self).ensured@).contains(p.table@)
                        &&& spec.name@ == p.table@
                        &&& columns(spec.columns@) == table_columns(p.table@)
                        &&& spec.partition_expiration_days == table_expiration(
                            p.table@,
                            old(self).expiration,
                        )
                    })
                },
                LoadAction::Load(job) => {
                    &&& final(self).at < old(self).products@.len()
                    &&& ({
                        let p = old(self).products@[final(self).at as int];
                        &&& loadable(p)
                        &&& texts(old(self).ensured@).contains(p.table@)
                        &&& job.table@ == p.table@
                        &&& job.job_key@ == sanitized(p.resource@)
                        &&& maybe_text(p.path) == Some(job.path@)
                    })
                },
            },
    {
        while self.at < self.products.len()
            invariant
                self.wf(),
                self.products == old(self).products,
                self.loaded == old(self).loaded,
                self.ensured == old(self).ensured,
                self.expiration == old(self).expiration,
                old(self).at <= self.at,
                forall|k: int|
                    old(self).at <= k < self.at ==> !loadable(#[trigger] old(self).products@[k]),
            decreases self.products@.len() - self.at,
        {
            let p = &self.products[self.at];
            if same(&p.outcome.status, "ok") {
                if let Some(path) = &p.path {
                    if !holds(&self.ensured, &p.table) {
                        return LoadAction::EnsureTable(spec_for(&p.table, self.expiration));
                    }
                    return LoadAction::Load(
                        LoadJob {
                            table: p.table.clone(),
                            job_key: sanitize(&p.resource),
                            path: path.clone(),
                        },
                    );
                }
            }
            assert(!loadable(old(self).products@[self.at as int]));
            proof {
                let outcomes = product_outcomes(self.products@);
                assert(outcomes[self.at as int] == self.products@[self.at as int].outcome);
                lemma_not_loaded(outcomes, self.at as int, self.loaded@);
            }
            self.at = self.at + 1;
        }
        LoadAction::Done
    }

    fn mark_failed(&mut self, why: String)
        requires
            old(self).wf(),
            old(self).at < old(self).products@.len(),
        ensures
            final(self).wf(),
            final(self).at == old(self).at + 1,
            final(self).loaded == old(self).loaded,
            final(self).ensured == old(self).ensured,
            final(self).expiration == old(self).expiration,
            failed_at(*old(self), *final(self), why@),
            forall|run: BackupRun| #[trigger]
                covers(run, product_outcomes(old(self).products@)) ==> covers(
                    run,
                    product_outcomes(final(self).products@),
                ),
    {
        let i: usize = self.at;
        let ghost had = self.products@;
        assert(i < self.products.len());
        let mut outcome = self.products[i].outcome.clone();
        outcome.status = "failed".to_owned();
        outcome.error = Some(why);
        let p = SpoolProduct {
            resource: self.products[i].resource.clone(),
            table: self.products[i].table.clone(),
            path: match &self.products[i].path {
                Some(s) => Some(s.clone()),
                None => None,
            },
            outcome,
        };
        self.products.set(i, p);
        self.at = i + 1;
        assert(self.products@ == had.update(i as int, p));
        assert(marked_failed(had[i as int], self.products@[i as int], why@));
        proof {
            reveal_strlit("ok");
            reveal_strlit("failed");
            assert("ok"@[0] != "failed"@[0]);
            let outcomes = product_outcomes(self.products@);
            assert forall|k: int| 0 <= k < i implies (#[trigger] outcomes[k]).status@ == "ok"@
                <==> self.loaded@.contains(k as usize) by {
                assert(outcomes[k] == product_outcomes(had)[k]);
            }
            lemma_not_loaded(outcomes, i as int, self.loaded@);
        }
        assert forall|run: BackupRun| #[trigger] covers(run, product_outcomes(had)) implies covers(
            run,
            product_outcomes(self.products@),
        ) by {
            lemma_failing_keeps_cover(run, product_outcomes(had), product_outcomes(self.products@));
        }
    }

    /// Takes whether the table is there. Where it is not, the product fails.
    pub fn table_ensured(&mut self, result: Result<(), &SinkError>)
        requires
            old(self).wf(),
            old(self).at < old(self).products@.len(),
        ensures
            final(self).wf(),
            forall|run: BackupRun| #[trigger]
                covers(run, product_outcomes(old(self).products@)) ==> covers(
                    run,
                    product_outcomes(final(self).products@),
                ),
            final(self).expiration == old(self).expiration,
            match result {
                Ok(_) => final(self).products == old(self).products && final(self).loaded == old(
                    self,
                ).loaded && final(self).at == old(self).at && texts(final(self).ensured@) == texts(old(self).ensured@).push(
                    old(self).products@[old(self).at as int].table@,
                ),
                Err(e) => final(self).ensured == old(self).ensured && final(self).loaded == old(
                    self,
                ).loaded && final(self).at == old(self).at + 1 && failed_at(
                    *old(self),
                    *final(self),
                    "ensure table: "@ + sink_error_text(*e),
                ),
            },
    {
        match result {
            Ok(()) => {
                let ghost had = self.ensured@;
                let table = self.products[self.at].table.clone();
                self.ensured.push(table);
                assert(texts(self.ensured@) =~= texts(had).push(table@));
            },
            Err(e) => {
                let mut s = "ensure table: ".to_owned();
                s.append(&e.message());
                self.mark_failed(s);
            },
        }
    }

    /// Takes whether the file was loaded. Where it was not, the product fails.
    pub fn loaded(&mut self, result: Result<(), &SinkError>)
        requires
            old(self).wf(),
            old(self).at < old(self).products@.len(),
            loadable(old(self).products@[old(self).at as int]),
        ensures
            final(self).wf(),
            forall|run: BackupRun| #[trigger]
                covers(run, product_outcomes(old(self).products@)) ==> covers(
                    run,
                    product_outcomes(final(self).products@),
                ),
            final(self).expiration == old(self).expiration,
            final(self).ensured == old(self).ensured,
            final(self).at == old(self).at + 1,
            match result {
                Ok(_) => final(self).products == old(self).products && final(self).loaded@ == old(
                    self,
                ).loaded@.push(old(self).at),
                Err(e) => final(self).loaded == old(self).loaded && failed_at(
                    *old(self),
                    *final(self),
                    "load: "@ + sink_error_text(*e),
                ),
            },
    {
        assert(self.at < self.products.len());
        match result {
            Ok(()) => {
                proof {
                    let outcomes = product_outcomes(self.products@);
                    assert(outcomes[self.at as int] == self.products@[self.at as int].outcome);
                    lemma_loaded(outcomes, self.at, self.loaded@);
                }
                self.loaded.push(self.at);
                self.at = self.at + 1;
            },
            Err(e) => {
                let mut s = "load: ".to_owned();
                s.append(&e.message());
                self.mark_failed(s);
            },
        }
    }

    /// What every resource came to, once everything has been tried, and which of them were loaded.
    pub fn finish(self) -> (r: (Vec<ResourceOutcome>, Vec<usize>))
        requires
            self.wf(),
            self.at == self.products@.len(),
        ensures
            r.0@ == product_outcomes(self.products@),
            r.1 == self.loaded,
            all_loaded(r.0@, r.1@),
    {
        let ghost want = product_outcomes(self.products@);
        let mut out: Vec<ResourceOutcome> = Vec::new();
        let mut i: usize = 0;
        while i < self.products.len()
            invariant
                i <= self.products@.len(),
                want == product_outcomes(self.products@),
                out@ == want.take(i as int),
            decreases self.products@.len() - i,
        {
            out.push(self.products[i].outcome.clone());
            i += 1;
            assert(out@ =~= want.take(i as int));
        }
        assert(want.take(self.products@.len() as int) =~= want);
        (out, self.loaded)
    }
}

/// Whether the outcomes that say that their resource came through are exactly those of what was
/// loaded.
pub open spec fn all_loaded(outcomes: Seq<ResourceOutcome>, loaded: Seq<usize>) -> bool {
    came_to_rest(outcomes, outcomes.len() as int, loaded)
}

proof fn lemma_not_loaded(outcomes: Seq<ResourceOutcome>, n: int, loaded: Seq<usize>)
    requires
        0 <= n < outcomes.len(),
        n <= usize::MAX,
        came_to_rest(outcomes, n, loaded),
        outcomes[n].status@ != "ok"@,
    ensures
        came_to_rest(outcomes, n + 1, loaded),
{
    assert(!loaded.contains(n as usize)) by {
        if loaded.contains(n as usize) {
            let j = choose|j: int| 0 <= j < loaded.len() && loaded[j] == n as usize;
            assert(loaded[j] < n);
        }
    }
}

proof fn lemma_loaded(outcomes: Seq<ResourceOutcome>, n: usize, loaded: Seq<usize>)
    requires
        n < outcomes.len(),
        came_to_rest(outcomes, n as int, loaded),
        outcomes[n as int].status@ == "ok"@,
        outcomes.len() <= usize::MAX,
    ensures
        came_to_rest(outcomes, n + 1, loaded.push(n)),
{
    let now = loaded.push(n);
    assert forall|k: int| 0 <= k < n + 1 implies ((#[trigger] outcomes[k]).status@ == "ok"@
        <==> now.contains(k as usize)) by {
        if k == n {
            assert(now[loaded.len() as int] == k as usize);
        } else {
            if loaded.contains(k as usize) {
                let j = choose|j: int| 0 <= j < loaded.len() && loaded[j] == k as usize;
                assert(now[j] == k as usize);
            }
            if now.contains(k as usize) {
                let j = choose|j: int| 0 <= j < now.len() && now[j] == k as usize;
                assert(loaded[j] == k as usize);
            }
        }
    }
    assert forall|j: int| 0 <= j < now.len() implies #[trigger] now[j] < n + 1 by {
        if j < loaded.len() {
            assert(now[j] == loaded[j]);
        }
    }
}

/// Whether the product that was next failed for this reason, and no other changed.
pub open spec fn failed_at(before: LoadPhase, after: LoadPhase, why: Seq<char>) -> bool {
    &&& after.products@.len() == before.products@.len()
    &&& marked_failed(
        before.products@[before.at as int],
        after.products@[before.at as int],
        why,
    )
    &&& forall|k: int|
        0 <= k < before.products@.len() && k != before.at ==> #[trigger] after.products@[k]
            == before.products@[k]
}

/// The outcomes of products.
pub open spec fn product_outcomes(products: Seq<SpoolProduct>) -> Seq<ResourceOutcome> {
    products.map_values(|p: SpoolProduct| p.outcome)
}

// ---- the comparison ----

/// Whether a run is compared with the one before: a complete one, unless it was told not to.
pub fn wants_shrink_check(args: &BackupArgs, status: &str) -> (r: bool)
    ensures
        r == (!args.no_shrink_check && status@ == "complete"@),
{
    !args.no_shrink_check && same(status, "complete")
}

/// The counts of the run before, out of the first cell of what the query for them brought.
pub open spec fn previous(rows: Option<Seq<Vec<Json>>>) -> Map<Seq<char>, u64> {
    match rows {
        Some(list) => if list.len() > 0 && list[0]@.len() > 0 {
            match list[0]@[0]@ {
                JsonView::Text(s) => resource_counts(json_parse(s)),
                _ => Map::empty(),
            }
        } else {
            Map::empty()
        },
        None => Map::empty(),
    }
}

/// The counts of the run before. Where the query failed, brought nothing, or brought something
/// else, there are none, and nothing is compared.
pub fn previous_counts(rows: Option<&Vec<Vec<Json>>>) -> (r: Counts)
    ensures
        r@ == previous(
            match rows {
                Some(list) => Some(list@),
                None => None,
            },
        ),
{
    match rows {
        Some(list) => {
            if list.len() > 0 && list[0].len() > 0 {
                match list[0][0].as_str() {
                    Some(s) => parse_prev_counts(s),
                    None => Counts::new(),
                }
            } else {
                Counts::new()
            }
        },
        None => Counts::new(),
    }
}

// ---- the end ----

/// What a run says whose data is loaded but whose row could not be written.
pub open spec fn unmarked_summary(run_id: Seq<char>, e: Seq<char>) -> JsonView {
    JsonView::Object(
        fields().push(("error"@, JsonView::Text(e))).push(
            ("run_id"@, JsonView::Text(run_id)),
        ).push(("status"@, JsonView::Text("unmarked"@))),
    )
}

/// What is said of a run whose data is loaded but whose row could not be written.
pub open spec fn unmarked_notice(run_id: Seq<char>, e: Seq<char>) -> Seq<char> {
    "DATA LOADED BUT UNMARKED, run_id="@ + run_id + ": the runs row could not be written ("@ + e
        + "). Repair with: clarify-bq mark-complete "@ + run_id
}

/// How a run ends whose row could not be written, and how to repair it.
pub fn unmarked(run_id: &str, e: &str) -> (r: (RunResult, String))
    ensures
        r.0.exit == ExitCode::Failed,
        r.0.summary@ == unmarked_summary(run_id@, e@),
        r.1@ == unmarked_notice(run_id@, e@),
{
    let mut m = no_fields();
    put(&mut m, "error", text(e));
    put(&mut m, "run_id", text(run_id));
    put(&mut m, "status", text("unmarked"));
    let mut s = "DATA LOADED BUT UNMARKED, run_id=".to_owned();
    s.append(run_id);
    s.append(": the runs row could not be written (");
    s.append(e);
    s.append("). Repair with: clarify-bq mark-complete ");
    s.append(run_id);
    (RunResult { exit: ExitCode::Failed, summary: object(m) }, s)
}

/// Whether the spool of a run is removed: only where nothing is left to look at.
pub fn removes_spool(status: &str) -> (r: bool)
    ensures
        r == (status@ == "complete"@),
{
    same(status, "complete")
}

/// Whether the views are made anew after a run: unless it was told not to, or failed.
pub fn wants_views(args: &BackupArgs, status: &str) -> (r: bool)
    ensures
        r == (!args.no_views && status@ != "failed"@),
{
    !args.no_views && !same(status, "failed")
}

/// What a run says of its views.
pub open spec fn views_document(dataset: Seq<char>, created: u64, errors: Seq<Seq<char>>) -> JsonView {
    JsonView::Object(
        fields().push(("created"@, JsonView::Unsigned(created))).push(
            ("dataset"@, JsonView::Text(dataset)),
        ).push(("errors"@, JsonView::Array(text_items(errors)))),
    )
}

/// What a run says of its views.
pub fn views_summary(dataset: &str, created: u64, errors: &Vec<String>) -> (r: Json)
    ensures
        r@ == views_document(dataset@, created, texts(errors@)),
{
    let mut m = no_fields();
    put(&mut m, "created", Json::Unsigned(created));
    put(&mut m, "dataset", text(dataset));
    put(&mut m, "errors", text_array(errors));
    object(m)
}

/// How a run with this status and so many resources that shrank ends.
pub open spec fn run_exit(status: Seq<char>, shrunk: nat) -> ExitCode {
    if status == "failed"@ {
        ExitCode::Failed
    } else if status == "partial"@ {
        ExitCode::Partial
    } else if shrunk > 0 {
        ExitCode::ShrinkCheck
    } else {
        ExitCode::Complete
    }
}

/// What a run says of itself at its end.
pub open spec fn run_summary(
    ctx: FetchCtx,
    finished_at: Seq<char>,
    status: Seq<char>,
    violations: Seq<Seq<char>>,
    views: JsonView,
    outcomes: Seq<ResourceOutcome>,
) -> JsonView {
    JsonView::Object(
        fields().push(("finished_at"@, JsonView::Text(finished_at))).push(
            ("resources"@, JsonView::Array(outcome_documents(outcomes))),
        ).push(("run_id"@, JsonView::Text(ctx.run_id@))).push(
            ("shrink_violations"@, JsonView::Array(text_items(violations))),
        ).push(("snapshot_at"@, JsonView::Text(ctx.snapshot_at@))).push(
            ("status"@, JsonView::Text(status)),
        ).push(("views"@, views)),
    )
}

/// How a run ends that is marked in the ledger.
pub fn run_backup_result(
    ctx: &FetchCtx,
    finished_at: &str,
    status: &str,
    violations: &Vec<String>,
    views: Json,
    outcomes: &Vec<ResourceOutcome>,
) -> (r: RunResult)
    ensures
        r.exit == run_exit(status@, violations@.len()),
        r.summary@ == run_summary(
            *ctx,
            finished_at@,
            status@,
            texts(violations@),
            views@,
            outcomes@,
        ),
{
    let mut m = no_fields();
    put(&mut m, "finished_at", text(finished_at));
    put(&mut m, "resources", outcomes_json(outcomes));
    put(&mut m, "run_id", text(&ctx.run_id));
    put(&mut m, "shrink_violations", text_array(violations));
    put(&mut m, "snapshot_at", text(&ctx.snapshot_at));
    put(&mut m, "status", text(status));
    put(&mut m, "views", views);
    let exit = if same(status, "failed") {
        ExitCode::Failed
    } else if same(status, "partial") {
        ExitCode::Partial
    } else if violations.len() > 0 {
        ExitCode::ShrinkCheck
    } else {
        ExitCode::Complete
    };
    RunResult { exit, summary: object(m) }
}

/// The exit code says what happened: 1 exactly where the records of some object failed, 2 where
/// only something else did, 4 where nothing did but some resource shrank, and 0 where nothing of
/// this is so.
pub proof fn law_exit_code_says_what_happened(outcomes: Seq<ResourceOutcome>, shrunk: nat)
    ensures
        ({
            let exit = run_exit(status_word(outcomes), shrunk);
            &&& exit == ExitCode::Failed <==> records_failed(outcomes)
            &&& exit == ExitCode::Partial <==> any_failed(outcomes) && !records_failed(outcomes)
            &&& exit == ExitCode::ShrinkCheck <==> !any_failed(outcomes) && shrunk > 0
            &&& exit == ExitCode::Complete <==> !any_failed(outcomes) && shrunk == 0
        }),
{
    reveal_strlit("failed");
    reveal_strlit("partial");
    reveal_strlit("complete");
    assert("failed"@[0] == 'f' && "partial"@[0] == 'p' && "complete"@[0] == 'c');
    if records_failed(outcomes) {
        let i = choose|i: int|
            0 <= i < outcomes.len() && failed(#[trigger] outcomes[i]) && has_prefix(
                outcomes[i].table@,
                "records_"@,
            );
        assert(any_failed(outcomes));
    }
}

/// An object that has no records of its own fails no run: its outcome is no failure.
pub proof fn law_missing_records_fail_no_run(
    p: SpoolProduct,
    f: ObjectFetch,
    e: ClientError,
    ended: Seq<char>,
)
    requires
        records_product(p, f, Err(e), ended),
        not_there(e),
    ensures
        !failed(p.outcome),
{
    reveal_strlit("skipped");
    reveal_strlit("failed");
    assert("skipped"@[0] != "failed"@[0]);
}

/// Records that could not be fetched for any other reason fail the run.
pub proof fn law_failed_records_fail_the_run(
    p: SpoolProduct,
    f: ObjectFetch,
    e: ClientError,
    ended: Seq<char>,
    slug: Seq<char>,
    outcomes: Seq<ResourceOutcome>,
    shrunk: nat,
)
    requires
        records_product(p, f, Err(e), ended),
        !not_there(e),
        f.table@ == records_table(slug),
        outcomes.contains(p.outcome),
    ensures
        run_exit(status_word(outcomes), shrunk) == ExitCode::Failed,
{
    let i = choose|i: int| 0 <= i < outcomes.len() && outcomes[i] == p.outcome;
    assert(records_table(slug).take("records_"@.len() as int) =~= "records_"@);
    assert(failed(outcomes[i]));
    assert(records_failed(outcomes));
    law_exit_code_says_what_happened(outcomes, shrunk);
}

// ---- what a run does, and what it says ----

/// What is fetched for each category: the records with the feeds that are wanted, the schemas, the
/// lists for their own sake or for their rows, the users, the workflows and the settings.
pub proof fn law_what_is_fetched(c: Seq<Category>, task: FetchTask)
    ensures
        task_list(c).contains(task) <==> match task {
            FetchTask::Objects { activities, attachments } => c.contains(Category::Records)
                && activities == c.contains(Category::Activities) && attachments == c.contains(
                Category::Attachments,
            ),
            FetchTask::Schemas => c.contains(Category::Schemas),
            FetchTask::Lists { keep, rows } => (keep || rows) && keep == c.contains(
                Category::Lists,
            ) && rows == c.contains(Category::ListRows),
            FetchTask::Linked(x) => (x == Category::Users || x == Category::Workflows)
                && c.contains(x),
            FetchTask::Settings => c.contains(Category::Settings),
        },
{
    let a = wanted_task(
        c.contains(Category::Records),
        FetchTask::Objects {
            activities: c.contains(Category::Activities),
            attachments: c.contains(Category::Attachments),
        },
    );
    let b = wanted_task(c.contains(Category::Schemas), FetchTask::Schemas);
    let d = wanted_task(
        c.contains(Category::Lists) || c.contains(Category::ListRows),
        FetchTask::Lists {
            keep: c.contains(Category::Lists),
            rows: c.contains(Category::ListRows),
        },
    );
    let e = wanted_task(c.contains(Category::Users), FetchTask::Linked(Category::Users));
    let f = wanted_task(c.contains(Category::Workflows), FetchTask::Linked(Category::Workflows));
    let g = wanted_task(c.contains(Category::Settings), FetchTask::Settings);
    lemma_contains_both(a, b, task);
    lemma_contains_both(a + b, d, task);
    lemma_contains_both(a + b + d, e, task);
    lemma_contains_both(a + b + d + e, f, task);
    lemma_contains_both(a + b + d + e + f, g, task);
    lemma_wanted_task(
        c.contains(Category::Records),
        FetchTask::Objects {
            activities: c.contains(Category::Activities),
            attachments: c.contains(Category::Attachments),
        },
        task,
    );
    lemma_wanted_task(c.contains(Category::Schemas), FetchTask::Schemas, task);
    lemma_wanted_task(
        c.contains(Category::Lists) || c.contains(Category::ListRows),
        FetchTask::Lists {
            keep: c.contains(Category::Lists),
            rows: c.contains(Category::ListRows),
        },
        task,
    );
    lemma_wanted_task(c.contains(Category::Users), FetchTask::Linked(Category::Users), task);
    lemma_wanted_task(
        c.contains(Category::Workflows),
        FetchTask::Linked(Category::Workflows),
        task,
    );
    lemma_wanted_task(c.contains(Category::Settings), FetchTask::Settings, task);
}

proof fn lemma_wanted_task(wanted: bool, task: FetchTask, other: FetchTask)
    ensures
        wanted_task(wanted, task).contains(other) <==> wanted && task == other,
{
    if wanted {
        assert(wanted_task(wanted, task)[0] == task);
    }
}

proof fn lemma_contains_both(a: Seq<FetchTask>, b: Seq<FetchTask>, task: FetchTask)
    ensures
        (a + b).contains(task) <==> a.contains(task) || b.contains(task),
{
    if a.contains(task) {
        let i = choose|i: int| 0 <= i < a.len() && a[i] == task;
        assert((a + b)[i] == task);
    }
    if b.contains(task) {
        let i = choose|i: int| 0 <= i < b.len() && b[i] == task;
        assert((a + b)[a.len() + i] == task);
    }
    if (a + b).contains(task) {
        let i = choose|i: int| 0 <= i < (a + b).len() && (a + b)[i] == task;
        if i < a.len() {
            assert(a[i] == task);
        } else {
            assert(b[i - a.len()] == task);
        }
    }
}

/// A feed is gone through exactly where it is wanted.
pub proof fn law_wanted_feeds_are_gone_through(activities: bool, attachments: bool)
    ensures
        feed_kinds(activities, attachments).contains(FeedKind::Activities) <==> activities,
        feed_kinds(activities, attachments).contains(FeedKind::Attachments) <==> attachments,
        feed_kinds(activities, attachments).no_duplicates(),
{
    let kinds = feed_kinds(activities, attachments);
    if activities {
        assert(kinds[0] == FeedKind::Activities);
    }
    if attachments {
        assert(kinds[kinds.len() - 1] == FeedKind::Attachments);
    }
}

/// A retention of so many days is kept, and one of zero days is none.
pub proof fn law_retention_is_what_is_asked_for(days: u32)
    ensures
        days == 0 ==> retention(days) is None,
        days > 0 ==> retention(days) == Some(days),
{
}

/// A run that is stopped says why and which run it was.
pub proof fn law_stopped_runs_say_why(run_id: Seq<char>, message: Seq<char>)
    ensures
        at(failure_summary(run_id, message), "error"@) == JsonView::Text(message),
        at(failure_summary(run_id, message), "run_id"@) == JsonView::Text(run_id),
        failure_summary(run_id, message)->Object_0.len() == 2,
{
    reveal_strlit("error");
    reveal_strlit("run_id");
    assert("error"@.len() == 5 && "run_id"@.len() == 6);
    let m = failure_summary(run_id, message)->Object_0;
    lemma_found_at(m, 0);
    lemma_found_at(m, 1);
}

/// A dry run says that it was one, which run, what the plan is, and of each object its table.
pub proof fn law_dry_runs_say_the_plan(
    run_id: Seq<char>,
    plan: Seq<char>,
    sorted_slugs: Seq<Seq<char>>,
    i: int,
)
    requires
        0 <= i < sorted_slugs.len(),
    ensures
        ({
            let said = dry_summary(run_id, plan, sorted_slugs);
            let objects = at(said, "objects"@);
            &&& at(said, "dry_run"@) == JsonView::Bool(true)
            &&& at(said, "run_id"@) == JsonView::Text(run_id)
            &&& at(said, "plan"@) == JsonView::Text(plan)
            &&& objects is Array && objects->Array_0.len() == sorted_slugs.len()
            &&& at(objects->Array_0[i], "object"@) == JsonView::Text(sorted_slugs[i])
            &&& at(objects->Array_0[i], "table"@) == JsonView::Text(
                "records_"@ + sanitized(sorted_slugs[i]),
            )
        }),
{
    reveal_strlit("dry_run");
    reveal_strlit("objects");
    reveal_strlit("plan");
    reveal_strlit("run_id");
    reveal_strlit("object");
    reveal_strlit("table");
    assert("dry_run"@[0] == 'd' && "objects"@[0] == 'o' && "plan"@[0] == 'p' && "run_id"@[0]
        == 'r');
    assert("object"@[0] == 'o' && "table"@[0] == 't');
    let m = dry_summary(run_id, plan, sorted_slugs)->Object_0;
    lemma_found_at(m, 0);
    lemma_found_at(m, 1);
    lemma_found_at(m, 2);
    lemma_found_at(m, 3);
    let o = dry_object(sorted_slugs[i])->Object_0;
    lemma_found_at(o, 0);
    lemma_found_at(o, 1);
    assert(dry_objects(sorted_slugs)[i] == dry_object(sorted_slugs[i]));
}

proof fn reveal_summary_names()
    ensures
        "finished_at"@ != "resources"@,
        "finished_at"@ != "run_id"@,
        "finished_at"@ != "shrink_violations"@,
        "finished_at"@ != "snapshot_at"@,
        "finished_at"@ != "status"@,
        "finished_at"@ != "views"@,
        "resources"@ != "run_id"@,
        "resources"@ != "shrink_violations"@,
        "resources"@ != "snapshot_at"@,
        "resources"@ != "status"@,
        "resources"@ != "views"@,
        "run_id"@ != "shrink_violations"@,
        "run_id"@ != "snapshot_at"@,
        "run_id"@ != "status"@,
        "run_id"@ != "views"@,
        "shrink_violations"@ != "snapshot_at"@,
        "shrink_violations"@ != "status"@,
        "shrink_violations"@ != "views"@,
        "snapshot_at"@ != "status"@,
        "snapshot_at"@ != "views"@,
        "status"@ != "views"@,
{
    reveal_strlit("finished_at");
    reveal_strlit("resources");
    reveal_strlit("run_id");
    reveal_strlit("shrink_violations");
    reveal_strlit("snapshot_at");
    reveal_strlit("status");
    reveal_strlit("views");
    assert("finished_at"@[0] == 'f' && "resources"@[0] == 'r' && "run_id"@[0] == 'r');
    assert("shrink_violations"@[0] == 's' && "snapshot_at"@[0] == 's' && "status"@[0] == 's');
    assert("views"@[0] == 'v' && "resources"@[1] == 'e' && "run_id"@[1] == 'u');
    assert("shrink_violations"@[1] == 'h' && "snapshot_at"@[1] == 'n' && "status"@[1] == 't');
}

/// A run says at its end what its row in the ledger says, and besides what shrank and what became of
/// the views.
pub proof fn law_runs_say_what_they_came_to(
    ctx: FetchCtx,
    finished_at: Seq<char>,
    status: Seq<char>,
    violations: Seq<Seq<char>>,
    views: JsonView,
    outcomes: Seq<ResourceOutcome>,
)
    ensures
        ({
            let said = run_summary(ctx, finished_at, status, violations, views, outcomes);
            let row = crate::runs::ledger_row(
                ctx.run_id@,
                ctx.snapshot_at@,
                finished_at,
                status,
                JsonView::Array(outcome_documents(outcomes)),
            );
            &&& at(said, "run_id"@) == at(row, "run_id"@)
            &&& at(said, "snapshot_at"@) == at(row, "snapshot_at"@)
            &&& at(said, "finished_at"@) == at(row, "finished_at"@)
            &&& at(said, "status"@) == at(row, "status"@)
            &&& at(said, "resources"@) == at(row, "resources"@)
            &&& at(said, "views"@) == views
            &&& at(said, "shrink_violations"@) matches JsonView::Array(list) && list.len()
                == violations.len() && forall|i: int|
                0 <= i < list.len() ==> #[trigger] list[i] == JsonView::Text(violations[i])
        }),
{
    reveal_summary_names();
    crate::runs::law_ledger_row_says(
        ctx.run_id@,
        ctx.snapshot_at@,
        finished_at,
        status,
        JsonView::Array(outcome_documents(outcomes)),
    );
    let m = run_summary(ctx, finished_at, status, violations, views, outcomes)->Object_0;
    lemma_found_at(m, 0);
    lemma_found_at(m, 1);
    lemma_found_at(m, 2);
    lemma_found_at(m, 3);
    lemma_found_at(m, 4);
    lemma_found_at(m, 5);
    lemma_found_at(m, 6);
}

/// A run whose row could not be written says so, and how it is repaired.
pub proof fn law_unmarked_runs_say_how_to_repair(run_id: Seq<char>, e: Seq<char>)
    ensures
        at(unmarked_summary(run_id, e), "run_id"@) == JsonView::Text(run_id),
        at(unmarked_summary(run_id, e), "status"@) == JsonView::Text("unmarked"@),
        at(unmarked_summary(run_id, e), "error"@) == JsonView::Text(e),
        unmarked_notice(run_id, e) == "DATA LOADED BUT UNMARKED, run_id="@ + run_id
            + ": the runs row could not be written ("@ + e
            + "). Repair with: clarify-bq mark-complete "@ + run_id,
{
    reveal_strlit("error");
    reveal_strlit("run_id");
    reveal_strlit("status");
    assert("error"@[0] == 'e' && "run_id"@[0] == 'r' && "status"@[0] == 's');
    let m = unmarked_summary(run_id, e)->Object_0;
    lemma_found_at(m, 0);
    lemma_found_at(m, 1);
    lemma_found_at(m, 2);
}

/// What a run says of its views: their dataset, how many there are now, and what failed.
pub proof fn law_runs_say_what_became_of_views(
    dataset: Seq<char>,
    created: u64,
    errors: Seq<Seq<char>>,
)
    ensures
        at(views_document(dataset, created, errors), "dataset"@) == JsonView::Text(dataset),
        at(views_document(dataset, created, errors), "created"@) == JsonView::Unsigned(created),
        at(views_document(dataset, created, errors), "errors"@) matches JsonView::Array(list)
            && list.len() == errors.len() && forall|i: int|
            0 <= i < list.len() ==> #[trigger] list[i] == JsonView::Text(errors[i]),
{
    reveal_strlit("created");
    reveal_strlit("dataset");
    reveal_strlit("errors");
    assert("created"@[0] == 'c' && "dataset"@[0] == 'd' && "errors"@[0] == 'e');
    let m = views_document(dataset, created, errors)->Object_0;
    lemma_found_at(m, 0);
    lemma_found_at(m, 1);
    lemma_found_at(m, 2);
}

/// A run is compared with what the first cell of the query for the run before says; where the query
/// failed or brought no row, it is compared with nothing.
pub proof fn law_compared_with_what_the_query_brought(rows: Seq<Vec<Json>>, s: Seq<char>)
    ensures
        rows.len() > 0 && rows[0]@.len() > 0 && rows[0]@[0]@ == JsonView::Text(s) ==> previous(
            Some(rows),
        ) == resource_counts(json_parse(s)),
        rows.len() == 0 ==> previous(Some(rows)) == Map::<Seq<char>, u64>::empty(),
        rows.len() > 0 && rows[0]@.len() == 0 ==> previous(Some(rows)) == Map::<
            Seq<char>,
            u64,
        >::empty(),
        rows.len() > 0 && rows[0]@.len() > 0 && !(rows[0]@[0]@ is Text) ==> previous(Some(rows))
            == Map::<Seq<char>, u64>::empty(),
        previous(None) == Map::<Seq<char>, u64>::empty(),
{
}

/// How a run ends, by its status and by how many resources shrank.
pub proof fn law_how_runs_end(shrunk: nat)
    ensures
        run_exit("failed"@, shrunk) == ExitCode::Failed,
        run_exit("partial"@, shrunk) == ExitCode::Partial,
        shrunk > 0 ==> run_exit("complete"@, shrunk) == ExitCode::ShrinkCheck,
        shrunk == 0 ==> run_exit("complete"@, shrunk) == ExitCode::Complete,
{
    reveal_strlit("failed");
    reveal_strlit("partial");
    reveal_strlit("complete");
    assert("failed"@[0] == 'f' && "partial"@[0] == 'p' && "complete"@[0] == 'c');
}

/// Every schema that was discovered has its line, under its own slug and with its own document.
pub proof fn law_every_schema_has_its_line(
    ctx: FetchCtx,
    schemas: Seq<ObjectSchema>,
    i: int,
)
    requires
        0 <= i < schemas.len(),
    ensures
        schema_lines(ctx, schemas).len() == schemas.len(),
        schema_lines(ctx, schemas)[i] == row_line(
            item_row(ctx, RowView::Schema { object: schemas[i].slug@ }, schemas[i].raw@),
        ),
{
}

/// Only what came through and has a file is loaded.
pub proof fn law_what_is_loaded(p: SpoolProduct)
    ensures
        loadable(p) <==> p.path is Some && p.outcome.status@ == "ok"@,
{
}

/// A run takes an object exactly where it is among the discovered ones, where its arguments name it
/// or name none, and where they do not skip its records.
pub proof fn law_run_takes_what_was_asked_for(
    args: BackupArgs,
    schemas: Seq<ObjectSchema>,
    s: SchemaView,
)
    ensures
        run_objects_of(args, schemas).contains(s) <==> merged(schema_views(schemas)).contains(s) && (
        args.objects@.len() == 0 || exists|k: int|
            0 <= k < args.objects@.len() && (#[trigger] args.objects@[k])@ == s.slug) && (forall|
            k: int,
        | 0 <= k < args.skip@.len() ==> (#[trigger] args.skip@[k])@ != "records:"@ + s.slug),
{
    let (objects, skip) = (texts(args.objects@), texts(args.skip@));
    crate::plan::law_objects_are_taken_as_asked(merged(schema_views(schemas)), objects, skip, s);
    if exists|k: int| 0 <= k < objects.len() && #[trigger] objects[k] == s.slug {
        let k = choose|k: int| 0 <= k < objects.len() && #[trigger] objects[k] == s.slug;
        assert(args.objects@[k]@ == s.slug);
    }
    if exists|k: int| 0 <= k < args.objects@.len() && (#[trigger] args.objects@[k])@ == s.slug {
        let k = choose|k: int|
            0 <= k < args.objects@.len() && (#[trigger] args.objects@[k])@ == s.slug;
        assert(objects[k] == s.slug);
    }
    assert forall|k: int| 0 <= k < skip.len() implies #[trigger] skip[k] == args.skip@[k]@ by {}
    if forall|k: int|
        0 <= k < args.skip@.len() ==> (#[trigger] args.skip@[k])@ != "records:"@ + s.slug {
        assert forall|k: int| 0 <= k < skip.len() implies #[trigger] skip[k] != "records:"@
            + s.slug by {
            assert(args.skip@[k]@ != "records:"@ + s.slug);
        }
    }
    if forall|k: int| 0 <= k < skip.len() ==> #[trigger] skip[k] != "records:"@ + s.slug {
        assert forall|k: int| 0 <= k < args.skip@.len() implies (#[trigger] args.skip@[k])@
            != "records:"@ + s.slug by {
            assert(skip[k] != "records:"@ + s.slug);
        }
    }
}

/// A run is stopped before it fetches anything where there are no schemas, where its arguments make
/// no plan, where two of its objects would share a table, and where it is a dry run; and in no other
/// case. A rejected key and a wrong argument are matters of configuration, and a dry run is complete.
pub proof fn law_what_stops_a_run_before_the_fetch(
    r: Discovery,
    ctx: FetchCtx,
    args: BackupArgs,
    schemas: Result<Vec<ObjectSchema>, ClientError>,
)
    requires
        discovery(r, ctx, args, schemas),
    ensures
        schemas matches Err(e) ==> r is Stop && r->Stop_0.exit == if e is Auth {
            ExitCode::ConfigAuth
        } else {
            ExitCode::Failed
        },
        schemas matches Err(e) ==> at(r->Stop_0.summary@, "error"@) == JsonView::Text(
            client_error_text(e),
        ),
        schemas matches Ok(list) ==> (run_plan_error(args, list@) matches Some(message)
            ==> r is Stop && r->Stop_0.exit == ExitCode::ConfigAuth && at(
            r->Stop_0.summary@,
            "error"@,
        ) == JsonView::Text(message)),
        schemas matches Ok(list) ==> (run_plan_error(args, list@) is None && !tables_distinct(
            view_slugs(run_objects_of(args, list@)),
        ) ==> r is Stop && r->Stop_0.exit == ExitCode::ConfigAuth),
        schemas matches Ok(list) ==> (run_plan_error(args, list@) is None && tables_distinct(
            view_slugs(run_objects_of(args, list@)),
        ) ==> (r is Stop <==> args.dry_run)),
        schemas matches Ok(list) ==> (run_plan_error(args, list@) is None && tables_distinct(
            view_slugs(run_objects_of(args, list@)),
        ) && args.dry_run ==> r->Stop_0.exit == ExitCode::Complete && at(
            r->Stop_0.summary@,
            "dry_run"@,
        ) == JsonView::Bool(true)),
        r is Fetch ==> schemas is Ok,
        schemas matches Ok(list) ==> (r matches Discovery::Fetch(b) ==> b.ctx == ctx && b.schemas@
            == list@ && schema_views(b.plan.objects@) == run_objects_of(args, list@)
            && b.plan.categories@ == chosen_categories(texts(args.skip@))),
{
    if let Ok(list) = schemas {
        let chosen = view_slugs(run_objects_of(args, list@));
        match run_plan_error(args, list@) {
            Some(message) => {
                law_stopped_runs_say_why(ctx.run_id@, message);
            },
            None => {
                if tables_distinct(chosen) && args.dry_run {
                    let x = r->Stop_0;
                    let categories = chosen_categories(texts(args.skip@));
                    let plan = plan_text(
                        chosen,
                        categories.map_values(|c: Category| category_name(c)),
                    );
                    let ordered = choose|ordered: Seq<Seq<char>>| #[trigger]
                        sorted_from(ordered, chosen) && x.summary@ == dry_summary(
                            ctx.run_id@,
                            plan,
                            ordered,
                        );
                    lemma_found_at(dry_summary(ctx.run_id@, plan, ordered)->Object_0, 0);
                }
            },
        }
    } else if let Err(e) = schemas {
        law_stopped_runs_say_why(ctx.run_id@, client_error_text(e));
    }
}

/// What could not be loaded is failed, for the reason that is said, and keeps everything else.
pub proof fn law_what_could_not_be_loaded_is_failed(
    before: SpoolProduct,
    after: SpoolProduct,
    why: Seq<char>,
)
    requires
        marked_failed(before, after, why),
    ensures
        after.outcome.status@ == "failed"@,
        maybe_text(after.outcome.error) == Some(why),
        after.outcome.resource@ == before.outcome.resource@,
        after.outcome.table@ == before.outcome.table@,
        after.outcome.count == before.outcome.count,
        !loadable(after),
{
    reveal_strlit("failed");
    reveal_strlit("ok");
    assert("failed"@.len() == 6 && "ok"@.len() == 2);
}

/// A failure while one product is loaded is that of this product alone.
pub proof fn law_one_failed_load_fails_no_other(
    before: LoadPhase,
    after: LoadPhase,
    why: Seq<char>,
    k: int,
)
    requires
        failed_at(before, after, why),
        0 <= k < before.products@.len(),
        before.at < before.products@.len(),
    ensures
        k != before.at ==> after.products@[k] == before.products@[k],
        after.products@[before.at as int].outcome.status@ == "failed"@,
        maybe_text(after.products@[before.at as int].outcome.error) == Some(why),
        after.products@.len() == before.products@.len(),
{
}

/// A dry run names every object that the run would take, each once and no other, with its table, and
/// it is complete.
pub proof fn law_dry_runs_name_every_object(
    r: RunResult,
    run_id: Seq<char>,
    chosen: Seq<Seq<char>>,
    categories: Seq<Category>,
    slug: Seq<char>,
)
    requires
        dry_result(r, run_id, chosen, categories),
    ensures
        r.exit == ExitCode::Complete,
        at(r.summary@, "run_id"@) == JsonView::Text(run_id),
        at(r.summary@, "plan"@) == JsonView::Text(
            plan_text(chosen, categories.map_values(|c: Category| category_name(c))),
        ),
        at(r.summary@, "objects"@) is Array,
        at(r.summary@, "objects"@)->Array_0.len() == chosen.len(),
        chosen.contains(slug) <==> exists|i: int|
            0 <= i < chosen.len() && at(
                #[trigger] at(r.summary@, "objects"@)->Array_0[i],
                "object"@,
            ) == JsonView::Text(slug),
{
    let plan = plan_text(chosen, categories.map_values(|c: Category| category_name(c)));
    let ordered = choose|ordered: Seq<Seq<char>>| #[trigger]
        sorted_from(ordered, chosen) && r.summary@ == dry_summary(run_id, plan, ordered);
    crate::text::law_sorting_keeps_every_text(ordered, chosen, slug);
    let said = dry_summary(run_id, plan, ordered);
    lemma_dry_members(run_id, plan, ordered);
    let objects = dry_objects(ordered);
    assert(at(said, "objects"@) == JsonView::Array(objects));
    assert forall|i: int| 0 <= i < ordered.len() implies at(#[trigger] objects[i], "object"@)
        == JsonView::Text(ordered[i]) by {
        law_dry_runs_say_the_plan(run_id, plan, ordered, i);
    }
    if ordered.contains(slug) {
        let i = choose|i: int| 0 <= i < ordered.len() && ordered[i] == slug;
        assert(at(objects[i], "object"@) == JsonView::Text(slug));
    }
    if exists|i: int|
        0 <= i < chosen.len() && at(#[trigger] objects[i], "object"@) == JsonView::Text(slug) {
        let i = choose|i: int|
            0 <= i < chosen.len() && at(#[trigger] objects[i], "object"@) == JsonView::Text(slug);
        assert(ordered[i] == slug);
    }
}

proof fn lemma_dry_members(run_id: Seq<char>, plan: Seq<char>, ordered: Seq<Seq<char>>)
    ensures
        at(dry_summary(run_id, plan, ordered), "run_id"@) == JsonView::Text(run_id),
        at(dry_summary(run_id, plan, ordered), "plan"@) == JsonView::Text(plan),
        at(dry_summary(run_id, plan, ordered), "objects"@) == JsonView::Array(dry_objects(ordered)),
{
    reveal_strlit("dry_run");
    reveal_strlit("objects");
    reveal_strlit("plan");
    reveal_strlit("run_id");
    assert("dry_run"@[0] == 'd' && "objects"@[0] == 'o' && "plan"@[0] == 'p' && "run_id"@[0]
        == 'r');
    let m = dry_summary(run_id, plan, ordered)->Object_0;
    lemma_found_at(m, 1);
    lemma_found_at(m, 2);
    lemma_found_at(m, 3);
}

} // verus!
