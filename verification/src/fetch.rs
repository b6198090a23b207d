//! The fetch phase of a backup: what each resource comes to.

use vstd::prelude::*;
use crate::envelope::ResourcesEnvelope;
use crate::error::{client_error_text, ClientError};
use crate::http::ClarifyClient;
use crate::json::{items, json_id, Json, JsonView};
use crate::plan::{category_name, Category};
use crate::records::{consistency_word, promised, scan_ends, PageScan};
use crate::rows::{
    entity_of, feed_name, item_id, item_lines, lines_read_back, list_entity, FeedKind, FetchCtx,
    RowKind, RowView,
};
use crate::runs::{failed, ResourceOutcome};
use crate::schemas::ObjectSchema;
use crate::spool::{RunSpool, SpoolWriter};
use crate::tables::{
    cleaned, is_word, law_sanitized_slugs_are_legal, law_sanitizing_twice_changes_nothing,
    legal_name, lemma_sanitized_append, name_pairs, records_table, sanitize, sanitized,
};
use crate::text::{copied, decimal, maybe_text, same, show_u64, texts};

verus! {

// ---- outcomes ----

/// Whether an outcome is of this resource and these times.
pub open spec fn outcome_for(
    o: ResourceOutcome,
    resource: Seq<char>,
    table: Seq<char>,
    started: Seq<char>,
    ended: Seq<char>,
) -> bool {
    &&& o.resource@ == resource
    &&& o.table@ == table
    &&& o.fetch_started_at@ == started
    &&& o.fetch_ended_at@ == ended
}

/// Whether an outcome says that a resource came through.
pub open spec fn came_through(
    o: ResourceOutcome,
    count: u64,
    expected: Option<u64>,
    consistency: Seq<char>,
) -> bool {
    &&& o.status@ == "ok"@
    &&& o.count == count
    &&& o.expected == expected
    &&& o.consistency@ == consistency
}

/// Whether an outcome says that a resource brought nothing, and why.
pub open spec fn came_to_nothing(o: ResourceOutcome, status: Seq<char>, why: Seq<char>) -> bool {
    &&& o.status@ == status
    &&& o.count == 0
    &&& o.expected is None
    &&& o.consistency@ == "n/a"@
    &&& maybe_text(o.error) == Some(why)
}

impl FetchCtx {
    fn outcome_base(&self, resource: &str, table: &str, started: String, ended: String) -> (r:
        ResourceOutcome)
        ensures
            outcome_for(r, resource@, table@, started@, ended@),
            came_through(r, 0, None, "clean"@),
            r.error is None,
    {
        ResourceOutcome {
            resource: resource.to_owned(),
            table: table.to_owned(),
            status: "ok".to_owned(),
            count: 0,
            expected: None,
            consistency: "clean".to_owned(),
            error: None,
            fetch_started_at: started,
            fetch_ended_at: ended,
        }
    }

    /// The outcome of a resource that came through.
    pub fn ok_outcome(
        &self,
        resource: &str,
        table: &str,
        started: String,
        ended: String,
        count: u64,
        expected: Option<u64>,
        consistency: &str,
    ) -> (r: ResourceOutcome)
        ensures
            outcome_for(r, resource@, table@, started@, ended@),
            came_through(r, count, expected, consistency@),
            r.error is None,
    {
        let mut o = self.outcome_base(resource, table, started, ended);
        o.count = count;
        o.expected = expected;
        o.consistency = consistency.to_owned();
        o
    }

    /// The outcome of a resource that failed.
    pub fn failed_outcome(
        &self,
        resource: &str,
        table: &str,
        started: String,
        ended: String,
        error: String,
    ) -> (r: ResourceOutcome)
        ensures
            outcome_for(r, resource@, table@, started@, ended@),
            came_to_nothing(r, "failed"@, error@),
    {
        let mut o = self.outcome_base(resource, table, started, ended);
        o.status = "failed".to_owned();
        o.consistency = "n/a".to_owned();
        o.error = Some(error);
        o
    }

    /// The outcome of a resource that was not fetched.
    pub fn skipped_outcome(
        &self,
        resource: &str,
        table: &str,
        started: String,
        ended: String,
        reason: String,
    ) -> (r: ResourceOutcome)
        ensures
            outcome_for(r, resource@, table@, started@, ended@),
            came_to_nothing(r, "skipped"@, reason@),
    {
        let mut o = self.outcome_base(resource, table, started, ended);
        o.status = "skipped".to_owned();
        o.consistency = "n/a".to_owned();
        o.error = Some(reason);
        o
    }
}

/// A resource that was fetched, and waits to be loaded where there is a file.
#[derive(Debug)]
pub struct SpoolProduct {
    pub resource: String,
    pub table: String,
    pub path: Option<String>,
    pub outcome: ResourceOutcome,
}

/// Whether a product is of this resource, with the same said in its outcome.
pub open spec fn product_for(
    p: SpoolProduct,
    resource: Seq<char>,
    table: Seq<char>,
    started: Seq<char>,
    ended: Seq<char>,
) -> bool {
    &&& p.resource@ == resource
    &&& p.table@ == table
    &&& outcome_for(p.outcome, resource, table, started, ended)
}

// ---- the records of an object ----

/// The fetch of an object's records.
#[derive(Debug)]
pub struct ObjectFetch {
    pub slug: String,
    pub table: String,
    pub started: String,
    pub scan: PageScan,
    pub writer: SpoolWriter,
    pub record_ids: Vec<String>,
}

/// The identifiers of items.
pub open spec fn item_ids(list: Seq<JsonView>) -> Seq<Seq<char>> {
    list.map_values(|i: JsonView| item_id(i))
}

/// Whether a failure says that there is nothing at that address.
pub open spec fn not_there(e: ClientError) -> bool {
    match e {
        ClientError::Http { status, .. } => status == 404,
        _ => false,
    }
}

/// Whether a failure says that there is nothing at that address.
pub fn is_not_there(e: &ClientError) -> (r: bool)
    ensures
        r == not_there(*e),
{
    match e {
        ClientError::Http { status, .. } => *status == 404,
        _ => false,
    }
}

/// Whether every record that counts as fetched has its line in the file and its identifier noted.
pub open spec fn spooled_all(f: ObjectFetch) -> bool {
    f.writer.rows == f.scan.fetched && f.record_ids@.len() == f.scan.fetched
}

/// Whether a product is what the fetch of an object's records came to.
pub open spec fn records_product(
    p: SpoolProduct,
    f: ObjectFetch,
    result: Result<(), ClientError>,
    ended: Seq<char>,
) -> bool {
    &&& product_for(p, f.table@, f.table@, f.started@, ended)
    &&& match result {
        Ok(_) => maybe_text(p.path) == Some(f.writer.file@) && came_through(
            p.outcome,
            f.scan.fetched,
            f.scan.expected,
            consistency_word(f.scan.fetched, f.scan.expected),
        ) && p.outcome.error is None,
        Err(e) => p.path is None && if not_there(e) {
            came_to_nothing(
                p.outcome,
                "skipped"@,
                "object has no records endpoint (404); skipped"@,
            )
        } else {
            came_to_nothing(p.outcome, "failed"@, client_error_text(e))
        },
    }
}

impl FetchCtx {
    /// Begins to fetch an object's records into its table's file.
    pub fn fetch_object(
        &self,
        client: &ClarifyClient,
        spool: &RunSpool,
        schema: &ObjectSchema,
        table: &str,
        started: String,
    ) -> (r: ObjectFetch)
        ensures
            r.slug@ == schema.slug@,
            r.table@ == table@,
            r.started@ == started@,
            r.scan.path@ == "/objects/"@ + schema.slug@ + "/resources"@,
            texts(r.scan.related@) == texts(schema.relationships@),
            r.scan.fetched == 0,
            r.scan.expected is None,
            !r.scan.done,
            r.writer.file@ == table@ + ".ndjson"@,
            r.writer.rows == 0,
            r.record_ids@.len() == 0,
            spooled_all(r),
    {
        ObjectFetch {
            slug: schema.slug.clone(),
            table: table.to_owned(),
            started,
            scan: client.fetch_records(&schema.slug, &schema.relationships),
            writer: spool.writer(table),
            record_ids: Vec::new(),
        }
    }
}

impl ObjectFetch {
    /// Takes in a page of records: a line for each, in their order.
    pub fn page(&mut self, ctx: &FetchCtx, env: &ResourcesEnvelope) -> (r: Vec<String>)
        requires
            old(self).scan.fetched + env.data@.len() <= u64::MAX,
            old(self).writer.rows + env.data@.len() <= u64::MAX,
        ensures
            spooled_all(*old(self)) ==> spooled_all(*final(self)),
            texts(r@) == item_lines(
                *ctx,
                RowView::Record { object: old(self).slug@ },
                items(env.data@),
            ),
            lines_read_back(
                *ctx,
                RowView::Record { object: old(self).slug@ },
                items(env.data@),
            ),
            texts(final(self).record_ids@) == texts(old(self).record_ids@) + item_ids(
                items(env.data@),
            ),
            final(self).scan.path == old(self).scan.path,
            final(self).scan.related == old(self).scan.related,
            final(self).scan.fetched == old(self).scan.fetched + env.data@.len(),
            final(self).scan.expected == promised(
                env.meta.total_records,
                old(self).scan.expected,
            ),
            final(self).scan.done == scan_ends(
                env.data@.len() as int,
                old(self).scan.fetched + env.data@.len(),
                promised(env.meta.total_records, old(self).scan.expected),
            ),
            final(self).writer.rows == old(self).writer.rows + env.data@.len(),
            final(self).writer.file == old(self).writer.file,
            final(self).slug == old(self).slug,
            final(self).table == old(self).table,
            final(self).started == old(self).started,
    {
        let ghost ids = item_ids(items(env.data@));
        let ghost had = texts(self.record_ids@);
        let mut i: usize = 0;
        assert(had + ids.take(0) =~= had);
        while i < env.data.len()
            invariant
                i <= env.data@.len(),
                ids == item_ids(items(env.data@)),
                texts(self.record_ids@) == had + ids.take(i as int),
                self.slug == old(self).slug,
                self.table == old(self).table,
                self.started == old(self).started,
                self.scan == old(self).scan,
                self.writer == old(self).writer,
            decreases env.data@.len() - i,
        {
            let ghost before = self.record_ids@;
            let id = json_id(&env.data[i]);
            self.record_ids.push(id);
            assert(texts(self.record_ids@) =~= texts(before).push(id@));
            assert(ids[i as int] == id@);
            i += 1;
            assert(texts(self.record_ids@) =~= had + ids.take(i as int));
        }
        assert(ids.take(env.data@.len() as int) =~= ids);
        assert(texts(self.record_ids@).len() == self.record_ids@.len());
        assert(had.len() == old(self).record_ids@.len());
        self.scan.page(env.data.len(), env.meta.total_records);
        let kind = RowKind::Record { object: self.slug.as_str() };
        ctx.write_items(&mut self.writer, &kind, &env.data)
    }

    /// What the fetch came to, once its scan is over or failed, and the feeds that follow it. An object without records of its own is
    /// skipped, so that it does not fail every run.
    pub fn finish(
        self,
        ctx: &FetchCtx,
        kinds: Vec<FeedKind>,
        result: Result<(), ClientError>,
        ended: String,
    ) -> (r: ObjectRun)
        requires
            result is Ok ==> self.scan.done,
        ensures
            r.wf(),
            r.slug == self.slug,
            r.table == self.table,
            r.kinds == kinds,
            r.feed is None,
            r.products@.len() == 1,
            records_product(r.products@[0], self, result, ended@),
            match result {
                Ok(_) => r.record_ids == Some(self.record_ids),
                Err(_) => r.record_ids is None,
            },
    {
        let slug = self.slug;
        let name = self.table.clone();
        let stats = self.scan.stats();
        let table = self.table;
        match result {
            Ok(()) => {
                let (file, _rows) = self.writer.finish();
                let outcome = ctx.ok_outcome(
                    &table,
                    &table,
                    self.started,
                    ended,
                    stats.fetched,
                    stats.expected,
                    stats.consistency(),
                );
                let product = SpoolProduct {
                    resource: table.clone(),
                    table,
                    path: Some(file),
                    outcome,
                };
                object_run(slug, name, kinds, Some(self.record_ids), product)
            },
            Err(e) => {
                let outcome = if is_not_there(&e) {
                    ctx.skipped_outcome(
                        &table,
                        &table,
                        self.started,
                        ended,
                        "object has no records endpoint (404); skipped".to_owned(),
                    )
                } else {
                    ctx.failed_outcome(&table, &table, self.started, ended, e.message())
                };
                let product = SpoolProduct { resource: table.clone(), table, path: None, outcome };
                proof {
                    reveal_strlit("ok");
                    reveal_strlit("failed");
                    reveal_strlit("skipped");
                    assert("ok"@[0] != "failed"@[0] && "ok"@[0] != "skipped"@[0]);
                }
                object_run(slug, name, kinds, None, product)
            },
        }
    }
}

// ---- the feeds of an object's records ----

/// How many feeds may fail one after the other before the rest of an object's feeds is given up.
pub const FEED_BREAKER: u64 = 3;

/// The feeds of an object's records, one record after the other.
#[derive(Debug)]
pub struct FeedRun {
    pub kind: FeedKind,
    pub slug: String,
    pub started: String,
    pub record_ids: Vec<String>,
    pub writer: SpoolWriter,
    pub processed: usize,
    pub consecutive: u64,
    pub rows: u64,
    pub skipped: u64,
    pub last_err: String,
    pub open: bool,
}

/// How far the feeds have come.
pub struct FeedState {
    pub processed: nat,
    pub consecutive: nat,
    pub rows: nat,
    pub skipped: nat,
    pub last_err: Seq<char>,
    pub open: bool,
}

/// What one record's feed came to: so many items, or a failure.
pub enum FeedResult {
    Items(nat),
    Failed(Seq<char>),
}

/// What is said once the rest is given up.
pub open spec fn circuit_text(remaining: nat, last_err: Seq<char>) -> Seq<char> {
    "circuit opened after 3 consecutive failures ("@ + decimal(remaining)
        + " feed(s) not attempted); last: "@ + last_err
}

/// How far the feeds have come with one more, of `total`. A feed that fails is skipped; after three
/// in a row all others are, without being tried.
pub open spec fn fed_state(s: FeedState, total: nat, result: FeedResult) -> FeedState {
    match result {
        FeedResult::Items(n) => FeedState {
            processed: s.processed + 1,
            consecutive: 0,
            rows: s.rows + n,
            skipped: s.skipped,
            last_err: s.last_err,
            open: s.open,
        },
        FeedResult::Failed(e) => if s.consecutive + 1 >= FEED_BREAKER {
            let remaining = (total - s.processed - 1) as nat;
            FeedState {
                processed: s.processed + 1,
                consecutive: s.consecutive + 1,
                rows: s.rows,
                skipped: s.skipped + 1 + remaining,
                last_err: circuit_text(remaining, e),
                open: true,
            }
        } else {
            FeedState {
                processed: s.processed + 1,
                consecutive: s.consecutive + 1,
                rows: s.rows,
                skipped: s.skipped + 1,
                last_err: e,
                open: s.open,
            }
        },
    }
}

/// Nothing fed yet.
pub open spec fn unfed() -> FeedState {
    FeedState {
        processed: 0,
        consecutive: 0,
        rows: 0,
        skipped: 0,
        last_err: Seq::empty(),
        open: false,
    }
}

/// What a result brings.
pub open spec fn feed_result(result: Result<&Vec<Json>, &ClientError>) -> FeedResult {
    match result {
        Ok(list) => FeedResult::Items(list@.len()),
        Err(e) => FeedResult::Failed(client_error_text(*e)),
    }
}

/// The resource that the feeds of an object are.
pub open spec fn feed_resource(kind: FeedKind, slug: Seq<char>) -> Seq<char> {
    feed_name(kind) + ":"@ + slug
}

fn feed_resource_name(kind: FeedKind, slug: &str) -> (r: String)
    ensures
        r@ == feed_resource(kind, slug@),
{
    let mut s = kind.name().to_owned();
    s.append(":");
    s.append(slug);
    s
}

/// Whether a product is what the feeds of an object's records came to. Where the spool fails, there
/// is nothing of them.
pub open spec fn feeds_product(
    p: SpoolProduct,
    f: FeedRun,
    result: Result<(), String>,
    ended: Seq<char>,
) -> bool {
    &&& product_for(p, feed_resource(f.kind, f.slug@), feed_name(f.kind), f.started@, ended)
    &&& match result {
        Ok(_) => {
            &&& maybe_text(p.path) == Some(f.writer.file@)
            &&& came_through(
                p.outcome,
                f.rows,
                None,
                if f.skipped == 0 {
                    "clean"@
                } else {
                    "dirty"@
                },
            )
            &&& maybe_text(p.outcome.error) == if f.skipped == 0 {
                None
            } else {
                Some(skipped_text(f.skipped as nat, f.last_err@))
            }
        },
        Err(e) => p.path is None && came_to_nothing(p.outcome, "failed"@, e@),
    }
}

/// What is said of feeds that were skipped.
pub open spec fn skipped_text(skipped: nat, last_err: Seq<char>) -> Seq<char> {
    decimal(skipped) + " record feed(s) skipped; last: "@ + last_err
}

impl FeedRun {
    /// How far the feeds have come.
    pub open spec fn state(&self) -> FeedState {
        FeedState {
            processed: self.processed as nat,
            consecutive: self.consecutive as nat,
            rows: self.rows as nat,
            skipped: self.skipped as nat,
            last_err: self.last_err@,
            open: self.open,
        }
    }

    /// Whether the run is in order: no more is counted than there is, and every item that counts
    /// has its line in the file.
    pub open spec fn wf(&self) -> bool {
        &&& self.processed <= self.record_ids@.len()
        &&& self.consecutive <= self.processed
        &&& self.skipped <= if self.open {
            self.record_ids@.len()
        } else {
            self.processed as nat
        }
        &&& !self.open ==> self.consecutive < FEED_BREAKER
        &&& self.rows == self.writer.rows
    }

    /// The record whose feed is next; none once all are through or the rest is given up.
    pub fn next(&self) -> (r: Option<&String>)
        ensures
            r is Some <==> !self.open && self.processed < self.record_ids@.len(),
            r matches Some(id) ==> *id == self.record_ids@[self.processed as int],
    {
        if self.open || self.processed >= self.record_ids.len() {
            None
        } else {
            Some(&self.record_ids[self.processed])
        }
    }

    /// Takes in the feed of the record that was next: a line for each item.
    pub fn fed(&mut self, ctx: &FetchCtx, result: Result<&Vec<Json>, &ClientError>) -> (r: Vec<
        String,
    >)
        requires
            old(self).wf(),
            !old(self).open,
            old(self).processed < old(self).record_ids@.len(),
            result matches Ok(list) ==> old(self).rows + list@.len() <= u64::MAX,
        ensures
            final(self).wf(),
            final(self).state() == fed_state(
                old(self).state(),
                old(self).record_ids@.len(),
                feed_result(result),
            ),
            match result {
                Ok(list) => texts(r@) == item_lines(
                    *ctx,
                    RowView::Feed {
                        kind: old(self).kind,
                        object: old(self).slug@,
                        record_id: old(self).record_ids@[old(self).processed as int]@,
                    },
                    items(list@),
                ) && lines_read_back(
                    *ctx,
                    RowView::Feed {
                        kind: old(self).kind,
                        object: old(self).slug@,
                        record_id: old(self).record_ids@[old(self).processed as int]@,
                    },
                    items(list@),
                ) && final(self).writer.rows == old(self).writer.rows + list@.len(),
                Err(_) => r@.len() == 0 && final(self).writer.rows == old(self).writer.rows,
            },
            final(self).kind == old(self).kind,
            final(self).slug == old(self).slug,
            final(self).started == old(self).started,
            final(self).record_ids == old(self).record_ids,
            final(self).writer.file == old(self).writer.file,
    {
        assert(self.processed < self.record_ids.len());
        match result {
            Ok(list) => {
                self.consecutive = 0;
                self.rows = self.rows + list.len() as u64;
                let kind = RowKind::Feed {
                    kind: self.kind,
                    object: self.slug.as_str(),
                    record_id: self.record_ids[self.processed].as_str(),
                };
                self.processed = self.processed + 1;
                ctx.write_items(&mut self.writer, &kind, list)
            },
            Err(e) => {
                self.processed = self.processed + 1;
                self.skipped = self.skipped + 1;
                self.consecutive = self.consecutive + 1;
                self.last_err = e.message();
                if self.consecutive >= FEED_BREAKER {
                    let remaining: u64 = (self.record_ids.len() - self.processed) as u64;
                    self.skipped = self.skipped + remaining;
                    let mut s = "circuit opened after 3 consecutive failures (".to_owned();
                    s.append(&show_u64(remaining));
                    s.append(" feed(s) not attempted); last: ");
                    s.append(&self.last_err);
                    self.last_err = s;
                    self.open = true;
                }
                Vec::new()
            },
        }
    }

    /// What the feeds came to: those that were skipped leave the resource dirty, not failed.
    pub fn finish(self, ctx: &FetchCtx, ended: String) -> (r: SpoolProduct)
        ensures
            feeds_product(r, self, Ok(()), ended@),
    {
        let resource = feed_resource_name(self.kind, &self.slug);
        let consistency = if self.skipped == 0 {
            "clean"
        } else {
            "dirty"
        };
        let mut outcome = ctx.ok_outcome(
            &resource,
            self.kind.name(),
            self.started,
            ended,
            self.rows,
            None,
            consistency,
        );
        if self.skipped > 0 {
            let mut s = show_u64(self.skipped);
            s.append(" record feed(s) skipped; last: ");
            s.append(&self.last_err);
            outcome.error = Some(s);
        }
        let (file, _rows) = self.writer.finish();
        SpoolProduct { resource, table: self.kind.name().to_owned(), path: Some(file), outcome }
    }
}

impl FetchCtx {
    /// Begins with the feeds of an object's records.
    pub fn fetch_per_record(
        &self,
        spool: &RunSpool,
        kind: FeedKind,
        slug: &str,
        record_ids: Vec<String>,
        started: String,
    ) -> (r: FeedRun)
        ensures
            r.wf(),
            r.state() == unfed(),
            r.kind == kind,
            r.slug@ == slug@,
            r.started@ == started@,
            r.record_ids == record_ids,
            r.writer.file@ == feed_name(kind) + "__"@ + sanitized(slug@) + ".ndjson"@,
            r.writer.rows == 0,
    {
        let mut key = kind.name().to_owned();
        key.append("__");
        key.append(&sanitize(slug));
        let r = FeedRun {
            kind,
            slug: slug.to_owned(),
            started,
            record_ids,
            writer: spool.writer(&key),
            processed: 0,
            consecutive: 0,
            rows: 0,
            skipped: 0,
            last_err: String::new(),
            open: false,
        };
        assert(r.last_err@ =~= Seq::<char>::empty());
        r
    }

    /// What the feeds of an object come to whose records did not come: there is nothing to go
    /// through.
    pub fn feed_without_records(
        &self,
        kind: FeedKind,
        slug: &str,
        started: String,
        ended: String,
    ) -> (r: SpoolProduct)
        ensures
            product_for(r, feed_resource(kind, slug@), feed_name(kind), started@, ended@),
            r.path is None,
            came_to_nothing(r.outcome, "skipped"@, "records fetch failed"@),
    {
        let resource = feed_resource_name(kind, slug);
        let outcome = self.skipped_outcome(
            &resource,
            kind.name(),
            started,
            ended,
            "records fetch failed".to_owned(),
        );
        SpoolProduct { resource, table: kind.name().to_owned(), path: None, outcome }
    }

    /// What the feeds of an object come to where the spool fails.
    pub fn feed_failed(
        &self,
        kind: FeedKind,
        slug: &str,
        started: String,
        ended: String,
        error: String,
    ) -> (r: SpoolProduct)
        ensures
            product_for(r, feed_resource(kind, slug@), feed_name(kind), started@, ended@),
            r.path is None,
            came_to_nothing(r.outcome, "failed"@, error@),
    {
        let resource = feed_resource_name(kind, slug);
        let outcome = self.failed_outcome(&resource, kind.name(), started, ended, error);
        SpoolProduct { resource, table: kind.name().to_owned(), path: None, outcome }
    }
}

// ---- an object ----

/// Whether a product says in all its parts that it is of this resource, and has a file exactly
/// where the resource came through.
pub open spec fn named(p: SpoolProduct, resource: Seq<char>, table: Seq<char>) -> bool {
    &&& p.resource@ == resource
    &&& p.table@ == table
    &&& p.outcome.resource@ == resource
    &&& p.outcome.table@ == table
    &&& p.path is Some <==> p.outcome.status@ == "ok"@
}

/// What is said of an object that has no records of its own.
pub open spec fn no_records_text() -> Seq<char> {
    "object has no records endpoint (404); skipped"@
}

/// What is said of feeds whose records did not come.
pub open spec fn no_feed_text() -> Seq<char> {
    "records fetch failed"@
}

/// Whether a product is that of an object's records: they came, they failed, or the object has
/// none.
pub open spec fn records_said(p: SpoolProduct, table: Seq<char>) -> bool {
    &&& named(p, table, table)
    &&& p.outcome.status@ == "ok"@ || failed(p.outcome) || came_to_nothing(
        p.outcome,
        "skipped"@,
        no_records_text(),
    )
}

/// Whether a product is that of a feed: it was skipped exactly where the records did not come.
pub open spec fn feed_said(
    p: SpoolProduct,
    kind: FeedKind,
    slug: Seq<char>,
    records_came: bool,
) -> bool {
    &&& named(p, feed_resource(kind, slug), feed_name(kind))
    &&& if records_came {
        p.outcome.status@ == "ok"@ || failed(p.outcome)
    } else {
        came_to_nothing(p.outcome, "skipped"@, no_feed_text())
    }
}

/// Whether these are the products of an object: its records, and then each of the feeds in this
/// order. The feeds are skipped exactly where the records did not come.
pub open spec fn object_products(
    ps: Seq<SpoolProduct>,
    slug: Seq<char>,
    table: Seq<char>,
    kinds: Seq<FeedKind>,
) -> bool {
    &&& ps.len() == kinds.len() + 1
    &&& records_said(ps[0], table)
    &&& forall|k: int|
        0 <= k < kinds.len() ==> feed_said(
            ps[k + 1],
            #[trigger] kinds[k],
            slug,
            ps[0].outcome.status@ == "ok"@,
        )
}

/// An object whose records are through, on its way through its feeds.
#[derive(Debug)]
pub struct ObjectRun {
    pub slug: String,
    pub table: String,
    pub kinds: Vec<FeedKind>,
    pub record_ids: Option<Vec<String>>,
    pub products: Vec<SpoolProduct>,
    pub feed: Option<FeedRun>,
}

/// What is done next for an object.
#[derive(Debug, Clone, Copy, PartialEq, Eq, Structural)]
pub enum ObjectAction {
    /// Begins with a feed.
    Feed(FeedKind),
    /// Goes on with the feed that was begun.
    Feeding,
    /// Passes over a feed, since the records did not come.
    Skip(FeedKind),
    /// Nothing more.
    Done,
}

fn object_run(
    slug: String,
    table: String,
    kinds: Vec<FeedKind>,
    record_ids: Option<Vec<String>>,
    product: SpoolProduct,
) -> (r: ObjectRun)
    requires
        records_said(product, table@),
        record_ids is Some <==> product.outcome.status@ == "ok"@,
    ensures
        r.wf(),
        r.slug == slug,
        r.table == table,
        r.kinds == kinds,
        r.record_ids == record_ids,
        r.feed is None,
        r.products@ == seq![product],
{
    let mut products: Vec<SpoolProduct> = Vec::new();
    products.push(product);
    assert(products@ =~= seq![product]);
    ObjectRun { slug, table, kinds, record_ids, products, feed: None }
}

impl ObjectRun {
    /// Whether the object has come as far as it says, and the feed under way is the next one, over
    /// all its records.
    pub open spec fn wf(&self) -> bool {
        &&& 1 <= self.products@.len() <= self.kinds@.len() + 1
        &&& object_products(
            self.products@,
            self.slug@,
            self.table@,
            self.kinds@.take(self.products@.len() - 1),
        )
        &&& self.record_ids is Some <==> self.products@[0].outcome.status@ == "ok"@
        &&& match self.feed {
            Some(f) => {
                &&& f.wf()
                &&& self.products@.len() <= self.kinds@.len()
                &&& f.kind == self.kinds@[self.products@.len() - 1]
                &&& f.slug@ == self.slug@
                &&& self.record_ids matches Some(ids) && f.record_ids@ == ids@
            },
            None => true,
        }
    }

    /// Whether everything is through.
    pub open spec fn at_end(&self) -> bool {
        self.feed is None && self.products@.len() == self.kinds@.len() + 1
    }

    /// What is done next: one feed after the other, each of them passed over where the records did
    /// not come.
    pub fn next(&self) -> (r: ObjectAction)
        requires
            self.wf(),
        ensures
            r == if self.feed is Some {
                ObjectAction::Feeding
            } else if self.at_end() {
                ObjectAction::Done
            } else if self.record_ids is Some {
                ObjectAction::Feed(self.kinds@[self.products@.len() - 1])
            } else {
                ObjectAction::Skip(self.kinds@[self.products@.len() - 1])
            },
    {
        if self.feed.is_some() {
            return ObjectAction::Feeding;
        }
        if self.products.len() > self.kinds.len() {
            return ObjectAction::Done;
        }
        let kind = self.kinds[self.products.len() - 1];
        if self.record_ids.is_some() {
            ObjectAction::Feed(kind)
        } else {
            ObjectAction::Skip(kind)
        }
    }

    /// Takes in the product of the feed that was next.
    fn add(&mut self, p: SpoolProduct)
        requires
            old(self).wf(),
            old(self).feed is None,
            old(self).products@.len() <= old(self).kinds@.len(),
            feed_said(
                p,
                old(self).kinds@[old(self).products@.len() - 1],
                old(self).slug@,
                old(self).record_ids is Some,
            ),
        ensures
            final(self).wf(),
            kept_object(*old(self), *final(self)),
            final(self).feed is None,
            final(self).products@ == old(self).products@.push(p),
    {
        let ghost n = self.products@.len();
        let ghost before = self.kinds@.take(n - 1);
        self.products.push(p);
        proof {
            let now = self.kinds@.take(n as int);
            assert(now[n - 1] == self.kinds@[n - 1]);
            assert forall|k: int| 0 <= k < now.len() implies feed_said(
                self.products@[k + 1],
                #[trigger] now[k],
                self.slug@,
                self.products@[0].outcome.status@ == "ok"@,
            ) by {
                if k < n - 1 {
                    assert(before[k] == now[k]);
                    assert(self.products@[k + 1] == old(self).products@[k + 1]);
                }
            }
        }
    }

    /// Begins with the next feed, over all the records.
    pub fn begin_feed(&mut self, ctx: &FetchCtx, spool: &RunSpool, started: String)
        requires
            old(self).wf(),
            old(self).feed is None,
            old(self).products@.len() <= old(self).kinds@.len(),
            old(self).record_ids is Some,
        ensures
            final(self).wf(),
            kept_object(*old(self), *final(self)),
            final(self).products == old(self).products,
            final(self).feed matches Some(f) && f.state() == unfed() && f.started@ == started@
                && f.writer.rows == 0 && f.writer.file@ == feed_name(f.kind) + "__"@ + sanitized(
                old(self).slug@,
            ) + ".ndjson"@,
    {
        let kind = self.kinds[self.products.len() - 1];
        if let Some(ids) = &self.record_ids {
            let all = copied(ids);
            self.feed = Some(ctx.fetch_per_record(spool, kind, &self.slug, all, started));
        }
    }

    /// Ends the feed under way, or gives it up where the spool failed.
    pub fn end_feed(&mut self, ctx: &FetchCtx, result: Result<(), String>, ended: String)
        requires
            old(self).wf(),
            old(self).feed matches Some(f) && (result is Ok ==> f.open || f.processed
                == f.record_ids@.len()),
        ensures
            final(self).wf(),
            kept_object(*old(self), *final(self)),
            final(self).feed is None,
            final(self).products@.len() == old(self).products@.len() + 1,
            final(self).products@.drop_last() == old(self).products@,
            feeds_product(
                final(self).products@.last(),
                old(self).feed->Some_0,
                result,
                ended@,
            ),
    {
        let mut feed: Option<FeedRun> = None;
        std::mem::swap(&mut feed, &mut self.feed);
        if let Some(f) = feed {
            proof {
                reveal_strlit("ok");
                reveal_strlit("failed");
                assert("ok"@[0] != "failed"@[0]);
            }
            let p = match result {
                Ok(()) => f.finish(ctx, ended),
                Err(e) => ctx.feed_failed(f.kind, &f.slug, f.started, ended, e),
            };
            self.add(p);
            assert(self.products@.drop_last() =~= old(self).products@);
        }
    }

    /// Passes over the next feed, since there are no records to go through.
    pub fn skip_feed(&mut self, ctx: &FetchCtx, started: String, ended: String)
        requires
            old(self).wf(),
            old(self).feed is None,
            old(self).products@.len() <= old(self).kinds@.len(),
            old(self).record_ids is None,
        ensures
            final(self).wf(),
            kept_object(*old(self), *final(self)),
            final(self).feed is None,
            final(self).products@.len() == old(self).products@.len() + 1,
            final(self).products@.drop_last() == old(self).products@,
            ({
                let kind = old(self).kinds@[old(self).products@.len() - 1];
                let p = final(self).products@.last();
                &&& product_for(
                    p,
                    feed_resource(kind, old(self).slug@),
                    feed_name(kind),
                    started@,
                    ended@,
                )
                &&& p.path is None
                &&& came_to_nothing(p.outcome, "skipped"@, no_feed_text())
            }),
    {
        proof {
            reveal_strlit("ok");
            reveal_strlit("skipped");
            assert("ok"@[0] != "skipped"@[0]);
        }
        let kind = self.kinds[self.products.len() - 1];
        let p = ctx.feed_without_records(kind, &self.slug, started, ended);
        self.add(p);
        assert(self.products@.drop_last() =~= old(self).products@);
    }

    /// What the object came to: a product for its records, and one for each wanted feed.
    pub fn finish(self) -> (r: Vec<SpoolProduct>)
        requires
            self.wf(),
            self.at_end(),
        ensures
            r == self.products,
            object_products(r@, self.slug@, self.table@, self.kinds@),
    {
        assert(self.kinds@.take(self.kinds@.len() as int) =~= self.kinds@);
        self.products
    }
}

/// Whether it is still the same object, with the same records and the same feeds to go through.
pub open spec fn kept_object(before: ObjectRun, after: ObjectRun) -> bool {
    &&& after.slug == before.slug
    &&& after.table == before.table
    &&& after.kinds == before.kinds
    &&& after.record_ids == before.record_ids
}

/// How far the feeds of `total` records have come with these results.
pub open spec fn fed_with(results: Seq<FeedResult>, total: nat) -> FeedState
    decreases results.len(),
{
    if results.len() == 0 {
        unfed()
    } else {
        fed_state(fed_with(results.drop_last(), total), total, results.last())
    }
}

/// Whether feeds are tried in this way: none behind the last record, and none after the rest was
/// given up.
pub open spec fn feeds_tried(results: Seq<FeedResult>, total: nat) -> bool {
    &&& results.len() <= total
    &&& forall|n: int|
        0 <= n < results.len() ==> !fed_with(#[trigger] results.take(n), total).open
}

/// How many feeds came.
pub open spec fn feeds_that_came(results: Seq<FeedResult>) -> nat
    decreases results.len(),
{
    if results.len() == 0 {
        0
    } else {
        feeds_that_came(results.drop_last()) + if results.last() is Items {
            1nat
        } else {
            0nat
        }
    }
}

/// How many feeds failed since the last that came.
pub open spec fn failures_in_a_row(results: Seq<FeedResult>) -> nat
    decreases results.len(),
{
    if results.len() == 0 || results.last() is Items {
        0
    } else {
        failures_in_a_row(results.drop_last()) + 1
    }
}

/// Every record is accounted for: its feed came, or it is counted as skipped, whether it was tried
/// or not. The rest is given up exactly when as many feeds in a row have failed as the breaker
/// allows.
pub proof fn law_every_record_is_accounted_for(results: Seq<FeedResult>, total: nat)
    requires
        feeds_tried(results, total),
    ensures
        ({
            let s = fed_with(results, total);
            &&& s.processed == results.len()
            &&& s.open ==> feeds_that_came(results) + s.skipped == total
            &&& !s.open ==> feeds_that_came(results) + s.skipped == results.len()
            &&& s.consecutive == failures_in_a_row(results)
            &&& s.open <==> failures_in_a_row(results) >= FEED_BREAKER
        }),
    decreases results.len(),
{
    if results.len() > 0 {
        let before = results.drop_last();
        assert(results.take(results.len() - 1) =~= before);
        assert forall|n: int| 0 <= n < before.len() implies !fed_with(
            #[trigger] before.take(n),
            total,
        ).open by {
            assert(before.take(n) =~= results.take(n));
        }
        law_every_record_is_accounted_for(before, total);
    }
}

/// Feeds that all came leave the resource clean; any that did not leaves it dirty.
pub proof fn law_clean_feeds_are_complete(results: Seq<FeedResult>, total: nat)
    requires
        feeds_tried(results, total),
        results.len() == total || fed_with(results, total).open,
    ensures
        fed_with(results, total).skipped == 0 <==> feeds_that_came(results) == total,
{
    law_every_record_is_accounted_for(results, total);
}

/// A resource that a run loads.
pub enum Resource {
    /// The records of an object.
    Records { slug: Seq<char> },
    /// A feed of an object's records.
    Feed { kind: FeedKind, slug: Seq<char> },
    /// A resource with a table of its own name.
    Flat { category: Category },
}

/// Whether there is such a resource: records and feeds are those of an object.
pub open spec fn real_resource(r: Resource) -> bool {
    match r {
        Resource::Flat { category } => category != Category::Records && category
            != Category::Activities && category != Category::Attachments,
        _ => true,
    }
}

/// The name of a resource.
pub open spec fn resource_name(r: Resource) -> Seq<char> {
    match r {
        Resource::Records { slug } => records_table(slug),
        Resource::Feed { kind, slug } => feed_resource(kind, slug),
        Resource::Flat { category } => category_name(category),
    }
}

/// The table that a resource goes to.
pub open spec fn resource_table(r: Resource) -> Seq<char> {
    match r {
        Resource::Records { slug } => records_table(slug),
        Resource::Feed { kind, .. } => feed_name(kind),
        Resource::Flat { category } => category_name(category),
    }
}

/// Whether two resources are the same, or are of two objects that would share a table.
pub open spec fn same_resource(a: Resource, b: Resource) -> bool {
    match (a, b) {
        (Resource::Records { slug: x }, Resource::Records { slug: y }) => records_table(x)
            == records_table(y),
        (Resource::Feed { kind: k, slug: x }, Resource::Feed { kind: l, slug: y }) => k == l
            && records_table(x) == records_table(y),
        (Resource::Flat { category: c }, Resource::Flat { category: d }) => c == d,
        _ => false,
    }
}

/// No two resources of a run share the key of their load jobs, so that no load is mistaken for an
/// earlier attempt at another.
pub proof fn law_load_jobs_do_not_collide(a: Resource, b: Resource)
    requires
        real_resource(a),
        real_resource(b),
        sanitized(resource_name(a)) == sanitized(resource_name(b)),
    ensures
        same_resource(a, b),
{
    lemma_job_key(a);
    lemma_job_key(b);
    reveal_strlit("records_");
    reveal_strlit("activities_");
    reveal_strlit("attachments_");
    reveal_strlit("schemas");
    reveal_strlit("lists");
    reveal_strlit("list_rows");
    reveal_strlit("users");
    reveal_strlit("workflows");
    reveal_strlit("settings");
    let (x, y) = (job_key(a), job_key(b));
    let (hx, hy) = (key_head(a), key_head(b));
    assert(x[0] == hx[0] && x[1] == hx[1]);
    assert(y[0] == hy[0] && y[1] == hy[1]);
    assert("schemas"@.len() == 7 && "lists"@.len() == 5 && "list_rows"@.len() == 9);
    assert("activities_"@[1] == 'c' && "attachments_"@[1] == 't');
    assert("schemas"@[1] == 'c' && "settings"@[1] == 'e');
    assert(x.skip(hx.len() as int) =~= key_tail(a));
    assert(y.skip(hy.len() as int) =~= key_tail(b));
    assert(x.len() == y.len());
}

/// The file that a resource is spooled to.
pub open spec fn spool_file(r: Resource) -> Seq<char> {
    match r {
        Resource::Records { slug } => records_table(slug) + ".ndjson"@,
        Resource::Feed { kind, slug } => feed_name(kind) + "__"@ + sanitized(slug) + ".ndjson"@,
        Resource::Flat { category } => category_name(category) + ".ndjson"@,
    }
}

/// No two resources of a run are spooled to one file.
pub proof fn law_spool_files_do_not_collide(a: Resource, b: Resource)
    requires
        real_resource(a),
        real_resource(b),
        spool_file(a) == spool_file(b),
    ensures
        same_resource(a, b),
{
    reveal_strlit("records_");
    reveal_strlit("activities");
    reveal_strlit("attachments");
    reveal_strlit("__");
    reveal_strlit("schemas");
    reveal_strlit("lists");
    reveal_strlit("list_rows");
    reveal_strlit("users");
    reveal_strlit("workflows");
    reveal_strlit("settings");
    let end = ".ndjson"@;
    let (hx, hy) = (file_head(a), file_head(b));
    let (x, y) = (hx + key_tail(a), hy + key_tail(b));
    assert(spool_file(a) =~= x + end);
    assert(spool_file(b) =~= y + end);
    assert(x.len() == y.len());
    assert(spool_file(a).take(x.len() as int) =~= x);
    assert(spool_file(b).take(y.len() as int) =~= y);
    assert(x[0] == hx[0] && x[1] == hx[1]);
    assert(y[0] == hy[0] && y[1] == hy[1]);
    assert("schemas"@.len() == 7 && "lists"@.len() == 5 && "list_rows"@.len() == 9);
    assert("activities"@[1] == 'c' && "attachments"@[1] == 't');
    assert("schemas"@[1] == 'c' && "settings"@[1] == 'e');
    assert(x.skip(hx.len() as int) =~= key_tail(a));
    assert(y.skip(hy.len() as int) =~= key_tail(b));
}

/// What the file of a resource begins with.
spec fn file_head(r: Resource) -> Seq<char> {
    match r {
        Resource::Records { .. } => "records_"@,
        Resource::Feed { kind, .. } => feed_name(kind) + "__"@,
        Resource::Flat { category } => category_name(category),
    }
}

/// What the key of a resource begins with.
spec fn key_head(r: Resource) -> Seq<char> {
    match r {
        Resource::Records { .. } => "records_"@,
        Resource::Feed { kind, .. } => feed_key_head(kind),
        Resource::Flat { category } => category_name(category),
    }
}

/// What of the key of a resource is its object's.
spec fn key_tail(r: Resource) -> Seq<char> {
    match r {
        Resource::Records { slug } => sanitized(slug),
        Resource::Feed { slug, .. } => sanitized(slug),
        Resource::Flat { .. } => Seq::empty(),
    }
}

/// The key of the load jobs of a resource.
spec fn job_key(r: Resource) -> Seq<char> {
    key_head(r) + key_tail(r)
}

proof fn lemma_job_key(r: Resource)
    requires
        real_resource(r),
    ensures
        sanitized(resource_name(r)) == job_key(r),
{
    match r {
        Resource::Records { slug } => {
            reveal_strlit("records_");
            law_sanitized_slugs_are_legal(slug);
            let name = records_table(slug);
            assert forall|i: int| 0 <= i < name.len() implies is_word(#[trigger] name[i]) && !('A'
                <= name[i] <= 'Z') by {
                if i >= 8 {
                    assert(name[i] == sanitized(slug)[i - 8]);
                }
            }
            law_sanitizing_twice_changes_nothing(name);
        },
        Resource::Feed { kind, slug } => {
            lemma_feed_key(kind, slug);
        },
        Resource::Flat { category } => {
            reveal_strlit("schemas");
            reveal_strlit("lists");
            reveal_strlit("list_rows");
            reveal_strlit("users");
            reveal_strlit("workflows");
            reveal_strlit("settings");
            let name = category_name(category);
            assert(legal_name(name));
            law_sanitizing_twice_changes_nothing(name);
            assert(job_key(r) =~= name);
        },
    }
}

spec fn feed_key_head(kind: FeedKind) -> Seq<char> {
    match kind {
        FeedKind::Activities => "activities_"@,
        FeedKind::Attachments => "attachments_"@,
    }
}

proof fn lemma_feed_key(kind: FeedKind, slug: Seq<char>)
    ensures
        sanitized(feed_resource(kind, slug)) == feed_key_head(kind) + sanitized(slug),
{
    reveal_strlit("activities");
    reveal_strlit("attachments");
    reveal_strlit("activities_");
    reveal_strlit("attachments_");
    reveal_strlit(":");
    reveal_with_fuel(sanitized, 2);
    let name = feed_name(kind);
    assert(legal_name(name));
    law_sanitizing_twice_changes_nothing(name);
    assert(":"@.drop_last() =~= Seq::empty());
    assert(cleaned(':') =~= seq!['_']);
    assert(sanitized(":"@) =~= seq!['_']);
    lemma_sanitized_append(name, ":"@);
    lemma_sanitized_append(name + ":"@, slug);
    assert(name + seq!['_'] =~= feed_key_head(kind));
}

// ---- flat resources ----

impl FetchCtx {
    /// What a resource came to that is one file and one table of its own name.
    pub fn fetch_flat(
        &self,
        spool: &RunSpool,
        resource: &str,
        started: String,
        result: Result<u64, String>,
        ended: String,
    ) -> (r: SpoolProduct)
        ensures
            product_for(r, resource@, resource@, started@, ended@),
            match result {
                Ok(count) => maybe_text(r.path) == Some(resource@ + ".ndjson"@) && came_through(
                    r.outcome,
                    count,
                    None,
                    "clean"@,
                ) && r.outcome.error is None,
                Err(e) => r.path is None && came_to_nothing(r.outcome, "failed"@, e@),
            },
    {
        match result {
            Ok(count) => {
                let outcome = self.ok_outcome(
                    resource,
                    resource,
                    started,
                    ended,
                    count,
                    None,
                    "clean",
                );
                let (file, _rows) = spool.writer(resource).finish();
                SpoolProduct {
                    resource: resource.to_owned(),
                    table: resource.to_owned(),
                    path: Some(file),
                    outcome,
                }
            },
            Err(e) => {
                let outcome = self.failed_outcome(resource, resource, started, ended, e);
                SpoolProduct {
                    resource: resource.to_owned(),
                    table: resource.to_owned(),
                    path: None,
                    outcome,
                }
            },
        }
    }
}

// ---- the rows of lists ----

/// The object and the identifier of each list.
pub open spec fn list_refs(list: Seq<JsonView>) -> Seq<(Seq<char>, Seq<char>)> {
    list.map_values(|i: JsonView| (list_entity(i), item_id(i)))
}

/// Notes the object and the identifier of each list on a page.
pub fn note_lists(lists: &mut Vec<(String, String)>, data: &Vec<Json>)
    ensures
        name_pairs(final(lists)@) == name_pairs(old(lists)@) + list_refs(items(data@)),
{
    let ghost had = name_pairs(lists@);
    let ghost want = list_refs(items(data@));
    let mut i: usize = 0;
    assert(had + want.take(0) =~= had);
    while i < data.len()
        invariant
            i <= data@.len(),
            want == list_refs(items(data@)),
            name_pairs(lists@) == had + want.take(i as int),
        decreases data@.len() - i,
    {
        let ghost before = lists@;
        let entity = entity_of(&data[i]);
        let id = json_id(&data[i]);
        lists.push((entity, id));
        assert(name_pairs(lists@) =~= name_pairs(before).push((entity@, id@)));
        assert(want[i as int] == (entity@, id@));
        i += 1;
        assert(name_pairs(lists@) =~= had + want.take(i as int));
    }
    assert(want.take(data@.len() as int) =~= want);
}

/// Whether a slug is that of an object with records of its own, whether this run takes them or not.
pub open spec fn queryable(schemas: Seq<ObjectSchema>, slug: Seq<char>) -> bool {
    exists|i: int| 0 <= i < schemas.len() && (#[trigger] schemas[i]).object && schemas[i].slug@ == slug
}

/// The lists whose rows can be asked for.
pub open spec fn queryable_lists(
    lists: Seq<(Seq<char>, Seq<char>)>,
    schemas: Seq<ObjectSchema>,
) -> Seq<(Seq<char>, Seq<char>)> {
    lists.filter(|l: (Seq<char>, Seq<char>)| queryable(schemas, l.0))
}

fn is_queryable(schemas: &Vec<ObjectSchema>, slug: &str) -> (r: bool)
    ensures
        r == queryable(schemas@, slug@),
{
    let mut i: usize = 0;
    while i < schemas.len()
        invariant
            i <= schemas@.len(),
            forall|k: int|
                0 <= k < i ==> !((#[trigger] schemas@[k]).object && schemas@[k].slug@ == slug@),
        decreases schemas@.len() - i,
    {
        if schemas[i].object && same(&schemas[i].slug, slug) {
            assert(schemas@[i as int].object);
            return true;
        }
        i += 1;
    }
    false
}

/// The lists whose rows are fetched. A list may be of an object that has no records of its own: it
/// is left out.
pub fn lists_to_fetch(lists: &Vec<(String, String)>, schemas: &Vec<ObjectSchema>) -> (r: Vec<
    (String, String),
>)
    ensures
        name_pairs(r@) == queryable_lists(name_pairs(lists@), schemas@),
{
    let ghost all = name_pairs(lists@);
    let ghost keep = |l: (Seq<char>, Seq<char>)| queryable(schemas@, l.0);
    let mut out: Vec<(String, String)> = Vec::new();
    let mut i: usize = 0;
    proof {
        reveal(Seq::filter);
    }
    assert(name_pairs(out@) =~= all.take(0).filter(keep));
    while i < lists.len()
        invariant
            i <= lists@.len(),
            all == name_pairs(lists@),
            keep == (|l: (Seq<char>, Seq<char>)| queryable(schemas@, l.0)),
            name_pairs(out@) == all.take(i as int).filter(keep),
        decreases lists@.len() - i,
    {
        let ghost had = out@;
        proof {
            reveal(Seq::filter);
            assert(all.take(i + 1).drop_last() =~= all.take(i as int));
            assert(all.take(i + 1).last() == (lists@[i as int].0@, lists@[i as int].1@));
        }
        if is_queryable(schemas, &lists[i].0) {
            let (entity, id) = (lists[i].0.clone(), lists[i].1.clone());
            out.push((entity, id));
            assert(name_pairs(out@) =~= name_pairs(had).push((entity@, id@)));
        }
        i += 1;
    }
    assert(all.take(all.len() as int) =~= all);
    out
}

// ---- what a fetch comes to ----

/// The rest of the feeds is given up exactly where the last three that were tried all failed.
pub proof fn law_three_failures_in_a_row_give_up_the_rest(results: Seq<FeedResult>, total: nat)
    requires
        feeds_tried(results, total),
    ensures
        fed_with(results, total).open <==> results.len() >= 3 && results[results.len() - 1] is Failed
            && results[results.len() - 2] is Failed && results[results.len() - 3] is Failed,
{
    law_every_record_is_accounted_for(results, total);
    reveal_with_fuel(failures_in_a_row, 4);
    let n = results.len() as int;
    if n >= 1 {
        let a = results.drop_last();
        assert(results.last() == results[n - 1]);
        if n >= 2 {
            let b = a.drop_last();
            assert(a.last() == results[n - 2]);
            if n >= 3 {
                assert(b.last() == results[n - 3]);
            }
        }
    }
}

/// What one more feed changes: the items of one that came are more rows, and end a run of failures;
/// one that failed is skipped, and is what is said last.
pub proof fn law_what_one_more_feed_changes(
    results: Seq<FeedResult>,
    total: nat,
    n: nat,
    why: Seq<char>,
)
    ensures
        ({
            let s = fed_with(results, total);
            let came = fed_with(results.push(FeedResult::Items(n)), total);
            let lost = fed_with(results.push(FeedResult::Failed(why)), total);
            &&& came.rows == s.rows + n
            &&& came.skipped == s.skipped
            &&& came.consecutive == 0
            &&& came.last_err == s.last_err
            &&& lost.rows == s.rows
            &&& lost.consecutive == s.consecutive + 1
            &&& s.consecutive < 2 ==> lost.skipped == s.skipped + 1 && lost.last_err == why
            &&& s.consecutive >= 2 && s.processed < total ==> lost.open && lost.skipped == s.skipped
                + (total - s.processed) && lost.last_err
                == "circuit opened after 3 consecutive failures ("@ + decimal(
                (total - s.processed - 1) as nat,
            ) + " feed(s) not attempted); last: "@ + why
            &&& fed_with(Seq::empty(), total).rows == 0
            &&& fed_with(Seq::empty(), total).skipped == 0
        }),
{
    let came = results.push(FeedResult::Items(n));
    let lost = results.push(FeedResult::Failed(why));
    assert(came.drop_last() =~= results);
    assert(lost.drop_last() =~= results);
}

/// Only a status of 404 says that there is nothing at an address; nothing else does.
pub proof fn law_what_is_not_there(e: ClientError)
    ensures
        not_there(e) <==> e is Http && e->Http_status == 404,
{
}

/// What the fetch of an object's records comes to: where they came, a file and as many rows as were
/// fetched; where the object has none, a resource that is skipped; and otherwise one that failed, for
/// the reason that is said. Each names its table and its two times.
pub proof fn law_what_the_records_come_to(
    p: SpoolProduct,
    f: ObjectFetch,
    result: Result<(), ClientError>,
    ended: Seq<char>,
)
    requires
        records_product(p, f, result, ended),
    ensures
        p.table@ == f.table@,
        p.outcome.table@ == f.table@,
        p.outcome.resource@ == f.table@,
        p.outcome.fetch_started_at@ == f.started@,
        p.outcome.fetch_ended_at@ == ended,
        result is Ok ==> p.outcome.status@ == "ok"@ && p.outcome.count == f.scan.fetched
            && p.outcome.expected == f.scan.expected && p.outcome.error is None && maybe_text(
            p.path,
        ) == Some(f.writer.file@),
        result is Ok ==> (p.outcome.consistency@ == "clean"@ <==> f.scan.expected is None
            || f.scan.expected == Some(f.scan.fetched)),
        result is Err ==> p.path is None && p.outcome.count == 0,
        result matches Err(e) ==> (e is Http && e->Http_status == 404 ==> p.outcome.status@
            == "skipped"@ && maybe_text(p.outcome.error) == Some(
            "object has no records endpoint (404); skipped"@,
        )),
        result matches Err(e) ==> (!(e is Http && e->Http_status == 404) ==> p.outcome.status@
            == "failed"@ && maybe_text(p.outcome.error) == Some(client_error_text(e))),
{
    crate::records::law_dirty_means_another_number(f.scan.fetched, f.scan.expected);
}

/// What the feeds of an object's records come to: every item that came counts, and feeds that were
/// skipped leave the resource dirty, with their number and the last reason.
pub proof fn law_what_the_feeds_come_to(
    p: SpoolProduct,
    f: FeedRun,
    result: Result<(), String>,
    ended: Seq<char>,
)
    requires
        feeds_product(p, f, result, ended),
    ensures
        f.kind == FeedKind::Activities ==> p.outcome.table@ == "activities"@ && p.outcome.resource@
            == "activities"@ + ":"@ + f.slug@,
        f.kind == FeedKind::Attachments ==> p.outcome.table@ == "attachments"@
            && p.outcome.resource@ == "attachments"@ + ":"@ + f.slug@,
        p.table@ == p.outcome.table@,
        result is Ok ==> p.outcome.status@ == "ok"@ && p.outcome.count == f.rows,
        result is Ok && f.skipped == 0 ==> p.outcome.consistency@ == "clean"@
            && p.outcome.error is None,
        result is Ok && f.skipped > 0 ==> p.outcome.consistency@ == "dirty"@ && maybe_text(
            p.outcome.error,
        ) == Some(
            decimal(f.skipped as nat) + " record feed(s) skipped; last: "@ + f.last_err@,
        ),
        result matches Err(e) ==> p.outcome.status@ == "failed"@ && p.outcome.count == 0
            && maybe_text(p.outcome.error) == Some(e@) && p.path is None,
{
}

/// The identifiers that are noted are those of the records, each in its place.
pub proof fn law_identifiers_are_those_of_the_records(list: Seq<JsonView>, i: int, id: Seq<char>)
    requires
        0 <= i < list.len(),
    ensures
        item_ids(list).len() == list.len(),
        crate::json::at(list[i], "id"@) == JsonView::Text(id) ==> item_ids(list)[i] == id,
        !(crate::json::at(list[i], "id"@) is Text) ==> item_ids(list)[i].len() == 0,
{
}

/// Of each list its object and its identifier are noted.
pub proof fn law_lists_are_noted(
    list: Seq<JsonView>,
    i: int,
    object: Seq<char>,
    id: Seq<char>,
)
    requires
        0 <= i < list.len(),
        crate::json::at(list[i], "id"@) == JsonView::Text(id),
        crate::json::at(crate::json::at(list[i], "attributes"@), "entity"@) == JsonView::Text(
            object,
        ),
    ensures
        list_refs(list).len() == list.len(),
        list_refs(list)[i] == (object, id),
{
}

/// The rows of a list are fetched exactly where some schema of an object has the slug of the list's
/// object.
pub proof fn law_lists_of_objects_are_fetched(
    lists: Seq<(Seq<char>, Seq<char>)>,
    schemas: Seq<ObjectSchema>,
    l: (Seq<char>, Seq<char>),
)
    ensures
        queryable_lists(lists, schemas).contains(l) <==> lists.contains(l) && exists|i: int|
            0 <= i < schemas.len() && (#[trigger] schemas[i]).object && schemas[i].slug@ == l.0,
{
    let keep = |l: (Seq<char>, Seq<char>)| queryable(schemas, l.0);
    let kept = queryable_lists(lists, schemas);
    if lists.contains(l) && queryable(schemas, l.0) {
        let i = choose|i: int| 0 <= i < lists.len() && lists[i] == l;
        lists.lemma_filter_contains(keep, i);
    }
    if kept.contains(l) {
        let k = choose|k: int| 0 <= k < kept.len() && kept[k] == l;
        lists.lemma_filter_pred(keep, k);
        lemma_list_kept(lists, keep, k);
    }
}

proof fn lemma_list_kept(
    lists: Seq<(Seq<char>, Seq<char>)>,
    keep: spec_fn((Seq<char>, Seq<char>)) -> bool,
    k: int,
)
    requires
        0 <= k < lists.filter(keep).len(),
    ensures
        lists.contains(lists.filter(keep)[k]),
    decreases lists.len(),
{
    reveal(Seq::filter);
    let rest = lists.drop_last();
    let l = lists.filter(keep)[k];
    if k < rest.filter(keep).len() {
        lemma_list_kept(rest, keep, k);
        let i = choose|i: int| 0 <= i < rest.len() && rest[i] == l;
        assert(lists[i] == l);
    } else {
        assert(lists[lists.len() - 1] == l);
    }
}

/// Where each resource goes: the records of an object to its own table, its feeds to the tables of
/// the feeds, and everything else to the table of its name.
pub proof fn law_where_resources_go(slug: Seq<char>, category: Category)
    ensures
        resource_table(Resource::Records { slug }) == "records_"@ + sanitized(slug),
        resource_name(Resource::Records { slug }) == "records_"@ + sanitized(slug),
        resource_table(Resource::Feed { kind: FeedKind::Activities, slug }) == "activities"@,
        resource_table(Resource::Feed { kind: FeedKind::Attachments, slug }) == "attachments"@,
        resource_name(Resource::Feed { kind: FeedKind::Activities, slug }) == "activities"@ + ":"@
            + slug,
        resource_name(Resource::Feed { kind: FeedKind::Attachments, slug }) == "attachments"@ + ":"@
            + slug,
        resource_table(Resource::Flat { category }) == category_name(category),
        resource_name(Resource::Flat { category }) == category_name(category),
{
}

/// The feeds of an object are skipped exactly where its records did not come: each has an outcome
/// under its own name.
pub proof fn law_feeds_follow_the_records(
    ps: Seq<SpoolProduct>,
    slug: Seq<char>,
    table: Seq<char>,
    kinds: Seq<FeedKind>,
    k: int,
)
    requires
        object_products(ps, slug, table, kinds),
        0 <= k < kinds.len(),
    ensures
        ps.len() == kinds.len() + 1,
        ps[0].outcome.table@ == table,
        ps[k + 1].outcome.table@ == feed_name(kinds[k]),
        ps[k + 1].outcome.resource@ == feed_name(kinds[k]) + ":"@ + slug,
        ps[k + 1].outcome.status@ == "skipped"@ <==> ps[0].outcome.status@ != "ok"@,
        ps[0].outcome.status@ != "ok"@ ==> ps[k + 1].outcome.count == 0 && maybe_text(
            ps[k + 1].outcome.error,
        ) == Some("records fetch failed"@) && ps[k + 1].path is None,
{
    reveal_strlit("skipped");
    reveal_strlit("failed");
    reveal_strlit("ok");
    assert("skipped"@[0] == 's' && "failed"@[0] == 'f' && "ok"@[0] == 'o');
    assert(feed_said(ps[k + 1], kinds[k], slug, ps[0].outcome.status@ == "ok"@));
}

/// A feed that came brings its items, and one that did not says why.
pub proof fn law_feeds_bring_items_or_a_reason(list: Vec<Json>, e: ClientError)
    ensures
        feed_result(Ok(&list)) == FeedResult::Items(list@.len()),
        feed_result(Err(&e)) == FeedResult::Failed(client_error_text(e)),
{
}

} // verus!
