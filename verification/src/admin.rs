//! The BigQuery side: addresses, and the requests that make datasets and tables be there.

use vstd::prelude::*;
use crate::error::{success, SinkError};
use crate::json::{
    array, at, fields, found, items, json_text, lemma_found_at, lemma_not_found, member_of,
    no_fields, object, put, show_json, text, within, Json, JsonView,
};
use crate::tables::{columns, Column, TableSpec};
use crate::text::{decimal, show_u64, trim_end, trimmed_end};

verus! {

/// Where a backup goes: the address of BigQuery, the project, the dataset and its location.
#[derive(Debug)]
pub struct BqSink {
    pub base: String,
    pub project: String,
    pub dataset: String,
    pub location: String,
}

/// The methods that requests are made by.
#[derive(Debug, Clone, Copy, PartialEq, Eq, Structural)]
pub enum Method {
    Get,
    Post,
    Patch,
    Delete,
}

/// A request to BigQuery, with a document where it carries one.
#[derive(Debug)]
pub struct ApiRequest {
    pub method: Method,
    pub url: String,
    pub body: Option<Json>,
}

/// What a response leads to.
#[derive(Debug)]
pub enum AdminStep {
    /// Another request, which is the last.
    Send(ApiRequest),
    /// The end.
    Done(Result<(), SinkError>),
}

/// The root of the BigQuery addresses of a project, with what follows.
pub open spec fn v2(sink: BqSink, tail: Seq<char>) -> Seq<char> {
    sink.base@ + "/bigquery/v2/projects/"@ + sink.project@ + tail
}

/// The address of a dataset.
pub open spec fn dataset_address(sink: BqSink, dataset: Seq<char>) -> Seq<char> {
    v2(sink, "/datasets/"@ + dataset)
}

/// The address of a table.
pub open spec fn table_address(sink: BqSink, table: Seq<char>) -> Seq<char> {
    v2(sink, "/datasets/"@ + sink.dataset@ + "/tables/"@ + table)
}

/// The address under which tables are created.
pub open spec fn tables_address(sink: BqSink) -> Seq<char> {
    v2(sink, "/datasets/"@ + sink.dataset@ + "/tables"@)
}

/// A request that carries nothing.
pub open spec fn bare_request(r: ApiRequest, method: Method, url: Seq<char>) -> bool {
    r.method == method && r.url@ == url && r.body is None
}

/// A request that carries a document.
pub open spec fn document_request(
    r: ApiRequest,
    method: Method,
    url: Seq<char>,
    body: JsonView,
) -> bool {
    &&& r.method == method
    &&& r.url@ == url
    &&& match r.body {
        Some(b) => b@ == body,
        None => false,
    }
}

/// Whether `r` is what a final response is taken as: success, or the failure that it reports.
pub open spec fn taken_as(
    r: Result<(), SinkError>,
    status: u16,
    url: Seq<char>,
    body: JsonView,
) -> bool {
    if success(status) {
        r is Ok
    } else {
        match r {
            Err(SinkError::Http { status: s, url: u, body: b }) => s == status && u@ == url && b@
                == json_text(body),
            _ => false,
        }
    }
}

/// The document that creates a dataset.
pub open spec fn dataset_document(sink: BqSink, dataset: Seq<char>) -> JsonView {
    let reference = JsonView::Object(
        fields().push(("datasetId"@, JsonView::Text(dataset))).push(
            ("projectId"@, JsonView::Text(sink.project@)),
        ),
    );
    JsonView::Object(
        fields().push(("datasetReference"@, reference)).push(
            ("location"@, JsonView::Text(sink.location@)),
        ),
    )
}

/// How a table is partitioned: by day of the snapshot, with the time that partitions stay in
/// milliseconds where they do not stay for ever.
pub open spec fn partitioning(days: Option<u32>) -> JsonView {
    let start = match days {
        Some(d) => fields().push(
            ("expirationMs"@, JsonView::Text(decimal((d * 86_400_000) as nat))),
        ),
        None => fields(),
    };
    JsonView::Object(
        start.push(("field"@, JsonView::Text("snapshot_at"@))).push(
            ("type"@, JsonView::Text("DAY"@)),
        ),
    )
}

/// The document of one column.
pub open spec fn column_document(c: (Seq<char>, Seq<char>)) -> JsonView {
    JsonView::Object(
        fields().push(("name"@, JsonView::Text(c.0))).push(("type"@, JsonView::Text(c.1))),
    )
}

/// The documents of a list of columns.
pub open spec fn column_documents(cols: Seq<(Seq<char>, Seq<char>)>) -> Seq<JsonView> {
    cols.map_values(|c: (Seq<char>, Seq<char>)| column_document(c))
}

/// The document that creates a table: its columns, partitioned by day and clustered by run.
pub open spec fn table_document(
    sink: BqSink,
    name: Seq<char>,
    cols: Seq<(Seq<char>, Seq<char>)>,
    days: Option<u32>,
) -> JsonView {
    let clustering = JsonView::Object(
        fields().push(("fields"@, JsonView::Array(seq![JsonView::Text("run_id"@)]))),
    );
    let schema = JsonView::Object(
        fields().push(("fields"@, JsonView::Array(column_documents(cols)))),
    );
    let reference = JsonView::Object(
        fields().push(("datasetId"@, JsonView::Text(sink.dataset@))).push(
            ("projectId"@, JsonView::Text(sink.project@)),
        ).push(("tableId"@, JsonView::Text(name))),
    );
    JsonView::Object(
        fields().push(("clustering"@, clustering)).push(("schema"@, schema)).push(
            ("tableReference"@, reference),
        ).push(("timePartitioning"@, partitioning(days))),
    )
}

/// How a table is partitioned whose partitions stay for ever from now on.
pub open spec fn cleared_partitioning() -> JsonView {
    JsonView::Object(
        fields().push(("expirationMs"@, JsonView::Null)).push(
            ("field"@, JsonView::Text("snapshot_at"@)),
        ).push(("type"@, JsonView::Text("DAY"@))),
    )
}

/// The document that states the retention of a table anew. Where there is none, whatever there was
/// is taken away.
pub open spec fn retention_document(days: Option<u32>) -> JsonView {
    JsonView::Object(
        fields().push(
            (
                "timePartitioning"@,
                if days is Some {
                    partitioning(days)
                } else {
                    cleared_partitioning()
                },
            ),
        ),
    )
}

/// What a table's document says of the time that its partitions stay; null where they stay for
/// ever.
pub open spec fn expiration_of(table: JsonView) -> JsonView {
    at(at(table, "timePartitioning"@), "expirationMs"@)
}

/// The time that partitions are to stay; null where they are to stay for ever.
pub open spec fn wanted_expiration(days: Option<u32>) -> JsonView {
    match days {
        Some(d) => JsonView::Text(decimal((d * 86_400_000) as nat)),
        None => JsonView::Null,
    }
}

/// Whether making sure of a table leads to this step: one that is missing is created; one that is
/// there has its retention stated anew, unless it has none and is to have none.
pub open spec fn table_step(
    r: AdminStep,
    sink: BqSink,
    spec: TableSpec,
    status: u16,
    body: JsonView,
) -> bool {
    let url = table_address(sink, spec.name@);
    let days = spec.partition_expiration_days;
    if status == 404 {
        r matches AdminStep::Send(q) && document_request(
            q,
            Method::Post,
            tables_address(sink),
            table_document(sink, spec.name@, columns(spec.columns@), days),
        )
    } else if success(status) && (days is Some || expiration_of(body) != JsonView::Null) {
        r matches AdminStep::Send(q) && document_request(
            q,
            Method::Patch,
            url,
            retention_document(days),
        )
    } else {
        r matches AdminStep::Done(d) && taken_as(d, status, url, body)
    }
}

/// A table ends up with the retention that is wanted, whether it was there before or not: the
/// request that making sure of it leads to states that retention, and where there is no request the
/// table has it already.
pub proof fn law_retention_takes_effect(
    r: AdminStep,
    sink: BqSink,
    spec: TableSpec,
    status: u16,
    body: JsonView,
)
    requires
        table_step(r, sink, spec, status, body),
        status == 404 || success(status),
    ensures
        match r {
            AdminStep::Send(q) => q.body matches Some(b) && member_of(
                b@,
                "timePartitioning"@,
            ) is Some && expiration_of(b@) == wanted_expiration(spec.partition_expiration_days),
            AdminStep::Done(d) => d is Ok && expiration_of(body) == wanted_expiration(
                spec.partition_expiration_days,
            ),
        },
{
    reveal_strlit("timePartitioning");
    reveal_strlit("clustering");
    reveal_strlit("schema");
    reveal_strlit("tableReference");
    reveal_strlit("expirationMs");
    reveal_strlit("field");
    reveal_strlit("type");
    reveal_with_fuel(crate::json::find_member, 5);
    assert("clustering"@[0] != "timePartitioning"@[0]);
    assert("schema"@[0] != "timePartitioning"@[0]);
    assert("tableReference"@[1] != "timePartitioning"@[1]);
    assert("field"@[0] != "expirationMs"@[0]);
    assert("type"@[0] != "expirationMs"@[0]);
    let days = spec.partition_expiration_days;
    let p = partitioning(days)->Object_0;
    if days is Some {
        assert(p[0].0 == "expirationMs"@);
    } else {
        assert(p.drop_first()[0] == p[1]);
        assert(p.drop_first().drop_first() =~= fields());
    }
    let t = table_document(sink, spec.name@, columns(spec.columns@), days)->Object_0;
    assert(t.drop_first()[0] == t[1]);
    assert(t.drop_first().drop_first()[0] == t[2]);
    assert(t.drop_first().drop_first().drop_first()[0] == t[3]);
}

/// Stating a retention anew touches nothing else of a table.
pub proof fn law_retention_touches_nothing_else(days: Option<u32>, key: Seq<char>)
    ensures
        member_of(retention_document(days), key) is Some <==> key == "timePartitioning"@,
{
    reveal_with_fuel(crate::json::find_member, 2);
    let m = retention_document(days)->Object_0;
    assert(m.drop_first() =~= fields());
}

impl BqSink {
    /// A sink for one dataset; slashes at the end of the base address do not count.
    pub fn new(base_url: String, project: String, dataset: String, location: String) -> (r: Self)
        ensures
            r.base@ == trimmed_end(base_url@, '/'),
            r.project@ == project@,
            r.dataset@ == dataset@,
            r.location@ == location@,
    {
        Self { base: trim_end(&base_url, '/'), project, dataset, location }
    }

    pub fn project(&self) -> (r: &str)
        ensures
            r@ == self.project@,
    {
        &self.project
    }

    pub fn dataset(&self) -> (r: &str)
        ensures
            r@ == self.dataset@,
    {
        &self.dataset
    }

    /// The root of the BigQuery addresses of the project, with what follows.
    pub fn v2_url(&self, tail: &str) -> (r: String)
        ensures
            r@ == v2(*self, tail@),
    {
        let mut s = self.base.clone();
        s.append("/bigquery/v2/projects/");
        s.append(&self.project);
        s.append(tail);
        s
    }

    /// The address of a table.
    pub fn table_url(&self, table: &str) -> (r: String)
        ensures
            r@ == table_address(*self, table@),
    {
        let mut tail = "/datasets/".to_owned();
        tail.append(&self.dataset);
        tail.append("/tables/");
        tail.append(table);
        self.v2_url(&tail)
    }

    /// Takes a final response: success, or the failure that it reports.
    pub fn expect_ok(status: u16, url: &str, body: &Json) -> (r: Result<(), SinkError>)
        ensures
            taken_as(r, status, url@, body@),
    {
        if status >= 200 && status < 300 {
            Ok(())
        } else {
            Err(SinkError::Http { status, url: url.to_owned(), body: show_json(body) })
        }
    }

    /// Asks whether the backup's own dataset is there.
    pub fn ensure_dataset(&self) -> (r: ApiRequest)
        ensures
            bare_request(r, Method::Get, dataset_address(*self, self.dataset@)),
    {
        self.ensure_dataset_named(&self.dataset)
    }

    /// Asks whether a dataset is there.
    pub fn ensure_dataset_named(&self, dataset: &str) -> (r: ApiRequest)
        ensures
            bare_request(r, Method::Get, dataset_address(*self, dataset@)),
    {
        let mut tail = "/datasets/".to_owned();
        tail.append(dataset);
        ApiRequest { method: Method::Get, url: self.v2_url(&tail), body: None }
    }

    /// Goes on once it is known whether a dataset is there: one that is missing is created in the
    /// sink's location, and anything else is taken as it is.
    pub fn dataset_probed(&self, dataset: &str, status: u16, body: &Json) -> (r: AdminStep)
        ensures
            match r {
                AdminStep::Send(q) => status == 404 && document_request(
                    q,
                    Method::Post,
                    v2(*self, "/datasets"@),
                    dataset_document(*self, dataset@),
                ),
                AdminStep::Done(d) => status != 404 && taken_as(
                    d,
                    status,
                    dataset_address(*self, dataset@),
                    body@,
                ),
            },
    {
        if status == 404 {
            let mut reference = no_fields();
            put(&mut reference, "datasetId", text(dataset));
            put(&mut reference, "projectId", text(&self.project));
            let mut m = no_fields();
            put(&mut m, "datasetReference", object(reference));
            put(&mut m, "location", text(&self.location));
            return AdminStep::Send(
                ApiRequest {
                    method: Method::Post,
                    url: self.v2_url("/datasets"),
                    body: Some(object(m)),
                },
            );
        }
        let probe = self.ensure_dataset_named(dataset);
        AdminStep::Done(BqSink::expect_ok(status, &probe.url, body))
    }

    /// Removes a table.
    pub fn delete_table(&self, name: &str) -> (r: ApiRequest)
        ensures
            bare_request(r, Method::Delete, table_address(*self, name@)),
    {
        ApiRequest { method: Method::Delete, url: self.table_url(name), body: None }
    }

    /// Takes the response to the removal of a table. A table that was not there is as good as
    /// removed.
    pub fn table_deleted(&self, name: &str, status: u16, body: &Json) -> (r: Result<(), SinkError>)
        ensures
            if status == 404 {
                r is Ok
            } else {
                taken_as(r, status, table_address(*self, name@), body@)
            },
    {
        if status == 404 {
            return Ok(());
        }
        BqSink::expect_ok(status, &self.table_url(name), body)
    }

    fn partitioning_json(spec: &TableSpec) -> (r: Json)
        ensures
            r@ == partitioning(spec.partition_expiration_days),
    {
        let mut m = no_fields();
        if let Some(days) = spec.partition_expiration_days {
            let ms: u64 = days as u64 * 86_400_000;
            put(&mut m, "expirationMs", Json::Text(show_u64(ms)));
        }
        put(&mut m, "field", text("snapshot_at"));
        put(&mut m, "type", text("DAY"));
        object(m)
    }

    /// Asks whether a table is there.
    pub fn ensure_table(&self, spec: &TableSpec) -> (r: ApiRequest)
        ensures
            bare_request(r, Method::Get, table_address(*self, spec.name@)),
    {
        ApiRequest { method: Method::Get, url: self.table_url(&spec.name), body: None }
    }

    /// Goes on once it is known whether a table is there: one that is missing is created; one that
    /// is there has its retention stated anew, so that a changed retention takes effect. A table
    /// that is to be kept for ever loses the expiration that it had.
    pub fn table_probed(&self, spec: &TableSpec, status: u16, body: &Json) -> (r: AdminStep)
        ensures
            table_step(r, *self, *spec, status, body@),
    {
        if status == 404 {
            return AdminStep::Send(self.create_table(spec));
        }
        let url = self.table_url(&spec.name);
        match BqSink::expect_ok(status, &url, body) {
            Err(e) => AdminStep::Done(Err(e)),
            Ok(()) => {
                let mut m = no_fields();
                if spec.partition_expiration_days.is_some() {
                    put(&mut m, "timePartitioning", BqSink::partitioning_json(spec));
                } else if expires(body) {
                    let mut p = no_fields();
                    put(&mut p, "expirationMs", Json::Null);
                    put(&mut p, "field", text("snapshot_at"));
                    put(&mut p, "type", text("DAY"));
                    put(&mut m, "timePartitioning", object(p));
                } else {
                    return AdminStep::Done(Ok(()));
                }
                AdminStep::Send(ApiRequest { method: Method::Patch, url, body: Some(object(m)) })
            },
        }
    }

    fn create_table(&self, spec: &TableSpec) -> (r: ApiRequest)
        ensures
            document_request(
                r,
                Method::Post,
                tables_address(*self),
                table_document(
                    *self,
                    spec.name@,
                    columns(spec.columns@),
                    spec.partition_expiration_days,
                ),
            ),
    {
        let mut cluster: Vec<Json> = Vec::new();
        let by_run = text("run_id");
        cluster.push(by_run);
        assert(items(cluster@) =~= seq![JsonView::Text("run_id"@)]);
        let mut clustering = no_fields();
        put(&mut clustering, "fields", array(cluster));
        let mut schema = no_fields();
        put(&mut schema, "fields", array(column_fields(&spec.columns)));
        let mut reference = no_fields();
        put(&mut reference, "datasetId", text(&self.dataset));
        put(&mut reference, "projectId", text(&self.project));
        put(&mut reference, "tableId", text(&spec.name));
        let mut m = no_fields();
        put(&mut m, "clustering", object(clustering));
        put(&mut m, "schema", object(schema));
        put(&mut m, "tableReference", object(reference));
        put(&mut m, "timePartitioning", BqSink::partitioning_json(spec));
        let mut tail = "/datasets/".to_owned();
        tail.append(&self.dataset);
        tail.append("/tables");
        ApiRequest { method: Method::Post, url: self.v2_url(&tail), body: Some(object(m)) }
    }
}

impl ApiRequest {
    /// Takes the response to the last request of a task.
    pub fn finished(&self, status: u16, body: &Json) -> (r: Result<(), SinkError>)
        ensures
            taken_as(r, status, self.url@, body@),
    {
        BqSink::expect_ok(status, &self.url, body)
    }
}

/// Whether a table's document shows that its partitions expire.
fn expires(table: &Json) -> (r: bool)
    ensures
        r == (expiration_of(table@) != JsonView::Null),
{
    let shown = within(within(Some(table), "timePartitioning"), "expirationMs");
    assert(found(shown) == expiration_of(table@));
    match shown {
        Some(Json::Null) => false,
        Some(_) => true,
        None => false,
    }
}

fn column_fields(cols: &Vec<Column>) -> (r: Vec<Json>)
    ensures
        items(r@) == column_documents(columns(cols@)),
{
    let mut out: Vec<Json> = Vec::new();
    let mut i: usize = 0;
    let ghost want = column_documents(columns(cols@));
    while i < cols.len()
        invariant
            i <= cols@.len(),
            want == column_documents(columns(cols@)),
            items(out@) == want.take(i as int),
        decreases cols@.len() - i,
    {
        let ghost had = out@;
        let mut m = no_fields();
        put(&mut m, "name", text(cols[i].name));
        put(&mut m, "type", text(cols[i].ty));
        let field = object(m);
        out.push(field);
        assert(items(out@) =~= items(had).push(field@));
        assert(columns(cols@)[i as int] == (cols@[i as int].name@, cols@[i as int].ty@));
        assert(field@ == want[i as int]);
        i += 1;
        assert(items(out@) =~= want.take(i as int));
    }
    assert(want.take(cols@.len() as int) =~= want);
    out
}

// ---- what is asked of BigQuery ----

proof fn reveal_document_names()
    ensures
        "clustering"@ != "schema"@,
        "clustering"@ != "tableReference"@,
        "clustering"@ != "timePartitioning"@,
        "schema"@ != "tableReference"@,
        "schema"@ != "timePartitioning"@,
        "tableReference"@ != "timePartitioning"@,
        "datasetId"@ != "projectId"@,
        "datasetId"@ != "tableId"@,
        "projectId"@ != "tableId"@,
        "datasetReference"@ != "location"@,
        "expirationMs"@ != "field"@,
        "expirationMs"@ != "type"@,
        "field"@ != "type"@,
        "name"@ != "type"@,
{
    reveal_strlit("clustering");
    reveal_strlit("schema");
    reveal_strlit("tableReference");
    reveal_strlit("timePartitioning");
    reveal_strlit("datasetId");
    reveal_strlit("projectId");
    reveal_strlit("tableId");
    reveal_strlit("datasetReference");
    reveal_strlit("location");
    reveal_strlit("expirationMs");
    reveal_strlit("field");
    reveal_strlit("type");
    reveal_strlit("name");
    assert("clustering"@[0] == 'c' && "schema"@[0] == 's' && "tableReference"@[1] == 'a');
    assert("timePartitioning"@[1] == 'i' && "tableReference"@[0] == 't');
    assert("timePartitioning"@[0] == 't' && "datasetId"@[0] == 'd' && "projectId"@[0] == 'p');
    assert("tableId"@[0] == 't' && "datasetReference"@[0] == 'd' && "location"@[0] == 'l');
    assert("expirationMs"@[0] == 'e' && "field"@[0] == 'f' && "type"@[0] == 't');
    assert("name"@[0] == 'n');
}

/// Partitions are days of the snapshot, and stay for as many days as is wanted, in milliseconds.
pub proof fn law_partitions_are_days_of_snapshots(days: Option<u32>)
    ensures
        at(partitioning(days), "field"@) == JsonView::Text("snapshot_at"@),
        at(partitioning(days), "type"@) == JsonView::Text("DAY"@),
        days matches Some(d) ==> at(partitioning(days), "expirationMs"@) == JsonView::Text(
            decimal((d as nat) * 24 * 60 * 60 * 1000),
        ),
        days is None ==> member_of(partitioning(days), "expirationMs"@) is None,
{
    reveal_document_names();
    let m = partitioning(days)->Object_0;
    match days {
        Some(d) => {
            lemma_found_at(m, 0);
            lemma_found_at(m, 1);
            lemma_found_at(m, 2);
            assert((d as nat) * 24 * 60 * 60 * 1000 == d * 86_400_000);
        },
        None => {
            lemma_found_at(m, 0);
            lemma_found_at(m, 1);
            lemma_not_found(m, "expirationMs"@);
        },
    }
}

/// What a table is created with: its own name in the dataset of the backup, each of its columns with
/// its type, partitions by day, and its rows clustered by run.
pub proof fn law_table_is_created_as_it_should_be(
    sink: BqSink,
    name: Seq<char>,
    cols: Seq<(Seq<char>, Seq<char>)>,
    days: Option<u32>,
    i: int,
)
    requires
        0 <= i < cols.len(),
    ensures
        ({
            let doc = table_document(sink, name, cols, days);
            let listed = at(at(doc, "schema"@), "fields"@);
            &&& at(at(doc, "tableReference"@), "tableId"@) == JsonView::Text(name)
            &&& at(at(doc, "tableReference"@), "datasetId"@) == JsonView::Text(sink.dataset@)
            &&& at(at(doc, "tableReference"@), "projectId"@) == JsonView::Text(sink.project@)
            &&& listed is Array && listed->Array_0.len() == cols.len()
            &&& at(listed->Array_0[i], "name"@) == JsonView::Text(cols[i].0)
            &&& at(listed->Array_0[i], "type"@) == JsonView::Text(cols[i].1)
            &&& at(at(doc, "clustering"@), "fields"@) == JsonView::Array(
                seq![JsonView::Text("run_id"@)],
            )
            &&& at(doc, "timePartitioning"@) == partitioning(days)
        }),
{
    reveal_document_names();
    let doc = table_document(sink, name, cols, days);
    let m = doc->Object_0;
    lemma_found_at(m, 0);
    lemma_found_at(m, 1);
    lemma_found_at(m, 2);
    lemma_found_at(m, 3);
    let reference = m[2].1->Object_0;
    lemma_found_at(reference, 0);
    lemma_found_at(reference, 1);
    lemma_found_at(reference, 2);
    lemma_found_at(m[1].1->Object_0, 0);
    lemma_found_at(m[0].1->Object_0, 0);
    let column = column_document(cols[i])->Object_0;
    lemma_found_at(column, 0);
    lemma_found_at(column, 1);
    assert(column_documents(cols)[i] == column_document(cols[i]));
}

/// A dataset is created under the name that was asked about, in the project and the location of the
/// backup.
pub proof fn law_dataset_is_created_where_it_should_be(sink: BqSink, dataset: Seq<char>)
    ensures
        at(at(dataset_document(sink, dataset), "datasetReference"@), "datasetId"@)
            == JsonView::Text(dataset),
        at(at(dataset_document(sink, dataset), "datasetReference"@), "projectId"@)
            == JsonView::Text(sink.project@),
        at(dataset_document(sink, dataset), "location"@) == JsonView::Text(sink.location@),
{
    reveal_document_names();
    let m = dataset_document(sink, dataset)->Object_0;
    lemma_found_at(m, 0);
    lemma_found_at(m, 1);
    let reference = m[0].1->Object_0;
    lemma_found_at(reference, 0);
    lemma_found_at(reference, 1);
}

/// A table that is missing is created, and one that is there is never created again: with a
/// retention to state it is patched, and its retention is taken away where it should have none.
pub proof fn law_tables_are_created_once(
    r: AdminStep,
    sink: BqSink,
    spec: TableSpec,
    status: u16,
    body: JsonView,
)
    requires
        table_step(r, sink, spec, status, body),
    ensures
        status == 404 ==> (r matches AdminStep::Send(q) && q.method == Method::Post),
        status != 404 ==> (r matches AdminStep::Send(q) ==> q.method == Method::Patch && q.url@
            == table_address(sink, spec.name@)),
        200 <= status < 300 && spec.partition_expiration_days is Some ==> r is Send,
        200 <= status < 300 && spec.partition_expiration_days is None && at(
            at(body, "timePartitioning"@),
            "expirationMs"@,
        ) != JsonView::Null ==> r is Send,
        200 <= status < 300 && r is Done ==> r->Done_0 is Ok,
        status != 404 && !(200 <= status < 300) ==> r is Done && r->Done_0 is Err,
{
}

/// The addresses of a table and of the dataset that it is in.
pub proof fn law_addresses_lead_to_tables(sink: BqSink, table: Seq<char>)
    ensures
        dataset_address(sink, sink.dataset@) == sink.base@ + "/bigquery/v2/projects/"@
            + sink.project@ + ("/datasets/"@ + sink.dataset@),
        tables_address(sink) == dataset_address(sink, sink.dataset@) + "/tables"@,
        table_address(sink, table) == tables_address(sink) + ("/"@ + table),
{
    reveal_strlit("/tables/");
    reveal_strlit("/tables");
    reveal_strlit("/");
    assert("/tables/"@ =~= "/tables"@ + "/"@);
    assert(tables_address(sink) =~= dataset_address(sink, sink.dataset@) + "/tables"@);
    assert(table_address(sink, table) =~= tables_address(sink) + ("/"@ + table));
}

/// A table whose retention is taken away stays partitioned by day of the snapshot.
pub proof fn law_cleared_tables_stay_partitioned(days: Option<u32>)
    ensures
        at(at(retention_document(None), "timePartitioning"@), "expirationMs"@) == JsonView::Null,
        member_of(at(retention_document(None), "timePartitioning"@), "expirationMs"@) is Some,
        at(at(retention_document(days), "timePartitioning"@), "field"@) == JsonView::Text(
            "snapshot_at"@,
        ),
        at(at(retention_document(days), "timePartitioning"@), "type"@) == JsonView::Text("DAY"@),
{
    reveal_document_names();
    law_partitions_are_days_of_snapshots(days);
    let m = cleared_partitioning()->Object_0;
    lemma_found_at(m, 0);
    lemma_found_at(m, 1);
    lemma_found_at(m, 2);
    lemma_found_at(retention_document(None)->Object_0, 0);
    lemma_found_at(retention_document(days)->Object_0, 0);
}

/// A response is taken for success exactly where its status reports success, and a failure keeps the
/// status, the address and the body.
pub proof fn law_responses_are_taken_for_what_they_say(
    r: Result<(), SinkError>,
    status: u16,
    url: Seq<char>,
    body: JsonView,
)
    requires
        taken_as(r, status, url, body),
    ensures
        r is Ok <==> 200 <= status <= 299,
        r matches Err(e) ==> e is Http && e->Http_status == status && e->Http_url@ == url
            && e->Http_body@ == json_text(body),
{
}

} // verus!
