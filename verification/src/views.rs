//! Views of the latest snapshot: one for each object, with a column for each property of its
//! schema, and one for each other table.

use vstd::prelude::*;
use crate::admin::BqSink;
use crate::error::SinkError;
use crate::json::{at, member_of, members, within, Json, JsonView};
use crate::plan::{
    all_categories, category_name, lemma_filter_keeps_all, Category, ResourcePlan,
};
use crate::runs::{comes_to, order_clause, status_clause, LedgerRun, RunOrder, RunSearch};
use crate::schemas::{members_of, SchemaView};
use crate::tables::{records_table, sanitize, sanitized};
use crate::text::{has_char, holds, join, joined, same, texts};

verus! {

/// The part of a view that finds the newest complete run at the time of the query, among the
/// partitions of the last days.
pub open spec fn latest_text(project: Seq<char>, dataset: Seq<char>) -> Seq<char> {
    "WITH latest AS (SELECT run_id, snapshot_at FROM `"@ + project + "."@ + dataset
        + ".runs` WHERE status = 'complete' AND snapshot_at >= TIMESTAMP_SUB(CURRENT_TIMESTAMP(), INTERVAL 45 DAY) ORDER BY snapshot_at DESC LIMIT 1)"@
}

fn latest_cte(project: &str, dataset: &str) -> (r: String)
    ensures
        r@ == latest_text(project@, dataset@),
{
    let mut s = "WITH latest AS (SELECT run_id, snapshot_at FROM `".to_owned();
    s.append(project);
    s.append(".");
    s.append(dataset);
    s.append(
        ".runs` WHERE status = 'complete' AND snapshot_at >= TIMESTAMP_SUB(CURRENT_TIMESTAMP(), INTERVAL 45 DAY) ORDER BY snapshot_at DESC LIMIT 1)",
    );
    s
}

// ---- columns ----

/// The first of several types that is not null.
pub open spec fn first_type(list: Seq<JsonView>) -> Option<Seq<char>>
    decreases list.len(),
{
    if list.len() == 0 {
        None
    } else {
        match list[0] {
            JsonView::Text(s) => if s != "null"@ {
                Some(s)
            } else {
                first_type(list.drop_first())
            },
            _ => first_type(list.drop_first()),
        }
    }
}

/// The type that a property has, by its schema.
pub open spec fn property_type(prop: JsonView) -> Option<Seq<char>> {
    match at(prop, "type"@) {
        JsonView::Text(s) => Some(s),
        JsonView::Array(list) => first_type(list),
        _ => None,
    }
}

/// The BigQuery type of a property that holds a single value; none where it is nested.
pub open spec fn column_type(prop: JsonView) -> Option<Seq<char>> {
    match property_type(prop) {
        None => None,
        Some(ty) => if ty == "string"@ {
            if at(prop, "format"@) == JsonView::Text("date-time"@) {
                Some("TIMESTAMP"@)
            } else {
                Some("STRING"@)
            }
        } else if ty == "integer"@ {
            Some("INT64"@)
        } else if ty == "number"@ {
            Some("FLOAT64"@)
        } else if ty == "boolean"@ {
            Some("BOOL"@)
        } else {
            None
        },
    }
}

fn first_type_of(list: &Vec<Json>) -> (r: Option<&String>)
    ensures
        r is Some <==> first_type(crate::json::items(list@)) is Some,
        r matches Some(s) ==> first_type(crate::json::items(list@)) == Some(s@),
{
    let ghost all = crate::json::items(list@);
    let mut i: usize = 0;
    assert(all.skip(0) =~= all);
    while i < list.len()
        invariant
            i <= list@.len(),
            all == crate::json::items(list@),
            first_type(all) == first_type(all.skip(i as int)),
        decreases list@.len() - i,
    {
        assert(all.skip(i as int)[0] == list@[i as int]@);
        assert(all.skip(i as int).drop_first() =~= all.skip(i + 1));
        if let Json::Text(s) = &list[i] {
            if !same(s, "null") {
                return Some(s);
            }
        }
        i += 1;
    }
    None
}

fn scalar_type(prop: &Json) -> (r: Option<&'static str>)
    ensures
        r is Some <==> column_type(prop@) is Some,
        r matches Some(s) ==> column_type(prop@) == Some(s@),
{
    broadcast use crate::json::lemma_array_view;

    let ty = match prop.get("type") {
        Some(Json::Text(s)) => Some(s),
        Some(Json::Array(list)) => first_type_of(list),
        _ => None,
    };
    match ty {
        None => None,
        Some(ty) => {
            if same(ty, "string") {
                let moment = match prop.get("format") {
                    Some(f) => f.is_text("date-time"),
                    None => false,
                };
                if moment {
                    Some("TIMESTAMP")
                } else {
                    Some("STRING")
                }
            } else if same(ty, "integer") {
                Some("INT64")
            } else if same(ty, "number") {
                Some("FLOAT64")
            } else if same(ty, "boolean") {
                Some("BOOL")
            } else {
                None
            }
        },
    }
}

/// Whether a column name belongs to every view already.
pub open spec fn reserved(alias: Seq<char>) -> bool {
    alias == "run_id"@ || alias == "snapshot_at"@ || alias == "record_id"@ || alias == "object"@
        || alias == "data"@
}

/// Whether a property gets a column: its name can stand in a path, and leads to a column name of
/// its own.
pub open spec fn gets_column(name: Seq<char>) -> bool {
    !name.contains('"') && !name.contains('\\') && !reserved(sanitized(name)) && sanitized(
        name,
    ).len() > 0
}

/// The path of an attribute.
pub open spec fn attribute_path(name: Seq<char>) -> Seq<char> {
    "$.attributes.\""@ + name + "\""@
}

/// The expression for a property: a typed column for a single value, an id column for a relation
/// to one record, and JSON for everything nested.
pub open spec fn column_text(name: Seq<char>, prop: JsonView) -> Seq<char> {
    let alias = sanitized(name);
    let path = attribute_path(name);
    if member_of(prop, "xClarifyRelationship"@) is Some {
        if column_type(prop) == Some("STRING"@) {
            "COALESCE(JSON_VALUE(data, '"@ + path + "'), JSON_VALUE(data, '$.relationships.\""@
                + name + "\".data.id')) AS "@ + alias
        } else {
            "JSON_QUERY(data, '$.relationships.\""@ + name + "\"') AS "@ + alias
        }
    } else {
        match column_type(prop) {
            None => "JSON_QUERY(data, '"@ + path + "') AS "@ + alias,
            Some(ty) => if ty == "STRING"@ {
                "JSON_VALUE(data, '"@ + path + "') AS "@ + alias
            } else {
                "SAFE_CAST(JSON_VALUE(data, '"@ + path + "') AS "@ + ty + ") AS "@ + alias
            },
        }
    }
}

fn column_expr(name: &str, prop: &Json) -> (r: Option<String>)
    ensures
        r is Some <==> gets_column(name@),
        r matches Some(s) ==> s@ == column_text(name@, prop@),
{
    if has_char(name, '"') || has_char(name, '\\') {
        return None;
    }
    let alias = sanitize(name);
    let taken = same(&alias, "run_id") || same(&alias, "snapshot_at") || same(&alias, "record_id")
        || same(&alias, "object") || same(&alias, "data");
    let none = same(&alias, "");
    proof {
        reveal_strlit("");
        assert(alias@ == ""@ <==> alias@.len() == 0) by {
            if alias@.len() == 0 {
                assert(alias@ =~= ""@);
            }
        }
    }
    if taken || none {
        return None;
    }
    let mut path = "$.attributes.\"".to_owned();
    path.append(name);
    path.append("\"");
    let ty = scalar_type(prop);
    let mut s;
    if prop.get("xClarifyRelationship").is_some() {
        let id = match ty {
            Some(t) => same(t, "STRING"),
            None => false,
        };
        if id {
            s = "COALESCE(JSON_VALUE(data, '".to_owned();
            s.append(&path);
            s.append("'), JSON_VALUE(data, '$.relationships.\"");
            s.append(name);
            s.append("\".data.id')) AS ");
        } else {
            s = "JSON_QUERY(data, '$.relationships.\"".to_owned();
            s.append(name);
            s.append("\"') AS ");
        }
    } else {
        match ty {
            None => {
                s = "JSON_QUERY(data, '".to_owned();
                s.append(&path);
                s.append("') AS ");
            },
            Some(t) => {
                if same(t, "STRING") {
                    s = "JSON_VALUE(data, '".to_owned();
                    s.append(&path);
                    s.append("') AS ");
                } else {
                    s = "SAFE_CAST(JSON_VALUE(data, '".to_owned();
                    s.append(&path);
                    s.append("') AS ");
                    s.append(t);
                    s.append(") AS ");
                }
            },
        }
    }
    s.append(&alias);
    Some(s)
}

/// The names and expressions of the columns that the properties lead to, in their order; of
/// several that lead to one name, only the first has a column.
pub open spec fn view_columns(props: Seq<(Seq<char>, JsonView)>) -> (
    Seq<Seq<char>>,
    Seq<Seq<char>>,
)
    decreases props.len(),
{
    if props.len() == 0 {
        (Seq::empty(), Seq::empty())
    } else {
        let before = view_columns(props.drop_last());
        let (name, prop) = props.last();
        if before.0.contains(sanitized(name)) || !gets_column(name) {
            before
        } else {
            (before.0.push(sanitized(name)), before.1.push(column_text(name, prop)))
        }
    }
}

/// No view has two columns of one name, and none takes a name that belongs to every view.
pub proof fn law_view_columns_are_distinct(props: Seq<(Seq<char>, JsonView)>)
    ensures
        view_columns(props).0.len() == view_columns(props).1.len(),
        view_columns(props).0.no_duplicates(),
        forall|i: int|
            0 <= i < view_columns(props).0.len() ==> !reserved(#[trigger] view_columns(props).0[i]),
    decreases props.len(),
{
    if props.len() > 0 {
        law_view_columns_are_distinct(props.drop_last());
        let before = view_columns(props.drop_last()).0;
        let now = view_columns(props).0;
        assert forall|i: int, j: int| 0 <= i < j < now.len() implies now[i] != now[j] by {
            if j == before.len() {
                assert(before.contains(before[i]));
            }
        }
        assert forall|i: int| 0 <= i < now.len() implies !reserved(#[trigger] now[i]) by {
            if i < before.len() {
                assert(now[i] == before[i]);
            }
        }
    }
}

/// A property that can have a column has one, under its own name.
pub proof fn law_every_property_has_its_column(props: Seq<(Seq<char>, JsonView)>, i: int)
    requires
        0 <= i < props.len(),
        gets_column(props[i].0),
    ensures
        view_columns(props).0.contains(sanitized(props[i].0)),
    decreases props.len(),
{
    let before = view_columns(props.drop_last()).0;
    let now = view_columns(props).0;
    let alias = sanitized(props[i].0);
    if i < props.len() - 1 {
        law_every_property_has_its_column(props.drop_last(), i);
        assert(props.drop_last()[i] == props[i]);
        let k = choose|k: int| 0 <= k < before.len() && before[k] == alias;
        assert(now[k] == alias);
    } else if !before.contains(alias) {
        assert(now.last() == alias);
        assert(now[now.len() - 1] == alias);
    }
}

/// All columns of the view of an object.
pub open spec fn object_columns(schema_raw: JsonView) -> Seq<Seq<char>> {
    seq!["record_id"@, "snapshot_at"@] + view_columns(
        members_of(at(at(schema_raw, "attributes"@), "properties"@)),
    ).1 + seq!["data"@]
}

// ---- statements ----

/// What every view of the latest snapshot ends with.
pub open spec fn latest_filter(project: Seq<char>, dataset: Seq<char>, table: Seq<char>) -> Seq<
    char,
> {
    " FROM `"@ + project + "."@ + dataset + "."@ + table
        + "` t, latest WHERE t.run_id = latest.run_id AND t.snapshot_at >= TIMESTAMP_SUB(CURRENT_TIMESTAMP(), INTERVAL 45 DAY)"@
}

/// The statement that creates a view.
pub open spec fn view_text(
    project: Seq<char>,
    dataset: Seq<char>,
    views_dataset: Seq<char>,
    table: Seq<char>,
    view: Seq<char>,
    selection: Seq<char>,
) -> Seq<char> {
    "CREATE OR REPLACE VIEW `"@ + project + "."@ + views_dataset + "."@ + view + "` AS "@
        + latest_text(project, dataset) + " SELECT "@ + selection + latest_filter(
        project,
        dataset,
        table,
    )
}

fn view_statement(
    project: &str,
    dataset: &str,
    views_dataset: &str,
    table: &str,
    view: &str,
    selection: &str,
) -> (r: String)
    ensures
        r@ == view_text(project@, dataset@, views_dataset@, table@, view@, selection@),
{
    let mut tail = " FROM `".to_owned();
    tail.append(project);
    tail.append(".");
    tail.append(dataset);
    tail.append(".");
    tail.append(table);
    tail.append(
        "` t, latest WHERE t.run_id = latest.run_id AND t.snapshot_at >= TIMESTAMP_SUB(CURRENT_TIMESTAMP(), INTERVAL 45 DAY)",
    );
    let mut s = "CREATE OR REPLACE VIEW `".to_owned();
    s.append(project);
    s.append(".");
    s.append(views_dataset);
    s.append(".");
    s.append(view);
    s.append("` AS ");
    s.append(&latest_cte(project, dataset));
    s.append(" SELECT ");
    s.append(selection);
    s.append(&tail);
    s
}

/// The statement for the view of an object.
pub fn object_view_sql(
    project: &str,
    dataset: &str,
    views_dataset: &str,
    table: &str,
    slug: &str,
    schema_raw: &Json,
) -> (r: String)
    ensures
        r@ == view_text(
            project@,
            dataset@,
            views_dataset@,
            table@,
            sanitized(slug@),
            joined(object_columns(schema_raw@), ", "@),
        ),
{
    broadcast use crate::json::lemma_object_view;

    let mut cols: Vec<String> = Vec::new();
    cols.push("record_id".to_owned());
    cols.push("snapshot_at".to_owned());
    let mut seen: Vec<String> = Vec::new();
    let ghost base = seq!["record_id"@, "snapshot_at"@];
    let ghost all = members_of(at(at(schema_raw@, "attributes"@), "properties"@));
    assert(texts(cols@) =~= base);
    if let Some(Json::Object(props)) = within(schema_raw.get("attributes"), "properties") {
        let mut i: usize = 0;
        assert(all == members(props@));
        assert(texts(seen@) =~= view_columns(all.take(0)).0);
        assert(texts(cols@) =~= base + view_columns(all.take(0)).1);
        while i < props.len()
            invariant
                i <= props@.len(),
                all == members(props@),
                texts(seen@) == view_columns(all.take(i as int)).0,
                texts(cols@) == base + view_columns(all.take(i as int)).1,
            decreases props@.len() - i,
        {
            let ghost had = (seen@, cols@);
            assert(all.take(i + 1).drop_last() =~= all.take(i as int));
            assert(all.take(i + 1).last() == (props@[i as int].0@, props@[i as int].1@));
            let alias = sanitize(&props[i].0);
            if !holds(&seen, &alias) {
                if let Some(expr) = column_expr(&props[i].0, &props[i].1) {
                    seen.push(alias);
                    cols.push(expr);
                    assert(texts(seen@) =~= texts(had.0).push(alias@));
                    assert(texts(cols@) =~= texts(had.1).push(expr@));
                    assert(texts(cols@) =~= base + view_columns(all.take(i + 1)).1);
                }
            }
            i += 1;
        }
        assert(all.take(all.len() as int) =~= all);
    } else {
        assert(all =~= Seq::empty());
        assert(texts(cols@) =~= base + view_columns(all).1);
    }
    let ghost had = cols@;
    let data = "data".to_owned();
    cols.push(data);
    assert(texts(cols@) =~= texts(had).push("data"@));
    assert(texts(cols@) =~= object_columns(schema_raw@));
    let list = join(&cols, ", ");
    view_statement(project, dataset, views_dataset, table, &sanitize(slug), &list)
}

/// The statement for the view of a table that is no object's: all its columns but the run.
pub fn passthrough_view_sql(project: &str, dataset: &str, views_dataset: &str, table: &str) -> (r:
    String)
    ensures
        r@ == view_text(
            project@,
            dataset@,
            views_dataset@,
            table@,
            table@,
            "t.* EXCEPT (run_id)"@,
        ),
{
    view_statement(project, dataset, views_dataset, table, table, "t.* EXCEPT (run_id)")
}

/// The tables that are no object's.
pub const AUX_TABLES: [&'static str; 9] = [
    "schemas",
    "lists",
    "list_rows",
    "users",
    "workflows",
    "settings",
    "activities",
    "attachments",
    "runs",
];

// ---- creating the views ----

/// A view to create: what it is for, and the statement.
#[derive(Debug)]
pub struct ViewStatement {
    pub name: String,
    pub sql: String,
}

/// What the views of a list of tables come to, one by one. Where their dataset cannot be had, none
/// is tried.
#[derive(Debug)]
pub struct ViewRun {
    pub no_dataset: bool,
    pub statements: Vec<ViewStatement>,
    pub tried: usize,
    pub created: u64,
    pub errors: Vec<String>,
}

/// An object with its table and its schema.
#[derive(Debug)]
pub struct ViewObject {
    pub slug: String,
    pub table: String,
    pub raw: Json,
}

/// Whether `s` is the statement for the view of `o`.
pub open spec fn object_statement(
    s: ViewStatement,
    sink: BqSink,
    views_dataset: Seq<char>,
    o: ViewObject,
) -> bool {
    &&& s.name@ == o.slug@
    &&& s.sql@ == view_text(
        sink.project@,
        sink.dataset@,
        views_dataset,
        o.table@,
        sanitized(o.slug@),
        joined(object_columns(o.raw@), ", "@),
    )
}

/// Whether `s` is the statement for the view of a table that is no object's.
pub open spec fn table_statement(
    s: ViewStatement,
    sink: BqSink,
    views_dataset: Seq<char>,
    table: Seq<char>,
) -> bool {
    &&& s.name@ == table
    &&& s.sql@ == view_text(
        sink.project@,
        sink.dataset@,
        views_dataset,
        table,
        table,
        "t.* EXCEPT (run_id)"@,
    )
}

/// Whether the list has a statement for each object and then one for each other table, in their
/// order.
pub open spec fn all_statements(
    list: Seq<ViewStatement>,
    sink: BqSink,
    views_dataset: Seq<char>,
    objects: Seq<ViewObject>,
    aux_tables: Seq<String>,
) -> bool {
    &&& list.len() == objects.len() + aux_tables.len()
    &&& forall|i: int|
        0 <= i < objects.len() ==> object_statement(
            #[trigger] list[i],
            sink,
            views_dataset,
            objects[i],
        )
    &&& forall|i: int|
        objects.len() <= i < list.len() ==> table_statement(
            #[trigger] list[i],
            sink,
            views_dataset,
            aux_tables[i - objects.len()]@,
        )
}

/// Begins to create the views, once it is known whether their dataset is there. Each stands for
/// itself: one that fails does not keep the others from being created. Without the dataset there is
/// nothing to try, and that is the one failure.
pub fn create_latest_views(
    sink: &BqSink,
    views_dataset: &str,
    objects: &Vec<ViewObject>,
    aux_tables: &Vec<String>,
    dataset_ready: Result<(), &SinkError>,
) -> (r: ViewRun)
    ensures
        r.wf(),
        r.tried == 0,
        r.created == 0,
        r.no_dataset == dataset_ready is Err,
        match dataset_ready {
            Ok(_) => r.errors@.len() == 0 && all_statements(
                r.statements@,
                *sink,
                views_dataset@,
                objects@,
                aux_tables@,
            ),
            Err(e) => r.statements@.len() == 0 && texts(r.errors@) == seq![no_dataset_text(*e)],
        },
{
    if let Err(e) = dataset_ready {
        let mut errors: Vec<String> = Vec::new();
        let why = views_dataset_failed(e);
        errors.push(why);
        assert(texts(errors@) =~= seq![no_dataset_text(*e)]);
        return ViewRun {
            no_dataset: true,
            statements: Vec::new(),
            tried: 0,
            created: 0,
            errors,
        };
    }
    let mut list: Vec<ViewStatement> = Vec::new();
    let mut i: usize = 0;
    while i < objects.len()
        invariant
            i <= objects@.len(),
            list@.len() == i,
            forall|k: int|
                0 <= k < i ==> object_statement(
                    #[trigger] list@[k],
                    *sink,
                    views_dataset@,
                    objects@[k],
                ),
        decreases objects@.len() - i,
    {
        let o = &objects[i];
        let sql = object_view_sql(
            sink.project(),
            sink.dataset(),
            views_dataset,
            &o.table,
            &o.slug,
            &o.raw,
        );
        list.push(ViewStatement { name: o.slug.clone(), sql });
        i += 1;
    }
    let mut j: usize = 0;
    while j < aux_tables.len()
        invariant
            j <= aux_tables@.len(),
            list@.len() == objects@.len() + j,
            forall|k: int|
                0 <= k < objects@.len() ==> object_statement(
                    #[trigger] list@[k],
                    *sink,
                    views_dataset@,
                    objects@[k],
                ),
            forall|k: int|
                objects@.len() <= k < list@.len() ==> table_statement(
                    #[trigger] list@[k],
                    *sink,
                    views_dataset@,
                    aux_tables@[k - objects@.len()]@,
                ),
        decreases aux_tables@.len() - j,
    {
        let table = &aux_tables[j];
        let sql = passthrough_view_sql(sink.project(), sink.dataset(), views_dataset, table);
        list.push(ViewStatement { name: table.clone(), sql });
        j += 1;
    }
    ViewRun { no_dataset: false, statements: list, tried: 0, created: 0, errors: Vec::new() }
}

impl ViewRun {
    /// Whether every view that was tried is either created or reported; where there is no dataset,
    /// that is reported instead, and there is nothing to try.
    pub open spec fn wf(&self) -> bool {
        if self.no_dataset {
            &&& self.created == 0
            &&& self.errors@.len() == 1
            &&& self.tried == 0
            &&& self.statements@.len() == 0
        } else {
            &&& self.created + self.errors@.len() == self.tried
            &&& self.tried <= self.statements@.len()
        }
    }

    /// The statement that is next; none once all have been tried.
    pub fn next(&self) -> (r: Option<&ViewStatement>)
        ensures
            r is Some <==> self.tried < self.statements@.len(),
            r matches Some(s) ==> *s == self.statements@[self.tried as int],
    {
        if self.tried < self.statements.len() {
            Some(&self.statements[self.tried])
        } else {
            None
        }
    }

    /// Takes how the statement that was next went, and goes on to the one behind it.
    pub fn tried(&mut self, result: Result<(), SinkError>)
        requires
            old(self).wf(),
            old(self).tried < old(self).statements@.len(),
        ensures
            final(self).wf(),
            final(self).no_dataset == old(self).no_dataset,
            final(self).statements == old(self).statements,
            final(self).tried == old(self).tried + 1,
            match result {
                Ok(_) => final(self).created == old(self).created + 1 && final(self).errors
                    == old(self).errors,
                Err(e) => final(self).created == old(self).created && texts(final(self).errors@)
                    == texts(old(self).errors@).push(
                    "view for "@ + old(self).statements@[old(self).tried as int].name@ + ": "@
                        + crate::error::sink_error_text(e),
                ),
            },
    {
        assert(self.tried < self.statements.len());
        match result {
            Ok(()) => {
                self.created = self.created + 1;
            },
            Err(e) => {
                let ghost had = self.errors@;
                let mut s = "view for ".to_owned();
                s.append(&self.statements[self.tried].name);
                s.append(": ");
                s.append(&e.message());
                self.errors.push(s);
                assert(texts(self.errors@) =~= texts(had).push(s@));
            },
        }
        self.tried = self.tried + 1;
    }

    /// How many views there are now, and what is said of those that there are not.
    pub fn finish(self) -> (r: (u64, Vec<String>))
        requires
            self.wf(),
            self.tried == self.statements@.len(),
        ensures
            r.0 == self.created,
            r.1 == self.errors,
            if self.no_dataset {
                r.0 == 0 && r.1@.len() == 1
            } else {
                r.0 + r.1@.len() == self.statements@.len()
            },
    {
        (self.created, self.errors)
    }
}

/// What is said where the dataset of the views cannot be had.
pub open spec fn no_dataset_text(e: SinkError) -> Seq<char> {
    "ensure views dataset: "@ + crate::error::sink_error_text(e)
}

/// What is said where the dataset of the views cannot be had, and no view is tried.
pub fn views_dataset_failed(e: &SinkError) -> (r: String)
    ensures
        r@ == no_dataset_text(*e),
{
    let mut s = "ensure views dataset: ".to_owned();
    s.append(&e.message());
    s
}

// ---- the views of a plan ----

/// The dataset of the views where none is asked for.
pub open spec fn views_dataset_name(asked: Option<String>, dataset: Seq<char>) -> Seq<char> {
    match asked {
        Some(d) => d@,
        None => dataset + "_latest"@,
    }
}

/// The dataset that views go to.
pub fn views_dataset(asked: &Option<String>, dataset: &str) -> (r: String)
    ensures
        r@ == views_dataset_name(*asked, dataset@),
{
    match asked {
        Some(d) => d.clone(),
        None => {
            let mut s = dataset.to_owned();
            s.append("_latest");
            s
        },
    }
}

/// Whether `o` is the object of a schema.
pub open spec fn object_of(o: ViewObject, s: SchemaView) -> bool {
    o.slug@ == s.slug && o.table@ == records_table(s.slug) && o.raw@ == s.raw
}

/// The objects of a plan, each with its table and its schema.
pub fn plan_objects(plan: &ResourcePlan) -> (r: Vec<ViewObject>)
    ensures
        r@.len() == plan.objects@.len(),
        forall|i: int|
            0 <= i < r@.len() ==> object_of(#[trigger] r@[i], plan.objects@[i]@),
{
    let mut out: Vec<ViewObject> = Vec::new();
    let mut i: usize = 0;
    while i < plan.objects.len()
        invariant
            i <= plan.objects@.len(),
            out@.len() == i,
            forall|k: int|
                0 <= k < i ==> object_of(#[trigger] out@[k], plan.objects@[k]@),
        decreases plan.objects@.len() - i,
    {
        let s = &plan.objects[i];
        let mut table = "records_".to_owned();
        table.append(&sanitize(&s.slug));
        out.push(ViewObject { slug: s.slug.clone(), table, raw: s.raw.clone() });
        i += 1;
    }
    out
}

/// The other tables that a plan fills: those of its categories, and the ledger of runs.
pub open spec fn filled_tables(categories: Seq<Category>) -> Seq<Seq<char>> {
    categories.filter(|c: Category| c != Category::Records).map_values(
        |c: Category| category_name(c),
    ).push("runs"@)
}

/// A plan that leaves nothing out fills all the tables that are no object's.
pub proof fn law_full_plan_fills_every_table(i: int)
    requires
        0 <= i < 9,
    ensures
        filled_tables(all_categories()).len() == 9,
        filled_tables(all_categories())[i] == AUX_TABLES@[i]@,
{
    lemma_full_plan();
    assert(AUX_TABLES@.len() == 9);
    if i < 8 {
        assert(filled_tables(all_categories())[i] == category_name(all_categories()[i + 1]));
    }
}

/// The tables that a plan of everything fills, by category.
proof fn lemma_full_plan()
    ensures
        filled_tables(all_categories()) == all_categories().drop_first().map_values(
            |c: Category| category_name(c),
        ).push("runs"@),
{
    let keep = |c: Category| c != Category::Records;
    let all = all_categories();
    let rest = all.drop_first();
    lemma_filter_keeps_all(rest, keep);
    assert(all =~= seq![Category::Records] + rest);
    lemma_filter_front(Category::Records, rest, keep);
}

/// Filtering drops a first element that is not kept.
proof fn lemma_filter_front(c: Category, list: Seq<Category>, keep: spec_fn(Category) -> bool)
    requires
        !keep(c),
    ensures
        (seq![c] + list).filter(keep) == list.filter(keep),
    decreases list.len(),
{
    reveal_with_fuel(Seq::filter, 2);
    let whole = seq![c] + list;
    if list.len() > 0 {
        lemma_filter_front(c, list.drop_last(), keep);
        assert(whole.drop_last() =~= seq![c] + list.drop_last());
        assert(whole.last() == list.last());
    } else {
        assert(whole.drop_last() =~= list);
    }
}

/// The other tables that a plan fills.
pub fn plan_tables(plan: &ResourcePlan) -> (r: Vec<String>)
    ensures
        texts(r@) == filled_tables(plan.categories@),
{
    let mut out: Vec<String> = Vec::new();
    let ghost keep = |c: Category| c != Category::Records;
    let ghost name = |c: Category| category_name(c);
    let mut i: usize = 0;
    proof {
        reveal(Seq::filter);
    }
    assert(texts(out@) =~= plan.categories@.take(0).filter(keep).map_values(name));
    while i < plan.categories.len()
        invariant
            i <= plan.categories@.len(),
            keep == (|c: Category| c != Category::Records),
            name == (|c: Category| category_name(c)),
            texts(out@) == plan.categories@.take(i as int).filter(keep).map_values(name),
        decreases plan.categories@.len() - i,
    {
        let ghost had = out@;
        let c = plan.categories[i];
        proof {
            reveal(Seq::filter);
            assert(plan.categories@.take(i + 1).drop_last() =~= plan.categories@.take(i as int));
            assert(plan.categories@.take(i + 1).last() == c);
        }
        if c != Category::Records {
            let s = c.name().to_owned();
            out.push(s);
            assert(texts(out@) =~= texts(had).push(s@));
        }
        i += 1;
        assert(texts(out@) =~= plan.categories@.take(i as int).filter(keep).map_values(name));
    }
    assert(plan.categories@.take(plan.categories@.len() as int) =~= plan.categories@);
    let ghost had = out@;
    let runs = "runs".to_owned();
    out.push(runs);
    assert(texts(out@) =~= texts(had).push("runs"@));
    out
}

// ---- what a view shows ----

/// Which rows of a table a view shows, by the run that it found.
pub enum RowTest {
    OfThatRun,
    OfOtherRuns,
}

/// A view that shows one run of a table: its full name, what it selects, the table that it reads,
/// the ledger in which it looks for a run, how it looks for it, and which rows it then shows.
pub struct RunView {
    pub name: Seq<char>,
    pub selection: Seq<char>,
    pub source: Seq<char>,
    pub ledger: Seq<char>,
    pub search: RunSearch,
    pub test: RowTest,
}

/// Whether a view shows a row of its table, of the run with this identifier, where its search comes
/// to `found`.
pub open spec fn shows(v: RunView, found: LedgerRun, row_run_id: Seq<char>) -> bool {
    match v.test {
        RowTest::OfThatRun => row_run_id == found.run_id,
        RowTest::OfOtherRuns => row_run_id != found.run_id,
    }
}

/// The condition on rows by which a view is written.
pub open spec fn row_clause(test: RowTest) -> Seq<char> {
    match test {
        RowTest::OfThatRun => "t.run_id = latest.run_id"@,
        RowTest::OfOtherRuns => "t.run_id != latest.run_id"@,
    }
}

/// How a view is written.
pub open spec fn written_view(v: RunView) -> Seq<char> {
    "CREATE OR REPLACE VIEW `"@ + v.name + "` AS WITH latest AS (SELECT run_id, snapshot_at FROM `"@
        + v.ledger + "` WHERE "@ + status_clause(v.search)
        + " AND snapshot_at >= TIMESTAMP_SUB(CURRENT_TIMESTAMP(), INTERVAL 45 DAY) "@
        + order_clause(v.search) + ") SELECT "@ + v.selection + " FROM `"@ + v.source
        + "` t, latest WHERE "@ + row_clause(v.test)
        + " AND t.snapshot_at >= TIMESTAMP_SUB(CURRENT_TIMESTAMP(), INTERVAL 45 DAY)"@
}

/// The view of the latest snapshot of a table.
pub open spec fn latest_view(
    project: Seq<char>,
    dataset: Seq<char>,
    views_dataset: Seq<char>,
    table: Seq<char>,
    view: Seq<char>,
    selection: Seq<char>,
) -> RunView {
    RunView {
        name: project + "."@ + views_dataset + "."@ + view,
        selection,
        source: project + "."@ + dataset + "."@ + table,
        ledger: project + "."@ + dataset + ".runs"@,
        search: RunSearch { status: "complete"@, order: RunOrder::NewestFirst },
        test: RowTest::OfThatRun,
    }
}

proof fn lemma_latest_pieces(project: Seq<char>, dataset: Seq<char>)
    ensures
        "` AS "@ + latest_text(project, dataset) + " SELECT "@
            == "` AS WITH latest AS (SELECT run_id, snapshot_at FROM `"@ + (project + "."@
            + dataset + ".runs"@) + "` WHERE "@ + status_clause(
            RunSearch { status: "complete"@, order: RunOrder::NewestFirst },
        ) + " AND snapshot_at >= TIMESTAMP_SUB(CURRENT_TIMESTAMP(), INTERVAL 45 DAY) "@
            + order_clause(RunSearch { status: "complete"@, order: RunOrder::NewestFirst })
            + ") SELECT "@,
{
    let head = "WITH latest AS (SELECT run_id, snapshot_at FROM `"@;
    let tail = ".runs` WHERE status = 'complete' AND snapshot_at >= TIMESTAMP_SUB(CURRENT_TIMESTAMP(), INTERVAL 45 DAY) ORDER BY snapshot_at DESC LIMIT 1)"@;
    assert("` AS "@ + head =~= "` AS WITH latest AS (SELECT run_id, snapshot_at FROM `"@) by {
        reveal_strlit("` AS ");
        reveal_strlit("WITH latest AS (SELECT run_id, snapshot_at FROM `");
        reveal_strlit("` AS WITH latest AS (SELECT run_id, snapshot_at FROM `");
    }
    let status = "status = '"@ + "complete"@ + "'"@;
    let recent = " AND snapshot_at >= TIMESTAMP_SUB(CURRENT_TIMESTAMP(), INTERVAL 45 DAY) "@;
    let order = "ORDER BY snapshot_at DESC LIMIT 1"@;
    assert(tail + " SELECT "@ =~= ".runs"@ + "` WHERE "@ + status + recent + order
        + ") SELECT "@) by {
        reveal_strlit(
            ".runs` WHERE status = 'complete' AND snapshot_at >= TIMESTAMP_SUB(CURRENT_TIMESTAMP(), INTERVAL 45 DAY) ORDER BY snapshot_at DESC LIMIT 1)",
        );
        reveal_strlit(" SELECT ");
        reveal_strlit(".runs");
        reveal_strlit("` WHERE ");
        reveal_strlit("status = '");
        reveal_strlit("complete");
        reveal_strlit("'");
        reveal_strlit(
            " AND snapshot_at >= TIMESTAMP_SUB(CURRENT_TIMESTAMP(), INTERVAL 45 DAY) ",
        );
        reveal_strlit("ORDER BY snapshot_at DESC LIMIT 1");
        reveal_strlit(") SELECT ");
    }
    let names = project + "."@ + dataset;
    assert(head + project + "."@ + dataset + tail =~= head + names + tail);
    assert("` AS "@ + (head + names + tail) + " SELECT "@ =~= ("` AS "@ + head) + names + (tail
        + " SELECT "@));
    assert(("` AS "@ + head) + names + (".runs"@ + "` WHERE "@ + status + recent + order
        + ") SELECT "@) =~= ("` AS "@ + head) + (names + ".runs"@) + "` WHERE "@ + status + recent
        + order + ") SELECT "@);
}

proof fn lemma_filter_pieces(project: Seq<char>, dataset: Seq<char>, table: Seq<char>)
    ensures
        latest_filter(project, dataset, table) == " FROM `"@ + (project + "."@ + dataset + "."@
            + table) + "` t, latest WHERE "@ + row_clause(RowTest::OfThatRun)
            + " AND t.snapshot_at >= TIMESTAMP_SUB(CURRENT_TIMESTAMP(), INTERVAL 45 DAY)"@,
{
    let tail = "` t, latest WHERE t.run_id = latest.run_id AND t.snapshot_at >= TIMESTAMP_SUB(CURRENT_TIMESTAMP(), INTERVAL 45 DAY)"@;
    let recent = " AND t.snapshot_at >= TIMESTAMP_SUB(CURRENT_TIMESTAMP(), INTERVAL 45 DAY)"@;
    let same_run = "t.run_id = latest.run_id"@;
    assert(tail =~= "` t, latest WHERE "@ + same_run + recent) by {
        reveal_strlit(
            "` t, latest WHERE t.run_id = latest.run_id AND t.snapshot_at >= TIMESTAMP_SUB(CURRENT_TIMESTAMP(), INTERVAL 45 DAY)",
        );
        reveal_strlit("` t, latest WHERE ");
        reveal_strlit("t.run_id = latest.run_id");
        reveal_strlit(
            " AND t.snapshot_at >= TIMESTAMP_SUB(CURRENT_TIMESTAMP(), INTERVAL 45 DAY)",
        );
    }
    let names = project + "."@ + dataset + "."@ + table;
    assert(" FROM `"@ + project + "."@ + dataset + "."@ + table + tail =~= " FROM `"@ + names
        + tail);
    assert(" FROM `"@ + names + ("` t, latest WHERE "@ + same_run + recent) =~= " FROM `"@ + names
        + "` t, latest WHERE "@ + same_run + recent);
}

/// The statement of a view is that of the view of the latest snapshot: it reads the table under its
/// full name, and the ledger of the same dataset.
pub proof fn law_view_is_of_the_latest_snapshot(
    project: Seq<char>,
    dataset: Seq<char>,
    views_dataset: Seq<char>,
    table: Seq<char>,
    view: Seq<char>,
    selection: Seq<char>,
)
    ensures
        view_text(project, dataset, views_dataset, table, view, selection) == written_view(
            latest_view(project, dataset, views_dataset, table, view, selection),
        ),
{
    lemma_latest_pieces(project, dataset);
    lemma_filter_pieces(project, dataset, table);
    let v = latest_view(project, dataset, views_dataset, table, view, selection);
    let create = "CREATE OR REPLACE VIEW `"@;
    let lead = "` AS WITH latest AS (SELECT run_id, snapshot_at FROM `"@;
    let status = status_clause(v.search);
    let recent = " AND snapshot_at >= TIMESTAMP_SUB(CURRENT_TIMESTAMP(), INTERVAL 45 DAY) "@;
    let order = order_clause(v.search);
    let latest = latest_text(project, dataset);
    let rest = latest_filter(project, dataset, table);
    assert(create + project + "."@ + views_dataset + "."@ + view =~= create + v.name);
    assert(create + v.name + "` AS "@ + latest + " SELECT "@ + selection + rest =~= create + v.name
        + ("` AS "@ + latest + " SELECT "@) + selection + rest);
    assert(create + v.name + (lead + v.ledger + "` WHERE "@ + status + recent + order
        + ") SELECT "@) =~= create + v.name + lead + v.ledger + "` WHERE "@ + status + recent
        + order + ") SELECT "@);
    let front = create + v.name + lead + v.ledger + "` WHERE "@ + status + recent + order
        + ") SELECT "@ + selection;
    let row = row_clause(RowTest::OfThatRun);
    let late = " AND t.snapshot_at >= TIMESTAMP_SUB(CURRENT_TIMESTAMP(), INTERVAL 45 DAY)"@;
    assert(front + (" FROM `"@ + v.source + "` t, latest WHERE "@ + row + late) =~= front
        + " FROM `"@ + v.source + "` t, latest WHERE "@ + row + late);
}

/// A row of the table is in the view of the latest snapshot exactly where its run is the one that
/// the view found, and that is a complete run than which no complete one is newer.
pub proof fn law_latest_view_shows_one_complete_run(
    project: Seq<char>,
    dataset: Seq<char>,
    views_dataset: Seq<char>,
    table: Seq<char>,
    view: Seq<char>,
    selection: Seq<char>,
    runs: Seq<LedgerRun>,
    i: int,
    row_run_id: Seq<char>,
)
    requires
        comes_to(
            latest_view(project, dataset, views_dataset, table, view, selection).search,
            runs,
            i,
        ),
    ensures
        view_text(project, dataset, views_dataset, table, view, selection) == written_view(
            latest_view(project, dataset, views_dataset, table, view, selection),
        ),
        shows(
            latest_view(project, dataset, views_dataset, table, view, selection),
            runs[i],
            row_run_id,
        ) <==> row_run_id == runs[i].run_id,
        runs[i].status == "complete"@,
        forall|j: int|
            0 <= j < runs.len() && (#[trigger] runs[j]).status == "complete"@
                ==> runs[j].snapshot_at <= runs[i].snapshot_at,
{
    law_view_is_of_the_latest_snapshot(
        project,
        dataset,
        views_dataset,
        table,
        view,
        selection,
    );
}

/// Views that show other rows, or look for another run, are written otherwise: a statement tells
/// which rows its view shows.
pub proof fn law_statements_tell_what_is_shown()
    ensures
        row_clause(RowTest::OfThatRun) == "t.run_id = latest.run_id"@,
        status_clause(RunSearch { status: "complete"@, order: RunOrder::NewestFirst })
            == "status = 'complete'"@,
        order_clause(RunSearch { status: "complete"@, order: RunOrder::NewestFirst })
            == "ORDER BY snapshot_at DESC LIMIT 1"@,
        row_clause(RowTest::OfThatRun) != row_clause(RowTest::OfOtherRuns),
        order_clause(RunSearch { status: "complete"@, order: RunOrder::NewestFirst })
            != order_clause(RunSearch { status: "complete"@, order: RunOrder::OldestFirst }),
        forall|a: RunSearch, b: RunSearch|
            #![trigger status_clause(a), status_clause(b)]
            status_clause(a) == status_clause(b) ==> a.status == b.status,
{
    reveal_strlit("status = '");
    reveal_strlit("complete");
    reveal_strlit("'");
    reveal_strlit("status = 'complete'");
    assert("status = '"@ + "complete"@ + "'"@ =~= "status = 'complete'"@);
    reveal_strlit("t.run_id = latest.run_id");
    reveal_strlit("t.run_id != latest.run_id");
    reveal_strlit("ORDER BY snapshot_at DESC LIMIT 1");
    reveal_strlit("ORDER BY snapshot_at ASC LIMIT 1");
    assert("t.run_id = latest.run_id"@.len() == 24);
    assert("t.run_id != latest.run_id"@.len() == 25);
    assert("ORDER BY snapshot_at DESC LIMIT 1"@.len() == 33);
    assert("ORDER BY snapshot_at ASC LIMIT 1"@.len() == 32);
    assert forall|a: RunSearch, b: RunSearch|
        #![trigger status_clause(a), status_clause(b)]
        status_clause(a) == status_clause(b) implies a.status == b.status by {
        let (x, y) = (status_clause(a), status_clause(b));
        let n = "status = '"@.len() as int;
        assert(x.len() == y.len());
        assert(x.subrange(n, n + a.status.len()) =~= a.status);
        assert(y.subrange(n, n + b.status.len()) =~= b.status);
    }
}

// ---- what the columns of a view are ----

/// Of several types, the first one that is a text other than `null` counts.
pub proof fn law_first_type_besides_null_counts(list: Seq<JsonView>, i: int, ty: Seq<char>)
    requires
        0 <= i < list.len(),
        list[i] == JsonView::Text(ty),
        ty != "null"@,
        forall|j: int|
            0 <= j < i ==> (#[trigger] list[j] matches JsonView::Text(s) ==> s == "null"@),
    ensures
        first_type(list) == Some(ty),
    decreases i,
{
    if i > 0 {
        let rest = list.drop_first();
        assert(list[0] matches JsonView::Text(s) ==> s == "null"@);
        assert(rest[i - 1] == list[i]);
        assert forall|j: int| 0 <= j < i - 1 implies (#[trigger] rest[j] matches JsonView::Text(s)
            ==> s == "null"@) by {
            assert(rest[j] == list[j + 1]);
        }
        law_first_type_besides_null_counts(rest, i - 1, ty);
    }
}

/// Types of which none is a text other than `null` are no type.
pub proof fn law_null_is_no_type(list: Seq<JsonView>)
    requires
        forall|j: int|
            0 <= j < list.len() ==> (#[trigger] list[j] matches JsonView::Text(s) ==> s
                == "null"@),
    ensures
        first_type(list) is None,
    decreases list.len(),
{
    if list.len() > 0 {
        let rest = list.drop_first();
        assert(list[0] matches JsonView::Text(s) ==> s == "null"@);
        assert forall|j: int| 0 <= j < rest.len() implies (#[trigger] rest[j] matches JsonView::Text(
            s,
        ) ==> s == "null"@) by {
            assert(rest[j] == list[j + 1]);
        }
        law_null_is_no_type(rest);
    }
}

/// Whether a property has a type by its schema: alone, or as the first of several besides null.
pub open spec fn typed_as(prop: JsonView, ty: Seq<char>) -> bool {
    ||| at(prop, "type"@) == JsonView::Text(ty)
    ||| match at(prop, "type"@) {
        JsonView::Array(list) => ty != "null"@ && exists|i: int|
            0 <= i < list.len() && #[trigger] list[i] == JsonView::Text(ty) && forall|j: int|
                0 <= j < i ==> (#[trigger] list[j] matches JsonView::Text(s) ==> s == "null"@),
        _ => false,
    }
}

/// The types of columns follow the types of properties; what is nested has none.
pub proof fn law_columns_have_the_types_of_properties(prop: JsonView, ty: Seq<char>)
    requires
        typed_as(prop, ty),
    ensures
        ty == "string"@ && at(prop, "format"@) == JsonView::Text("date-time"@) ==> column_type(prop)
            == Some("TIMESTAMP"@),
        ty == "string"@ && at(prop, "format"@) != JsonView::Text("date-time"@) ==> column_type(prop)
            == Some("STRING"@),
        ty == "integer"@ ==> column_type(prop) == Some("INT64"@),
        ty == "number"@ ==> column_type(prop) == Some("FLOAT64"@),
        ty == "boolean"@ ==> column_type(prop) == Some("BOOL"@),
        ty != "string"@ && ty != "integer"@ && ty != "number"@ && ty != "boolean"@ ==> column_type(
            prop,
        ) is None,
{
    reveal_strlit("string");
    reveal_strlit("integer");
    reveal_strlit("number");
    reveal_strlit("boolean");
    assert("string"@[0] == 's' && "integer"@[0] == 'i' && "number"@[0] == 'n' && "boolean"@[0]
        == 'b');
    if at(prop, "type"@) != JsonView::Text(ty) {
        let list = at(prop, "type"@)->Array_0;
        let i = choose|i: int|
            0 <= i < list.len() && #[trigger] list[i] == JsonView::Text(ty) && forall|j: int|
                0 <= j < i ==> (#[trigger] list[j] matches JsonView::Text(s) ==> s == "null"@);
        law_first_type_besides_null_counts(list, i, ty);
    }
    assert(property_type(prop) == Some(ty));
}

/// A column reads its own property out of the payload, under the name of the property: a single
/// value in its type, the identifier of a related record, and everything nested as JSON.
pub proof fn law_column_reads_its_property(name: Seq<char>, prop: JsonView)
    ensures
        member_of(prop, "xClarifyRelationship"@) is None ==> match column_type(prop) {
            Some(ty) => column_text(name, prop) == if ty == "STRING"@ {
                "JSON_VALUE(data, '$.attributes.\""@ + name + "\"') AS "@ + sanitized(name)
            } else {
                "SAFE_CAST(JSON_VALUE(data, '$.attributes.\""@ + name + "\"') AS "@ + ty + ") AS "@
                    + sanitized(name)
            },
            None => column_text(name, prop) == "JSON_QUERY(data, '$.attributes.\""@ + name
                + "\"') AS "@ + sanitized(name),
        },
        member_of(prop, "xClarifyRelationship"@) is Some ==> column_text(name, prop) == (if column_type(
            prop,
        ) == Some("STRING"@) {
            "COALESCE(JSON_VALUE(data, '$.attributes.\""@ + name
                + "\"'), JSON_VALUE(data, '$.relationships.\""@ + name + "\".data.id')) AS "@
                + sanitized(name)
        } else {
            "JSON_QUERY(data, '$.relationships.\""@ + name + "\"') AS "@ + sanitized(name)
        }),
{
    let alias = sanitized(name);
    let open = "$.attributes.\""@;
    assert("JSON_VALUE(data, '"@ + open =~= "JSON_VALUE(data, '$.attributes.\""@) by {
        reveal_strlit("JSON_VALUE(data, '");
        reveal_strlit("$.attributes.\"");
        reveal_strlit("JSON_VALUE(data, '$.attributes.\"");
    }
    assert("SAFE_CAST(JSON_VALUE(data, '"@ + open
        =~= "SAFE_CAST(JSON_VALUE(data, '$.attributes.\""@) by {
        reveal_strlit("SAFE_CAST(JSON_VALUE(data, '");
        reveal_strlit("$.attributes.\"");
        reveal_strlit("SAFE_CAST(JSON_VALUE(data, '$.attributes.\"");
    }
    assert("JSON_QUERY(data, '"@ + open =~= "JSON_QUERY(data, '$.attributes.\""@) by {
        reveal_strlit("JSON_QUERY(data, '");
        reveal_strlit("$.attributes.\"");
        reveal_strlit("JSON_QUERY(data, '$.attributes.\"");
    }
    assert("COALESCE(JSON_VALUE(data, '"@ + open
        =~= "COALESCE(JSON_VALUE(data, '$.attributes.\""@) by {
        reveal_strlit("COALESCE(JSON_VALUE(data, '");
        reveal_strlit("$.attributes.\"");
        reveal_strlit("COALESCE(JSON_VALUE(data, '$.attributes.\"");
    }
    assert("\""@ + "') AS "@ =~= "\"') AS "@) by {
        reveal_strlit("\"");
        reveal_strlit("') AS ");
        reveal_strlit("\"') AS ");
    }
    assert("\""@ + "'), JSON_VALUE(data, '$.relationships.\""@
        =~= "\"'), JSON_VALUE(data, '$.relationships.\""@) by {
        reveal_strlit("\"");
        reveal_strlit("'), JSON_VALUE(data, '$.relationships.\"");
        reveal_strlit("\"'), JSON_VALUE(data, '$.relationships.\"");
    }
    let path = attribute_path(name);
    let value = "JSON_VALUE(data, '"@;
    let cast = "SAFE_CAST(JSON_VALUE(data, '"@;
    let query = "JSON_QUERY(data, '"@;
    let either = "COALESCE(JSON_VALUE(data, '"@;
    let end = "') AS "@;
    let next = "'), JSON_VALUE(data, '$.relationships.\""@;
    assert(value + path + end =~= (value + open) + name + ("\""@ + end));
    assert(cast + path + end =~= (cast + open) + name + ("\""@ + end));
    assert(query + path + end =~= (query + open) + name + ("\""@ + end));
    assert(either + path + next =~= (either + open) + name + ("\""@ + next));
}

/// A property has a column unless its name cannot stand in a path, leads to no name, or leads to
/// one of the five names that every view keeps for itself.
pub proof fn law_which_properties_have_columns(name: Seq<char>)
    ensures
        gets_column(name) <==> (forall|i: int|
            0 <= i < name.len() ==> #[trigger] name[i] != '"' && name[i] != '\\') && sanitized(
            name,
        ).len() > 0 && sanitized(name) != "run_id"@ && sanitized(name) != "snapshot_at"@
            && sanitized(name) != "record_id"@ && sanitized(name) != "object"@ && sanitized(name)
            != "data"@,
{
    if forall|i: int|
        0 <= i < name.len() ==> #[trigger] name[i] != '"' && name[i] != '\\' {
        assert(!name.contains('"') && !name.contains('\\'));
    } else {
        let i = choose|i: int|
            0 <= i < name.len() && !(#[trigger] name[i] != '"' && name[i] != '\\');
        assert(name.contains('"') || name.contains('\\'));
    }
}

/// The view of an object has a column that reads a property, wherever the property can have one and
/// none before it leads to the same name.
pub proof fn law_view_reads_every_property(schema_raw: JsonView, i: int) -> (k: int)
    requires
        0 <= i < members_of(at(at(schema_raw, "attributes"@), "properties"@)).len(),
        gets_column(members_of(at(at(schema_raw, "attributes"@), "properties"@))[i].0),
        forall|j: int|
            0 <= j < i ==> sanitized(
                (#[trigger] members_of(at(at(schema_raw, "attributes"@), "properties"@))[j]).0,
            ) != sanitized(members_of(at(at(schema_raw, "attributes"@), "properties"@))[i].0),
    ensures
        2 <= k < object_columns(schema_raw).len() - 1,
        object_columns(schema_raw)[k] == column_text(
            members_of(at(at(schema_raw, "attributes"@), "properties"@))[i].0,
            members_of(at(at(schema_raw, "attributes"@), "properties"@))[i].1,
        ),
{
    let props = members_of(at(at(schema_raw, "attributes"@), "properties"@));
    law_columns_stand_in_the_order_of_properties(props, i);
    let n = view_columns(props.take(i)).1.len() as int;
    assert(object_columns(schema_raw)[n + 2] == view_columns(props).1[n]);
    n + 2
}

proof fn lemma_column_origin(props: Seq<(Seq<char>, JsonView)>, alias: Seq<char>) -> (j: int)
    requires
        view_columns(props).0.contains(alias),
    ensures
        0 <= j < props.len(),
        sanitized(props[j].0) == alias,
    decreases props.len(),
{
    let rest = props.drop_last();
    let before = view_columns(rest).0;
    let now = view_columns(props).0;
    let k = choose|k: int| 0 <= k < now.len() && now[k] == alias;
    if k < before.len() {
        assert(before[k] == alias);
        let j = lemma_column_origin(rest, alias);
        assert(rest[j] == props[j]);
        j
    } else {
        props.len() - 1
    }
}

/// The view of an object begins with the record and the time of the snapshot, ends with the
/// payload, and has one column in between for each of its names.
pub proof fn law_object_views_keep_record_time_and_payload(schema_raw: JsonView)
    ensures
        object_columns(schema_raw).len() == 3 + view_columns(
            members_of(at(at(schema_raw, "attributes"@), "properties"@)),
        ).0.len(),
        object_columns(schema_raw)[0] == "record_id"@,
        object_columns(schema_raw)[1] == "snapshot_at"@,
        object_columns(schema_raw).last() == "data"@,
{
    law_view_columns_are_distinct(members_of(at(at(schema_raw, "attributes"@), "properties"@)));
}

// ---- which views there are ----

/// Views go to the dataset that is asked for, and otherwise to one that is never the dataset of the
/// tables.
pub proof fn law_views_have_a_dataset_of_their_own(asked: Option<String>, dataset: Seq<char>)
    ensures
        asked matches Some(d) ==> views_dataset_name(asked, dataset) == d@,
        asked is None ==> views_dataset_name(asked, dataset) == dataset + "_latest"@,
        asked is None ==> views_dataset_name(asked, dataset) != dataset,
{
    reveal_strlit("_latest");
    assert("_latest"@.len() == 7);
}

/// A plan has a view for the ledger, and for a table that is no object's exactly where it takes the
/// category of that table.
pub proof fn law_filled_tables_have_views(categories: Seq<Category>, c: Category)
    requires
        c != Category::Records,
    ensures
        filled_tables(categories).contains("runs"@),
        filled_tables(categories).contains(category_name(c)) <==> categories.contains(c),
        filled_tables(categories).len() <= categories.len() + 1,
{
    let keep = |c: Category| c != Category::Records;
    let kept = categories.filter(keep);
    let all = filled_tables(categories);
    assert(all[kept.len() as int] == "runs"@);
    crate::plan::law_category_names_are_distinct(c, c);
    if categories.contains(c) {
        let i = choose|i: int| 0 <= i < categories.len() && categories[i] == c;
        categories.lemma_filter_contains(keep, i);
        let k = choose|k: int| 0 <= k < kept.len() && kept[k] == c;
        assert(all[k] == category_name(c));
    }
    if all.contains(category_name(c)) {
        let k = choose|k: int| 0 <= k < all.len() && all[k] == category_name(c);
        lemma_no_category_is_the_ledger(c);
        assert(k < kept.len());
        crate::plan::law_category_names_are_distinct(kept[k], c);
        assert(kept[k] == c);
        lemma_filter_from(categories, keep, k);
    }
    lemma_filter_shorter(categories, keep);
}

proof fn lemma_no_category_is_the_ledger(c: Category)
    ensures
        category_name(c) != "runs"@,
{
    reveal_strlit("runs");
    reveal_strlit("records");
    reveal_strlit("schemas");
    reveal_strlit("lists");
    reveal_strlit("list_rows");
    reveal_strlit("users");
    reveal_strlit("workflows");
    reveal_strlit("settings");
    reveal_strlit("activities");
    reveal_strlit("attachments");
    assert("runs"@.len() == 4);
    assert(category_name(c).len() > 4);
}

proof fn lemma_filter_shorter(list: Seq<Category>, keep: spec_fn(Category) -> bool)
    ensures
        list.filter(keep).len() <= list.len(),
    decreases list.len(),
{
    reveal(Seq::filter);
    if list.len() > 0 {
        lemma_filter_shorter(list.drop_last(), keep);
    }
}

proof fn lemma_filter_from(list: Seq<Category>, keep: spec_fn(Category) -> bool, k: int)
    requires
        0 <= k < list.filter(keep).len(),
    ensures
        list.contains(list.filter(keep)[k]),
    decreases list.len(),
{
    reveal(Seq::filter);
    let c = list.filter(keep)[k];
    let before = list.drop_last().filter(keep);
    if k < before.len() {
        lemma_filter_from(list.drop_last(), keep, k);
        let i = choose|i: int| 0 <= i < list.drop_last().len() && list.drop_last()[i] == c;
        assert(list[i] == c);
    } else {
        assert(list[list.len() - 1] == c);
    }
}

/// Each object of a plan and each other table that it fills has a statement of its own, in this
/// order, that reads its own table.
pub proof fn law_every_table_has_its_statement(
    list: Seq<ViewStatement>,
    sink: BqSink,
    views_dataset: Seq<char>,
    objects: Seq<ViewObject>,
    aux_tables: Seq<String>,
    i: int,
)
    requires
        all_statements(list, sink, views_dataset, objects, aux_tables),
    ensures
        list.len() == objects.len() + aux_tables.len(),
        0 <= i < objects.len() ==> list[i].name@ == objects[i].slug@ && list[i].sql@
            == written_view(
            latest_view(
                sink.project@,
                sink.dataset@,
                views_dataset,
                objects[i].table@,
                sanitized(objects[i].slug@),
                joined(object_columns(objects[i].raw@), ", "@),
            ),
        ),
        0 <= i < aux_tables.len() ==> list[objects.len() + i].name@ == aux_tables[i]@
            && list[objects.len() + i].sql@ == written_view(
            latest_view(
                sink.project@,
                sink.dataset@,
                views_dataset,
                aux_tables[i]@,
                aux_tables[i]@,
                "t.* EXCEPT (run_id)"@,
            ),
        ),
{
    if 0 <= i < objects.len() {
        assert(object_statement(list[i], sink, views_dataset, objects[i]));
        law_view_is_of_the_latest_snapshot(
            sink.project@,
            sink.dataset@,
            views_dataset,
            objects[i].table@,
            sanitized(objects[i].slug@),
            joined(object_columns(objects[i].raw@), ", "@),
        );
    }
    if 0 <= i < aux_tables.len() {
        let k = objects.len() + i;
        assert(aux_tables[k - objects.len()] == aux_tables[i]);
        assert(table_statement(list[k], sink, views_dataset, aux_tables[i]@));
        law_view_is_of_the_latest_snapshot(
            sink.project@,
            sink.dataset@,
            views_dataset,
            aux_tables[i]@,
            aux_tables[i]@,
            "t.* EXCEPT (run_id)"@,
        );
    }
}

/// The view of an object reads the table of its records.
pub proof fn law_object_views_read_records(o: ViewObject, s: SchemaView)
    requires
        object_of(o, s),
    ensures
        o.slug@ == s.slug,
        o.table@ == "records_"@ + sanitized(s.slug),
        o.raw@ == s.raw,
{
}

/// A property without a type, or with none besides null, is nested.
pub proof fn law_untyped_properties_are_nested(prop: JsonView)
    ensures
        !(at(prop, "type"@) is Text) && !(at(prop, "type"@) is Array) ==> column_type(prop) is None,
        at(prop, "type"@) matches JsonView::Array(list) ==> ((forall|j: int|
            0 <= j < list.len() ==> (#[trigger] list[j] matches JsonView::Text(s) ==> s
                == "null"@)) ==> column_type(prop) is None),
{
    if let JsonView::Array(list) = at(prop, "type"@) {
        if forall|j: int|
            0 <= j < list.len() ==> (#[trigger] list[j] matches JsonView::Text(s) ==> s
                == "null"@) {
            law_null_is_no_type(list);
        }
    }
}

/// The columns of a view stand in the order of the properties: that of a property right behind those
/// of the properties before it.
pub proof fn law_columns_stand_in_the_order_of_properties(
    props: Seq<(Seq<char>, JsonView)>,
    i: int,
)
    requires
        0 <= i < props.len(),
        gets_column(props[i].0),
        forall|j: int| 0 <= j < i ==> sanitized((#[trigger] props[j]).0) != sanitized(props[i].0),
    ensures
        view_columns(props.take(i)).1.len() < view_columns(props).1.len(),
        view_columns(props).1[view_columns(props.take(i)).1.len() as int] == column_text(
            props[i].0,
            props[i].1,
        ),
        view_columns(props).0[view_columns(props.take(i)).1.len() as int] == sanitized(props[i].0),
    decreases props.len(),
{
    let rest = props.drop_last();
    let before = view_columns(rest);
    law_view_columns_are_distinct(rest);
    if i < props.len() - 1 {
        assert(rest[i] == props[i]);
        assert(rest.take(i) =~= props.take(i));
        assert forall|j: int| 0 <= j < i implies sanitized((#[trigger] rest[j]).0) != sanitized(
            rest[i].0,
        ) by {
            assert(rest[j] == props[j]);
        }
        law_columns_stand_in_the_order_of_properties(rest, i);
    } else {
        assert(props.take(i) =~= rest);
        assert(!before.0.contains(sanitized(props[i].0))) by {
            if before.0.contains(sanitized(props[i].0)) {
                let j = lemma_column_origin(rest, sanitized(props[i].0));
                assert(rest[j] == props[j]);
            }
        }
    }
}

} // verus!
