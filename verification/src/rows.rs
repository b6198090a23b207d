//! The rows that a run spools: each item of the API, stamped with its run.

use vstd::prelude::*;
use crate::json::{
    alike, at, fields, find_member, found_text, insert, json_id, json_parse, json_text,
    law_alike_documents_have_the_same_members, law_inserted_member_is_found,
    law_inserting_keeps_members_legible, legible, legible_members, member_of, members, no_fields,
    object, plain, put, readable, reads_alike, text, text_or_empty, with_member, within, Json,
    JsonView, MAX_DEPTH,
};
use crate::runs::ledger_row;
use crate::spool::{row_line, SpoolWriter};
use crate::tables::{known_table, own_columns, records_table, table_columns};
use crate::text::{has_prefix, texts};

verus! {

/// The two feeds that each record has.
#[derive(Debug, Clone, Copy, PartialEq, Eq, Structural)]
pub enum FeedKind {
    Activities,
    Attachments,
}

/// The name of a feed, which is that of its table.
pub open spec fn feed_name(kind: FeedKind) -> Seq<char> {
    match kind {
        FeedKind::Activities => "activities"@,
        FeedKind::Attachments => "attachments"@,
    }
}

/// The column that the items of a feed are identified by.
pub open spec fn feed_column(kind: FeedKind) -> Seq<char> {
    match kind {
        FeedKind::Activities => "activity_id"@,
        FeedKind::Attachments => "attachment_id"@,
    }
}

impl FeedKind {
    pub fn name(&self) -> (r: &'static str)
        ensures
            r@ == feed_name(*self),
    {
        match self {
            FeedKind::Activities => "activities",
            FeedKind::Attachments => "attachments",
        }
    }

    pub fn id_column(&self) -> (r: &'static str)
        ensures
            r@ == feed_column(*self),
    {
        match self {
            FeedKind::Activities => "activity_id",
            FeedKind::Attachments => "attachment_id",
        }
    }
}

/// What an item is a row of.
#[derive(Debug, Clone, Copy)]
pub enum RowKind<'a> {
    /// The records of an object.
    Record { object: &'a str },
    /// A feed of a record.
    Feed { kind: FeedKind, object: &'a str, record_id: &'a str },
    /// The schemas.
    Schema { object: &'a str },
    /// The lists.
    List,
    /// The rows of a list.
    ListRow { list_id: &'a str, object: &'a str },
    /// The users or the workflows.
    Identified,
    /// The settings.
    Settings,
}

/// What a row is of.
pub enum RowView {
    Record { object: Seq<char> },
    Feed { kind: FeedKind, object: Seq<char>, record_id: Seq<char> },
    Schema { object: Seq<char> },
    List,
    ListRow { list_id: Seq<char>, object: Seq<char> },
    Identified,
    Settings,
}

impl<'a> View for RowKind<'a> {
    type V = RowView;

    open spec fn view(&self) -> RowView {
        match *self {
            RowKind::Record { object } => RowView::Record { object: object@ },
            RowKind::Feed { kind, object, record_id } => RowView::Feed {
                kind,
                object: object@,
                record_id: record_id@,
            },
            RowKind::Schema { object } => RowView::Schema { object: object@ },
            RowKind::List => RowView::List,
            RowKind::ListRow { list_id, object } => RowView::ListRow {
                list_id: list_id@,
                object: object@,
            },
            RowKind::Identified => RowView::Identified,
            RowKind::Settings => RowView::Settings,
        }
    }
}

/// The identifier of an item.
pub open spec fn item_id(item: JsonView) -> Seq<char> {
    text_or_empty(at(item, "id"@))
}

/// The object that a list is of.
pub open spec fn list_entity(item: JsonView) -> Seq<char> {
    text_or_empty(at(at(item, "attributes"@), "entity"@))
}

/// The object that a list is of.
pub fn entity_of(item: &Json) -> (r: String)
    ensures
        r@ == list_entity(item@),
{
    match found_text(within(item.get("attributes"), "entity")) {
        Some(s) => s.clone(),
        None => String::new(),
    }
}

/// What a row has besides its stamp and its payload.
pub open spec fn row_extras(kind: RowView, item: JsonView) -> Seq<(Seq<char>, JsonView)> {
    match kind {
        RowView::Record { object } => fields().push(
            ("record_id"@, JsonView::Text(item_id(item))),
        ).push(("object"@, JsonView::Text(object))),
        RowView::Feed { kind, object, record_id } => fields().push(
            ("object"@, JsonView::Text(object)),
        ).push(("record_id"@, JsonView::Text(record_id))).push(
            (feed_column(kind), JsonView::Text(item_id(item))),
        ),
        RowView::Schema { object } => fields().push(("object"@, JsonView::Text(object))),
        RowView::List => fields().push(("list_id"@, JsonView::Text(item_id(item)))).push(
            ("object"@, JsonView::Text(list_entity(item))),
        ),
        RowView::ListRow { list_id, object } => fields().push(
            ("list_id"@, JsonView::Text(list_id)),
        ).push(("object"@, JsonView::Text(object))).push(
            ("record_id"@, JsonView::Text(item_id(item))),
        ),
        RowView::Identified => fields().push(("id"@, JsonView::Text(item_id(item)))),
        RowView::Settings => fields(),
    }
}

fn extras_of(kind: &RowKind, item: &Json) -> (r: Vec<(String, Json)>)
    ensures
        members(r@) == row_extras(kind@, item@),
{
    let mut m = no_fields();
    match kind {
        RowKind::Record { object } => {
            put(&mut m, "record_id", Json::Text(json_id(item)));
            put(&mut m, "object", text(object));
        },
        RowKind::Feed { kind, object, record_id } => {
            put(&mut m, "object", text(object));
            put(&mut m, "record_id", text(record_id));
            put(&mut m, kind.id_column(), Json::Text(json_id(item)));
        },
        RowKind::Schema { object } => {
            put(&mut m, "object", text(object));
        },
        RowKind::List => {
            put(&mut m, "list_id", Json::Text(json_id(item)));
            put(&mut m, "object", Json::Text(entity_of(item)));
        },
        RowKind::ListRow { list_id, object } => {
            put(&mut m, "list_id", text(list_id));
            put(&mut m, "object", text(object));
            put(&mut m, "record_id", Json::Text(json_id(item)));
        },
        RowKind::Identified => {
            put(&mut m, "id", Json::Text(json_id(item)));
        },
        RowKind::Settings => {},
    }
    m
}

/// Members with more of them put in, one after the other.
pub open spec fn with_members(
    m: Seq<(Seq<char>, JsonView)>,
    more: Seq<(Seq<char>, JsonView)>,
) -> Seq<(Seq<char>, JsonView)>
    decreases more.len(),
{
    if more.len() == 0 {
        m
    } else {
        with_member(with_members(m, more.drop_last()), more.last().0, more.last().1)
    }
}

/// A row: the run and its time, what else identifies the item, and the item itself.
pub open spec fn stamped(
    run_id: Seq<char>,
    snapshot_at: Seq<char>,
    extras: Seq<(Seq<char>, JsonView)>,
    data: JsonView,
) -> JsonView {
    let stamp = with_member(
        with_member(fields(), "run_id"@, JsonView::Text(run_id)),
        "snapshot_at"@,
        JsonView::Text(snapshot_at),
    );
    JsonView::Object(with_member(with_members(stamp, extras), "data"@, data))
}

/// The run that rows are stamped with.
#[derive(Debug)]
pub struct FetchCtx {
    pub run_id: String,
    pub snapshot_at: String,
}

impl Clone for FetchCtx {
    fn clone(&self) -> (r: Self)
        ensures
            r == *self,
    {
        FetchCtx { run_id: self.run_id.clone(), snapshot_at: self.snapshot_at.clone() }
    }
}

/// The row that an item becomes in a run.
pub open spec fn item_row(ctx: FetchCtx, kind: RowView, item: JsonView) -> JsonView {
    stamped(ctx.run_id@, ctx.snapshot_at@, row_extras(kind, item), item)
}

/// The lines that items become in a run.
pub open spec fn item_lines(ctx: FetchCtx, kind: RowView, list: Seq<JsonView>) -> Seq<Seq<char>> {
    list.map_values(|item: JsonView| row_line(item_row(ctx, kind, item)))
}

/// Whether the line of a row reads back as the row, with no line break in it.
pub open spec fn reads_back(row: JsonView) -> bool {
    !json_text(row).contains('\n') && json_parse(json_text(row)) == Some(row)
}

/// Whether the line of each of these items reads back as its row, with no line break in it: exactly
/// where the item is plain, and but for the value of numbers where it is only readable.
pub open spec fn lines_read_back(ctx: FetchCtx, kind: RowView, list: Seq<JsonView>) -> bool {
    forall|i: int|
        0 <= i < list.len() ==> line_reads_back(ctx, kind, #[trigger] list[i])
}

/// Whether the line of an item reads back.
pub open spec fn line_reads_back(ctx: FetchCtx, kind: RowView, item: JsonView) -> bool {
    let row = item_row(ctx, kind, item);
    let depth = (MAX_DEPTH - 1) as nat;
    &&& plain(item, depth) ==> reads_back(row)
    &&& readable(item, depth) ==> !json_text(row).contains('\n') && reads_alike(
        json_text(row),
        row,
    )
}

/// A line that reads back carries its payload and the run that it belongs to: what is read has the
/// item under `data`, but for the value of numbers, and the run and its time as they were written.
pub proof fn law_lines_carry_run_and_payload(
    ctx: FetchCtx,
    kind: RowView,
    item: JsonView,
    read: JsonView,
)
    requires
        line_reads_back(ctx, kind, item),
        readable(item, (MAX_DEPTH - 1) as nat),
        json_parse(json_text(item_row(ctx, kind, item))) == Some(read),
    ensures
        alike(at(read, "data"@), item),
        at(read, "run_id"@) == JsonView::Text(ctx.run_id@),
        at(read, "snapshot_at"@) == JsonView::Text(ctx.snapshot_at@),
{
    let row = item_row(ctx, kind, item);
    let extras = row_extras(kind, item);
    law_row_carries_run_and_payload(ctx, kind, item);
    law_alike_documents_have_the_same_members(read, row, "data"@);
    law_alike_documents_have_the_same_members(read, row, "run_id"@);
    law_alike_documents_have_the_same_members(read, row, "snapshot_at"@);
    lemma_stamped_key(ctx.run_id@, ctx.snapshot_at@, extras, item, "data"@);
    lemma_stamped_key(ctx.run_id@, ctx.snapshot_at@, extras, item, "run_id"@);
    lemma_stamped_key(ctx.run_id@, ctx.snapshot_at@, extras, item, "snapshot_at"@);
}

impl FetchCtx {
    /// Spools one row: the line for it.
    pub fn write_row(&self, w: &mut SpoolWriter, extras: Vec<(String, Json)>, data: &Json) -> (r:
        String)
        requires
            old(w).rows < u64::MAX,
        ensures
            r@ == row_line(stamped(self.run_id@, self.snapshot_at@, members(extras@), data@)),
            !r@.drop_last().contains('\n'),
            ({
                let row = stamped(self.run_id@, self.snapshot_at@, members(extras@), data@);
                &&& plain(row, MAX_DEPTH as nat) ==> reads_back(row)
                &&& readable(row, MAX_DEPTH as nat) ==> !json_text(row).contains('\n')
                    && reads_alike(json_text(row), row)
            }),
            final(w).rows == old(w).rows + 1,
            final(w).file == old(w).file,
    {
        let mut row = no_fields();
        insert(&mut row, "run_id", text(&self.run_id));
        insert(&mut row, "snapshot_at", text(&self.snapshot_at));
        let ghost stamp = members(row@);
        let ghost all = members(extras@);
        let mut i: usize = 0;
        assert(with_members(stamp, all.take(0)) == stamp);
        while i < extras.len()
            invariant
                i <= extras@.len(),
                all == members(extras@),
                members(row@) == with_members(stamp, all.take(i as int)),
            decreases extras@.len() - i,
        {
            assert(all.take(i + 1).drop_last() =~= all.take(i as int));
            assert(all.take(i + 1).last() == (extras@[i as int].0@, extras@[i as int].1@));
            insert(&mut row, &extras[i].0, extras[i].1.clone());
            i += 1;
        }
        assert(all.take(all.len() as int) =~= all);
        insert(&mut row, "data", data.clone());
        let row = object(row);
        assert(row_line(row@).drop_last() =~= json_text(row@));
        w.write_row(&row)
    }

    /// Spools items: a line for each, in their order.
    pub fn write_items(&self, w: &mut SpoolWriter, kind: &RowKind, list: &Vec<Json>) -> (r: Vec<
        String,
    >)
        requires
            old(w).rows + list@.len() <= u64::MAX,
        ensures
            texts(r@) == item_lines(*self, kind@, crate::json::items(list@)),
            lines_read_back(*self, kind@, crate::json::items(list@)),
            final(w).rows == old(w).rows + list@.len(),
            final(w).file == old(w).file,
    {
        let ghost want = item_lines(*self, kind@, crate::json::items(list@));
        let mut out: Vec<String> = Vec::new();
        let mut i: usize = 0;
        assert(texts(out@) =~= want.take(0));
        while i < list.len()
            invariant
                i <= list@.len(),
                want == item_lines(*self, kind@, crate::json::items(list@)),
                w.rows == old(w).rows + i,
                w.file == old(w).file,
                old(w).rows + list@.len() <= u64::MAX,
                texts(out@) == want.take(i as int),
                forall|k: int|
                    0 <= k < i ==> line_reads_back(
                        *self,
                        kind@,
                        #[trigger] crate::json::items(list@)[k],
                    ),
            decreases list@.len() - i,
        {
            let ghost had = out@;
            proof {
                let item = crate::json::items(list@)[i as int];
                assert(item == list@[i as int]@);
                if plain(item, (MAX_DEPTH - 1) as nat) {
                    law_rows_of_legible_items_are_legible(*self, kind@, item, true);
                }
                if readable(item, (MAX_DEPTH - 1) as nat) {
                    law_rows_of_legible_items_are_legible(*self, kind@, item, false);
                }
            }
            let line = self.write_row(w, extras_of(kind, &list[i]), &list[i]);
            assert(want[i as int] == row_line(item_row(*self, kind@, list@[i as int]@)));
            out.push(line);
            assert(texts(out@) =~= texts(had).push(line@));
            i += 1;
            assert(texts(out@) =~= want.take(i as int));
        }
        assert(want.take(list@.len() as int) =~= want);
        out
    }
}

// ---- what a row holds ----

/// Whether there is a member under a key.
pub open spec fn has_key(m: Seq<(Seq<char>, JsonView)>, key: Seq<char>) -> bool {
    exists|i: int| 0 <= i < m.len() && (#[trigger] m[i]).0 == key
}

proof fn lemma_with_members(
    m: Seq<(Seq<char>, JsonView)>,
    more: Seq<(Seq<char>, JsonView)>,
    key: Seq<char>,
)
    ensures
        find_member(with_members(m, more), key) is Some <==> find_member(m, key) is Some || has_key(
            more,
            key,
        ),
        !has_key(more, key) ==> find_member(with_members(m, more), key) == find_member(m, key),
    decreases more.len(),
{
    if more.len() > 0 {
        let before = more.drop_last();
        let (k, v) = more.last();
        lemma_with_members(m, before, key);
        law_inserted_member_is_found(with_members(m, before), k, v, key);
        if has_key(before, key) {
            let i = choose|i: int| 0 <= i < before.len() && (#[trigger] before[i]).0 == key;
            assert(more[i].0 == key);
        }
        if k == key {
            assert(more[more.len() - 1].0 == key);
        }
        if has_key(more, key) && k != key {
            let i = choose|i: int| 0 <= i < more.len() && (#[trigger] more[i]).0 == key;
            assert(before[i].0 == key);
        }
    }
}

proof fn lemma_stamped_key(
    run_id: Seq<char>,
    snapshot_at: Seq<char>,
    extras: Seq<(Seq<char>, JsonView)>,
    data: JsonView,
    key: Seq<char>,
)
    ensures
        member_of(stamped(run_id, snapshot_at, extras, data), key) is Some <==> key == "run_id"@
            || key == "snapshot_at"@ || key == "data"@ || has_key(extras, key),
{
    let a = with_member(fields(), "run_id"@, JsonView::Text(run_id));
    let b = with_member(a, "snapshot_at"@, JsonView::Text(snapshot_at));
    law_inserted_member_is_found(fields(), "run_id"@, JsonView::Text(run_id), key);
    law_inserted_member_is_found(a, "snapshot_at"@, JsonView::Text(snapshot_at), key);
    lemma_with_members(b, extras, key);
    law_inserted_member_is_found(with_members(b, extras), "data"@, data, key);
    assert(find_member(fields(), key) is None);
}

/// A row carries its payload unchanged, and the run that it belongs to.
pub proof fn law_row_carries_run_and_payload(ctx: FetchCtx, kind: RowView, item: JsonView)
    ensures
        at(item_row(ctx, kind, item), "data"@) == item,
        at(item_row(ctx, kind, item), "run_id"@) == JsonView::Text(ctx.run_id@),
        at(item_row(ctx, kind, item), "snapshot_at"@) == JsonView::Text(ctx.snapshot_at@),
{
    reveal_names();
    let extras = row_extras(kind, item);
    let run = JsonView::Text(ctx.run_id@);
    let time = JsonView::Text(ctx.snapshot_at@);
    let a = with_member(fields(), "run_id"@, run);
    let b = with_member(a, "snapshot_at"@, time);
    let c = with_members(b, extras);
    law_inserted_member_is_found(c, "data"@, item, "run_id"@);
    law_inserted_member_is_found(c, "data"@, item, "snapshot_at"@);
    lemma_with_members(b, extras, "run_id"@);
    lemma_with_members(b, extras, "snapshot_at"@);
    law_inserted_member_is_found(a, "snapshot_at"@, time, "run_id"@);
    law_inserted_member_is_found(fields(), "run_id"@, run, "run_id"@);
    assert(!has_key(extras, "run_id"@));
    assert(!has_key(extras, "snapshot_at"@));
}

/// Every row can be read again out of its line, wherever the item that it carries is legible and
/// nests one level less than what can be read; where the item is plain, the row is what it was.
pub proof fn law_rows_of_legible_items_are_legible(
    ctx: FetchCtx,
    kind: RowView,
    item: JsonView,
    exact: bool,
)
    requires
        legible(item, (MAX_DEPTH - 1) as nat, exact),
    ensures
        legible(item_row(ctx, kind, item), MAX_DEPTH as nat, exact),
{
    let depth = (MAX_DEPTH - 1) as nat;
    let run = JsonView::Text(ctx.run_id@);
    let time = JsonView::Text(ctx.snapshot_at@);
    let extras = row_extras(kind, item);
    let a = with_member(fields(), "run_id"@, run);
    let b = with_member(a, "snapshot_at"@, time);
    law_inserting_keeps_members_legible(fields(), "run_id"@, run, depth, exact);
    law_inserting_keeps_members_legible(a, "snapshot_at"@, time, depth, exact);
    assert forall|i: int| 0 <= i < extras.len() implies legible(
        (#[trigger] extras[i]).1,
        depth,
        exact,
    ) by {
        assert(extras[i].1 is Text);
    }
    lemma_extras_legible(b, extras, depth, exact);
    law_inserting_keeps_members_legible(with_members(b, extras), "data"@, item, depth, exact);
}

proof fn lemma_extras_legible(
    m: Seq<(Seq<char>, JsonView)>,
    more: Seq<(Seq<char>, JsonView)>,
    depth: nat,
    exact: bool,
)
    requires
        legible_members(m, depth, exact),
        forall|i: int| 0 <= i < more.len() ==> legible((#[trigger] more[i]).1, depth, exact),
    ensures
        legible_members(with_members(m, more), depth, exact),
    decreases more.len(),
{
    if more.len() > 0 {
        let before = more.drop_last();
        assert forall|i: int| 0 <= i < before.len() implies legible(
            (#[trigger] before[i]).1,
            depth,
            exact,
        ) by {
            assert(before[i] == more[i]);
        }
        lemma_extras_legible(m, before, depth, exact);
        assert(more.last() == more[more.len() - 1]);
        law_inserting_keeps_members_legible(
            with_members(m, before),
            more.last().0,
            more.last().1,
            depth,
            exact,
        );
    }
}

/// That the names of columns differ.
proof fn reveal_names()
    ensures
        "run_id"@ != "snapshot_at"@,
        "run_id"@ != "data"@,
        "run_id"@ != "record_id"@,
        "run_id"@ != "object"@,
        "run_id"@ != "list_id"@,
        "run_id"@ != "id"@,
        "run_id"@ != "activity_id"@,
        "run_id"@ != "attachment_id"@,
        "snapshot_at"@ != "data"@,
        "snapshot_at"@ != "record_id"@,
        "snapshot_at"@ != "object"@,
        "snapshot_at"@ != "list_id"@,
        "snapshot_at"@ != "id"@,
        "snapshot_at"@ != "activity_id"@,
        "snapshot_at"@ != "attachment_id"@,
{
    reveal_strlit("run_id");
    reveal_strlit("snapshot_at");
    reveal_strlit("data");
    reveal_strlit("record_id");
    reveal_strlit("object");
    reveal_strlit("list_id");
    reveal_strlit("id");
    reveal_strlit("activity_id");
    reveal_strlit("attachment_id");
    assert("run_id"@[1] == 'u');
    assert("object"@[1] == 'b');
    assert("snapshot_at"@[0] == 's');
    assert("activity_id"@[0] == 'a');
}

/// The table that a row goes to; users and workflows share a shape.
pub open spec fn row_table(kind: RowView, table: Seq<char>) -> bool {
    match kind {
        RowView::Record { object } => table == records_table(object),
        RowView::Feed { kind, .. } => table == feed_name(kind),
        RowView::Schema { .. } => table == "schemas"@,
        RowView::List => table == "lists"@,
        RowView::ListRow { .. } => table == "list_rows"@,
        RowView::Identified => table == "users"@ || table == "workflows"@,
        RowView::Settings => table == "settings"@,
    }
}

/// Whether a table has a column of this name.
pub open spec fn has_column(cols: Seq<(Seq<char>, Seq<char>)>, name: Seq<char>) -> bool {
    exists|i: int| 0 <= i < cols.len() && (#[trigger] cols[i]).0 == name
}

proof fn lemma_column_pushed(
    cols: Seq<(Seq<char>, Seq<char>)>,
    col: (Seq<char>, Seq<char>),
    name: Seq<char>,
)
    ensures
        has_column(cols.push(col), name) <==> has_column(cols, name) || col.0 == name,
{
    if has_column(cols, name) {
        let i = choose|i: int| 0 <= i < cols.len() && (#[trigger] cols[i]).0 == name;
        assert(cols.push(col)[i].0 == name);
    }
    if col.0 == name {
        assert(cols.push(col)[cols.len() as int].0 == name);
    }
    if has_column(cols.push(col), name) {
        let i = choose|i: int|
            0 <= i < cols.push(col).len() && (#[trigger] cols.push(col)[i]).0 == name;
        if i < cols.len() {
            assert(cols[i].0 == name);
        }
    }
}

/// The columns of a table that holds rows of a kind, besides the common ones and the payload, have
/// the names of what such a row has besides its stamp and its payload.
proof fn lemma_own_columns(kind: RowView, item: JsonView, table: Seq<char>, name: Seq<char>)
    requires
        row_table(kind, table),
    ensures
        own_columns(table) is Some,
        has_column(own_columns(table)->Some_0, name) <==> has_key(row_extras(kind, item), name),
        table != "runs"@,
{
    reveal_strlit("records_");
    reveal_strlit("schemas");
    reveal_strlit("lists");
    reveal_strlit("list_rows");
    reveal_strlit("users");
    reveal_strlit("workflows");
    reveal_strlit("settings");
    reveal_strlit("activities");
    reveal_strlit("attachments");
    reveal_strlit("runs");
    let own = own_columns(table)->Some_0;
    let extras = row_extras(kind, item);
    if let RowView::Record { .. } = kind {
        assert(table.take("records_"@.len() as int) =~= "records_"@);
        assert(table.len() >= 8);
    } else {
        if has_prefix(table, "records_"@) {
            assert(table.take("records_"@.len() as int)[0] == table[0]);
        }
        assert("schemas"@.len() == 7 && "lists"@.len() == 5 && "list_rows"@.len() == 9);
        assert("users"@.len() == 5 && "workflows"@.len() == 9 && "settings"@.len() == 8);
        assert("activities"@.len() == 10 && "attachments"@.len() == 11 && "runs"@.len() == 4);
        assert("lists"@[0] == 'l' && "list_rows"@[0] == 'l' && "users"@[0] == 'u');
        assert("workflows"@[0] == 'w');
        assert("records_"@[0] == 'r');
    }
    assert(own.len() == extras.len());
    assert forall|i: int| 0 <= i < own.len() implies exists|j: int|
        0 <= j < extras.len() && (#[trigger] extras[j]).0 == (#[trigger] own[i]).0 by {
        assert(extras[i].0 == own[i].0);
    }
    assert forall|j: int| 0 <= j < extras.len() implies exists|i: int|
        0 <= i < own.len() && (#[trigger] own[i]).0 == (#[trigger] extras[j]).0 by {
        assert(extras[j].0 == own[j].0);
    }
    if has_column(own, name) {
        let i = choose|i: int| 0 <= i < own.len() && (#[trigger] own[i]).0 == name;
        let j = choose|j: int| 0 <= j < extras.len() && (#[trigger] extras[j]).0 == own[i].0;
        assert(extras[j].0 == name);
    }
    if has_key(extras, name) {
        let j = choose|j: int| 0 <= j < extras.len() && (#[trigger] extras[j]).0 == name;
        let i = choose|i: int| 0 <= i < own.len() && (#[trigger] own[i]).0 == extras[j].0;
        assert(own[i].0 == name);
    }
}

/// The shape of every table that rows go to is known.
pub proof fn law_row_tables_are_known(kind: RowView, table: Seq<char>)
    requires
        row_table(kind, table),
    ensures
        known_table(table),
{
    lemma_own_columns(kind, JsonView::Null, table, Seq::empty());
}

/// Every row fits its table: it has a member for each column, and for nothing else.
pub proof fn law_rows_fit_their_tables(
    ctx: FetchCtx,
    kind: RowView,
    item: JsonView,
    table: Seq<char>,
    name: Seq<char>,
)
    requires
        row_table(kind, table),
    ensures
        member_of(item_row(ctx, kind, item), name) is Some <==> has_column(
            table_columns(table),
            name,
        ),
{
    lemma_own_columns(kind, item, table, name);
    lemma_stamped_key(ctx.run_id@, ctx.snapshot_at@, row_extras(kind, item), item, name);
    let own = own_columns(table)->Some_0;
    let base = crate::tables::base_columns();
    let both = base + own;
    lemma_column_pushed(both, ("data"@, "JSON"@), name);
    assert(has_column(both, name) <==> has_column(base, name) || has_column(own, name)) by {
        if has_column(base, name) {
            let i = choose|i: int| 0 <= i < base.len() && (#[trigger] base[i]).0 == name;
            assert(both[i].0 == name);
        }
        if has_column(own, name) {
            let i = choose|i: int| 0 <= i < own.len() && (#[trigger] own[i]).0 == name;
            assert(both[base.len() + i].0 == name);
        }
        if has_column(both, name) {
            let i = choose|i: int| 0 <= i < both.len() && (#[trigger] both[i]).0 == name;
            if i < base.len() {
                assert(base[i].0 == name);
            } else {
                assert(own[i - base.len()].0 == name);
            }
        }
    }
    assert(has_column(base, name) <==> name == "run_id"@ || name == "snapshot_at"@) by {
        assert(base[0].0 == "run_id"@);
        assert(base[1].0 == "snapshot_at"@);
    }
}

// ---- what each row says ----

/// What a row has under a key besides its stamp and its payload is what it was given.
proof fn lemma_extra_found(
    run_id: Seq<char>,
    snapshot_at: Seq<char>,
    extras: Seq<(Seq<char>, JsonView)>,
    data: JsonView,
    i: int,
)
    requires
        0 <= i < extras.len(),
        extras[i].0 != "data"@,
        forall|j: int| i < j < extras.len() ==> (#[trigger] extras[j]).0 != extras[i].0,
    ensures
        at(stamped(run_id, snapshot_at, extras, data), extras[i].0) == extras[i].1,
{
    let stamp = with_member(
        with_member(fields(), "run_id"@, JsonView::Text(run_id)),
        "snapshot_at"@,
        JsonView::Text(snapshot_at),
    );
    lemma_last_put(stamp, extras, i);
    law_inserted_member_is_found(with_members(stamp, extras), "data"@, data, extras[i].0);
}

proof fn lemma_last_put(
    m: Seq<(Seq<char>, JsonView)>,
    more: Seq<(Seq<char>, JsonView)>,
    i: int,
)
    requires
        0 <= i < more.len(),
        forall|j: int| i < j < more.len() ==> (#[trigger] more[j]).0 != more[i].0,
    ensures
        find_member(with_members(m, more), more[i].0) == Some(more[i].1),
    decreases more.len(),
{
    let before = more.drop_last();
    let (k, v) = more.last();
    law_inserted_member_is_found(with_members(m, before), k, v, more[i].0);
    if i < more.len() - 1 {
        assert(before[i] == more[i]);
        assert(more[more.len() - 1].0 != more[i].0);
        assert forall|j: int| i < j < before.len() implies (#[trigger] before[j]).0
            != before[i].0 by {
            assert(before[j] == more[j]);
        }
        lemma_last_put(m, before, i);
    }
}

proof fn reveal_own_names()
    ensures
        "record_id"@ != "object"@,
        "record_id"@ != "list_id"@,
        "object"@ != "list_id"@,
        "record_id"@ != "data"@,
        "object"@ != "data"@,
        "list_id"@ != "data"@,
        "id"@ != "data"@,
        "activity_id"@ != "data"@,
        "attachment_id"@ != "data"@,
        "activity_id"@ != "object"@,
        "activity_id"@ != "record_id"@,
        "attachment_id"@ != "object"@,
        "attachment_id"@ != "record_id"@,
{
    reveal_strlit("data");
    reveal_strlit("record_id");
    reveal_strlit("object");
    reveal_strlit("list_id");
    reveal_strlit("id");
    reveal_strlit("activity_id");
    reveal_strlit("attachment_id");
    assert("data"@.len() == 4 && "record_id"@.len() == 9 && "object"@.len() == 6);
    assert("list_id"@.len() == 7 && "id"@.len() == 2 && "activity_id"@.len() == 11);
    assert("attachment_id"@.len() == 13);
}

/// The text that a document has under a key; none where it has no text there.
pub open spec fn text_under(v: JsonView, key: Seq<char>) -> JsonView {
    match at(v, key) {
        JsonView::Text(s) => JsonView::Text(s),
        _ => JsonView::Text(Seq::empty()),
    }
}

/// The row of a record names the record, by its own identifier, and the object that it is of.
pub proof fn law_record_rows_name_record_and_object(
    ctx: FetchCtx,
    object: Seq<char>,
    item: JsonView,
)
    ensures
        at(item_row(ctx, RowView::Record { object }, item), "record_id"@) == text_under(
            item,
            "id"@,
        ),
        at(item_row(ctx, RowView::Record { object }, item), "object"@) == JsonView::Text(object),
{
    reveal_own_names();
    let extras = row_extras(RowView::Record { object }, item);
    lemma_extra_found(ctx.run_id@, ctx.snapshot_at@, extras, item, 0);
    lemma_extra_found(ctx.run_id@, ctx.snapshot_at@, extras, item, 1);
}

/// The row of an activity or an attachment names the record that it belongs to, the object of that
/// record, and the item itself.
pub proof fn law_feed_rows_name_their_record(
    ctx: FetchCtx,
    object: Seq<char>,
    record_id: Seq<char>,
    item: JsonView,
)
    ensures
        at(
            item_row(
                ctx,
                RowView::Feed { kind: FeedKind::Activities, object, record_id },
                item,
            ),
            "object"@,
        ) == JsonView::Text(object),
        at(
            item_row(
                ctx,
                RowView::Feed { kind: FeedKind::Activities, object, record_id },
                item,
            ),
            "record_id"@,
        ) == JsonView::Text(record_id),
        at(
            item_row(
                ctx,
                RowView::Feed { kind: FeedKind::Activities, object, record_id },
                item,
            ),
            "activity_id"@,
        ) == text_under(item, "id"@),
        at(
            item_row(
                ctx,
                RowView::Feed { kind: FeedKind::Attachments, object, record_id },
                item,
            ),
            "object"@,
        ) == JsonView::Text(object),
        at(
            item_row(
                ctx,
                RowView::Feed { kind: FeedKind::Attachments, object, record_id },
                item,
            ),
            "record_id"@,
        ) == JsonView::Text(record_id),
        at(
            item_row(
                ctx,
                RowView::Feed { kind: FeedKind::Attachments, object, record_id },
                item,
            ),
            "attachment_id"@,
        ) == text_under(item, "id"@),
{
    reveal_own_names();
    let a = row_extras(RowView::Feed { kind: FeedKind::Activities, object, record_id }, item);
    let b = row_extras(RowView::Feed { kind: FeedKind::Attachments, object, record_id }, item);
    lemma_extra_found(ctx.run_id@, ctx.snapshot_at@, a, item, 0);
    lemma_extra_found(ctx.run_id@, ctx.snapshot_at@, a, item, 1);
    lemma_extra_found(ctx.run_id@, ctx.snapshot_at@, a, item, 2);
    lemma_extra_found(ctx.run_id@, ctx.snapshot_at@, b, item, 0);
    lemma_extra_found(ctx.run_id@, ctx.snapshot_at@, b, item, 1);
    lemma_extra_found(ctx.run_id@, ctx.snapshot_at@, b, item, 2);
}

/// The row of a list names the list, by its own identifier, and the object that it is of; the row
/// of a list's record names both as well, and the record.
pub proof fn law_list_rows_name_list_object_and_record(
    ctx: FetchCtx,
    list_id: Seq<char>,
    object: Seq<char>,
    item: JsonView,
)
    ensures
        at(item_row(ctx, RowView::List, item), "list_id"@) == text_under(item, "id"@),
        at(item_row(ctx, RowView::List, item), "object"@) == text_under(
            at(item, "attributes"@),
            "entity"@,
        ),
        at(item_row(ctx, RowView::ListRow { list_id, object }, item), "list_id"@)
            == JsonView::Text(list_id),
        at(item_row(ctx, RowView::ListRow { list_id, object }, item), "object"@)
            == JsonView::Text(object),
        at(item_row(ctx, RowView::ListRow { list_id, object }, item), "record_id"@) == text_under(
            item,
            "id"@,
        ),
{
    reveal_own_names();
    let a = row_extras(RowView::List, item);
    let b = row_extras(RowView::ListRow { list_id, object }, item);
    lemma_extra_found(ctx.run_id@, ctx.snapshot_at@, a, item, 0);
    lemma_extra_found(ctx.run_id@, ctx.snapshot_at@, a, item, 1);
    lemma_extra_found(ctx.run_id@, ctx.snapshot_at@, b, item, 0);
    lemma_extra_found(ctx.run_id@, ctx.snapshot_at@, b, item, 1);
    lemma_extra_found(ctx.run_id@, ctx.snapshot_at@, b, item, 2);
}

/// The row of a schema names its object, and the row of a user or a workflow its own identifier.
pub proof fn law_other_rows_name_their_item(ctx: FetchCtx, object: Seq<char>, item: JsonView)
    ensures
        at(item_row(ctx, RowView::Schema { object }, item), "object"@) == JsonView::Text(object),
        at(item_row(ctx, RowView::Identified, item), "id"@) == text_under(item, "id"@),
{
    reveal_own_names();
    let a = row_extras(RowView::Schema { object }, item);
    let b = row_extras(RowView::Identified, item);
    lemma_extra_found(ctx.run_id@, ctx.snapshot_at@, a, item, 0);
    lemma_extra_found(ctx.run_id@, ctx.snapshot_at@, b, item, 0);
}

/// Whether a document can stand in a column of a type: only a text in one of texts or times, and
/// any document in one of JSON.
pub open spec fn suits(v: JsonView, ty: Seq<char>) -> bool {
    ||| ty == "JSON"@
    ||| (ty == "STRING"@ || ty == "TIMESTAMP"@) && v is Text
}

/// Every row fits its table in the types too: what it has under the name of a column of texts or
/// times is a text, and the column that carries the item, which can be any document, is one of
/// JSON.
pub proof fn law_rows_fit_the_types_of_their_tables(
    ctx: FetchCtx,
    kind: RowView,
    item: JsonView,
    table: Seq<char>,
    i: int,
)
    requires
        row_table(kind, table),
        0 <= i < table_columns(table).len(),
    ensures
        suits(at(item_row(ctx, kind, item), table_columns(table)[i].0), table_columns(table)[i].1),
        table_columns(table).last() == ("data"@, "JSON"@),
        at(item_row(ctx, kind, item), table_columns(table).last().0) == item,
        table_columns(table)[i].1 == "STRING"@ || table_columns(table)[i].1 == "TIMESTAMP"@ ==> at(
            item_row(ctx, kind, item),
            table_columns(table)[i].0,
        ) is Text,
{
    let cols = table_columns(table);
    let own = own_columns(table)->Some_0;
    let extras = row_extras(kind, item);
    law_row_tables_are_known(kind, table);
    lemma_own_columns(kind, item, table, cols[i].0);
    crate::tables::law_payload_column_is_json(table);
    law_row_carries_run_and_payload(ctx, kind, item);
    law_rows_fit_their_tables(ctx, kind, item, table, cols[i].0);
    reveal_strlit("JSON");
    reveal_strlit("STRING");
    reveal_strlit("TIMESTAMP");
    assert("JSON"@.len() == 4 && "STRING"@.len() == 6 && "TIMESTAMP"@.len() == 9);
    if 2 <= i < cols.len() - 1 {
        assert(cols[i] == own[i - 2]);
        assert(has_column(own, cols[i].0));
        lemma_extras_are_texts(kind, item);
        lemma_text_extra(ctx, extras, item, cols[i].0);
    }
}

proof fn lemma_extras_are_texts(kind: RowView, item: JsonView)
    ensures
        forall|j: int|
            0 <= j < row_extras(kind, item).len() ==> (#[trigger] row_extras(
                kind,
                item,
            )[j]).1 is Text && row_extras(kind, item)[j].0 != "data"@,
{
    reveal_own_names();
}

proof fn lemma_text_extra(
    ctx: FetchCtx,
    extras: Seq<(Seq<char>, JsonView)>,
    item: JsonView,
    name: Seq<char>,
)
    requires
        has_key(extras, name),
        forall|j: int|
            0 <= j < extras.len() ==> (#[trigger] extras[j]).1 is Text && extras[j].0 != "data"@,
    ensures
        at(stamped(ctx.run_id@, ctx.snapshot_at@, extras, item), name) is Text,
{
    let j = lemma_last_of(extras, name);
    lemma_extra_found(ctx.run_id@, ctx.snapshot_at@, extras, item, j);
}

proof fn lemma_last_of(extras: Seq<(Seq<char>, JsonView)>, name: Seq<char>) -> (i: int)
    requires
        has_key(extras, name),
    ensures
        0 <= i < extras.len(),
        extras[i].0 == name,
        forall|j: int| i < j < extras.len() ==> (#[trigger] extras[j]).0 != name,
    decreases extras.len(),
{
    let n = extras.len() - 1;
    if extras[n].0 == name {
        n
    } else {
        let front = extras.drop_last();
        let k = choose|k: int| 0 <= k < extras.len() && (#[trigger] extras[k]).0 == name;
        assert(front[k].0 == name);
        let i = lemma_last_of(front, name);
        assert(extras[i] == front[i]);
        assert forall|j: int| i < j < extras.len() implies (#[trigger] extras[j]).0 != name by {
            if j < n {
                assert(extras[j] == front[j]);
            }
        }
        i
    }
}

/// The rows of the ledger fit their table in the same way.
pub proof fn law_ledger_rows_fit_their_table(
    run_id: Seq<char>,
    snapshot_at: Seq<char>,
    finished_at: Seq<char>,
    status: Seq<char>,
    resources: JsonView,
    i: int,
)
    requires
        0 <= i < table_columns("runs"@).len(),
    ensures
        suits(
            at(
                ledger_row(run_id, snapshot_at, finished_at, status, resources),
                table_columns("runs"@)[i].0,
            ),
            table_columns("runs"@)[i].1,
        ),
        table_columns("runs"@).contains(("resources"@, "JSON"@)),
        ledger_row(run_id, snapshot_at, finished_at, status, resources)->Object_0.len()
            == table_columns("runs"@).len(),
{
    crate::tables::law_ledger_columns();
    crate::runs::law_ledger_row_says(run_id, snapshot_at, finished_at, status, resources);
    assert(table_columns("runs"@)[4] == ("resources"@, "JSON"@));
}

/// Items become as many lines, each in its place the line of its own row.
pub proof fn law_each_item_has_its_line(
    ctx: FetchCtx,
    kind: RowView,
    list: Seq<JsonView>,
    i: int,
)
    requires
        0 <= i < list.len(),
    ensures
        item_lines(ctx, kind, list).len() == list.len(),
        item_lines(ctx, kind, list)[i] == row_line(item_row(ctx, kind, list[i])),
{
}

} // verus!
