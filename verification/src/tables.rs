//! Table names and shapes.

use vstd::prelude::*;
use crate::schemas::ObjectSchema;
use crate::text::{has_prefix, same, starts_with, to_chars};

verus! {

// ---- names ----

/// The lower case of an ASCII character.
pub open spec fn ascii_lower(c: char) -> char {
    if 'A' <= c <= 'Z' {
        ((c as u32) + 32) as char
    } else {
        c
    }
}

/// What std gives as the lower case of a character outside of ASCII: one character or more.
pub uninterp spec fn unicode_lower(c: char) -> Seq<char>;

/// The lower case of a character. No upper-case ASCII letter is left in it.
pub open spec fn lower(c: char) -> Seq<char> {
    if (c as u32) < 128 {
        seq![ascii_lower(c)]
    } else {
        unicode_lower(c).map_values(|d: char| ascii_lower(d))
    }
}

/// `char::to_lowercase` of std: the letters `A` to `Z` become `a` to `z`, no other ASCII character
/// changes, and any other becomes what Unicode says, which the name stands for. No upper-case ASCII
/// letter is left in either.
#[verifier::external_body]
fn to_lower(c: char) -> (r: String)
    ensures
        r@ == if (c as u32) < 128 {
            seq![ascii_lower(c)]
        } else {
            unicode_lower(c)
        },
        forall|i: int| 0 <= i < r@.len() ==> !('A' <= #[trigger] r@[i] <= 'Z'),
{
    c.to_lowercase().to_string()
}

/// Whether `c` is an ASCII letter, an ASCII digit or an underscore.
pub open spec fn is_word(c: char) -> bool {
    'a' <= c <= 'z' || 'A' <= c <= 'Z' || '0' <= c <= '9' || c == '_'
}

/// `c`, or an underscore where `c` may not stand in a name.
pub open spec fn word_or_underscore(c: char) -> char {
    if is_word(c) {
        c
    } else {
        '_'
    }
}

/// What a character becomes in a name.
pub open spec fn cleaned(c: char) -> Seq<char> {
    lower(c).map_values(|d: char| word_or_underscore(d))
}

/// The name that a slug gets in BigQuery: its characters in lower case, with an underscore for each
/// that may not stand in a name. The lower case of a sigma depends on where it stands, but either
/// form becomes an underscore, so that each character can be taken by itself.
pub open spec fn sanitized(slug: Seq<char>) -> Seq<char>
    decreases slug.len(),
{
    if slug.len() == 0 {
        Seq::empty()
    } else {
        sanitized(slug.drop_last()) + cleaned(slug.last())
    }
}

/// The name of a text that is put together is put together from the names of its parts.
pub proof fn lemma_sanitized_append(a: Seq<char>, b: Seq<char>)
    ensures
        sanitized(a + b) == sanitized(a) + sanitized(b),
    decreases b.len(),
{
    if b.len() == 0 {
        assert(a + b =~= a);
        assert(sanitized(a) + sanitized(b) =~= sanitized(a));
    } else {
        lemma_sanitized_append(a, b.drop_last());
        assert((a + b).drop_last() =~= a + b.drop_last());
        assert((a + b).last() == b.last());
        assert(sanitized(a) + sanitized(b) =~= sanitized(a) + sanitized(b.drop_last()) + cleaned(
            b.last(),
        ));
    }
}

/// Whether `c` is an ASCII letter, an ASCII digit or an underscore.
pub fn word_char(c: char) -> (r: bool)
    ensures
        r == is_word(c),
{
    (c >= 'a' && c <= 'z') || (c >= 'A' && c <= 'Z') || (c >= '0' && c <= '9') || c == '_'
}

/// The name that a slug gets in BigQuery: lower case, with an underscore for every character
/// that is no ASCII letter, digit or underscore.
pub fn sanitize(slug: &str) -> (r: String)
    ensures
        r@ == sanitized(slug@),
        legal_name(r@),
{
    let chars = to_chars(slug);
    let mut out = String::new();
    let mut i: usize = 0;
    assert(chars@.take(0) =~= Seq::empty());
    assert(out@ =~= Seq::empty());
    while i < chars.len()
        invariant
            chars@ == slug@,
            i <= chars@.len(),
            out@ == sanitized(slug@.take(i as int)),
        decreases chars@.len() - i,
    {
        let small = to_lower(chars[i]);
        let parts = to_chars(&small);
        let ghost had = out@;
        let ghost want = cleaned(chars@[i as int]);
        assert(parts@ =~= lower(chars@[i as int])) by {
            if (chars@[i as int] as u32) >= 128 {
                assert(parts@ =~= unicode_lower(chars@[i as int]).map_values(
                    |d: char| ascii_lower(d),
                ));
            }
        }
        let mut j: usize = 0;
        assert(had + want.take(0) =~= had);
        while j < parts.len()
            invariant
                j <= parts@.len(),
                want == parts@.map_values(|d: char| word_or_underscore(d)),
                out@ == had + want.take(j as int),
            decreases parts@.len() - j,
        {
            if word_char(parts[j]) {
                out.push(parts[j]);
            } else {
                out.push('_');
            }
            j += 1;
            assert(out@ =~= had + want.take(j as int));
        }
        assert(want.take(parts@.len() as int) =~= want);
        assert(slug@.take(i + 1).drop_last() =~= slug@.take(i as int));
        assert(slug@.take(i + 1).last() == chars@[i as int]);
        i += 1;
    }
    assert(slug@.take(chars@.len() as int) =~= slug@);
    proof {
        law_sanitized_slugs_are_legal(slug@);
    }
    out
}

/// Whether a name is made of lower-case letters where it has letters, digits and underscores.
pub open spec fn legal_name(s: Seq<char>) -> bool {
    forall|i: int| 0 <= i < s.len() ==> is_word(#[trigger] s[i]) && !('A' <= s[i] <= 'Z')
}

/// What any slug becomes is a legal name.
pub proof fn law_sanitized_slugs_are_legal(slug: Seq<char>)
    ensures
        legal_name(sanitized(slug)),
    decreases slug.len(),
{
    if slug.len() > 0 {
        law_sanitized_slugs_are_legal(slug.drop_last());
        let before = sanitized(slug.drop_last());
        let last = cleaned(slug.last());
        let s = sanitized(slug);
        assert forall|i: int| 0 <= i < s.len() implies is_word(#[trigger] s[i]) && !('A' <= s[i]
            <= 'Z') by {
            if i < before.len() {
                assert(s[i] == before[i]);
            } else {
                assert(s[i] == last[i - before.len()]);
                assert(last[i - before.len()] == word_or_underscore(
                    lower(slug.last())[i - before.len()],
                ));
            }
        }
    }
}

/// A legal name stays as it is, so that to sanitize twice is to sanitize once.
pub proof fn law_sanitizing_twice_changes_nothing(slug: Seq<char>)
    ensures
        legal_name(slug) ==> sanitized(slug) == slug,
        sanitized(sanitized(slug)) == sanitized(slug),
{
    law_sanitized_slugs_are_legal(slug);
    lemma_legal_kept(slug);
    lemma_legal_kept(sanitized(slug));
}

proof fn lemma_legal_kept(s: Seq<char>)
    ensures
        legal_name(s) ==> sanitized(s) == s,
    decreases s.len(),
{
    if legal_name(s) && s.len() > 0 {
        let c = s[s.len() - 1];
        assert(is_word(c) && !('A' <= c <= 'Z'));
        assert forall|i: int| 0 <= i < s.drop_last().len() implies is_word(
            #[trigger] s.drop_last()[i],
        ) && !('A' <= s.drop_last()[i] <= 'Z') by {
            assert(s.drop_last()[i] == s[i]);
        }
        lemma_legal_kept(s.drop_last());
        assert(cleaned(c) =~= seq![c]);
        assert(sanitized(s) =~= s);
    } else if s.len() == 0 {
        assert(sanitized(s) =~= s);
    }
}

// ---- shapes ----

/// One column of a table.
#[derive(Debug, Clone, Copy)]
pub struct Column {
    pub name: &'static str,
    pub ty: &'static str,
}

impl Column {
    pub fn new(name: &'static str, ty: &'static str) -> (r: Self)
        ensures
            r.name@ == name@,
            r.ty@ == ty@,
    {
        Self { name, ty }
    }
}

/// A table to create: its name, its columns, and how long its partitions stay.
#[derive(Debug)]
pub struct TableSpec {
    pub name: String,
    pub columns: Vec<Column>,
    /// `None`: the partitions never expire.
    pub partition_expiration_days: Option<u32>,
}

/// The names and types of a list of columns.
pub open spec fn columns(v: Seq<Column>) -> Seq<(Seq<char>, Seq<char>)> {
    v.map_values(|c: Column| (c.name@, c.ty@))
}

fn add_column(v: &mut Vec<Column>, name: &'static str, ty: &'static str)
    ensures
        columns(final(v)@) == columns(old(v)@).push((name@, ty@)),
{
    let ghost had = columns(v@);
    v.push(Column::new(name, ty));
    assert(columns(v@) =~= had.push((name@, ty@)));
}

/// The columns that set a table apart from the others, where there is a table of that name.
pub open spec fn own_columns(table: Seq<char>) -> Option<Seq<(Seq<char>, Seq<char>)>> {
    if has_prefix(table, "records_"@) {
        Some(seq![("record_id"@, "STRING"@), ("object"@, "STRING"@)])
    } else if table == "schemas"@ {
        Some(seq![("object"@, "STRING"@)])
    } else if table == "lists"@ {
        Some(seq![("list_id"@, "STRING"@), ("object"@, "STRING"@)])
    } else if table == "list_rows"@ {
        Some(seq![("list_id"@, "STRING"@), ("object"@, "STRING"@), ("record_id"@, "STRING"@)])
    } else if table == "users"@ || table == "workflows"@ {
        Some(seq![("id"@, "STRING"@)])
    } else if table == "settings"@ {
        Some(Seq::empty())
    } else if table == "activities"@ {
        Some(seq![("object"@, "STRING"@), ("record_id"@, "STRING"@), ("activity_id"@, "STRING"@)])
    } else if table == "attachments"@ {
        Some(seq![("object"@, "STRING"@), ("record_id"@, "STRING"@), ("attachment_id"@, "STRING"@)])
    } else if table == "runs"@ {
        Some(seq![("finished_at"@, "TIMESTAMP"@), ("status"@, "STRING"@), ("resources"@, "JSON"@)])
    } else {
        None
    }
}

/// Whether there is a table of that name.
pub open spec fn known_table(table: Seq<char>) -> bool {
    own_columns(table) is Some
}

/// The columns that every table begins with.
pub open spec fn base_columns() -> Seq<(Seq<char>, Seq<char>)> {
    seq![("run_id"@, "STRING"@), ("snapshot_at"@, "TIMESTAMP"@)]
}

/// All columns of a table: the common ones, its own, and the payload, which the ledger of runs
/// has none of.
pub open spec fn table_columns(table: Seq<char>) -> Seq<(Seq<char>, Seq<char>)> {
    let own = base_columns() + own_columns(table).unwrap();
    if table == "runs"@ {
        own
    } else {
        own.push(("data"@, "JSON"@))
    }
}

/// How long the partitions of a table stay. The ledger of runs says which snapshots are complete
/// and never expires.
pub open spec fn table_expiration(table: Seq<char>, expiration_days: Option<u32>) -> Option<u32> {
    if table == "runs"@ {
        None
    } else {
        expiration_days
    }
}

/// Whether `table` is one that `spec_for` knows the shape of.
pub fn is_known_table(table: &str) -> (r: bool)
    ensures
        r == known_table(table@),
{
    starts_with(table, "records_") || same(table, "schemas") || same(table, "lists") || same(
        table,
        "list_rows",
    ) || same(table, "users") || same(table, "workflows") || same(table, "settings") || same(
        table,
        "activities",
    ) || same(table, "attachments") || same(table, "runs")
}

/// The shape of a table.
pub fn spec_for(table: &str, expiration_days: Option<u32>) -> (r: TableSpec)
    requires
        known_table(table@),
    ensures
        r.name@ == table@,
        columns(r.columns@) == table_columns(table@),
        r.partition_expiration_days == table_expiration(table@, expiration_days),
{
    let mut cols: Vec<Column> = Vec::new();
    assert(columns(cols@) =~= Seq::empty());
    add_column(&mut cols, "run_id", "STRING");
    add_column(&mut cols, "snapshot_at", "TIMESTAMP");
    let ledger = same(table, "runs");
    if starts_with(table, "records_") {
        add_column(&mut cols, "record_id", "STRING");
        add_column(&mut cols, "object", "STRING");
    } else if same(table, "schemas") {
        add_column(&mut cols, "object", "STRING");
    } else if same(table, "lists") {
        add_column(&mut cols, "list_id", "STRING");
        add_column(&mut cols, "object", "STRING");
    } else if same(table, "list_rows") {
        add_column(&mut cols, "list_id", "STRING");
        add_column(&mut cols, "object", "STRING");
        add_column(&mut cols, "record_id", "STRING");
    } else if same(table, "users") || same(table, "workflows") {
        add_column(&mut cols, "id", "STRING");
    } else if same(table, "settings") {
    } else if same(table, "activities") {
        add_column(&mut cols, "object", "STRING");
        add_column(&mut cols, "record_id", "STRING");
        add_column(&mut cols, "activity_id", "STRING");
    } else if same(table, "attachments") {
        add_column(&mut cols, "object", "STRING");
        add_column(&mut cols, "record_id", "STRING");
        add_column(&mut cols, "attachment_id", "STRING");
    } else {
        add_column(&mut cols, "finished_at", "TIMESTAMP");
        add_column(&mut cols, "status", "STRING");
        add_column(&mut cols, "resources", "JSON");
    }
    assert(columns(cols@) =~= base_columns() + own_columns(table@).unwrap());
    if !ledger {
        add_column(&mut cols, "data", "JSON");
    }
    TableSpec {
        name: table.to_owned(),
        columns: cols,
        partition_expiration_days: if ledger {
            None
        } else {
            expiration_days
        },
    }
}

/// The ledger of runs never expires, whatever retention is asked for.
pub proof fn law_ledger_never_expires(expiration_days: Option<u32>)
    ensures
        table_expiration("runs"@, expiration_days) is None,
{
}

/// Every table can be filtered and partitioned by run and time: the two columns come first.
pub proof fn law_tables_begin_with_run_and_time(table: Seq<char>)
    requires
        known_table(table),
    ensures
        table_columns(table).take(2) == base_columns(),
{
    assert(table_columns(table).take(2) =~= base_columns());
}

/// The columns of the scratch table of the permission probe.
pub open spec fn check_columns() -> Seq<(Seq<char>, Seq<char>)> {
    base_columns().push(("data"@, "JSON"@))
}

/// The scratch table that the permission probe creates and removes.
pub fn check_table_spec() -> (r: TableSpec)
    ensures
        r.name@ == "_clarify_bq_check"@,
        columns(r.columns@) == check_columns(),
        r.partition_expiration_days == Some(1u32),
{
    let mut cols: Vec<Column> = Vec::new();
    assert(columns(cols@) =~= Seq::empty());
    add_column(&mut cols, "run_id", "STRING");
    add_column(&mut cols, "snapshot_at", "TIMESTAMP");
    add_column(&mut cols, "data", "JSON");
    TableSpec {
        name: "_clarify_bq_check".to_owned(),
        columns: cols,
        partition_expiration_days: Some(1),
    }
}

// ---- the table of each object ----

/// The table that the records of an object go to.
pub open spec fn records_table(slug: Seq<char>) -> Seq<char> {
    "records_"@ + sanitized(slug)
}

/// The slugs of a list of schemas.
pub open spec fn slugs(schemas: Seq<ObjectSchema>) -> Seq<Seq<char>> {
    schemas.map_values(|s: ObjectSchema| s.slug@)
}

/// The slugs and tables of a list of schemas.
pub open spec fn slug_tables(slugs: Seq<Seq<char>>) -> Seq<(Seq<char>, Seq<char>)> {
    slugs.map_values(|s: Seq<char>| (s, records_table(s)))
}

/// What a list of slugs with their tables holds.
pub open spec fn name_pairs(v: Seq<(String, String)>) -> Seq<(Seq<char>, Seq<char>)> {
    v.map_values(|p: (String, String)| (p.0@, p.1@))
}

/// Whether no two of the slugs share a table.
pub open spec fn tables_distinct(slugs: Seq<Seq<char>>) -> bool {
    forall|i: int, j: int|
        0 <= i < j < slugs.len() ==> records_table(#[trigger] slugs[i]) != records_table(
            #[trigger] slugs[j],
        )
}

/// Whether slug `j` is the first that shares its table with an earlier one, and `i` is that one.
pub open spec fn first_clash(slugs: Seq<Seq<char>>, i: int, j: int) -> bool {
    &&& 0 <= i < j < slugs.len()
    &&& records_table(slugs[i]) == records_table(slugs[j])
    &&& tables_distinct(slugs.take(j))
}

/// What is said of two slugs that share a table.
pub open spec fn clash_message(first: Seq<char>, second: Seq<char>) -> Seq<char> {
    "objects "@ + crate::text::quoted(first) + " and "@ + crate::text::quoted(second)
        + " both map to table "@ + crate::text::quoted(records_table(second))
        + " after sanitization; rename one in Clarify or back them up separately"@
}

/// Gives each object its table, and fails as soon as two objects would share one.
pub fn records_table_names(schemas: &[ObjectSchema]) -> (r: Result<Vec<(String, String)>, String>)
    ensures
        match r {
            Ok(names) => tables_distinct(slugs(schemas@)) && name_pairs(names@) == slug_tables(
                slugs(schemas@),
            ),
            Err(e) => exists|i: int, j: int| #[trigger]
                first_clash(slugs(schemas@), i, j) && e@ == clash_message(
                    slugs(schemas@)[i],
                    slugs(schemas@)[j],
                ),
        },
        r is Ok <==> tables_distinct(slugs(schemas@)),
{
    let mut out: Vec<(String, String)> = Vec::new();
    let ghost all = slugs(schemas@);
    let mut j: usize = 0;
    while j < schemas.len()
        invariant
            all == slugs(schemas@),
            j <= schemas@.len(),
            tables_distinct(all.take(j as int)),
            out@.len() == j,
            name_pairs(out@) == slug_tables(all).take(j as int),
        decreases schemas@.len() - j,
    {
        let slug = &schemas[j].slug;
        let mut table = "records_".to_owned();
        table.append(&sanitize(slug));
        assert(all[j as int] == slug@);
        let mut i: usize = 0;
        while i < out.len()
            invariant
                all == slugs(schemas@),
                i <= out@.len(),
                out@.len() == j,
                j < schemas@.len(),
                slug@ == all[j as int],
                table@ == records_table(slug@),
                tables_distinct(all.take(j as int)),
                name_pairs(out@) == slug_tables(all).take(j as int),
                forall|k: int| 0 <= k < i ==> records_table(#[trigger] all[k]) != table@,
            decreases out@.len() - i,
        {
            assert(name_pairs(out@)[i as int] == slug_tables(all)[i as int]);
            assert(out@[i as int].0@ == all[i as int]);
            if same(&out[i].1, &table) {
                let mut e = "objects ".to_owned();
                e.append(&crate::text::quote(&out[i].0));
                e.append(" and ");
                e.append(&crate::text::quote(slug));
                e.append(" both map to table ");
                e.append(&crate::text::quote(&table));
                e.append(" after sanitization; rename one in Clarify or back them up separately");
                assert(first_clash(all, i as int, j as int));
                assert(!tables_distinct(all));
                return Err(e);
            }
            i += 1;
        }
        let ghost had = out@;
        out.push((slug.clone(), table));
        assert(name_pairs(out@) =~= name_pairs(had).push((slug@, table@)));
        assert(name_pairs(out@) =~= slug_tables(all).take(j + 1));
        assert forall|a: int, b: int| 0 <= a < b < j + 1 implies records_table(
            #[trigger] all.take(j + 1)[a],
        ) != records_table(#[trigger] all.take(j + 1)[b]) by {
            if b < j {
                assert(all.take(j as int)[a] == all[a]);
                assert(all.take(j as int)[b] == all[b]);
            } else {
                assert(records_table(all[a]) != records_table(all[b]));
            }
        }
        j += 1;
    }
    assert(all.take(schemas@.len() as int) =~= all);
    assert(slug_tables(all).take(schemas@.len() as int) =~= slug_tables(all));
    Ok(out)
}

/// The table of an object is one that `spec_for` knows.
pub proof fn law_records_tables_are_known(slug: Seq<char>)
    ensures
        known_table(records_table(slug)),
{
    assert(records_table(slug).take("records_"@.len() as int) =~= "records_"@);
}

/// Where the names were given out, the records of two objects never go to one table.
pub proof fn law_objects_never_share_a_table(all: Seq<Seq<char>>, i: int, j: int)
    requires
        tables_distinct(all),
        0 <= i < all.len(),
        0 <= j < all.len(),
        i != j,
    ensures
        slug_tables(all)[i].1 != slug_tables(all)[j].1,
{
    if i < j {
        assert(records_table(all[i]) != records_table(all[j]));
    } else {
        assert(records_table(all[j]) != records_table(all[i]));
    }
}

// ---- what names and shapes come to ----

/// In a slug of ASCII characters each one stays in its place: a letter in lower case, a digit or an
/// underscore as it is, and an underscore for any other.
pub proof fn law_sanitized_slugs_keep_their_characters(slug: Seq<char>, i: int)
    requires
        forall|k: int| 0 <= k < slug.len() ==> (#[trigger] slug[k] as u32) < 128,
        0 <= i < slug.len(),
    ensures
        sanitized(slug).len() == slug.len(),
        'a' <= slug[i] <= 'z' || '0' <= slug[i] <= '9' || slug[i] == '_' ==> sanitized(slug)[i]
            == slug[i],
        'A' <= slug[i] <= 'Z' ==> sanitized(slug)[i] as u32 == slug[i] as u32 + 32,
        !('a' <= slug[i] <= 'z' || '0' <= slug[i] <= '9' || 'A' <= slug[i] <= 'Z' || slug[i] == '_')
            ==> sanitized(slug)[i] == '_',
    decreases slug.len(),
{
    let rest = slug.drop_last();
    let last = slug[slug.len() - 1];
    assert forall|k: int| 0 <= k < rest.len() implies (#[trigger] rest[k] as u32) < 128 by {
        assert(rest[k] == slug[k]);
    }
    assert((last as u32) < 128);
    assert(cleaned(last).len() == 1);
    assert(cleaned(last)[0] == word_or_underscore(ascii_lower(last)));
    if rest.len() == 0 {
        assert(sanitized(rest) =~= Seq::<char>::empty());
        assert(sanitized(slug) =~= cleaned(last));
    } else {
        law_sanitized_slugs_keep_their_characters(rest, if i < rest.len() {
            i
        } else {
            0
        });
        if i < rest.len() {
            assert(rest[i] == slug[i]);
            assert(sanitized(slug)[i] == sanitized(rest)[i]);
        } else {
            assert(sanitized(slug)[i] == cleaned(last)[0]);
        }
    }
}

/// The table of an object is told by its name from all others.
pub proof fn law_records_tables_have_their_prefix(slug: Seq<char>)
    ensures
        records_table(slug) == "records_"@ + sanitized(slug),
        records_table(slug).len() == 8 + sanitized(slug).len(),
{
    reveal_strlit("records_");
    assert("records_"@.len() == 8);
}

/// The tables that there are: one for each object, eight for the other categories, and the ledger.
pub proof fn law_which_tables_there_are(table: Seq<char>)
    ensures
        known_table(table) <==> (exists|name: Seq<char>| table == #[trigger] ("records_"@ + name))
            || table == "schemas"@ || table == "lists"@ || table == "list_rows"@ || table
            == "users"@ || table == "workflows"@ || table == "settings"@ || table == "activities"@
            || table == "attachments"@ || table == "runs"@,
{
    let n = "records_"@.len() as int;
    if has_prefix(table, "records_"@) {
        assert(table =~= "records_"@ + table.skip(n));
    }
    if exists|name: Seq<char>| table == #[trigger] ("records_"@ + name) {
        let name = choose|name: Seq<char>| table == #[trigger] ("records_"@ + name);
        assert(table.take(n) =~= "records_"@);
    }
}

/// Every table but the ledger ends with the payload, which is JSON; every other column is a text,
/// but for the time of the snapshot.
pub proof fn law_payload_column_is_json(table: Seq<char>)
    requires
        known_table(table),
        table != "runs"@,
    ensures
        table_columns(table).last() == ("data"@, "JSON"@),
        table_columns(table)[0] == ("run_id"@, "STRING"@),
        table_columns(table)[1] == ("snapshot_at"@, "TIMESTAMP"@),
        forall|i: int|
            0 <= i < table_columns(table).len() - 1 && i != 1 ==> (#[trigger] table_columns(
                table,
            )[i]).1 == "STRING"@,
{
    let own = own_columns(table).unwrap();
    assert forall|i: int| 0 <= i < own.len() implies (#[trigger] own[i]).1 == "STRING"@ by {
        assert(own.len() <= 3);
    }
    assert forall|i: int| 0 <= i < table_columns(table).len() - 1 && i != 1 implies (
    #[trigger] table_columns(table)[i]).1 == "STRING"@ by {
        if i >= 2 {
            assert(table_columns(table)[i] == own[i - 2]);
        }
    }
}

/// The ledger has the run, its two times, how it ended, and its resources as JSON.
pub proof fn law_ledger_columns()
    ensures
        table_columns("runs"@) == seq![
            ("run_id"@, "STRING"@),
            ("snapshot_at"@, "TIMESTAMP"@),
            ("finished_at"@, "TIMESTAMP"@),
            ("status"@, "STRING"@),
            ("resources"@, "JSON"@),
        ],
{
    reveal_strlit("runs");
    reveal_strlit("records_");
    reveal_strlit("schemas");
    reveal_strlit("lists");
    reveal_strlit("list_rows");
    reveal_strlit("users");
    reveal_strlit("workflows");
    reveal_strlit("settings");
    reveal_strlit("activities");
    reveal_strlit("attachments");
    assert("runs"@.len() == 4 && "records_"@.len() == 8 && "schemas"@.len() == 7 && "lists"@.len()
        == 5 && "list_rows"@.len() == 9 && "users"@.len() == 5 && "workflows"@.len() == 9
        && "settings"@.len() == 8 && "activities"@.len() == 10 && "attachments"@.len() == 11);
    assert(table_columns("runs"@) =~= seq![
        ("run_id"@, "STRING"@),
        ("snapshot_at"@, "TIMESTAMP"@),
        ("finished_at"@, "TIMESTAMP"@),
        ("status"@, "STRING"@),
        ("resources"@, "JSON"@),
    ]);
}

/// The partitions of every table but the ledger stay for as long as is asked for.
pub proof fn law_retention_holds_for_every_other_table(
    table: Seq<char>,
    expiration_days: Option<u32>,
)
    requires
        table != "runs"@,
    ensures
        table_expiration(table, expiration_days) == expiration_days,
{
}

/// Objects are given tables exactly where no two of their slugs come to one name.
pub proof fn law_tables_are_refused_where_names_clash(all: Seq<Seq<char>>)
    ensures
        tables_distinct(all) <==> forall|i: int, j: int|
            0 <= i < j < all.len() ==> sanitized(#[trigger] all[i]) != sanitized(#[trigger] all[j]),
        slug_tables(all).len() == all.len(),
        forall|i: int|
            0 <= i < all.len() ==> #[trigger] slug_tables(all)[i] == (all[i], "records_"@
                + sanitized(all[i])),
{
    let n = "records_"@.len() as int;
    if tables_distinct(all) {
        assert forall|i: int, j: int| 0 <= i < j < all.len() implies sanitized(#[trigger] all[i])
            != sanitized(#[trigger] all[j]) by {
            assert(records_table(all[i]) != records_table(all[j]));
        }
    }
    if forall|i: int, j: int|
        0 <= i < j < all.len() ==> sanitized(#[trigger] all[i]) != sanitized(#[trigger] all[j]) {
        assert forall|i: int, j: int| 0 <= i < j < all.len() implies records_table(
            #[trigger] all[i],
        ) != records_table(#[trigger] all[j]) by {
            assert(records_table(all[i]).skip(n) =~= sanitized(all[i]));
            assert(records_table(all[j]).skip(n) =~= sanitized(all[j]));
        }
    }
}

/// What is said of two objects that would share a table names both, and the table.
pub proof fn law_clashes_name_both_objects(first: Seq<char>, second: Seq<char>)
    ensures
        clash_message(first, second) == "objects "@ + crate::text::quoted(first) + " and "@
            + crate::text::quoted(second) + " both map to table "@ + crate::text::quoted(
            "records_"@ + sanitized(second),
        ) + " after sanitization; rename one in Clarify or back them up separately"@,
{
}

/// The first clash is of two slugs with one name, the later of which is the first to share its name
/// with an earlier one.
pub proof fn law_first_clash_is_the_first(all: Seq<Seq<char>>, i: int, j: int)
    requires
        first_clash(all, i, j),
    ensures
        0 <= i < j < all.len(),
        sanitized(all[i]) == sanitized(all[j]),
        forall|a: int, b: int|
            0 <= a < b < j ==> sanitized(#[trigger] all[a]) != sanitized(#[trigger] all[b]),
{
    let n = "records_"@.len() as int;
    assert(records_table(all[i]).skip(n) =~= sanitized(all[i]));
    assert(records_table(all[j]).skip(n) =~= sanitized(all[j]));
    assert forall|a: int, b: int| 0 <= a < b < j implies sanitized(#[trigger] all[a]) != sanitized(
        #[trigger] all[b],
    ) by {
        assert(all.take(j)[a] == all[a] && all.take(j)[b] == all[b]);
        assert(records_table(all.take(j)[a]) != records_table(all.take(j)[b]));
    }
}

/// The scratch table of the permission probe has the shape of a table with rows of a run.
pub proof fn law_scratch_table_is_like_any_other(table: Seq<char>)
    requires
        known_table(table),
        table != "runs"@,
    ensures
        check_columns().len() == 3,
        check_columns()[0] == table_columns(table)[0],
        check_columns()[1] == table_columns(table)[1],
        check_columns()[2] == table_columns(table).last(),
{
    law_payload_column_is_json(table);
}

/// A character beyond ASCII becomes as many characters as its lower case has, an underscore for each
/// that may not stand in a name; nothing of a slug is dropped.
pub proof fn law_other_characters_become_underscores(a: Seq<char>, c: char, b: Seq<char>, i: int)
    requires
        (c as u32) >= 128,
        0 <= i < unicode_lower(c).len(),
    ensures
        sanitized(a + seq![c] + b) == sanitized(a) + sanitized(seq![c]) + sanitized(b),
        sanitized(seq![c]).len() == unicode_lower(c).len(),
        !is_word(unicode_lower(c)[i]) ==> sanitized(seq![c])[i] == '_',
        'a' <= unicode_lower(c)[i] <= 'z' ==> sanitized(seq![c])[i] == unicode_lower(c)[i],
{
    lemma_sanitized_append(a, seq![c]);
    lemma_sanitized_append(a + seq![c], b);
    reveal_with_fuel(sanitized, 2);
    assert(seq![c].drop_last() =~= Seq::<char>::empty());
    assert(sanitized(seq![c]) =~= cleaned(c));
    assert(lower(c)[i] == ascii_lower(unicode_lower(c)[i]));
    assert(cleaned(c)[i] == word_or_underscore(lower(c)[i]));
}

} // verus!
