//! Paging through record collections, by offset, and through linked collections, by link.

use vstd::prelude::*;
use crate::envelope::LinkedEnvelope;
use crate::error::ClientError;
use crate::http::{full_url, ClarifyClient, GetRequest};
use crate::json::items;
use crate::schemas::{extract, schema_of, schema_views, ObjectSchema, SchemaView};
use crate::text::{copied, decimal, join, joined, maybe_text, show_u64, texts};

verus! {

/// How many records a page is asked to hold.
pub const PAGE_LIMIT: usize = 500;

/// How many items a fetch brought, and how many the server said there are.
#[derive(Debug, Clone, Copy)]
pub struct FetchStats {
    pub fetched: u64,
    pub expected: Option<u64>,
}

/// Whether a fetch brought what the server promised, in the word that the ledger uses.
pub open spec fn consistency_word(fetched: u64, expected: Option<u64>) -> Seq<char> {
    match expected {
        Some(e) => if e != fetched {
            "dirty"@
        } else {
            "clean"@
        },
        None => "clean"@,
    }
}

impl FetchStats {
    /// `dirty` where the server promised another number of items than came, `clean` otherwise.
    pub fn consistency(&self) -> (r: &'static str)
        ensures
            r@ == consistency_word(self.fetched, self.expected),
    {
        match self.expected {
            Some(e) => if e != self.fetched {
                "dirty"
            } else {
                "clean"
            },
            None => "clean",
        }
    }
}

// ---- paths ----

/// Where the records of an object are listed.
pub fn records_path(object: &str) -> (r: String)
    ensures
        r@ == "/objects/"@ + object@ + "/resources"@,
{
    let mut s = "/objects/".to_owned();
    s.append(object);
    s.append("/resources");
    s
}

/// Where the rows of a list are listed.
pub fn list_rows_path(object: &str, list_id: &str) -> (r: String)
    ensures
        r@ == "/objects/"@ + object@ + "/lists/"@ + list_id@ + "/resources"@,
{
    let mut s = "/objects/".to_owned();
    s.append(object);
    s.append("/lists/");
    s.append(list_id);
    s.append("/resources");
    s
}

/// Where a feed of one record is listed.
pub open spec fn feed_path_text(object: Seq<char>, record_id: Seq<char>, kind: Seq<char>) -> Seq<
    char,
> {
    "/objects/"@ + object + "/records/"@ + record_id + "/"@ + kind
}

/// Where a feed of one record, its activities or its attachments, is listed.
pub fn feed_path(object: &str, record_id: &str, kind: &str) -> (r: String)
    ensures
        r@ == feed_path_text(object@, record_id@, kind@),
{
    let mut s = "/objects/".to_owned();
    s.append(object);
    s.append("/records/");
    s.append(record_id);
    s.append("/");
    s.append(kind);
    s
}

/// The part of a query that asks for related records.
pub open spec fn include_text(related: Seq<Seq<char>>) -> Seq<char> {
    if related.len() == 0 {
        Seq::empty()
    } else {
        "&include="@ + joined(related, ","@)
    }
}

/// The query for the page that begins at an offset, oldest records first.
pub open spec fn page_query(path: Seq<char>, related: Seq<Seq<char>>, offset: u64) -> Seq<char> {
    path + "?page[limit]=500&page[offset]="@ + decimal(offset as nat)
        + "&sortOrder[column]=_created_at&sortOrder[dir]=ASC"@ + include_text(related)
}

// ---- paging by offset ----

/// A scan through a record collection.
#[derive(Debug)]
pub struct PageScan {
    pub path: String,
    pub related: Vec<String>,
    pub fetched: u64,
    pub expected: Option<u64>,
    pub done: bool,
}

/// What the server has promised, after a page that may say so anew.
pub open spec fn promised(total: Option<u64>, before: Option<u64>) -> Option<u64> {
    match total {
        Some(t) => Some(t),
        None => before,
    }
}

/// Whether a scan ends with a page of `n` items: with an empty one, or with a short one once
/// everything that the server promised has come. A short page alone ends nothing, since the
/// server may hold its pages shorter than asked.
pub open spec fn scan_ends(n: int, fetched: int, expected: Option<u64>) -> bool {
    n == 0 || (n < PAGE_LIMIT && match expected {
        Some(e) => fetched >= e,
        None => true,
    })
}

impl PageScan {
    /// A scan from the beginning.
    pub fn start(path: &str, related: &Vec<String>) -> (r: PageScan)
        ensures
            r.path@ == path@,
            texts(r.related@) == texts(related@),
            r.fetched == 0,
            r.expected is None,
            !r.done,
    {
        PageScan {
            path: path.to_owned(),
            related: copied(related),
            fetched: 0,
            expected: None,
            done: false,
        }
    }

    /// The query for the next page: it begins right behind the items that have come, however many
    /// were asked for.
    pub fn query(&self) -> (r: String)
        ensures
            r@ == page_query(self.path@, texts(self.related@), self.fetched),
    {
        let mut s = self.path.clone();
        s.append("?page[limit]=500&page[offset]=");
        s.append(&show_u64(self.fetched));
        s.append("&sortOrder[column]=_created_at&sortOrder[dir]=ASC");
        let ghost bare = s@;
        if self.related.len() > 0 {
            let mut i = "&include=".to_owned();
            i.append(&join(&self.related, ","));
            s.append(&i);
        } else {
            assert(bare + Seq::<char>::empty() =~= bare);
        }
        s
    }

    /// Takes in a page of `n` items that says there are `total` in all.
    pub fn page(&mut self, n: usize, total: Option<u64>)
        requires
            old(self).fetched + n <= u64::MAX,
        ensures
            final(self).path == old(self).path,
            final(self).related == old(self).related,
            final(self).fetched == old(self).fetched + n,
            final(self).expected == promised(total, old(self).expected),
            final(self).done == scan_ends(
                n as int,
                old(self).fetched + n,
                promised(total, old(self).expected),
            ),
    {
        self.expected = match total {
            Some(t) => Some(t),
            None => self.expected,
        };
        self.fetched = self.fetched + n as u64;
        let all_came = match self.expected {
            Some(e) => self.fetched >= e,
            None => true,
        };
        self.done = n == 0 || (n < PAGE_LIMIT && all_came);
    }

    /// What the scan brought.
    pub fn stats(&self) -> (r: FetchStats)
        ensures
            r.fetched == self.fetched,
            r.expected == self.expected,
    {
        FetchStats { fetched: self.fetched, expected: self.expected }
    }
}

/// The number of items that a run of pages brought.
pub open spec fn pages_total(pages: Seq<(nat, Option<u64>)>) -> nat
    decreases pages.len(),
{
    if pages.len() == 0 {
        0
    } else {
        pages_total(pages.drop_last()) + pages.last().0
    }
}

/// What the server had promised after a run of pages.
pub open spec fn pages_promised(pages: Seq<(nat, Option<u64>)>) -> Option<u64>
    decreases pages.len(),
{
    if pages.len() == 0 {
        None
    } else {
        promised(pages.last().1, pages_promised(pages.drop_last()))
    }
}

/// Whether a scan went through exactly these pages, from the first request to the end: each page
/// but the last left it going, and the last ended it.
pub open spec fn scanned(pages: Seq<(nat, Option<u64>)>) -> bool {
    &&& pages.len() > 0
    &&& forall|k: int| 1 <= k < pages.len() ==> !#[trigger] ends_after(pages, k)
    &&& ends_after(pages, pages.len() as int)
}

/// Whether a scan ends with the `k`-th of its pages.
pub open spec fn ends_after(pages: Seq<(nat, Option<u64>)>, k: int) -> bool {
    scan_ends(
        pages[k - 1].0 as int,
        pages_total(pages.take(k)) as int,
        pages_promised(pages.take(k)),
    )
}

/// A scan that ends with items on its last page has brought everything that the server promised:
/// nothing is dropped because the server clamps its pages. Where less came, the last page was
/// empty and the fetch is reported as dirty.
pub proof fn law_scan_drops_no_tail(pages: Seq<(nat, Option<u64>)>)
    requires
        scanned(pages),
        pages_total(pages) <= u64::MAX,
    ensures
        pages.last().0 > 0 ==> match pages_promised(pages) {
            Some(e) => pages_total(pages) >= e,
            None => true,
        },
        pages_promised(pages) matches Some(e) ==> (pages_total(pages) < e ==> pages.last().0 == 0
            && consistency_word(pages_total(pages) as u64, pages_promised(pages)) == "dirty"@),
{
    assert(pages.take(pages.len() as int) =~= pages);
}

// ---- paging by link ----

/// A scan through a linked collection.
#[derive(Debug)]
pub struct LinkedScan {
    pub next: Option<String>,
    pub fetched: u64,
}

fn copied_link(next: &Option<String>) -> (r: Option<String>)
    ensures
        r == *next,
{
    match next {
        Some(s) => Some(s.clone()),
        None => None,
    }
}

impl LinkedScan {
    /// A scan that begins at a path.
    pub fn start(path: &str) -> (r: LinkedScan)
        ensures
            maybe_text(r.next) == Some(path@),
            r.fetched == 0,
    {
        LinkedScan { next: Some(path.to_owned()), fetched: 0 }
    }

    /// Takes in a page. The scan goes on at the page's link, and is over where it has none.
    pub fn page(&mut self, env: &LinkedEnvelope)
        requires
            old(self).fetched + env.data@.len() <= u64::MAX,
        ensures
            final(self).fetched == old(self).fetched + env.data@.len(),
            final(self).next == env.links.next,
    {
        self.fetched = self.fetched + env.data.len() as u64;
        self.next = copied_link(&env.links.next);
    }

    /// What the scan brought. A linked collection promises no number.
    pub fn stats(&self) -> (r: FetchStats)
        ensures
            r.fetched == self.fetched,
            r.expected is None,
    {
        FetchStats { fetched: self.fetched, expected: None }
    }
}

/// A scan through the schemas of a workspace.
#[derive(Debug)]
pub struct SchemaScan {
    pub found: Vec<ObjectSchema>,
    pub next: Option<String>,
}

/// Whether the schemas are those that the documents say, one for one.
pub open spec fn schemas_of(docs: Seq<crate::json::JsonView>, found: Seq<SchemaView>) -> bool {
    found.len() == docs.len() && forall|i: int|
        0 <= i < docs.len() ==> schema_of(#[trigger] docs[i], #[trigger] found[i])
}

/// Page by page no schema is missed and none is counted twice: where the schemas found so far are
/// those of the documents so far, and those of a page are those of its documents, so it is with
/// both together.
pub proof fn law_schema_pages_add_up(
    docs: Seq<crate::json::JsonView>,
    found: Seq<SchemaView>,
    page: Seq<crate::json::JsonView>,
    more: Seq<SchemaView>,
)
    requires
        schemas_of(docs, found),
        schemas_of(page, more),
    ensures
        schemas_of(docs + page, found + more),
{
    let (d, f) = (docs + page, found + more);
    assert forall|i: int| 0 <= i < d.len() implies schema_of(#[trigger] d[i], #[trigger] f[i]) by {
        if i < docs.len() {
            assert(d[i] == docs[i] && f[i] == found[i]);
        } else {
            assert(d[i] == page[i - docs.len()] && f[i] == more[i - found.len()]);
        }
    }
}

impl SchemaScan {
    /// A scan from the first page.
    pub fn start() -> (r: SchemaScan)
        ensures
            r.found@.len() == 0,
            maybe_text(r.next) == Some("/schemas"@),
    {
        SchemaScan { found: Vec::new(), next: Some("/schemas".to_owned()) }
    }

    /// Takes in a page: one schema for each of its documents, behind those found before. The scan
    /// goes on at the page's link, so that no later page is missed.
    pub fn page(&mut self, env: &LinkedEnvelope)
        ensures
            schema_views(final(self).found@).take(old(self).found@.len() as int) == schema_views(
                old(self).found@,
            ),
            schemas_of(
                items(env.data@),
                schema_views(final(self).found@).skip(old(self).found@.len() as int),
            ),
            final(self).found@.len() == old(self).found@.len() + env.data@.len(),
            forall|docs: Seq<crate::json::JsonView>| #[trigger]
                schemas_of(docs, schema_views(old(self).found@)) ==> schemas_of(
                    docs + items(env.data@),
                    schema_views(final(self).found@),
                ),
            final(self).next == env.links.next,
    {
        let ghost had = schema_views(self.found@);
        let ghost base = self.found@.len();
        let mut i: usize = 0;
        assert(had.skip(base as int) =~= Seq::empty());
        assert(had.take(base as int) =~= had);
        while i < env.data.len()
            invariant
                i <= env.data@.len(),
                base == had.len(),
                base == old(self).found@.len(),
                had == schema_views(old(self).found@),
                self.found@.len() == base + i,
                schema_views(self.found@).take(base as int) == had,
                schemas_of(
                    items(env.data@).take(i as int),
                    schema_views(self.found@).skip(base as int),
                ),
            decreases env.data@.len() - i,
        {
            let ghost before = schema_views(self.found@);
            let s = extract(&env.data[i]);
            self.found.push(s);
            proof {
                let after = schema_views(self.found@);
                assert(after =~= before.push(s@));
                assert(after.take(base as int) =~= before.take(base as int));
                assert(after.skip(base as int) =~= before.skip(base as int).push(s@));
                let docs = items(env.data@).take(i + 1);
                assert forall|k: int| 0 <= k < docs.len() implies schema_of(
                    #[trigger] docs[k],
                    #[trigger] after.skip(base as int)[k],
                ) by {
                    if k < i {
                        assert(items(env.data@).take(i as int)[k] == docs[k]);
                        assert(before.skip(base as int)[k] == after.skip(base as int)[k]);
                    }
                }
            }
            i += 1;
        }
        assert(items(env.data@).take(env.data@.len() as int) =~= items(env.data@));
        proof {
            let now = schema_views(self.found@);
            let more = now.skip(base as int);
            assert(now =~= had + more);
            assert forall|docs: Seq<crate::json::JsonView>| #[trigger]
                schemas_of(docs, had) implies schemas_of(docs + items(env.data@), now) by {
                law_schema_pages_add_up(docs, had, items(env.data@), more);
            }
        }
        self.next = copied_link(&env.links.next);
    }

    /// Ends the scan: with all schemas once there is no further page, or with the failure of a page,
    /// and then with none of them.
    pub fn finish(self, failure: Option<ClientError>) -> (r: Result<Vec<ObjectSchema>, ClientError>)
        requires
            failure is None ==> self.next is None,
        ensures
            match failure {
                None => r == Ok::<Vec<ObjectSchema>, ClientError>(self.found),
                Some(e) => r == Err::<Vec<ObjectSchema>, ClientError>(e),
            },
    {
        match failure {
            None => Ok(self.found),
            Some(e) => Err(e),
        }
    }
}

// ---- what a client fetches ----

impl ClarifyClient {
    /// The records of an object, each with its related records.
    pub fn fetch_records(&self, object: &str, related: &Vec<String>) -> (r: PageScan)
        ensures
            r.path@ == "/objects/"@ + object@ + "/resources"@,
            texts(r.related@) == texts(related@),
            r.fetched == 0,
            r.expected is None,
            !r.done,
    {
        self.fetch_resources_at(&records_path(object), related)
    }

    /// The collection at a path.
    pub fn fetch_resources_at(&self, path: &str, related: &Vec<String>) -> (r: PageScan)
        ensures
            r.path@ == path@,
            texts(r.related@) == texts(related@),
            r.fetched == 0,
            r.expected is None,
            !r.done,
    {
        PageScan::start(path, related)
    }

    /// The linked collection at a path.
    pub fn fetch_linked(&self, path: &str) -> (r: LinkedScan)
        ensures
            maybe_text(r.next) == Some(path@),
            r.fetched == 0,
    {
        LinkedScan::start(path)
    }

    /// The settings of the workspace: one document, no collection.
    pub fn fetch_settings(&self) -> (r: GetRequest)
        ensures
            r.url@ == full_url(self.base@, self.workspace@, "/settings"@),
            r.attempts == 0,
    {
        self.get_json("/settings")
    }

    /// The rows of a list.
    pub fn fetch_list_rows(&self, object: &str, list_id: &str) -> (r: PageScan)
        ensures
            r.path@ == "/objects/"@ + object@ + "/lists/"@ + list_id@ + "/resources"@,
            texts(r.related@) == Seq::<Seq<char>>::empty(),
            r.fetched == 0,
            r.expected is None,
            !r.done,
    {
        let none: Vec<String> = Vec::new();
        assert(texts(none@) =~= Seq::<Seq<char>>::empty());
        self.fetch_resources_at(&list_rows_path(object, list_id), &none)
    }

    /// The activities of a record.
    pub fn fetch_record_activities(&self, object: &str, record_id: &str) -> (r: LinkedScan)
        ensures
            maybe_text(r.next) == Some(feed_path_text(object@, record_id@, "activities"@)),
            r.fetched == 0,
    {
        self.fetch_linked(&feed_path(object, record_id, "activities"))
    }

    /// The attachments of a record.
    pub fn fetch_record_attachments(&self, object: &str, record_id: &str) -> (r: LinkedScan)
        ensures
            maybe_text(r.next) == Some(feed_path_text(object@, record_id@, "attachments"@)),
            r.fetched == 0,
    {
        self.fetch_linked(&feed_path(object, record_id, "attachments"))
    }

    /// The schemas of the workspace.
    pub fn fetch_schemas(&self) -> (r: SchemaScan)
        ensures
            r.found@.len() == 0,
            maybe_text(r.next) == Some("/schemas"@),
    {
        SchemaScan::start()
    }
}

// ---- what is asked for ----

/// The query for a page asks for pages of at most 500 records, for the records behind the first so
/// many, and for the oldest first. Where there are related names, it ends by asking for all of
/// them, separated by commas; where there are none, it asks for nothing more.
pub proof fn law_query_asks_for_the_page(path: Seq<char>, related: Seq<Seq<char>>, offset: u64)
    ensures
        ({
            let bare = path + "?page[limit]=500&page[offset]="@ + decimal(offset as nat)
                + "&sortOrder[column]=_created_at&sortOrder[dir]=ASC"@;
            let query = page_query(path, related, offset);
            &&& related.len() == 0 ==> query == bare
            &&& related.len() > 0 ==> query.len() >= bare.len() + "&include="@.len() && query.take(
                (bare.len() + "&include="@.len()) as int,
            ) == bare + "&include="@ && query.skip((bare.len() + "&include="@.len()) as int)
                == joined(related, ","@)
        }),
{
    let bare = path + "?page[limit]=500&page[offset]="@ + decimal(offset as nat)
        + "&sortOrder[column]=_created_at&sortOrder[dir]=ASC"@;
    let query = page_query(path, related, offset);
    if related.len() == 0 {
        assert(query =~= bare);
    } else {
        let n = (bare.len() + "&include="@.len()) as int;
        assert(query =~= bare + "&include="@ + joined(related, ","@));
        assert(query.take(n) =~= bare + "&include="@);
        assert(query.skip(n) =~= joined(related, ","@));
    }
}

/// However many related names there are, from one on, splitting what the query has behind
/// `&include=` at its commas gives back exactly these names, in their order.
pub proof fn law_query_asks_for_every_relation(
    path: Seq<char>,
    related: Seq<Seq<char>>,
    offset: u64,
) -> (rest: Seq<char>)
    requires
        related.len() > 0,
        forall|i: int| 0 <= i < related.len() ==> !(#[trigger] related[i]).contains(','),
    ensures
        page_query(path, related, offset) == path + "?page[limit]=500&page[offset]="@ + decimal(
            offset as nat,
        ) + "&sortOrder[column]=_created_at&sortOrder[dir]=ASC"@ + "&include="@ + rest,
        crate::text::parts(rest, ',') == related,
{
    let rest = joined(related, ","@);
    reveal_strlit(",");
    assert(","@ =~= seq![',']);
    crate::text::law_splitting_undoes_joining(related, ',');
    let bare = path + "?page[limit]=500&page[offset]="@ + decimal(offset as nat)
        + "&sortOrder[column]=_created_at&sortOrder[dir]=ASC"@;
    assert(bare + ("&include="@ + rest) =~= bare + "&include="@ + rest);
    rest
}

/// Under a path without a query of its own, `&include=` is in the query exactly where there is a
/// related name.
pub proof fn law_query_asks_for_relations_only_where_there_are_any(
    path: Seq<char>,
    related: Seq<Seq<char>>,
    offset: u64,
)
    requires
        !path.contains('&'),
    ensures
        crate::text::occurs(page_query(path, related, offset), "&include="@) <==> related.len() > 0,
{
    let first = "?page[limit]=500&page[offset]="@;
    let number = decimal(offset as nat);
    let second = "&sortOrder[column]=_created_at&sortOrder[dir]=ASC"@;
    let bare = path + first + number + second;
    let mark = "&include="@;
    let query = page_query(path, related, offset);
    let n = bare.len() as int;
    reveal_strlit("&include=");
    assert(mark.len() == 9 && mark[0] == '&' && mark[1] == 'i');
    if related.len() > 0 {
        law_query_asks_for_the_page(path, related, offset);
        assert(query.subrange(n, n + 9) =~= mark) by {
            assert forall|i: int| 0 <= i < 9 implies query.subrange(n, n + 9)[i] == mark[i] by {
                assert(query.take(n + 9)[n + i] == (bare + mark)[n + i]);
            }
        }
        assert(crate::text::occurs_at(query, mark, n));
    } else {
        assert(query =~= bare);
        if crate::text::occurs(query, mark) {
            let i = choose|i: int| crate::text::occurs_at(query, mark, i);
            assert(query.subrange(i, i + 9)[0] == query[i]);
            assert(query.subrange(i, i + 9)[1] == query[i + 1]);
            assert(bare[i] == '&' && bare[i + 1] == 'i');
            let a = path.len() as int;
            let b = a + first.len();
            let c = b + number.len();
            reveal_strlit("?page[limit]=500&page[offset]=");
            reveal_strlit("&sortOrder[column]=_created_at&sortOrder[dir]=ASC");
            if i < a {
                assert(path[i] == '&');
            } else if i < b {
                assert(first[i - a] == '&');
                assert(i - a == 16);
                assert(first[17] == 'p');
            } else if i < c {
                crate::text::lemma_decimal_digits(offset as nat);
                assert(crate::text::is_digit(number[i - b]));
            } else {
                assert(second[i - c] == '&');
                assert(i - c == 0 || i - c == 30);
                assert(second[1] == 's' && second[31] == 's');
            }
        }
    }
}

/// Pages that begin at different places are asked for differently.
pub proof fn law_pages_are_asked_for_once(
    path: Seq<char>,
    related: Seq<Seq<char>>,
    a: u64,
    b: u64,
)
    requires
        page_query(path, related, a) == page_query(path, related, b),
    ensures
        a == b,
{
    let first = path + "?page[limit]=500&page[offset]="@;
    let second = "&sortOrder[column]=_created_at&sortOrder[dir]=ASC"@ + include_text(related);
    let (x, y) = (decimal(a as nat), decimal(b as nat));
    let n = first.len() as int;
    assert(page_query(path, related, a) =~= first + x + second);
    assert(page_query(path, related, b) =~= first + y + second);
    assert(x.len() == y.len());
    assert((first + x + second).subrange(n, n + x.len()) =~= x);
    assert((first + y + second).subrange(n, n + y.len()) =~= y);
    crate::text::lemma_decimal_injective(a as nat, b as nat);
}

/// What ends a scan: an empty page, or one of fewer than 500 items once as many have come as the
/// server last promised, or once it has promised no number. A full page ends none.
pub proof fn law_what_ends_a_scan(n: int, fetched: int, expected: Option<u64>)
    requires
        n >= 0,
    ensures
        n == 0 ==> scan_ends(n, fetched, expected),
        n >= 500 ==> !scan_ends(n, fetched, expected),
        0 < n < 500 && expected is None ==> scan_ends(n, fetched, expected),
        0 < n < 500 && expected is Some ==> (scan_ends(n, fetched, expected) <==> fetched
            >= expected->Some_0),
{
}

/// A fetch is dirty exactly where the server promised another number of items than came.
pub proof fn law_dirty_means_another_number(fetched: u64, expected: Option<u64>)
    ensures
        consistency_word(fetched, expected) == "dirty"@ <==> expected is Some && expected->Some_0
            != fetched,
        consistency_word(fetched, expected) == "clean"@ <==> expected is None || expected->Some_0
            == fetched,
{
    reveal_strlit("dirty");
    reveal_strlit("clean");
    assert("dirty"@[0] == 'd' && "clean"@[0] == 'c');
}

/// The last number that the server promised is the one that counts.
pub proof fn law_last_promise_counts(total: Option<u64>, before: Option<u64>)
    ensures
        total is Some ==> promised(total, before) == total,
        total is None ==> promised(total, before) == before,
{
}

/// The feeds of different records have different paths, wherever no slug and no identifier has a
/// slash in it.
pub proof fn law_feed_paths_differ(
    object: Seq<char>,
    record_id: Seq<char>,
    kind: Seq<char>,
)
    requires
        !object.contains('/'),
        !record_id.contains('/'),
        !kind.contains('/'),
    ensures
        crate::text::parts(feed_path_text(object, record_id, kind), '/') == seq![
            Seq::<char>::empty(),
            "objects"@,
            object,
            "records"@,
            record_id,
            kind,
        ],
{
    reveal_strlit("/objects/");
    reveal_strlit("/records/");
    reveal_strlit("/");
    reveal_strlit("objects");
    reveal_strlit("records");
    let list = seq![Seq::<char>::empty(), "objects"@, object, "records"@, record_id, kind];
    assert forall|i: int| 0 <= i < list.len() implies !(#[trigger] list[i]).contains('/') by {
        if i == 1 {
            assert(!"objects"@.contains('/'));
        } else if i == 3 {
            assert(!"records"@.contains('/'));
        }
    }
    crate::text::law_splitting_undoes_joining(list, '/');
    let sep = seq!['/'];
    let l5 = list.drop_last();
    let l4 = l5.drop_last();
    let l3 = l4.drop_last();
    let l2 = l3.drop_last();
    let l1 = l2.drop_last();
    reveal_with_fuel(joined, 6);
    assert(l5 =~= seq![Seq::<char>::empty(), "objects"@, object, "records"@, record_id]);
    assert(joined(l1, sep) =~= Seq::<char>::empty());
    assert("/objects/"@ =~= sep + "objects"@ + sep);
    assert("/records/"@ =~= sep + "records"@ + sep);
    assert("/"@ =~= sep);
    assert(joined(l2, sep) =~= sep + "objects"@);
    assert(joined(l3, sep) =~= "/objects/"@ + object);
    assert(joined(l4, sep) =~= "/objects/"@ + object + sep + "records"@);
    assert(joined(l5, sep) =~= "/objects/"@ + object + "/records/"@ + record_id);
    assert(joined(list, sep) =~= feed_path_text(object, record_id, kind));
}

/// A feed is asked for under its object and its record.
pub proof fn law_feed_paths_lead_to_records(
    object: Seq<char>,
    record_id: Seq<char>,
    kind: Seq<char>,
)
    ensures
        feed_path_text(object, record_id, kind) == "/objects/"@ + object + ("/records/"@ + record_id)
            + ("/"@ + kind),
{
    assert(feed_path_text(object, record_id, kind) =~= "/objects/"@ + object + ("/records/"@
        + record_id) + ("/"@ + kind));
}

} // verus!
