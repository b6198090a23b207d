//! The fetch of linked collections and of the rows of lists, page by page into one file each.

use vstd::prelude::*;
use crate::envelope::{LinkedEnvelope, ResourcesEnvelope};
use crate::error::{client_error_text, ClientError};
use crate::fetch::{
    is_not_there, list_refs, lists_to_fetch, not_there, note_lists, queryable_lists,
};
use crate::json::items;
use crate::orchestrate::linked_path;
use crate::plan::{category_name, Category};
use crate::records::{list_rows_path, promised, scan_ends, LinkedScan, PageScan};
use crate::rows::{item_lines, lines_read_back, FetchCtx, RowKind, RowView};
use crate::schemas::ObjectSchema;
use crate::spool::{RunSpool, SpoolWriter};
use crate::tables::name_pairs;
use crate::text::{maybe_text, texts};

verus! {

// ---- linked collections ----

/// The fetch of a linked collection: the lists, the users or the workflows. Of the lists it notes
/// which object and which identifier each has.
#[derive(Debug)]
pub struct LinkedFetch {
    pub category: Category,
    pub scan: LinkedScan,
    pub writer: SpoolWriter,
    pub lists: Vec<(String, String)>,
}

/// What the items of a linked collection are rows of.
pub open spec fn linked_rows(category: Category) -> RowView {
    if category == Category::Lists {
        RowView::List
    } else {
        RowView::Identified
    }
}

impl FetchCtx {
    /// Begins to fetch a linked collection into the file of its name; the other categories are none.
    pub fn fetch_linked(&self, spool: &RunSpool, category: Category) -> (r: Option<LinkedFetch>)
        ensures
            match r {
                Some(f) => {
                    &&& f.wf()
                    &&& f.category == category
                    &&& match category {
                        Category::Users => maybe_text(f.scan.next) == Some("/users"@),
                        Category::Workflows => maybe_text(f.scan.next) == Some("/workflows"@),
                        Category::Lists => maybe_text(f.scan.next) == Some("/lists"@),
                        _ => false,
                    }
                    &&& f.scan.fetched == 0
                    &&& f.writer.file@ == category_name(category) + ".ndjson"@
                    &&& f.lists@.len() == 0
                },
                None => category != Category::Users && category != Category::Workflows && category
                    != Category::Lists,
            },
    {
        match linked_path(category) {
            Some(path) => Some(
                LinkedFetch {
                    category,
                    scan: LinkedScan::start(path),
                    writer: spool.writer(category.name()),
                    lists: Vec::new(),
                },
            ),
            None => None,
        }
    }
}

impl LinkedFetch {
    /// Whether every item that counts has its line in the file, and every list is noted.
    pub open spec fn wf(&self) -> bool {
        &&& self.writer.rows == self.scan.fetched
        &&& self.category == Category::Lists ==> self.lists@.len() == self.scan.fetched
    }

    /// Takes in a page: a line for each item, in their order. The fetch goes on at the page's link.
    pub fn page(&mut self, ctx: &FetchCtx, env: &LinkedEnvelope) -> (r: Vec<String>)
        requires
            old(self).wf(),
            old(self).scan.fetched + env.data@.len() <= u64::MAX,
        ensures
            final(self).wf(),
            final(self).category == old(self).category,
            final(self).writer.file == old(self).writer.file,
            final(self).scan.fetched == old(self).scan.fetched + env.data@.len(),
            final(self).scan.next == env.links.next,
            texts(r@) == item_lines(*ctx, linked_rows(old(self).category), items(env.data@)),
            lines_read_back(*ctx, linked_rows(old(self).category), items(env.data@)),
            name_pairs(final(self).lists@) == if old(self).category == Category::Lists {
                name_pairs(old(self).lists@) + list_refs(items(env.data@))
            } else {
                name_pairs(old(self).lists@)
            },
    {
        let lists = self.category == Category::Lists;
        if lists {
            note_lists(&mut self.lists, &env.data);
            assert(name_pairs(self.lists@).len() == self.lists@.len());
            assert(name_pairs(old(self).lists@).len() == old(self).lists@.len());
        }
        self.scan.page(env);
        let kind = if lists {
            RowKind::List
        } else {
            RowKind::Identified
        };
        ctx.write_items(&mut self.writer, &kind, &env.data)
    }

    /// What the fetch came to: the number of its items once there is no further page, or why there
    /// are none.
    pub fn finish(self, result: Result<(), String>) -> (r: Result<u64, String>)
        requires
            result is Ok ==> self.scan.next is None,
        ensures
            match result {
                Ok(_) => r == Ok::<u64, String>(self.scan.fetched),
                Err(e) => r == Err::<u64, String>(e),
            },
    {
        match result {
            Ok(()) => Ok(self.scan.fetched),
            Err(e) => Err(e),
        }
    }
}

// ---- the rows of lists ----

/// The rows of lists, one list after the other.
#[derive(Debug)]
pub struct ListRowsRun {
    pub lists: Vec<(String, String)>,
    pub at: usize,
    pub scan: Option<PageScan>,
    pub writer: SpoolWriter,
    pub count: u64,
    pub failure: Option<String>,
}

/// Where the rows of a list are.
pub open spec fn list_address(list: (String, String)) -> Seq<char> {
    "/objects/"@ + list.0@ + "/lists/"@ + list.1@ + "/resources"@
}

/// What the rows of a list are rows of.
pub open spec fn list_rows_of(list: (String, String)) -> RowView {
    RowView::ListRow { list_id: list.1@, object: list.0@ }
}

/// Whether a run has just begun with the list that it is at, or is through.
pub open spec fn begun(run: ListRowsRun) -> bool {
    match run.scan {
        Some(s) => s.fetched == 0 && s.expected is None,
        None => run.at == run.lists@.len(),
    }
}

fn start_scan(lists: &Vec<(String, String)>, at: usize) -> (r: Option<PageScan>)
    requires
        at <= lists@.len(),
    ensures
        match r {
            Some(s) => {
                &&& at < lists@.len()
                &&& s.path@ == list_address(lists@[at as int])
                &&& s.related@.len() == 0
                &&& s.fetched == 0
                &&& s.expected is None
                &&& !s.done
            },
            None => at == lists@.len(),
        },
{
    if at >= lists.len() {
        return None;
    }
    let none: Vec<String> = Vec::new();
    let s = PageScan::start(&list_rows_path(&lists[at].0, &lists[at].1), &none);
    assert(texts(s.related@).len() == texts(none@).len());
    Some(s)
}

impl FetchCtx {
    /// Begins to fetch the rows of the lists whose objects have records of their own.
    pub fn fetch_list_rows(
        &self,
        spool: &RunSpool,
        lists: &Vec<(String, String)>,
        schemas: &Vec<ObjectSchema>,
    ) -> (r: ListRowsRun)
        ensures
            r.wf(),
            begun(r),
            name_pairs(r.lists@) == queryable_lists(name_pairs(lists@), schemas@),
            r.at == 0,
            r.count == 0,
            r.failure is None,
            r.writer.file@ == "list_rows"@ + ".ndjson"@,
            r.writer.rows == 0,
    {
        let lists = lists_to_fetch(lists, schemas);
        let scan = start_scan(&lists, 0);
        ListRowsRun {
            lists,
            at: 0,
            scan,
            writer: spool.writer("list_rows"),
            count: 0,
            failure: None,
        }
    }
}

impl ListRowsRun {
    /// Whether the run is in order: unless it failed, it is at one of its lists or through with all,
    /// and no row counts that has no line in the file.
    pub open spec fn wf(&self) -> bool {
        &&& self.at <= self.lists@.len()
        &&& match self.scan {
            Some(s) => {
                &&& self.failure is None
                &&& self.at < self.lists@.len()
                &&& s.path@ == list_address(self.lists@[self.at as int])
                &&& s.related@.len() == 0
                &&& !s.done
                &&& self.count + s.fetched <= self.writer.rows
            },
            None => self.count <= self.writer.rows && (self.failure is None ==> self.at
                == self.lists@.len()),
        }
    }

    /// The scan whose page is next; none once every list is through or one failed.
    pub fn next(&self) -> (r: Option<&PageScan>)
        ensures
            r is Some <==> self.scan is Some,
            r matches Some(s) ==> Some(*s) == self.scan,
    {
        match &self.scan {
            Some(s) => Some(s),
            None => None,
        }
    }

    /// Takes in a page of the list that the run is at: a line for each row. A list that is through
    /// counts, and the next one follows.
    pub fn page(&mut self, ctx: &FetchCtx, env: &ResourcesEnvelope) -> (r: Vec<String>)
        requires
            old(self).wf(),
            old(self).scan is Some,
            old(self).writer.rows + env.data@.len() <= u64::MAX,
        ensures
            final(self).wf(),
            final(self).lists == old(self).lists,
            final(self).failure is None,
            final(self).writer.file == old(self).writer.file,
            final(self).writer.rows == old(self).writer.rows + env.data@.len(),
            texts(r@) == item_lines(
                *ctx,
                list_rows_of(old(self).lists@[old(self).at as int]),
                items(env.data@),
            ),
            lines_read_back(
                *ctx,
                list_rows_of(old(self).lists@[old(self).at as int]),
                items(env.data@),
            ),
            ({
                let s = old(self).scan->Some_0;
                let n = env.data@.len();
                let expected = promised(env.meta.total_records, s.expected);
                if scan_ends(n as int, s.fetched + n, expected) {
                    &&& final(self).count == old(self).count + s.fetched + n
                    &&& final(self).at == old(self).at + 1
                    &&& begun(*final(self))
                } else {
                    &&& final(self).count == old(self).count
                    &&& final(self).at == old(self).at
                    &&& final(self).scan matches Some(t) && t.fetched == s.fetched + n
                        && t.expected == expected
                }
            }),
    {
        assert(self.at < self.lists.len());
        let kind = RowKind::ListRow {
            list_id: self.lists[self.at].1.as_str(),
            object: self.lists[self.at].0.as_str(),
        };
        let lines = ctx.write_items(&mut self.writer, &kind, &env.data);
        let mut scan: Option<PageScan> = None;
        std::mem::swap(&mut scan, &mut self.scan);
        if let Some(mut s) = scan {
            s.page(env.data.len(), env.meta.total_records);
            if s.done {
                self.count = self.count + s.fetched;
                self.at = self.at + 1;
                self.scan = start_scan(&self.lists, self.at);
            } else {
                self.scan = Some(s);
            }
        }
        lines
    }

    /// Takes a failure of the list that the run is at. A list that cannot be asked is passed over,
    /// and does not count; any other failure ends the run.
    pub fn failed(&mut self, e: &ClientError)
        requires
            old(self).wf(),
            old(self).scan is Some,
        ensures
            final(self).wf(),
            final(self).lists == old(self).lists,
            final(self).writer == old(self).writer,
            final(self).count == old(self).count,
            if not_there(*e) {
                &&& final(self).failure is None
                &&& final(self).at == old(self).at + 1
                &&& begun(*final(self))
            } else {
                &&& maybe_text(final(self).failure) == Some(client_error_text(*e))
                &&& final(self).at == old(self).at
                &&& final(self).scan is None
            },
    {
        assert(self.at < self.lists.len());
        if is_not_there(e) {
            self.at = self.at + 1;
            self.scan = start_scan(&self.lists, self.at);
        } else {
            self.failure = Some(e.message());
            self.scan = None;
        }
    }

    /// What the rows came to: their number, once every list is through, or why there are none.
    pub fn finish(self, spooled: Result<(), String>) -> (r: Result<u64, String>)
        requires
            spooled is Ok ==> self.scan is None,
        ensures
            r == match spooled {
                Err(e) => Err::<u64, String>(e),
                Ok(_) => match self.failure {
                    Some(e) => Err::<u64, String>(e),
                    None => Ok::<u64, String>(self.count),
                },
            },
    {
        match spooled {
            Err(e) => Err(e),
            Ok(()) => match self.failure {
                Some(e) => Err(e),
                None => Ok(self.count),
            },
        }
    }
}

/// The items of the lists are rows of lists, and users and workflows are rows by their own
/// identifier; the rows of a list are asked for under its object and its identifier, and name both.
pub proof fn law_what_flat_rows_are(category: Category, list: (String, String))
    ensures
        linked_rows(Category::Lists) == RowView::List,
        category != Category::Lists ==> linked_rows(category) == RowView::Identified,
        list_address(list) == "/objects/"@ + list.0@ + "/lists/"@ + list.1@ + "/resources"@,
        list_rows_of(list) == (RowView::ListRow { list_id: list.1@, object: list.0@ }),
{
}

} // verus!
