//! The ledger of runs: what each resource came to, how a run ended as a whole, and how it compares
//! with the one before.

use vstd::prelude::*;
use crate::json::{
    array, at, fields, found_text, items, json_parse, lemma_earlier, lemma_found_at,
    lemma_neighbours_ordered,
    no_fields, object, plain, put, text, Json, JsonView, MAX_DEPTH,
};
use crate::text::{
    decimal, has_prefix, same, show_u64, sorted, sorted_from, starts_with, text_le, texts,
};

verus! {

/// What became of one resource in one run.
#[derive(Debug)]
pub struct ResourceOutcome {
    pub resource: String,
    pub table: String,
    /// `ok`, `failed` or `skipped`.
    pub status: String,
    pub count: u64,
    pub expected: Option<u64>,
    /// `clean`, `dirty` or `n/a`.
    pub consistency: String,
    pub error: Option<String>,
    pub fetch_started_at: String,
    pub fetch_ended_at: String,
}

impl Clone for ResourceOutcome {
    fn clone(&self) -> (r: Self)
        ensures
            r == *self,
    {
        ResourceOutcome {
            resource: self.resource.clone(),
            table: self.table.clone(),
            status: self.status.clone(),
            count: self.count,
            expected: self.expected,
            consistency: self.consistency.clone(),
            error: match &self.error {
                Some(e) => Some(e.clone()),
                None => None,
            },
            fetch_started_at: self.fetch_started_at.clone(),
            fetch_ended_at: self.fetch_ended_at.clone(),
        }
    }
}

impl ResourceOutcome {
    /// Whether this is the outcome of an object's records.
    pub fn is_records(&self) -> (r: bool)
        ensures
            r == has_prefix(self.table@, "records_"@),
    {
        starts_with(&self.table, "records_")
    }
}

// ---- the run as a whole ----

/// Whether a resource failed.
pub open spec fn failed(o: ResourceOutcome) -> bool {
    o.status@ == "failed"@
}

/// Whether the records of some object failed.
pub open spec fn records_failed(outcomes: Seq<ResourceOutcome>) -> bool {
    exists|i: int|
        0 <= i < outcomes.len() && failed(#[trigger] outcomes[i]) && has_prefix(
            outcomes[i].table@,
            "records_"@,
        )
}

/// Whether some resource failed.
pub open spec fn any_failed(outcomes: Seq<ResourceOutcome>) -> bool {
    exists|i: int| 0 <= i < outcomes.len() && failed(#[trigger] outcomes[i])
}

/// How a run ended: failed where the records of some object did, partial where only something
/// else did, complete otherwise.
pub open spec fn status_word(outcomes: Seq<ResourceOutcome>) -> Seq<char> {
    if records_failed(outcomes) {
        "failed"@
    } else if any_failed(outcomes) {
        "partial"@
    } else {
        "complete"@
    }
}

/// How a run ended.
pub fn overall_status(outcomes: &[ResourceOutcome]) -> (r: &'static str)
    ensures
        r@ == status_word(outcomes@),
{
    let mut partial = false;
    let mut i: usize = 0;
    while i < outcomes.len()
        invariant
            i <= outcomes@.len(),
            forall|k: int|
                0 <= k < i && failed(#[trigger] outcomes@[k]) ==> partial && !has_prefix(
                    outcomes@[k].table@,
                    "records_"@,
                ),
            partial ==> any_failed(outcomes@),
        decreases outcomes@.len() - i,
    {
        if same(&outcomes[i].status, "failed") {
            assert(failed(outcomes@[i as int]));
            if outcomes[i].is_records() {
                return "failed";
            }
            partial = true;
        }
        i += 1;
    }
    if partial {
        "partial"
    } else {
        "complete"
    }
}

/// A run in which nothing failed is complete, whatever was skipped.
pub proof fn law_skipped_resources_leave_a_run_complete(outcomes: Seq<ResourceOutcome>)
    requires
        forall|i: int|
            0 <= i < outcomes.len() ==> (#[trigger] outcomes[i]).status@ == "ok"@
                || outcomes[i].status@ == "skipped"@,
    ensures
        status_word(outcomes) == "complete"@,
{
    reveal_strlit("ok");
    reveal_strlit("skipped");
    reveal_strlit("failed");
    assert("ok"@[0] != "failed"@[0]);
    assert("skipped"@[0] != "failed"@[0]);
}

// ---- counts by resource ----

/// The map that a list of counts stands for.
pub open spec fn count_map(entries: Seq<(String, u64)>) -> Map<Seq<char>, u64>
    decreases entries.len(),
{
    if entries.len() == 0 {
        Map::empty()
    } else {
        count_map(entries.drop_last()).insert(entries.last().0@, entries.last().1)
    }
}

/// Whether no resource is counted twice.
pub open spec fn counted_once(entries: Seq<(String, u64)>) -> bool {
    forall|i: int, j: int|
        0 <= i < j < entries.len() ==> (#[trigger] entries[i]).0@ != (#[trigger] entries[j]).0@
}

/// A count for each of some resources.
#[derive(Debug)]
pub struct Counts {
    entries: Vec<(String, u64)>,
}

impl View for Counts {
    type V = Map<Seq<char>, u64>;

    closed spec fn view(&self) -> Map<Seq<char>, u64> {
        count_map(self.entries@)
    }
}

proof fn lemma_count_at(entries: Seq<(String, u64)>, i: int)
    requires
        counted_once(entries),
        0 <= i < entries.len(),
    ensures
        count_map(entries).contains_key(entries[i].0@),
        count_map(entries)[entries[i].0@] == entries[i].1,
    decreases entries.len(),
{
    if i < entries.len() - 1 {
        assert(entries[i].0@ != entries[entries.len() - 1].0@);
        lemma_count_at(entries.drop_last(), i);
        assert(entries.drop_last()[i] == entries[i]);
    }
}

proof fn lemma_count_key(entries: Seq<(String, u64)>, key: Seq<char>) -> (i: int)
    requires
        count_map(entries).contains_key(key),
    ensures
        0 <= i < entries.len(),
        entries[i].0@ == key,
    decreases entries.len(),
{
    if entries.last().0@ == key {
        entries.len() - 1
    } else {
        lemma_count_key(entries.drop_last(), key)
    }
}

proof fn lemma_count_update(entries: Seq<(String, u64)>, i: int, e: (String, u64))
    requires
        counted_once(entries),
        0 <= i < entries.len(),
        e.0@ == entries[i].0@,
    ensures
        count_map(entries.update(i, e)) == count_map(entries).insert(e.0@, e.1),
    decreases entries.len(),
{
    let now = entries.update(i, e);
    if i == entries.len() - 1 {
        assert(now.drop_last() =~= entries.drop_last());
        assert(count_map(now) =~= count_map(entries).insert(e.0@, e.1));
    } else {
        assert(entries[i].0@ != entries[entries.len() - 1].0@);
        lemma_count_update(entries.drop_last(), i, e);
        assert(now.drop_last() =~= entries.drop_last().update(i, e));
        assert(now.last() == entries.last());
        assert(count_map(now) =~= count_map(entries).insert(e.0@, e.1));
    }
}

impl Counts {
    /// Whether no resource is counted twice.
    #[verifier::type_invariant]
    spec fn wf(&self) -> bool {
        counted_once(self.entries@)
    }

    /// No counts.
    pub fn new() -> (r: Self)
        ensures
            r@ == Map::<Seq<char>, u64>::empty(),
    {
        Counts { entries: Vec::new() }
    }

    /// The count of a resource.
    pub fn get(&self, resource: &str) -> (r: Option<&u64>)
        ensures
            r is Some <==> self@.contains_key(resource@),
            r matches Some(n) ==> *n == self@[resource@],
    {
        proof {
            use_type_invariant(self);
        }
        let mut i: usize = 0;
        while i < self.entries.len()
            invariant
                i <= self.entries@.len(),
                counted_once(self.entries@),
                forall|k: int| 0 <= k < i ==> (#[trigger] self.entries@[k]).0@ != resource@,
            decreases self.entries@.len() - i,
        {
            if same(&self.entries[i].0, resource) {
                proof {
                    lemma_count_at(self.entries@, i as int);
                }
                return Some(&self.entries[i].1);
            }
            i += 1;
        }
        proof {
            if self@.contains_key(resource@) {
                let k = lemma_count_key(self.entries@, resource@);
            }
        }
        None
    }

    /// Whether a resource is counted.
    pub fn contains_key(&self, resource: &str) -> (r: bool)
        ensures
            r == self@.contains_key(resource@),
    {
        self.get(resource).is_some()
    }

    /// Counts a resource; a count that it had before is given up.
    pub fn insert(&mut self, resource: &str, count: u64)
        ensures
            final(self)@ == old(self)@.insert(resource@, count),
    {
        proof {
            use_type_invariant(&*self);
        }
        let ghost had = self.entries@;
        let mut entries: Vec<(String, u64)> = Vec::new();
        std::mem::swap(&mut entries, &mut self.entries);
        let mut i: usize = 0;
        while i < entries.len()
            invariant
                i <= entries@.len(),
                entries@ == had,
                counted_once(had),
                old(self)@ == count_map(had),
                forall|k: int| 0 <= k < i ==> (#[trigger] had[k]).0@ != resource@,
            decreases entries@.len() - i,
        {
            if same(&entries[i].0, resource) {
                let entry = (resource.to_owned(), count);
                entries.set(i, entry);
                proof {
                    lemma_count_update(had, i as int, entry);
                    assert(entries@ == had.update(i as int, entry));
                    assert(counted_once(entries@));
                }
                self.entries = entries;
                return;
            }
            i += 1;
        }
        entries.push((resource.to_owned(), count));
        assert(entries@.drop_last() =~= had);
        self.entries = entries;
    }
}

// ---- comparing with the run before ----

/// A resource that two runs have in common, with its count before and now.
#[derive(Debug)]
pub struct Compared {
    pub resource: String,
    pub before: u64,
    pub now: u64,
}

/// Whether a resource can be compared: it is in both runs, and was not empty before. What only one
/// run covers has another scope, which is no shrinkage.
pub open spec fn comparable(
    prev: Map<Seq<char>, u64>,
    curr: Map<Seq<char>, u64>,
    resource: Seq<char>,
) -> bool {
    prev.contains_key(resource) && prev[resource] > 0 && curr.contains_key(resource)
}

/// Whether the list has each resource that can be compared once, with its two counts, and nothing
/// else.
pub open spec fn comparison(
    prev: Map<Seq<char>, u64>,
    curr: Map<Seq<char>, u64>,
    list: Seq<Compared>,
) -> bool {
    &&& forall|i: int|
        0 <= i < list.len() ==> comparable(prev, curr, (#[trigger] list[i]).resource@)
            && list[i].before == prev[list[i].resource@] && list[i].now
            == curr[list[i].resource@]
    &&& forall|i: int, j: int|
        0 <= i < j < list.len() ==> (#[trigger] list[i]).resource@ != (
        #[trigger] list[j]).resource@
    &&& forall|k: Seq<char>| #[trigger]
        comparable(prev, curr, k) ==> exists|i: int|
            0 <= i < list.len() && (#[trigger] list[i]).resource@ == k
}

/// The resources that two runs have in common.
#[verifier::spinoff_prover]
#[verifier::rlimit(40)]
pub fn shrink_candidates(prev: &Counts, curr: &Counts) -> (r: Vec<Compared>)
    ensures
        comparison(prev@, curr@, r@),
{
    proof {
        use_type_invariant(prev);
    }
    let mut out: Vec<Compared> = Vec::new();
    let mut i: usize = 0;
    while i < prev.entries.len()
        invariant
            i <= prev.entries@.len(),
            counted_once(prev.entries@),
            prev@ == count_map(prev.entries@),
            forall|j: int|
                0 <= j < out@.len() ==> comparable(prev@, curr@, (#[trigger] out@[j]).resource@)
                    && out@[j].before == prev@[out@[j].resource@] && out@[j].now
                    == curr@[out@[j].resource@],
            forall|j: int|
                0 <= j < out@.len() ==> exists|k: int|
                    0 <= k < i && (#[trigger] prev.entries@[k]).0@ == (
                    #[trigger] out@[j]).resource@,
            forall|j: int, k: int|
                0 <= j < k < out@.len() ==> (#[trigger] out@[j]).resource@ != (
                #[trigger] out@[k]).resource@,
            forall|k: int|
                0 <= k < i && comparable(prev@, curr@, (#[trigger] prev.entries@[k]).0@)
                    ==> exists|j: int|
                    0 <= j < out@.len() && (#[trigger] out@[j]).resource@
                        == prev.entries@[k].0@,
        decreases prev.entries@.len() - i,
    {
        let before: u64 = prev.entries[i].1;
        let ghost key = prev.entries@[i as int].0@;
        let ghost had = out@;
        proof {
            lemma_count_at(prev.entries@, i as int);
        }
        if before > 0 {
            if let Some(now) = curr.get(&prev.entries[i].0) {
                assert forall|j: int| 0 <= j < had.len() implies (
                #[trigger] had[j]).resource@ != key by {
                    let k = choose|k: int|
                        0 <= k < i && (#[trigger] prev.entries@[k]).0@ == had[j].resource@;
                    assert(prev.entries@[k].0@ != prev.entries@[i as int].0@);
                }
                out.push(Compared { resource: prev.entries[i].0.clone(), before, now: *now });
                assert(out@.last().resource@ == key);
                assert(out@[had.len() as int].resource@ == prev.entries@[i as int].0@);
            }
        }
        assert(had.len() <= out@.len() && out@.take(had.len() as int) =~= had);
        assert forall|k: int|
            0 <= k < i + 1 && comparable(
                prev@,
                curr@,
                (#[trigger] prev.entries@[k]).0@,
            ) implies exists|j: int|
            0 <= j < out@.len() && (#[trigger] out@[j]).resource@ == prev.entries@[k].0@ by {
            if k < i {
                let j = choose|j: int|
                    0 <= j < had.len() && (#[trigger] had[j]).resource@ == prev.entries@[k].0@;
                assert(out@[j] == had[j]);
            } else {
                assert(out@[had.len() as int].resource@ == prev.entries@[k].0@);
            }
        }
        assert forall|j: int| 0 <= j < out@.len() implies exists|k: int|
            0 <= k < i + 1 && (#[trigger] prev.entries@[k]).0@ == (
            #[trigger] out@[j]).resource@ by {
            if j < had.len() {
                assert(out@[j] == had[j]);
                let k = choose|k: int|
                    0 <= k < i && (#[trigger] prev.entries@[k]).0@ == had[j].resource@;
                assert(prev.entries@[k].0@ == out@[j].resource@);
            } else {
                assert(prev.entries@[i as int].0@ == out@[j].resource@);
            }
        }
        i += 1;
    }
    proof {
        assert forall|k: Seq<char>| #[trigger] comparable(prev@, curr@, k) implies exists|
            j: int,
        |
            0 <= j < out@.len() && (#[trigger] out@[j]).resource@ == k by {
            let e = lemma_count_key(prev.entries@, k);
            assert(comparable(prev@, curr@, prev.entries@[e].0@));
        }
    }
    out
}

/// What is said of a resource that shrank too much.
pub open spec fn violation(d: Compared, percent: Seq<char>, threshold: Seq<char>) -> Seq<char> {
    d.resource@ + ": "@ + decimal(d.before as nat) + " -> "@ + decimal(d.now as nat) + " ("@
        + percent + "% drop exceeds "@ + threshold + "%)"@
}

/// What is said of the resources that shrank too much, in their order. A resource that did has its
/// drop shown in percent; any other has nothing shown.
pub open spec fn violations(
    drops: Seq<Compared>,
    shown: Seq<Option<String>>,
    threshold: Seq<char>,
) -> Seq<Seq<char>>
    decreases drops.len(),
{
    if drops.len() == 0 || shown.len() != drops.len() {
        Seq::empty()
    } else {
        let before = violations(drops.drop_last(), shown.drop_last(), threshold);
        match shown.last() {
            Some(percent) => before.push(violation(drops.last(), percent@, threshold)),
            None => before,
        }
    }
}

/// What is said of the resources that shrank too much, sorted. Each drop that counts as too much
/// comes with its percentage.
pub fn shrink_violations(drops: &Vec<Compared>, shown: &Vec<Option<String>>, threshold: &str) -> (r:
    Vec<String>)
    requires
        drops@.len() == shown@.len(),
    ensures
        sorted_from(texts(r@), violations(drops@, shown@, threshold@)),
{
    let mut out: Vec<String> = Vec::new();
    let mut i: usize = 0;
    assert(texts(out@) =~= violations(drops@.take(0), shown@.take(0), threshold@));
    while i < drops.len()
        invariant
            i <= drops@.len(),
            drops@.len() == shown@.len(),
            texts(out@) == violations(
                drops@.take(i as int),
                shown@.take(i as int),
                threshold@,
            ),
        decreases drops@.len() - i,
    {
        let ghost had = out@;
        assert(drops@.take(i + 1).drop_last() =~= drops@.take(i as int));
        assert(shown@.take(i + 1).drop_last() =~= shown@.take(i as int));
        if let Some(percent) = &shown[i] {
            let mut s = drops[i].resource.clone();
            s.append(": ");
            s.append(&show_u64(drops[i].before));
            s.append(" -> ");
            s.append(&show_u64(drops[i].now));
            s.append(" (");
            s.append(percent);
            s.append("% drop exceeds ");
            s.append(threshold);
            s.append("%)");
            out.push(s);
            assert(texts(out@) =~= texts(had).push(s@));
        }
        i += 1;
    }
    assert(drops@.take(drops@.len() as int) =~= drops@);
    assert(shown@.take(shown@.len() as int) =~= shown@);
    sorted(out)
}

// ---- the row of a run ----

/// An optional number as a document.
pub open spec fn optional_number(n: Option<u64>) -> JsonView {
    match n {
        Some(x) => JsonView::Unsigned(x),
        None => JsonView::Null,
    }
}

/// An optional text as a document.
pub open spec fn optional_text(s: Option<String>) -> JsonView {
    match s {
        Some(x) => JsonView::Text(x@),
        None => JsonView::Null,
    }
}

/// The document of an outcome.
pub open spec fn outcome_document(o: ResourceOutcome) -> JsonView {
    JsonView::Object(
        fields().push(("consistency"@, JsonView::Text(o.consistency@))).push(
            ("count"@, JsonView::Unsigned(o.count)),
        ).push(("error"@, optional_text(o.error))).push(
            ("expected"@, optional_number(o.expected)),
        ).push(("fetch_ended_at"@, JsonView::Text(o.fetch_ended_at@))).push(
            ("fetch_started_at"@, JsonView::Text(o.fetch_started_at@)),
        ).push(("resource"@, JsonView::Text(o.resource@))).push(
            ("status"@, JsonView::Text(o.status@)),
        ).push(("table"@, JsonView::Text(o.table@))),
    )
}

/// The documents of all outcomes.
pub open spec fn outcome_documents(outcomes: Seq<ResourceOutcome>) -> Seq<JsonView> {
    outcomes.map_values(|o: ResourceOutcome| outcome_document(o))
}

/// The document of one outcome.
fn outcome_json(o: &ResourceOutcome) -> (r: Json)
    ensures
        r@ == outcome_document(*o),
{
    let mut m = no_fields();
    put(&mut m, "consistency", text(&o.consistency));
    put(&mut m, "count", Json::Unsigned(o.count));
    put(
        &mut m,
        "error",
        match &o.error {
            Some(e) => text(e),
            None => Json::Null,
        },
    );
    put(
        &mut m,
        "expected",
        match o.expected {
            Some(n) => Json::Unsigned(n),
            None => Json::Null,
        },
    );
    put(&mut m, "fetch_ended_at", text(&o.fetch_ended_at));
    put(&mut m, "fetch_started_at", text(&o.fetch_started_at));
    put(&mut m, "resource", text(&o.resource));
    put(&mut m, "status", text(&o.status));
    put(&mut m, "table", text(&o.table));
    object(m)
}

/// The documents of all outcomes, as one array.
pub fn outcomes_json(outcomes: &[ResourceOutcome]) -> (r: Json)
    ensures
        r@ == JsonView::Array(outcome_documents(outcomes@)),
{
    let mut out: Vec<Json> = Vec::new();
    let mut i: usize = 0;
    let ghost want = outcome_documents(outcomes@);
    while i < outcomes.len()
        invariant
            i <= outcomes@.len(),
            want == outcome_documents(outcomes@),
            items(out@) == want.take(i as int),
        decreases outcomes@.len() - i,
    {
        let ghost had = out@;
        let doc = outcome_json(&outcomes[i]);
        out.push(doc);
        assert(items(out@) =~= items(had).push(doc@));
        assert(want[i as int] == outcome_document(outcomes@[i as int]));
        i += 1;
        assert(items(out@) =~= want.take(i as int));
    }
    assert(want.take(outcomes@.len() as int) =~= want);
    array(out)
}

/// A row of the ledger.
pub open spec fn ledger_row(
    run_id: Seq<char>,
    snapshot_at: Seq<char>,
    finished_at: Seq<char>,
    status: Seq<char>,
    resources: JsonView,
) -> JsonView {
    JsonView::Object(
        fields().push(("finished_at"@, JsonView::Text(finished_at))).push(
            ("resources"@, resources),
        ).push(("run_id"@, JsonView::Text(run_id))).push(
            ("snapshot_at"@, JsonView::Text(snapshot_at)),
        ).push(("status"@, JsonView::Text(status))),
    )
}

/// A row of the ledger.
pub fn ledger_row_json(
    run_id: &str,
    snapshot_at: &str,
    finished_at: &str,
    status: &str,
    resources: Json,
) -> (r: Json)
    ensures
        r@ == ledger_row(run_id@, snapshot_at@, finished_at@, status@, resources@),
{
    let mut m = no_fields();
    put(&mut m, "finished_at", text(finished_at));
    put(&mut m, "resources", resources);
    put(&mut m, "run_id", text(run_id));
    put(&mut m, "snapshot_at", text(snapshot_at));
    put(&mut m, "status", text(status));
    object(m)
}

/// The row of a run, which makes its snapshot count.
pub fn runs_row(
    run_id: &str,
    snapshot_at: &str,
    finished_at: &str,
    status: &str,
    outcomes: &[ResourceOutcome],
) -> (r: Json)
    ensures
        r@ == ledger_row(
            run_id@,
            snapshot_at@,
            finished_at@,
            status@,
            JsonView::Array(outcome_documents(outcomes@)),
        ),
{
    ledger_row_json(run_id, snapshot_at, finished_at, status, outcomes_json(outcomes))
}

// ---- the counts of the run before ----

/// The query for the resources of the newest complete run.
pub open spec fn prev_run_query(project: Seq<char>, dataset: Seq<char>) -> Seq<char> {
    "SELECT TO_JSON_STRING(resources) FROM `"@ + project + "."@ + dataset
        + ".runs` WHERE status = 'complete' ORDER BY snapshot_at DESC LIMIT 1"@
}

/// The query for the resources of the newest complete run.
pub fn prev_run_sql(project: &str, dataset: &str) -> (r: String)
    ensures
        r@ == prev_run_query(project@, dataset@),
{
    let mut s = "SELECT TO_JSON_STRING(resources) FROM `".to_owned();
    s.append(project);
    s.append(".");
    s.append(dataset);
    s.append(".runs` WHERE status = 'complete' ORDER BY snapshot_at DESC LIMIT 1");
    s
}

/// The resource and count that a document counts, where it is of a resource that came through.
pub open spec fn counted(item: JsonView) -> Option<(Seq<char>, u64)> {
    if at(item, "status"@) != JsonView::Text("ok"@) {
        None
    } else {
        match (at(item, "resource"@), at(item, "count"@)) {
            (JsonView::Text(s), JsonView::Unsigned(n)) => Some((s, n)),
            _ => None,
        }
    }
}

/// The counts that a list of documents says.
pub open spec fn document_counts(list: Seq<JsonView>) -> Map<Seq<char>, u64>
    decreases list.len(),
{
    if list.len() == 0 {
        Map::empty()
    } else {
        let before = document_counts(list.drop_last());
        match counted(list.last()) {
            Some((s, n)) => before.insert(s, n),
            None => before,
        }
    }
}

/// The counts that the resources of a run say: none where they are no list.
pub open spec fn resource_counts(resources: Option<JsonView>) -> Map<Seq<char>, u64> {
    match resources {
        Some(JsonView::Array(list)) => document_counts(list),
        _ => Map::empty(),
    }
}

/// The counts that the resources of a run say.
pub fn counts_of(resources: &Json) -> (r: Counts)
    ensures
        r@ == resource_counts(Some(resources@)),
{
    broadcast use crate::json::lemma_array_view;

    let mut out = Counts::new();
    match resources {
        Json::Array(list) => {
            let ghost all = items(list@);
            let mut i: usize = 0;
            assert(all.take(0) =~= Seq::empty());
            while i < list.len()
                invariant
                    i <= list@.len(),
                    all == items(list@),
                    out@ == document_counts(all.take(i as int)),
                decreases list@.len() - i,
            {
                let item = &list[i];
                assert(all.take(i + 1).drop_last() =~= all.take(i as int));
                assert(all.take(i + 1).last() == item@);
                let ok = match item.get("status") {
                    Some(s) => s.is_text("ok"),
                    None => false,
                };
                if ok {
                    if let Some(resource) = found_text(item.get("resource")) {
                        let count = match item.get("count") {
                            Some(n) => n.as_u64(),
                            None => None,
                        };
                        if let Some(n) = count {
                            out.insert(resource, n);
                        }
                    }
                }
                i += 1;
            }
            assert(all.take(list@.len() as int) =~= all);
        },
        _ => {},
    }
    out
}

/// The counts that the resources of a run say, as they come back from the query; none where the
/// text is no list of resources.
pub fn parse_prev_counts(resources_json: &str) -> (r: Counts)
    ensures
        r@ == resource_counts(json_parse(resources_json@)),
{
    match Json::parse(resources_json) {
        Some(doc) => counts_of(&doc),
        None => Counts::new(),
    }
}

/// The counts of the resources that came through.
pub open spec fn ok_counts(outcomes: Seq<ResourceOutcome>) -> Map<Seq<char>, u64>
    decreases outcomes.len(),
{
    if outcomes.len() == 0 {
        Map::empty()
    } else {
        let before = ok_counts(outcomes.drop_last());
        let o = outcomes.last();
        if o.status@ == "ok"@ {
            before.insert(o.resource@, o.count)
        } else {
            before
        }
    }
}

/// The counts of the resources that came through in this run.
pub fn current_counts(outcomes: &[ResourceOutcome]) -> (r: Counts)
    ensures
        r@ == ok_counts(outcomes@),
{
    let mut out = Counts::new();
    let mut i: usize = 0;
    assert(outcomes@.take(0) =~= Seq::empty());
    while i < outcomes.len()
        invariant
            i <= outcomes@.len(),
            out@ == ok_counts(outcomes@.take(i as int)),
        decreases outcomes@.len() - i,
    {
        assert(outcomes@.take(i + 1).drop_last() =~= outcomes@.take(i as int));
        if same(&outcomes[i].status, "ok") {
            out.insert(&outcomes[i].resource, outcomes[i].count);
        }
        i += 1;
    }
    assert(outcomes@.take(outcomes@.len() as int) =~= outcomes@);
    out
}

proof fn lemma_outcome_counted(o: ResourceOutcome)
    ensures
        counted(outcome_document(o)) == if o.status@ == "ok"@ {
            Some((o.resource@, o.count))
        } else {
            None
        },
{
    reveal_strlit("consistency");
    reveal_strlit("count");
    reveal_strlit("error");
    reveal_strlit("expected");
    reveal_strlit("fetch_ended_at");
    reveal_strlit("fetch_started_at");
    reveal_strlit("resource");
    reveal_strlit("status");
    reveal_with_fuel(crate::json::find_member, 9);
    let m = outcome_document(o)->Object_0;
    assert("consistency"@.len() == 11 && "count"@.len() == 5 && "error"@.len() == 5);
    assert("count"@[0] == 'c' && "error"@[0] == 'e');
    assert("resource"@[0] == 'r' && "resource"@.len() == 8);
    assert("expected"@[0] == 'e' && "expected"@.len() == 8);
    assert("status"@.len() == 6);
    assert("fetch_ended_at"@.len() == 14 && "fetch_started_at"@.len() == 16);
    let m1 = m.drop_first();
    let m2 = m1.drop_first();
    let m3 = m2.drop_first();
    let m4 = m3.drop_first();
    let m5 = m4.drop_first();
    let m6 = m5.drop_first();
    let m7 = m6.drop_first();
    assert(m1[0] == m[1] && m2[0] == m[2] && m3[0] == m[3] && m4[0] == m[4] && m5[0] == m[5]
        && m6[0] == m[6] && m7[0] == m[7]);
}

/// What a run writes into the ledger is what the next one compares itself with: wherever the
/// resources come back as they were written, the counts read out of them are those of the
/// resources that came through.
pub proof fn law_next_run_reads_what_was_written(text: Seq<char>, outcomes: Seq<ResourceOutcome>)
    requires
        json_parse(text) == Some(JsonView::Array(outcome_documents(outcomes))),
    ensures
        resource_counts(json_parse(text)) == ok_counts(outcomes),
{
    lemma_documents_count(outcomes);
}

proof fn lemma_documents_count(outcomes: Seq<ResourceOutcome>)
    ensures
        document_counts(outcome_documents(outcomes)) == ok_counts(outcomes),
    decreases outcomes.len(),
{
    if outcomes.len() > 0 {
        lemma_documents_count(outcomes.drop_last());
        let docs = outcome_documents(outcomes);
        assert(docs.drop_last() =~= outcome_documents(outcomes.drop_last()));
        assert(docs.last() == outcome_document(outcomes.last()));
        lemma_outcome_counted(outcomes.last());
    }
}

/// The row of a run can be read again out of its line as what it was.
pub proof fn law_ledger_rows_are_plain(
    run_id: Seq<char>,
    snapshot_at: Seq<char>,
    finished_at: Seq<char>,
    status: Seq<char>,
    outcomes: Seq<ResourceOutcome>,
)
    ensures
        plain(
            ledger_row(
                run_id,
                snapshot_at,
                finished_at,
                status,
                JsonView::Array(outcome_documents(outcomes)),
            ),
            MAX_DEPTH as nat,
        ),
{
    reveal_strlit("finished_at");
    reveal_strlit("resources");
    reveal_strlit("run_id");
    reveal_strlit("snapshot_at");
    reveal_strlit("status");
    let depth = (MAX_DEPTH - 1) as nat;
    let docs = outcome_documents(outcomes);
    assert forall|i: int| 0 <= i < docs.len() implies plain(
        #[trigger] docs[i],
        (depth - 1) as nat,
    ) by {
        lemma_outcome_plain(outcomes[i], (depth - 1) as nat);
    }
    assert(plain(JsonView::Array(docs), depth));
    let row = ledger_row(run_id, snapshot_at, finished_at, status, JsonView::Array(docs));
    let m = row->Object_0;
    lemma_earlier("finished_at"@, "resources"@, 0);
    lemma_earlier("resources"@, "run_id"@, 1);
    lemma_earlier("run_id"@, "snapshot_at"@, 0);
    lemma_earlier("snapshot_at"@, "status"@, 1);
    assert forall|i: int| #![trigger m[i]] 0 <= i < m.len() - 1 implies text_le(m[i].0, m[i + 1].0)
        && m[i].0 != m[i + 1].0 by {
        if i == 0 {
        } else if i == 1 {
        } else if i == 2 {
        } else {
            assert(i == 3);
        }
    }
    lemma_neighbours_ordered(m);
    assert forall|i: int| 0 <= i < m.len() implies plain((#[trigger] m[i]).1, depth) by {
        if i == 1 {
            assert(m[i].1 == JsonView::Array(docs));
        } else {
            assert(m[i].1 is Text);
        }
    }
}

proof fn lemma_outcome_plain(o: ResourceOutcome, depth: nat)
    requires
        depth > 0,
    ensures
        plain(outcome_document(o), depth),
{
    reveal_strlit("consistency");
    reveal_strlit("count");
    reveal_strlit("error");
    reveal_strlit("expected");
    reveal_strlit("fetch_ended_at");
    reveal_strlit("fetch_started_at");
    reveal_strlit("resource");
    reveal_strlit("status");
    reveal_strlit("table");
    let m = outcome_document(o)->Object_0;
    lemma_earlier("consistency"@, "count"@, 2);
    lemma_earlier("count"@, "error"@, 0);
    lemma_earlier("error"@, "expected"@, 1);
    lemma_earlier("expected"@, "fetch_ended_at"@, 0);
    lemma_earlier("fetch_ended_at"@, "fetch_started_at"@, 6);
    lemma_earlier("fetch_started_at"@, "resource"@, 0);
    lemma_earlier("resource"@, "status"@, 0);
    lemma_earlier("status"@, "table"@, 0);
    assert(m.len() == 9);
    assert(m[0].0 == "consistency"@ && m[1].0 == "count"@ && m[2].0 == "error"@ && m[3].0
        == "expected"@ && m[4].0 == "fetch_ended_at"@ && m[5].0 == "fetch_started_at"@ && m[6].0
        == "resource"@ && m[7].0 == "status"@ && m[8].0 == "table"@);
    assert forall|i: int| #![trigger m[i]] 0 <= i < m.len() - 1 implies text_le(m[i].0, m[i + 1].0)
        && m[i].0 != m[i + 1].0 by {
        assert(i == 0 || i == 1 || i == 2 || i == 3 || i == 4 || i == 5 || i == 6 || i == 7);
    }
    lemma_neighbours_ordered(m);
    assert forall|i: int| 0 <= i < m.len() implies plain(
        (#[trigger] m[i]).1,
        (depth - 1) as nat,
    ) by {
        assert(i == 0 || i == 1 || i == 2 || i == 3 || i == 4 || i == 5 || i == 6 || i == 7 || i
            == 8);
    }
}

/// Resources that only one of two runs covers are never compared, so that a narrower scope does
/// not read as shrinkage.
pub proof fn law_other_scope_is_no_shrinkage(
    prev: Map<Seq<char>, u64>,
    curr: Map<Seq<char>, u64>,
    list: Seq<Compared>,
    resource: Seq<char>,
)
    requires
        comparison(prev, curr, list),
        !prev.contains_key(resource) || !curr.contains_key(resource),
    ensures
        forall|i: int| 0 <= i < list.len() ==> (#[trigger] list[i]).resource@ != resource,
{
}

// ---- writing the row ----

/// How often the row of a run is tried to be written.
pub const MARKER_ATTEMPTS: u32 = 3;

/// The attempts at writing the row of a run.
#[derive(Debug)]
pub struct MarkerWrite {
    pub attempts: u32,
}

/// What an attempt leads to.
#[derive(Debug)]
pub enum MarkerStep {
    /// The row is written.
    Written,
    /// The row is tried again.
    Again,
    /// The row will not be written.
    GiveUp(String),
}

/// The first attempt at writing the row of a run.
pub fn write_marker() -> (r: MarkerWrite)
    ensures
        r.attempts == 1,
{
    MarkerWrite { attempts: 1 }
}

impl MarkerWrite {
    /// Takes how an attempt went: it is repeated until one succeeds or all are used up.
    pub fn attempted(&mut self, result: Result<(), String>) -> (r: MarkerStep)
        requires
            1 <= old(self).attempts <= MARKER_ATTEMPTS,
        ensures
            1 <= final(self).attempts <= MARKER_ATTEMPTS,
            match r {
                MarkerStep::Written => result is Ok && final(self).attempts == old(self).attempts,
                MarkerStep::Again => result is Err && old(self).attempts < MARKER_ATTEMPTS
                    && final(self).attempts == old(self).attempts + 1,
                MarkerStep::GiveUp(e) => result == Err::<(), String>(e) && old(self).attempts
                    == MARKER_ATTEMPTS && final(self).attempts == old(self).attempts,
            },
    {
        match result {
            Ok(()) => MarkerStep::Written,
            Err(e) => {
                if self.attempts < MARKER_ATTEMPTS {
                    self.attempts = self.attempts + 1;
                    MarkerStep::Again
                } else {
                    MarkerStep::GiveUp(e)
                }
            },
        }
    }
}

/// The comparison with the run before has exactly one entry for each resource that both runs count
/// and of which the run before had any, whatever is left of it now; each entry has the two counts.
pub proof fn law_whatever_was_there_is_compared(
    prev: Map<Seq<char>, u64>,
    curr: Map<Seq<char>, u64>,
    list: Seq<Compared>,
    resource: Seq<char>,
)
    requires
        comparison(prev, curr, list),
    ensures
        prev.contains_key(resource) && prev[resource] > 0 && curr.contains_key(resource) <==> exists|
            i: int,
        |
            0 <= i < list.len() && (#[trigger] list[i]).resource@ == resource && list[i].before
                == prev[resource] && list[i].now == curr[resource],
        prev.contains_key(resource) && prev[resource] > 0 && curr.contains_key(resource)
            && curr[resource] == 0 ==> exists|i: int|
            0 <= i < list.len() && (#[trigger] list[i]).resource@ == resource && list[i].now == 0,
        forall|i: int, j: int|
            0 <= i < j < list.len() && (#[trigger] list[i]).resource@ == resource ==> (
            #[trigger] list[j]).resource@ != resource,
{
    if prev.contains_key(resource) && prev[resource] > 0 && curr.contains_key(resource) {
        assert(comparable(prev, curr, resource));
        let i = choose|i: int| 0 <= i < list.len() && (#[trigger] list[i]).resource@ == resource;
        assert(list[i].before == prev[resource] && list[i].now == curr[resource]);
    }
}

/// Of the resources that are compared, exactly those with a percentage to show are reported, each
/// with its two counts, its percentage and the threshold.
pub proof fn law_every_drop_that_counts_is_reported(
    drops: Seq<Compared>,
    shown: Seq<Option<String>>,
    threshold: Seq<char>,
    line: Seq<char>,
)
    requires
        drops.len() == shown.len(),
    ensures
        violations(drops, shown, threshold).contains(line) <==> exists|i: int|
            0 <= i < drops.len() && shown[i] is Some && line == (#[trigger] drops[i]).resource@
                + ": "@ + decimal(drops[i].before as nat) + " -> "@ + decimal(drops[i].now as nat)
                + " ("@ + shown[i]->Some_0@ + "% drop exceeds "@ + threshold + "%)"@,
    decreases drops.len(),
{
    let all = violations(drops, shown, threshold);
    if drops.len() > 0 {
        let n = drops.len() - 1;
        let before = violations(drops.drop_last(), shown.drop_last(), threshold);
        law_every_drop_that_counts_is_reported(
            drops.drop_last(),
            shown.drop_last(),
            threshold,
            line,
        );
        assert(forall|i: int| 0 <= i < n ==> drops.drop_last()[i] == drops[i]);
        assert(forall|i: int| 0 <= i < n ==> shown.drop_last()[i] == shown[i]);
        if all.contains(line) {
            let k = choose|k: int| 0 <= k < all.len() && all[k] == line;
            if k < before.len() {
                assert(before[k] == line);
                assert(before.contains(line));
                let i = choose|i: int|
                    0 <= i < n && shown.drop_last()[i] is Some && line == (
                    #[trigger] drops.drop_last()[i]).resource@ + ": "@ + decimal(
                        drops.drop_last()[i].before as nat,
                    ) + " -> "@ + decimal(drops.drop_last()[i].now as nat) + " ("@
                        + shown.drop_last()[i]->Some_0@ + "% drop exceeds "@ + threshold + "%)"@;
                assert(drops.drop_last()[i] == drops[i]);
            } else {
                assert(drops[n] == drops.last());
            }
        }
        if exists|i: int|
            0 <= i < drops.len() && shown[i] is Some && line == (#[trigger] drops[i]).resource@
                + ": "@ + decimal(drops[i].before as nat) + " -> "@ + decimal(drops[i].now as nat)
                + " ("@ + shown[i]->Some_0@ + "% drop exceeds "@ + threshold + "%)"@ {
            let i = choose|i: int|
                0 <= i < drops.len() && shown[i] is Some && line == (#[trigger] drops[i]).resource@
                    + ": "@ + decimal(drops[i].before as nat) + " -> "@ + decimal(
                    drops[i].now as nat,
                ) + " ("@ + shown[i]->Some_0@ + "% drop exceeds "@ + threshold + "%)"@;
            if i < n {
                assert(drops.drop_last()[i] == drops[i]);
                assert(before.contains(line));
                let k = choose|k: int| 0 <= k < before.len() && before[k] == line;
                assert(all[k] == line);
            } else {
                assert(all[before.len() as int] == line);
            }
        }
    }
}

/// A run that failed in the records of an object is failed, one that failed in nothing else than
/// something besides is partial, and one in which nothing failed is complete.
pub proof fn law_status_says_what_failed(outcomes: Seq<ResourceOutcome>)
    ensures
        status_word(outcomes) == "failed"@ <==> exists|i: int|
            0 <= i < outcomes.len() && (#[trigger] outcomes[i]).status@ == "failed"@
                && outcomes[i].table@.len() >= 8 && outcomes[i].table@.take(8) == "records_"@,
        status_word(outcomes) == "complete"@ <==> forall|i: int|
            0 <= i < outcomes.len() ==> (#[trigger] outcomes[i]).status@ != "failed"@,
        status_word(outcomes) == "failed"@ || status_word(outcomes) == "partial"@ || status_word(
            outcomes,
        ) == "complete"@,
{
    reveal_strlit("failed");
    reveal_strlit("partial");
    reveal_strlit("complete");
    reveal_strlit("records_");
    assert("failed"@[0] == 'f' && "partial"@[0] == 'p' && "complete"@[0] == 'c');
    assert forall|i: int| 0 <= i < outcomes.len() implies (has_prefix(
        (#[trigger] outcomes[i]).table@,
        "records_"@,
    ) <==> outcomes[i].table@.len() >= 8 && outcomes[i].table@.take(8) == "records_"@) by {
        assert("records_"@.len() == 8);
    }
    if exists|i: int|
        0 <= i < outcomes.len() && (#[trigger] outcomes[i]).status@ == "failed"@
            && outcomes[i].table@.len() >= 8 && outcomes[i].table@.take(8) == "records_"@ {
        let i = choose|i: int|
            0 <= i < outcomes.len() && (#[trigger] outcomes[i]).status@ == "failed"@
                && outcomes[i].table@.len() >= 8 && outcomes[i].table@.take(8) == "records_"@;
        assert(failed(outcomes[i]) && has_prefix(outcomes[i].table@, "records_"@));
        assert(records_failed(outcomes));
    }
    if forall|i: int|
        0 <= i < outcomes.len() ==> (#[trigger] outcomes[i]).status@ != "failed"@ {
        assert(!any_failed(outcomes));
        assert(!records_failed(outcomes));
    }
}

/// A run counts a resource exactly where the resource came through.
pub proof fn law_what_came_through_is_counted(outcomes: Seq<ResourceOutcome>, resource: Seq<char>)
    ensures
        ok_counts(outcomes).contains_key(resource) <==> exists|i: int|
            0 <= i < outcomes.len() && (#[trigger] outcomes[i]).resource@ == resource
                && outcomes[i].status@ == "ok"@,
    decreases outcomes.len(),
{
    if outcomes.len() > 0 {
        let rest = outcomes.drop_last();
        let n = outcomes.len() - 1;
        law_what_came_through_is_counted(rest, resource);
        if ok_counts(rest).contains_key(resource) {
            let i = choose|i: int|
                0 <= i < rest.len() && (#[trigger] rest[i]).resource@ == resource
                    && rest[i].status@ == "ok"@;
            assert(outcomes[i] == rest[i]);
        } else if ok_counts(outcomes).contains_key(resource) {
            assert(outcomes[n].resource@ == resource);
        }
        if exists|i: int|
            0 <= i < outcomes.len() && (#[trigger] outcomes[i]).resource@ == resource
                && outcomes[i].status@ == "ok"@ {
            let i = choose|i: int|
                0 <= i < outcomes.len() && (#[trigger] outcomes[i]).resource@ == resource
                    && outcomes[i].status@ == "ok"@;
            if i < n {
                assert(rest[i] == outcomes[i]);
            }
        }
    }
}

/// A resource that came through is counted with its own count; the last one counts where it came
/// through more than once.
pub proof fn law_counts_are_those_of_the_outcomes(outcomes: Seq<ResourceOutcome>, i: int)
    requires
        0 <= i < outcomes.len(),
        outcomes[i].status@ == "ok"@,
        forall|j: int|
            i < j < outcomes.len() && (#[trigger] outcomes[j]).status@ == "ok"@
                ==> outcomes[j].resource@ != outcomes[i].resource@,
    ensures
        ok_counts(outcomes).contains_key(outcomes[i].resource@),
        ok_counts(outcomes)[outcomes[i].resource@] == outcomes[i].count,
    decreases outcomes.len(),
{
    let n = outcomes.len() - 1;
    if i < n {
        let rest = outcomes.drop_last();
        assert(rest[i] == outcomes[i]);
        assert(outcomes[n] == outcomes.last());
        assert forall|j: int| i < j < rest.len() && (#[trigger] rest[j]).status@ == "ok"@ implies rest[j].resource@
            != rest[i].resource@ by {
            assert(rest[j] == outcomes[j]);
        }
        law_counts_are_those_of_the_outcomes(rest, i);
    }
}

// ---- which run counts ----

/// A run, as the ledger has it: its identifier, how it ended, and the time of its snapshot.
pub struct LedgerRun {
    pub run_id: Seq<char>,
    pub status: Seq<char>,
    pub snapshot_at: int,
}

/// From which end of time a run is looked for.
pub enum RunOrder {
    NewestFirst,
    OldestFirst,
}

/// How a run is looked for: by how it ended, and from which end of time.
pub struct RunSearch {
    pub status: Seq<char>,
    pub order: RunOrder,
}

/// Whether a search among these runs comes to the `i`-th of them.
pub open spec fn comes_to(search: RunSearch, runs: Seq<LedgerRun>, i: int) -> bool {
    &&& 0 <= i < runs.len()
    &&& runs[i].status == search.status
    &&& forall|j: int|
        0 <= j < runs.len() && (#[trigger] runs[j]).status == search.status ==> match search.order {
            RunOrder::NewestFirst => runs[j].snapshot_at <= runs[i].snapshot_at,
            RunOrder::OldestFirst => runs[j].snapshot_at >= runs[i].snapshot_at,
        }
}

/// The condition on runs by which a search is written.
pub open spec fn status_clause(search: RunSearch) -> Seq<char> {
    "status = '"@ + search.status + "'"@
}

/// The order of runs by which a search is written; the first one is taken.
pub open spec fn order_clause(search: RunSearch) -> Seq<char> {
    match search.order {
        RunOrder::NewestFirst => "ORDER BY snapshot_at DESC LIMIT 1"@,
        RunOrder::OldestFirst => "ORDER BY snapshot_at ASC LIMIT 1"@,
    }
}

/// The search that snapshots are read by: the newest run that is complete.
pub open spec fn newest_complete() -> RunSearch {
    RunSearch { status: "complete"@, order: RunOrder::NewestFirst }
}

/// The newest complete run is one that is complete, and no complete one is newer.
pub proof fn law_newest_complete_run(runs: Seq<LedgerRun>, i: int)
    requires
        comes_to(newest_complete(), runs, i),
    ensures
        runs[i].status == "complete"@,
        forall|j: int|
            0 <= j < runs.len() && (#[trigger] runs[j]).status == "complete"@
                ==> runs[j].snapshot_at <= runs[i].snapshot_at,
{
}

/// A run is compared with the newest complete one: the query reads the resources of the run that
/// this search comes to, out of the ledger of the dataset.
pub proof fn law_compared_with_the_newest_complete_run(project: Seq<char>, dataset: Seq<char>)
    ensures
        prev_run_query(project, dataset) == "SELECT TO_JSON_STRING(resources) FROM `"@ + project
            + "."@ + dataset + ".runs` WHERE "@ + status_clause(newest_complete()) + " "@
            + order_clause(newest_complete()),
{
    let tail = ".runs` WHERE status = 'complete' ORDER BY snapshot_at DESC LIMIT 1"@;
    assert(tail =~= ".runs` WHERE "@ + ("status = '"@ + "complete"@ + "'"@) + " "@
        + "ORDER BY snapshot_at DESC LIMIT 1"@) by {
        reveal_strlit(".runs` WHERE status = 'complete' ORDER BY snapshot_at DESC LIMIT 1");
        reveal_strlit(".runs` WHERE ");
        reveal_strlit("status = '");
        reveal_strlit("complete");
        reveal_strlit("'");
        reveal_strlit(" ");
        reveal_strlit("ORDER BY snapshot_at DESC LIMIT 1");
    }
    let head = "SELECT TO_JSON_STRING(resources) FROM `"@ + project + "."@ + dataset;
    assert(head + tail =~= head + ".runs` WHERE "@ + status_clause(newest_complete()) + " "@
        + order_clause(newest_complete()));
}

// ---- what the ledger says of a run ----

/// The row of a run says under each name what the run is: its identifier, its two times, how it
/// ended, and its resources; and nothing else.
pub proof fn law_ledger_row_says(
    run_id: Seq<char>,
    snapshot_at: Seq<char>,
    finished_at: Seq<char>,
    status: Seq<char>,
    resources: JsonView,
)
    ensures
        ({
            let row = ledger_row(run_id, snapshot_at, finished_at, status, resources);
            &&& at(row, "run_id"@) == JsonView::Text(run_id)
            &&& at(row, "snapshot_at"@) == JsonView::Text(snapshot_at)
            &&& at(row, "finished_at"@) == JsonView::Text(finished_at)
            &&& at(row, "status"@) == JsonView::Text(status)
            &&& at(row, "resources"@) == resources
            &&& row->Object_0.len() == 5
        }),
{
    reveal_strlit("finished_at");
    reveal_strlit("resources");
    reveal_strlit("run_id");
    reveal_strlit("snapshot_at");
    reveal_strlit("status");
    let m = ledger_row(run_id, snapshot_at, finished_at, status, resources)->Object_0;
    assert("finished_at"@.len() == 11 && "resources"@.len() == 9 && "run_id"@.len() == 6);
    assert("snapshot_at"@.len() == 11 && "status"@.len() == 6);
    assert("finished_at"@[0] == 'f' && "snapshot_at"@[0] == 's' && "run_id"@[0] == 'r');
    assert("status"@[0] == 's');
    lemma_found_at(m, 0);
    lemma_found_at(m, 1);
    lemma_found_at(m, 2);
    lemma_found_at(m, 3);
    lemma_found_at(m, 4);
}

/// The ledger says under each name what became of a resource.
pub proof fn law_outcome_is_told(o: ResourceOutcome)
    ensures
        at(outcome_document(o), "resource"@) == JsonView::Text(o.resource@),
        at(outcome_document(o), "table"@) == JsonView::Text(o.table@),
        at(outcome_document(o), "status"@) == JsonView::Text(o.status@),
        at(outcome_document(o), "count"@) == JsonView::Unsigned(o.count),
        at(outcome_document(o), "consistency"@) == JsonView::Text(o.consistency@),
        at(outcome_document(o), "fetch_started_at"@) == JsonView::Text(o.fetch_started_at@),
        at(outcome_document(o), "fetch_ended_at"@) == JsonView::Text(o.fetch_ended_at@),
        o.expected matches Some(n) ==> at(outcome_document(o), "expected"@) == JsonView::Unsigned(
            n,
        ),
        o.expected is None ==> at(outcome_document(o), "expected"@) == JsonView::Null,
        o.error matches Some(e) ==> at(outcome_document(o), "error"@) == JsonView::Text(e@),
        o.error is None ==> at(outcome_document(o), "error"@) == JsonView::Null,
        outcome_document(o)->Object_0.len() == 9,
{
    reveal_strlit("consistency");
    reveal_strlit("count");
    reveal_strlit("error");
    reveal_strlit("expected");
    reveal_strlit("fetch_ended_at");
    reveal_strlit("fetch_started_at");
    reveal_strlit("resource");
    reveal_strlit("status");
    reveal_strlit("table");
    let m = outcome_document(o)->Object_0;
    assert("consistency"@.len() == 11 && "count"@.len() == 5 && "error"@.len() == 5);
    assert("count"@[0] == 'c' && "error"@[0] == 'e' && "table"@[0] == 't');
    assert("resource"@[0] == 'r' && "resource"@.len() == 8 && "table"@.len() == 5);
    assert("expected"@[0] == 'e' && "expected"@.len() == 8);
    assert("status"@.len() == 6);
    assert("fetch_ended_at"@.len() == 14 && "fetch_started_at"@.len() == 16);
    lemma_found_at(m, 0);
    lemma_found_at(m, 1);
    lemma_found_at(m, 2);
    lemma_found_at(m, 3);
    lemma_found_at(m, 4);
    lemma_found_at(m, 5);
    lemma_found_at(m, 6);
    lemma_found_at(m, 7);
    lemma_found_at(m, 8);
}

/// The row of a run lists what became of each resource, in their order.
pub proof fn law_ledger_lists_every_outcome(outcomes: Seq<ResourceOutcome>, i: int)
    requires
        0 <= i < outcomes.len(),
    ensures
        outcome_documents(outcomes).len() == outcomes.len(),
        at(outcome_documents(outcomes)[i], "resource"@) == JsonView::Text(outcomes[i].resource@),
        at(outcome_documents(outcomes)[i], "status"@) == JsonView::Text(outcomes[i].status@),
        at(outcome_documents(outcomes)[i], "count"@) == JsonView::Unsigned(outcomes[i].count),
{
    law_outcome_is_told(outcomes[i]);
}

/// What is read out of the resources of an earlier run: the count of each resource that is said to
/// have come through, and of nothing else; the last one counts where a resource is there twice.
pub proof fn law_earlier_counts_are_read(list: Seq<JsonView>, i: int, resource: Seq<char>, n: u64)
    requires
        0 <= i < list.len(),
        at(list[i], "status"@) == JsonView::Text("ok"@),
        at(list[i], "resource"@) == JsonView::Text(resource),
        at(list[i], "count"@) == JsonView::Unsigned(n),
        forall|j: int|
            i < j < list.len() && at(#[trigger] list[j], "resource"@) == JsonView::Text(resource)
                ==> at(list[j], "status"@) != JsonView::Text("ok"@) || !(at(
                list[j],
                "count"@,
            ) is Unsigned),
    ensures
        resource_counts(Some(JsonView::Array(list))).contains_key(resource),
        resource_counts(Some(JsonView::Array(list)))[resource] == n,
    decreases list.len(),
{
    if i < list.len() - 1 {
        let rest = list.drop_last();
        assert(rest[i] == list[i]);
        assert(list[list.len() - 1] == list.last());
        assert forall|j: int|
            i < j < rest.len() && at(#[trigger] rest[j], "resource"@) == JsonView::Text(
                resource,
            ) implies at(rest[j], "status"@) != JsonView::Text("ok"@) || !(at(
            rest[j],
            "count"@,
        ) is Unsigned) by {
            assert(rest[j] == list[j]);
        }
        law_earlier_counts_are_read(rest, i, resource, n);
    }
}

/// A resource that is nowhere said to have come through is not counted.
pub proof fn law_only_what_came_through_is_read(list: Seq<JsonView>, resource: Seq<char>)
    requires
        forall|j: int|
            0 <= j < list.len() && at(#[trigger] list[j], "resource"@) == JsonView::Text(resource)
                ==> at(list[j], "status"@) != JsonView::Text("ok"@) || !(at(
                list[j],
                "count"@,
            ) is Unsigned),
    ensures
        !resource_counts(Some(JsonView::Array(list))).contains_key(resource),
    decreases list.len(),
{
    if list.len() > 0 {
        let rest = list.drop_last();
        assert(list[list.len() - 1] == list.last());
        assert forall|j: int|
            0 <= j < rest.len() && at(#[trigger] rest[j], "resource"@) == JsonView::Text(
                resource,
            ) implies at(rest[j], "status"@) != JsonView::Text("ok"@) || !(at(
            rest[j],
            "count"@,
        ) is Unsigned) by {
            assert(rest[j] == list[j]);
        }
        law_only_what_came_through_is_read(rest, resource);
    }
}

/// Resources that are no list say nothing, so that nothing is compared with them.
pub proof fn law_illegible_resources_count_nothing(resources: JsonView)
    requires
        !(resources is Array),
    ensures
        resource_counts(None) == Map::<Seq<char>, u64>::empty(),
        resource_counts(Some(resources)) == Map::<Seq<char>, u64>::empty(),
{
}

} // verus!
