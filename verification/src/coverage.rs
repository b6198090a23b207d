//! What a run has to bring, and the fetch that brings it: every resource of its plan, each once.

use vstd::prelude::*;
use crate::fetch::{
    came_through, came_to_nothing, no_feed_text, no_records_text, object_products, product_for,
    resource_name, resource_table, ObjectRun, Resource, SpoolProduct,
};
use crate::orchestrate::{
    feed_kinds, law_wanted_feeds_are_gone_through, law_what_is_fetched, product_outcomes,
    tables_known, task_list, wanted_feeds, BackupRun, FetchTask,
};
use crate::plan::{category_name, Category};
use crate::rows::{FeedKind, FetchCtx};
use crate::runs::{failed, ResourceOutcome};
use crate::spool::RunSpool;
use crate::tables::{
    known_table, law_records_tables_are_known, name_pairs, records_table, slug_tables, slugs,
};
use crate::text::{maybe_text, same};

verus! {

// ---- what a plan covers ----

/// The resources of one object: its records, and then each of the feeds.
pub open spec fn one_object(slug: Seq<char>, kinds: Seq<FeedKind>) -> Seq<Resource> {
    seq![Resource::Records { slug }] + kinds.map_values(
        |kind: FeedKind| Resource::Feed { kind, slug },
    )
}

/// The resources of objects, one object after the other.
pub open spec fn object_resources(ordered: Seq<Seq<char>>, kinds: Seq<FeedKind>) -> Seq<Resource>
    decreases ordered.len(),
{
    if ordered.len() == 0 {
        Seq::empty()
    } else {
        object_resources(ordered.drop_last(), kinds) + one_object(ordered.last(), kinds)
    }
}

/// A resource with a table of its own name.
pub open spec fn flat(category: Category) -> Seq<Resource> {
    seq![Resource::Flat { category }]
}

/// A resource that is wanted, or none.
pub open spec fn flat_if(wanted: bool, category: Category) -> Seq<Resource> {
    if wanted {
        flat(category)
    } else {
        Seq::empty()
    }
}

/// The resources that one part of the fetch brings, with the objects in this order. The rows of
/// lists are there only where the lists came.
pub open spec fn task_resources(
    task: FetchTask,
    ordered: Seq<Seq<char>>,
    lists_came: bool,
) -> Seq<Resource> {
    match task {
        FetchTask::Objects { activities, attachments } => object_resources(
            ordered,
            feed_kinds(activities, attachments),
        ),
        FetchTask::Schemas => flat(Category::Schemas),
        FetchTask::Lists { keep, rows } => flat_if(keep, Category::Lists) + flat_if(
            rows && lists_came,
            Category::ListRows,
        ),
        FetchTask::Linked(category) => flat(category),
        FetchTask::Settings => flat(Category::Settings),
    }
}

/// The resources that the parts of the fetch bring, one behind the other.
pub open spec fn planned(
    tasks: Seq<FetchTask>,
    ordered: Seq<Seq<char>>,
    lists_came: bool,
) -> Seq<Resource>
    decreases tasks.len(),
{
    if tasks.len() == 0 {
        Seq::empty()
    } else {
        planned(tasks.drop_last(), ordered, lists_came) + task_resources(
            tasks.last(),
            ordered,
            lists_came,
        )
    }
}

/// Whether an outcome is that of this resource. What was not fetched is skipped for one reason
/// alone: an object has no records of its own, or a feed has no records to go through.
pub open spec fn outcome_of(o: ResourceOutcome, r: Resource) -> bool {
    &&& o.resource@ == resource_name(r)
    &&& o.table@ == resource_table(r)
    &&& o.status@ == "ok"@ || failed(o) || match r {
        Resource::Records { .. } => came_to_nothing(o, "skipped"@, no_records_text()),
        Resource::Feed { .. } => came_to_nothing(o, "skipped"@, no_feed_text()),
        Resource::Flat { .. } => false,
    }
}

/// Whether there is an outcome for each of these resources, in their order, and none besides. Lists
/// that did not come have failed.
pub open spec fn accounts(
    outcomes: Seq<ResourceOutcome>,
    resources: Seq<Resource>,
    lists_came: bool,
) -> bool {
    &&& outcomes.len() == resources.len()
    &&& forall|i: int|
        0 <= i < outcomes.len() ==> {
            &&& outcome_of(#[trigger] outcomes[i], resources[i])
            &&& !lists_came && resources[i] == (Resource::Flat { category: Category::Lists })
                ==> failed(outcomes[i])
        }
}

/// Whether each of the first `n` numbers stands in the list, and each once.
pub open spec fn each_once(order: Seq<usize>, n: nat) -> bool {
    order.len() == n && drawn(order, n)
}

/// Whether the list holds numbers below `n`, none of them twice.
pub open spec fn drawn(order: Seq<usize>, n: nat) -> bool {
    &&& forall|i: int| 0 <= i < order.len() ==> #[trigger] order[i] < n
    &&& forall|i: int, j: int|
        0 <= i < j < order.len() ==> #[trigger] order[i] != #[trigger] order[j]
}

/// The texts of a list in another order.
pub open spec fn in_turn(all: Seq<Seq<char>>, order: Seq<usize>) -> Seq<Seq<char>> {
    order.map_values(|i: usize| all[i as int])
}

/// The resources that a run's plan asks for, with its objects in this order.
pub open spec fn planned_in(run: BackupRun, order: Seq<usize>, lists_came: bool) -> Seq<Resource> {
    planned(
        task_list(run.plan.categories@),
        in_turn(slugs(run.plan.objects@), order),
        lists_came,
    )
}

/// Whether the outcomes are those of the run's plan: with the objects in some order, there is one
/// for each resource that the plan asks for, and none besides.
pub open spec fn covers(run: BackupRun, outcomes: Seq<ResourceOutcome>) -> bool {
    exists|order: Seq<usize>, lists_came: bool|
        (run.plan.categories@.contains(Category::Records) ==> each_once(
            order,
            run.plan.objects@.len(),
        )) && accounts(outcomes, #[trigger] planned_in(run, order, lists_came), lists_came)
}

/// Whether the outcomes are those of the run's plan, and nothing of it failed. The rows of lists
/// may be missing only where the lists themselves were not asked for.
pub open spec fn fully_covers(run: BackupRun, outcomes: Seq<ResourceOutcome>) -> bool {
    exists|order: Seq<usize>, lists_came: bool|
        {
            &&& run.plan.categories@.contains(Category::Records) ==> each_once(
                order,
                run.plan.objects@.len(),
            )
            &&& accounts(outcomes, #[trigger] planned_in(run, order, lists_came), lists_came)
            &&& run.plan.categories@.contains(Category::Lists) ==> lists_came
            &&& forall|i: int| 0 <= i < outcomes.len() ==> !failed(#[trigger] outcomes[i])
        }
}

proof fn lemma_planned_push(
    tasks: Seq<FetchTask>,
    n: int,
    ordered: Seq<Seq<char>>,
    lists_came: bool,
)
    requires
        0 <= n < tasks.len(),
    ensures
        planned(tasks.take(n + 1), ordered, lists_came) == planned(
            tasks.take(n),
            ordered,
            lists_came,
        ) + task_resources(tasks[n], ordered, lists_came),
{
    assert(tasks.take(n + 1).drop_last() =~= tasks.take(n));
    assert(tasks.take(n + 1).last() == tasks[n]);
}

/// Whether the lists came changes nothing before they are asked for.
proof fn lemma_planned_without_lists(
    tasks: Seq<FetchTask>,
    ordered: Seq<Seq<char>>,
    a: bool,
    b: bool,
)
    requires
        forall|i: int| 0 <= i < tasks.len() ==> !(#[trigger] tasks[i] is Lists),
    ensures
        planned(tasks, ordered, a) == planned(tasks, ordered, b),
    decreases tasks.len(),
{
    if tasks.len() > 0 {
        assert forall|i: int| 0 <= i < tasks.drop_last().len() implies !(
        #[trigger] tasks.drop_last()[i] is Lists) by {
            assert(tasks.drop_last()[i] == tasks[i]);
        }
        assert(!(tasks[tasks.len() - 1] is Lists));
        lemma_planned_without_lists(tasks.drop_last(), ordered, a, b);
    }
}

/// Outcomes of two lists of resources, put together, are those of both.
proof fn lemma_accounts_together(
    a: Seq<ResourceOutcome>,
    ra: Seq<Resource>,
    b: Seq<ResourceOutcome>,
    rb: Seq<Resource>,
    lists_came: bool,
)
    requires
        accounts(a, ra, lists_came),
        accounts(b, rb, lists_came),
    ensures
        accounts(a + b, ra + rb, lists_came),
{
    let (o, r) = (a + b, ra + rb);
    assert forall|i: int| 0 <= i < o.len() implies {
        &&& outcome_of(#[trigger] o[i], r[i])
        &&& !lists_came && r[i] == (Resource::Flat { category: Category::Lists }) ==> failed(o[i])
    } by {
        if i < a.len() {
            assert(o[i] == a[i] && r[i] == ra[i]);
        } else {
            assert(o[i] == b[i - a.len()] && r[i] == rb[i - ra.len()]);
        }
    }
}

/// A resource that fails later is still accounted for.
pub proof fn lemma_failing_keeps_cover(
    run: BackupRun,
    before: Seq<ResourceOutcome>,
    after: Seq<ResourceOutcome>,
)
    requires
        covers(run, before),
        after.len() == before.len(),
        forall|i: int|
            0 <= i < before.len() ==> {
                ||| #[trigger] after[i] == before[i]
                ||| {
                    &&& failed(after[i])
                    &&& after[i].resource == before[i].resource
                    &&& after[i].table == before[i].table
                }
            },
    ensures
        covers(run, after),
{
    let (order, came) = choose|order: Seq<usize>, came: bool|
        (run.plan.categories@.contains(Category::Records) ==> each_once(
            order,
            run.plan.objects@.len(),
        )) && accounts(before, #[trigger] planned_in(run, order, came), came);
    let r = planned_in(run, order, came);
    assert forall|i: int| 0 <= i < after.len() implies {
        &&& outcome_of(#[trigger] after[i], r[i])
        &&& !came && r[i] == (Resource::Flat { category: Category::Lists }) ==> failed(after[i])
    } by {
        assert(outcome_of(before[i], r[i]));
    }
    assert(accounts(after, r, came));
}

/// The lists are asked for where the plan keeps them.
proof fn lemma_lists_planned(run: BackupRun, order: Seq<usize>, lists_came: bool) -> (i: int)
    requires
        run.plan.categories@.contains(Category::Lists),
    ensures
        0 <= i < planned_in(run, order, lists_came).len(),
        planned_in(run, order, lists_came)[i] == (Resource::Flat { category: Category::Lists }),
{
    let c = run.plan.categories@;
    let tasks = task_list(c);
    let ordered = in_turn(slugs(run.plan.objects@), order);
    let lists = FetchTask::Lists { keep: true, rows: c.contains(Category::ListRows) };
    let n = (if c.contains(Category::Records) {
        1int
    } else {
        0int
    }) + (if c.contains(Category::Schemas) {
        1int
    } else {
        0int
    });
    assert(tasks[n] == lists);
    lemma_planned_push(tasks, n, ordered, lists_came);
    lemma_planned_part(tasks, n + 1, ordered, lists_came);
    let i = planned(tasks.take(n), ordered, lists_came).len() as int;
    assert(planned(tasks.take(n + 1), ordered, lists_came)[i] == task_resources(
        lists,
        ordered,
        lists_came,
    )[0]);
    i
}

proof fn lemma_planned_part(
    tasks: Seq<FetchTask>,
    n: int,
    ordered: Seq<Seq<char>>,
    lists_came: bool,
)
    requires
        0 <= n <= tasks.len(),
    ensures
        planned(tasks.take(n), ordered, lists_came).len() <= planned(
            tasks,
            ordered,
            lists_came,
        ).len(),
        forall|i: int|
            0 <= i < planned(tasks.take(n), ordered, lists_came).len() ==> #[trigger] planned(
                tasks,
                ordered,
                lists_came,
            )[i] == planned(tasks.take(n), ordered, lists_came)[i],
    decreases tasks.len() - n,
{
    if n < tasks.len() {
        lemma_planned_part(tasks, n + 1, ordered, lists_came);
        lemma_planned_push(tasks, n, ordered, lists_came);
        let small = planned(tasks.take(n), ordered, lists_came);
        let more = planned(tasks.take(n + 1), ordered, lists_came);
        assert forall|i: int| 0 <= i < small.len() implies #[trigger] planned(
            tasks,
            ordered,
            lists_came,
        )[i] == small[i] by {
            assert(more[i] == small[i]);
        }
    } else {
        assert(tasks.take(n) =~= tasks);
    }
}

/// Outcomes that cover a plan and of which none failed cover it fully.
pub proof fn lemma_nothing_failed(run: BackupRun, outcomes: Seq<ResourceOutcome>)
    requires
        covers(run, outcomes),
        forall|i: int| 0 <= i < outcomes.len() ==> !failed(#[trigger] outcomes[i]),
    ensures
        fully_covers(run, outcomes),
{
    let (order, came) = choose|order: Seq<usize>, came: bool|
        (run.plan.categories@.contains(Category::Records) ==> each_once(
            order,
            run.plan.objects@.len(),
        )) && accounts(outcomes, #[trigger] planned_in(run, order, came), came);
    if run.plan.categories@.contains(Category::Lists) && !came {
        let i = lemma_lists_planned(run, order, came);
        assert(failed(outcomes[i]));
    }
}

// ---- the fetch ----

/// The fetch of a run: its parts, how far it has come, and what it has brought.
#[derive(Debug)]
pub struct FetchPhase {
    pub tasks: Vec<FetchTask>,
    pub at: usize,
    pub objects: Vec<(String, String)>,
    pub kinds: Vec<FeedKind>,
    pub order: Vec<usize>,
    pub lists_came: bool,
    pub rows_due: bool,
    pub products: Vec<SpoolProduct>,
}

/// What is fetched next.
#[derive(Debug, Clone, Copy, PartialEq, Eq, Structural)]
pub enum FetchAction {
    /// The objects that are not there yet, in any order.
    Objects,
    /// A resource with a table of its own name.
    Flat(Category),
    /// Nothing more.
    Done,
}

/// Whether a product is what the fetch of a resource with a table of its own name came to.
pub open spec fn flat_product(
    p: SpoolProduct,
    name: Seq<char>,
    started: Seq<char>,
    result: Result<u64, String>,
    ended: Seq<char>,
) -> bool {
    &&& product_for(p, name, name, started, ended)
    &&& match result {
        Ok(count) => maybe_text(p.path) == Some(name + ".ndjson"@) && came_through(
            p.outcome,
            count,
            None,
            "clean"@,
        ) && p.outcome.error is None,
        Err(e) => p.path is None && came_to_nothing(p.outcome, "failed"@, e@),
    }
}

/// Whether every product says of its table what its outcome says, and has a file where it came
/// through.
pub open spec fn sound(ps: Seq<SpoolProduct>) -> bool {
    forall|i: int| #![trigger ps[i]]
        0 <= i < ps.len() ==> ps[i].resource@ == ps[i].outcome.resource@ && ps[i].table@
            == ps[i].outcome.table@ && (ps[i].outcome.status@ == "ok"@ ==> ps[i].path is Some)
}

/// A fetch with nothing to do.
pub fn no_fetch() -> (r: FetchPhase)
    ensures
        r.wf(),
        r.at_end(),
        r.products@.len() == 0,
{
    let r = FetchPhase {
        tasks: Vec::new(),
        at: 0,
        objects: Vec::new(),
        kinds: Vec::new(),
        order: Vec::new(),
        lists_came: false,
        rows_due: false,
        products: Vec::new(),
    };
    assert(r.tasks@.take(0) =~= Seq::empty());
    r
}

impl BackupRun {
    /// Whether the tables are those of the objects.
    pub open spec fn wf(&self) -> bool {
        name_pairs(self.tables@) == slug_tables(slugs(self.plan.objects@))
    }

    /// Begins to fetch what the plan asks for.
    pub fn fetch_phase(&self) -> (r: FetchPhase)
        requires
            self.wf(),
        ensures
            r.wf(),
            r.of(*self),
            r.order@.len() == 0,
            !r.rows_due,
            r.products@.len() == 0,
    {
        let tasks = self.tasks();
        let mut objects: Vec<(String, String)> = Vec::new();
        let ghost want = name_pairs(self.tables@);
        let mut i: usize = 0;
        assert(name_pairs(objects@) =~= want.take(0));
        while i < self.tables.len()
            invariant
                i <= self.tables@.len(),
                want == name_pairs(self.tables@),
                name_pairs(objects@) == want.take(i as int),
            decreases self.tables@.len() - i,
        {
            let ghost had = objects@;
            let (slug, table) = (self.tables[i].0.clone(), self.tables[i].1.clone());
            objects.push((slug, table));
            assert(name_pairs(objects@) =~= name_pairs(had).push((slug@, table@)));
            assert(want[i as int] == (slug@, table@));
            i += 1;
            assert(name_pairs(objects@) =~= want.take(i as int));
        }
        assert(want.take(self.tables@.len() as int) =~= want);
        let kinds = if tasks.len() > 0 {
            match tasks[0] {
                FetchTask::Objects { activities, attachments } => wanted_feeds(
                    activities,
                    attachments,
                ),
                _ => Vec::new(),
            }
        } else {
            Vec::new()
        };
        let mut r = FetchPhase {
            tasks,
            at: 0,
            objects,
            kinds,
            order: Vec::new(),
            lists_came: false,
            rows_due: false,
            products: Vec::new(),
        };
        proof {
            assert(r.tasks@.take(0) =~= Seq::empty());
            assert(r.ordered() =~= Seq::empty());
            assert(r.progress() =~= Seq::empty());
            assert forall|k: int| 0 <= k < r.objects@.len() implies (#[trigger] r.objects@[k]).1@
                == records_table(r.objects@[k].0@) by {
                assert(name_pairs(r.objects@)[k] == slug_tables(slugs(self.plan.objects@))[k]);
            }
        }
        r.settle();
        r
    }
}

impl FetchPhase {
    /// The slugs of the objects that are there, in the order in which they came.
    pub open spec fn ordered(&self) -> Seq<Seq<char>> {
        in_turn(self.names(), self.order@)
    }

    /// The slugs of the objects.
    pub open spec fn names(&self) -> Seq<Seq<char>> {
        self.objects@.map_values(|p: (String, String)| p.0@)
    }

    /// The resources that are there.
    pub open spec fn progress(&self) -> Seq<Resource> {
        planned(self.tasks@.take(self.at as int), self.ordered(), self.lists_came) + if self.at
            < self.tasks@.len() {
            match self.tasks@[self.at as int] {
                FetchTask::Objects { .. } => object_resources(self.ordered(), self.kinds@),
                FetchTask::Lists { keep, .. } => flat_if(keep && self.rows_due, Category::Lists),
                _ => Seq::empty(),
            }
        } else {
            Seq::empty()
        }
    }

    /// Whether the parts of the fetch are what parts can be: the objects come first, the lists once,
    /// and only users and workflows are linked.
    pub open spec fn tasks_wf(&self) -> bool {
        &&& forall|i: int| 0 < i < self.tasks@.len() ==> !(#[trigger] self.tasks@[i] is Objects)
        &&& forall|i: int, j: int|
            0 <= i < j < self.tasks@.len() && #[trigger] self.tasks@[i] is Lists ==> !(
            #[trigger] self.tasks@[j] is Lists)
        &&& forall|i: int|
            0 <= i < self.tasks@.len() ==> match #[trigger] self.tasks@[i] {
                FetchTask::Linked(c) => c == Category::Users || c == Category::Workflows,
                FetchTask::Objects { activities, attachments } => self.kinds@ == feed_kinds(
                    activities,
                    attachments,
                ),
                _ => true,
            }
    }

    /// Whether objects are being fetched.
    pub open spec fn at_objects(&self) -> bool {
        self.at < self.tasks@.len() && self.tasks@[self.at as int] is Objects
    }

    /// Whether a resource with a table of its own name is being fetched.
    pub open spec fn at_flat(&self) -> bool {
        self.at < self.tasks@.len() && !(self.tasks@[self.at as int] is Objects)
    }

    /// Whether everything has been tried.
    pub open spec fn at_end(&self) -> bool {
        self.at == self.tasks@.len()
    }

    spec fn in_order(&self) -> bool {
        &&& self.at <= self.tasks@.len()
        &&& self.tasks_wf()
        &&& forall|k: int|
            0 <= k < self.objects@.len() ==> (#[trigger] self.objects@[k]).1@ == records_table(
                self.objects@[k].0@,
            )
        &&& drawn(self.order@, self.objects@.len())
        &&& self.order@.len() <= self.objects@.len()
        &&& self.at > 0 && self.tasks@[0] is Objects ==> self.order@.len() == self.objects@.len()
        &&& self.rows_due ==> {
            &&& self.lists_came
            &&& self.at < self.tasks@.len()
            &&& self.tasks@[self.at as int] matches FetchTask::Lists { rows, .. } && rows
        }
        &&& accounts(product_outcomes(self.products@), self.progress(), self.lists_came)
        &&& sound(self.products@)
    }

    /// Whether the fetch has brought exactly what it has come through.
    pub closed spec fn wf(&self) -> bool {
        &&& self.in_order()
        &&& self.at_objects() ==> self.order@.len() < self.objects@.len()
    }

    /// Whether the fetch is that of this run.
    pub open spec fn of(&self, run: BackupRun) -> bool {
        &&& self.tasks@ == task_list(run.plan.categories@)
        &&& name_pairs(self.objects@) == slug_tables(slugs(run.plan.objects@))
    }

    /// The category that is next, where no objects are.
    pub open spec fn due(&self) -> Category {
        match self.tasks@[self.at as int] {
            FetchTask::Objects { .. } => Category::Records,
            FetchTask::Schemas => Category::Schemas,
            FetchTask::Lists { .. } => if self.rows_due {
                Category::ListRows
            } else {
                Category::Lists
            },
            FetchTask::Linked(c) => c,
            FetchTask::Settings => Category::Settings,
        }
    }

    /// Goes on behind the objects once all are there.
    fn settle(&mut self)
        requires
            old(self).in_order(),
            old(self).at == 0 || !old(self).at_objects(),
        ensures
            final(self).wf(),
            same_fetch(*old(self), *final(self)),
            final(self).order == old(self).order,
            final(self).products == old(self).products,
            final(self).lists_came == old(self).lists_came,
            final(self).rows_due == old(self).rows_due,
            final(self).at == if old(self).at_objects() && old(self).order@.len() == old(
                self,
            ).objects@.len() {
                old(self).at + 1
            } else {
                old(self).at as int
            },
    {
        if self.at < self.tasks.len() {
            if let FetchTask::Objects { activities, attachments } = self.tasks[self.at] {
                if self.order.len() == self.objects.len() {
                    let ghost before = self.progress();
                    self.at = self.at + 1;
                    proof {
                        lemma_planned_push(self.tasks@, 0, self.ordered(), self.lists_came);
                        assert(self.tasks@[0] == old(self).tasks@[0]);
                        assert(self.progress() =~= before);
                    }
                }
            }
        }
    }

    /// What is fetched next.
    pub fn next(&self) -> (r: FetchAction)
        requires
            self.wf(),
        ensures
            r is Flat <==> self.at_flat(),
            r == if self.at_end() {
                FetchAction::Done
            } else if self.at_objects() {
                FetchAction::Objects
            } else {
                FetchAction::Flat(self.due())
            },
    {
        if self.at >= self.tasks.len() {
            return FetchAction::Done;
        }
        match self.tasks[self.at] {
            FetchTask::Objects { .. } => FetchAction::Objects,
            FetchTask::Schemas => FetchAction::Flat(Category::Schemas),
            FetchTask::Lists { .. } => FetchAction::Flat(
                if self.rows_due {
                    Category::ListRows
                } else {
                    Category::Lists
                },
            ),
            FetchTask::Linked(c) => FetchAction::Flat(c),
            FetchTask::Settings => FetchAction::Flat(Category::Settings),
        }
    }

    /// Whether `o` is object `i`, through with everything, and not there yet.
    pub open spec fn awaits(&self, i: usize, o: ObjectRun) -> bool {
        &&& self.at_objects()
        &&& i < self.objects@.len()
        &&& !self.order@.contains(i)
        &&& o.at_end()
        &&& o.slug@ == self.objects@[i as int].0@
        &&& o.table@ == self.objects@[i as int].1@
        &&& o.kinds@ == self.kinds@
    }

    /// Whether `o` is object `i`, through with everything, and not there yet.
    pub fn takes(&self, i: usize, o: &ObjectRun) -> (r: bool)
        requires
            self.wf(),
            o.wf(),
        ensures
            r == self.awaits(i, *o),
    {
        if self.at >= self.tasks.len() || i >= self.objects.len() {
            return false;
        }
        match self.tasks[self.at] {
            FetchTask::Objects { .. } => {},
            _ => {
                return false;
            },
        }
        let mut k: usize = 0;
        while k < self.order.len()
            invariant
                k <= self.order@.len(),
                forall|j: int| 0 <= j < k ==> self.order@[j] != i,
            decreases self.order@.len() - k,
        {
            if self.order[k] == i {
                assert(self.order@[k as int] == i);
                return false;
            }
            k += 1;
        }
        if o.feed.is_some() || o.products.len() <= o.kinds.len() {
            return false;
        }
        if !same(&o.slug, &self.objects[i].0) || !same(&o.table, &self.objects[i].1) {
            return false;
        }
        if o.kinds.len() != self.kinds.len() {
            return false;
        }
        let mut k: usize = 0;
        while k < o.kinds.len()
            invariant
                k <= o.kinds@.len(),
                o.kinds@.len() == self.kinds@.len(),
                forall|j: int| 0 <= j < k ==> o.kinds@[j] == self.kinds@[j],
            decreases o.kinds@.len() - k,
        {
            if o.kinds[k] != self.kinds[k] {
                return false;
            }
            k += 1;
        }
        assert(o.kinds@ =~= self.kinds@);
        true
    }

    /// Takes in an object: its products, behind those that are there.
    pub fn object_done(&mut self, i: usize, o: ObjectRun)
        requires
            old(self).wf(),
            o.wf(),
            old(self).awaits(i, o),
        ensures
            final(self).wf(),
            same_fetch(*old(self), *final(self)),
            final(self).lists_came == old(self).lists_came,
            final(self).rows_due == old(self).rows_due,
            final(self).order@ == old(self).order@.push(i),
            final(self).products@ == old(self).products@ + o.products@,
            final(self).at == if old(self).order@.len() + 1 == old(self).objects@.len() {
                old(self).at + 1
            } else {
                old(self).at as int
            },
    {
        let ghost slug = o.slug@;
        let ghost table = o.table@;
        let ghost kinds = o.kinds@;
        let ghost ordered = self.ordered();
        let ghost had = self.products@;
        let ghost progress = self.progress();
        let mut products = o.finish();
        let ghost more = products@;
        self.products.append(&mut products);
        self.order.push(i);
        proof {
            assert(old(self).at == 0);
            assert(self.products@ =~= had + more);
            lemma_object_accounted(more, slug, table, kinds, self.lists_came);
            lemma_accounts_together(
                product_outcomes(had),
                progress,
                product_outcomes(more),
                one_object(slug, kinds),
                self.lists_came,
            );
            assert(product_outcomes(self.products@) =~= product_outcomes(had) + product_outcomes(
                more,
            ));
            assert(self.ordered() =~= ordered.push(slug));
            assert(self.ordered().drop_last() =~= ordered);
            assert(self.tasks@.take(0) =~= Seq::empty());
            assert(progress =~= object_resources(ordered, kinds));
            assert(self.progress() =~= progress + one_object(slug, kinds));
            assert(sound(self.products@)) by {
                assert forall|k: int| #![trigger self.products@[k]]
                    0 <= k < self.products@.len() implies self.products@[k].resource@
                    == self.products@[k].outcome.resource@ && self.products@[k].table@
                    == self.products@[k].outcome.table@ && (self.products@[k].outcome.status@
                    == "ok"@ ==> self.products@[k].path is Some) by {
                    if k < had.len() {
                        assert(self.products@[k] == had[k]);
                    } else {
                        assert(self.products@[k] == more[k - had.len()]);
                    }
                }
            }
            lemma_draw(old(self).order@, i, self.objects@.len());
        }
        self.settle();
    }

    /// Takes in what the resource that was next came to. The lists are kept only where they are
    /// asked for; their rows follow where they are asked for and the lists came.
    pub fn flat_done(
        &mut self,
        ctx: &FetchCtx,
        spool: &RunSpool,
        started: String,
        result: Result<u64, String>,
        ended: String,
    )
        requires
            old(self).wf(),
            old(self).at_flat(),
        ensures
            final(self).wf(),
            same_fetch(*old(self), *final(self)),
            final(self).order == old(self).order,
            flat_step(*old(self), *final(self), started@, result, ended@),
    {
        let ghost before = *self;
        let ghost progress = self.progress();
        let task = self.tasks[self.at];
        let (category, keep) = match task {
            FetchTask::Schemas => (Category::Schemas, true),
            FetchTask::Lists { keep, .. } => if self.rows_due {
                (Category::ListRows, true)
            } else {
                (Category::Lists, keep)
            },
            FetchTask::Linked(c) => (c, true),
            _ => (Category::Settings, true),
        };
        let came = result.is_ok();
        let p = ctx.fetch_flat(spool, category.name(), started, result, ended);
        proof {
            reveal_strlit("ok");
            reveal_strlit("failed");
            assert("ok"@[0] != "failed"@[0]);
        }
        let lists = category == Category::Lists;
        if lists {
            self.lists_came = came;
        }
        let ghost product = p;
        if keep {
            self.products.push(p);
        }
        assert(self.at < self.tasks.len());
        let follow = lists && came && match task {
            FetchTask::Lists { rows, .. } => rows,
            _ => false,
        };
        self.rows_due = follow;
        if !follow {
            self.at = self.at + 1;
        }
        proof {
            let n = before.at as int;
            let ordered = before.ordered();
            assert(self.ordered() =~= ordered);
            let one = seq![product.outcome];
            let more = if keep {
                one
            } else {
                Seq::empty()
            };
            let rest = flat_if(keep, category);
            assert(product_outcomes(self.products@) =~= product_outcomes(before.products@) + more);
            // Nothing before the lists depends on whether they came.
            if lists {
                assert forall|i: int| 0 <= i < self.tasks@.take(n).len() implies !(
                #[trigger] self.tasks@.take(n)[i] is Lists) by {
                    assert(self.tasks@.take(n)[i] == self.tasks@[i]);
                    assert(self.tasks@[n] is Lists);
                }
                lemma_planned_without_lists(
                    self.tasks@.take(n),
                    ordered,
                    before.lists_came,
                    self.lists_came,
                );
                assert forall|i: int| 0 <= i < progress.len() implies progress[i] != (
                Resource::Flat { category: Category::Lists }) by {
                    lemma_no_lists(self.tasks@.take(n), ordered, before.lists_came, i);
                }
                assert(progress =~= planned(self.tasks@.take(n), ordered, self.lists_came));
                assert(accounts(
                    product_outcomes(before.products@),
                    progress,
                    self.lists_came,
                ));
            }
            assert(accounts(more, rest, self.lists_came));
            lemma_accounts_together(
                product_outcomes(before.products@),
                progress,
                more,
                rest,
                self.lists_came,
            );
            lemma_planned_push(self.tasks@, n, ordered, self.lists_came);
            assert(self.progress() =~= progress + rest);
            assert(sound(self.products@)) by {
                assert forall|k: int| #![trigger self.products@[k]]
                    0 <= k < self.products@.len() implies self.products@[k].resource@
                    == self.products@[k].outcome.resource@ && self.products@[k].table@
                    == self.products@[k].outcome.table@ && (self.products@[k].outcome.status@
                    == "ok"@ ==> self.products@[k].path is Some) by {
                    if k < before.products@.len() {
                        assert(self.products@[k] == before.products@[k]);
                    }
                }
            }
            if keep {
                assert(self.products@.drop_last() =~= before.products@);
            }
        }
    }

    /// What the fetch has brought, once everything has been tried: a product for each resource that
    /// the run's plan asks for, whatever became of it.
    pub fn finish(self) -> (r: Vec<SpoolProduct>)
        requires
            self.wf(),
            self.at_end(),
        ensures
            r == self.products,
            tables_known(r@),
            sound(r@),
            forall|run: BackupRun| #[trigger]
                self.of(run) ==> covers(run, product_outcomes(r@)),
    {
        proof {
            let progress = self.progress();
            assert(self.tasks@.take(self.at as int) =~= self.tasks@);
            assert(progress =~= planned(self.tasks@, self.ordered(), self.lists_came));
            assert forall|i: int| 0 <= i < self.products@.len() implies known_table(
                (#[trigger] self.products@[i]).table@,
            ) by {
                assert(product_outcomes(self.products@)[i] == self.products@[i].outcome);
                assert(outcome_of(product_outcomes(self.products@)[i], progress[i]));
                lemma_planned_known(self.tasks@, self.ordered(), self.lists_came, i);
            }
            assert forall|run: BackupRun| #[trigger] self.of(run) implies covers(
                run,
                product_outcomes(self.products@),
            ) by {
                let all = slugs(run.plan.objects@);
                assert(self.names() =~= all) by {
                    assert(name_pairs(self.objects@).len() == slug_tables(all).len());
                    assert forall|k: int| 0 <= k < all.len() implies self.names()[k] == all[k] by {
                        assert(name_pairs(self.objects@)[k] == slug_tables(all)[k]);
                    }
                }
                assert(planned_in(run, self.order@, self.lists_came) == progress);
                if run.plan.categories@.contains(Category::Records) {
                    assert(self.tasks@[0] is Objects);
                }
            }
        }
        self.products
    }
}

/// Whether it is still the same fetch, of the same things.
pub open spec fn same_fetch(before: FetchPhase, after: FetchPhase) -> bool {
    &&& after.tasks == before.tasks
    &&& after.objects == before.objects
    &&& after.kinds == before.kinds
}

/// Whether the fetch goes on as it should behind a resource with a table of its own name.
pub open spec fn flat_step(
    before: FetchPhase,
    after: FetchPhase,
    started: Seq<char>,
    result: Result<u64, String>,
    ended: Seq<char>,
) -> bool {
    let task = before.tasks@[before.at as int];
    let lists = before.due() == Category::Lists;
    let keep = match task {
        FetchTask::Lists { keep, .. } => keep || !lists,
        _ => true,
    };
    let follow = lists && result is Ok && match task {
        FetchTask::Lists { rows, .. } => rows,
        _ => false,
    };
    &&& after.lists_came == if lists {
        result is Ok
    } else {
        before.lists_came
    }
    &&& after.rows_due == follow
    &&& after.at == if follow {
        before.at as int
    } else {
        before.at + 1
    }
    &&& if keep {
        &&& after.products@.len() == before.products@.len() + 1
        &&& after.products@.drop_last() == before.products@
        &&& flat_product(
            after.products@.last(),
            category_name(before.due()),
            started,
            result,
            ended,
        )
    } else {
        after.products@ == before.products@
    }
}

/// The products of an object are those of its resources.
proof fn lemma_object_accounted(
    ps: Seq<SpoolProduct>,
    slug: Seq<char>,
    table: Seq<char>,
    kinds: Seq<FeedKind>,
    lists_came: bool,
)
    requires
        object_products(ps, slug, table, kinds),
        table == records_table(slug),
    ensures
        accounts(product_outcomes(ps), one_object(slug, kinds), lists_came),
        sound(ps),
{
    let r = one_object(slug, kinds);
    let o = product_outcomes(ps);
    assert forall|i: int| 0 <= i < o.len() implies {
        &&& outcome_of(#[trigger] o[i], r[i])
        &&& !lists_came && r[i] == (Resource::Flat { category: Category::Lists }) ==> failed(o[i])
    } by {
        if i > 0 {
            let k = i - 1;
            assert(r[i] == (Resource::Feed { kind: kinds[k], slug }));
            assert(o[i] == ps[k + 1].outcome);
        }
    }
    assert forall|i: int| #![trigger ps[i]]
        0 <= i < ps.len() implies ps[i].resource@ == ps[i].outcome.resource@ && ps[i].table@
        == ps[i].outcome.table@ && (ps[i].outcome.status@ == "ok"@ ==> ps[i].path is Some) by {
        if i > 0 {
            let k = i - 1;
            assert(crate::fetch::feed_said(
                ps[k + 1],
                kinds[k],
                slug,
                ps[0].outcome.status@ == "ok"@,
            ));
        }
    }
}

/// A number that was not drawn yet can be drawn.
proof fn lemma_draw(order: Seq<usize>, i: usize, n: nat)
    requires
        drawn(order, n),
        i < n,
        !order.contains(i),
        order.len() < n,
    ensures
        drawn(order.push(i), n),
        order.push(i).len() <= n,
{
    let now = order.push(i);
    assert forall|a: int, b: int| 0 <= a < b < now.len() implies #[trigger] now[a]
        != #[trigger] now[b] by {
        assert(now[a] == order[a]);
    }
}

/// Objects have no resource that is the lists.
proof fn lemma_objects_no_lists(ordered: Seq<Seq<char>>, kinds: Seq<FeedKind>, i: int)
    requires
        0 <= i < object_resources(ordered, kinds).len(),
    ensures
        object_resources(ordered, kinds)[i] is Records || object_resources(ordered, kinds)[i] is Feed,
    decreases ordered.len(),
{
    let before = object_resources(ordered.drop_last(), kinds);
    if i < before.len() {
        lemma_objects_no_lists(ordered.drop_last(), kinds, i);
    } else {
        let k = i - before.len();
        assert(object_resources(ordered, kinds)[i] == one_object(ordered.last(), kinds)[k]);
    }
}

/// Before the lists are asked for, no resource is the lists.
proof fn lemma_no_lists(
    tasks: Seq<FetchTask>,
    ordered: Seq<Seq<char>>,
    lists_came: bool,
    i: int,
)
    requires
        forall|k: int| 0 <= k < tasks.len() ==> !(#[trigger] tasks[k] is Lists),
        forall|k: int|
            0 <= k < tasks.len() ==> (#[trigger] tasks[k] matches FetchTask::Linked(c) ==> c
                == Category::Users || c == Category::Workflows),
        0 <= i < planned(tasks, ordered, lists_came).len(),
    ensures
        planned(tasks, ordered, lists_came)[i] != (Resource::Flat { category: Category::Lists }),
    decreases tasks.len(),
{
    let head = tasks.drop_last();
    let before = planned(head, ordered, lists_came);
    if i < before.len() {
        assert forall|k: int| 0 <= k < head.len() implies !(#[trigger] head[k] is Lists) && (
        head[k] matches FetchTask::Linked(c) ==> c == Category::Users || c
            == Category::Workflows) by {
            assert(head[k] == tasks[k]);
        }
        lemma_no_lists(head, ordered, lists_came, i);
    } else {
        let last = tasks[tasks.len() - 1];
        let r = task_resources(last, ordered, lists_came);
        assert(planned(tasks, ordered, lists_came)[i] == r[i - before.len()]);
        if let FetchTask::Objects { activities, attachments } = last {
            lemma_objects_no_lists(
                ordered,
                feed_kinds(activities, attachments),
                i - before.len(),
            );
        }
    }
}

/// Every planned resource has a table that is known.
proof fn lemma_planned_known(
    tasks: Seq<FetchTask>,
    ordered: Seq<Seq<char>>,
    lists_came: bool,
    i: int,
)
    requires
        forall|k: int|
            0 <= k < tasks.len() ==> (#[trigger] tasks[k] matches FetchTask::Linked(c) ==> c
                == Category::Users || c == Category::Workflows),
        0 <= i < planned(tasks, ordered, lists_came).len(),
    ensures
        known_table(resource_table(planned(tasks, ordered, lists_came)[i])),
    decreases tasks.len(),
{
    let head = tasks.drop_last();
    let before = planned(head, ordered, lists_came);
    if i < before.len() {
        assert forall|k: int| 0 <= k < head.len() implies (
        #[trigger] head[k] matches FetchTask::Linked(c) ==> c == Category::Users || c
            == Category::Workflows) by {
            assert(head[k] == tasks[k]);
        }
        lemma_planned_known(head, ordered, lists_came, i);
    } else {
        let last = tasks[tasks.len() - 1];
        let r = task_resources(last, ordered, lists_came);
        assert(planned(tasks, ordered, lists_came)[i] == r[i - before.len()]);
        if let FetchTask::Objects { activities, attachments } = last {
            lemma_objects_no_lists(
                ordered,
                feed_kinds(activities, attachments),
                i - before.len(),
            );
            match r[i - before.len()] {
                Resource::Records { slug } => law_records_tables_are_known(slug),
                _ => {},
            }
        }
    }
}

// ---- what a plan asks for ----

proof fn lemma_either_part(a: Seq<Resource>, b: Seq<Resource>, r: Resource)
    ensures
        (a + b).contains(r) <==> a.contains(r) || b.contains(r),
{
    if a.contains(r) {
        let i = choose|i: int| 0 <= i < a.len() && a[i] == r;
        assert((a + b)[i] == r);
    }
    if b.contains(r) {
        let i = choose|i: int| 0 <= i < b.len() && b[i] == r;
        assert((a + b)[a.len() + i] == r);
    }
    if (a + b).contains(r) {
        let i = choose|i: int| 0 <= i < (a + b).len() && (a + b)[i] == r;
        if i < a.len() {
            assert(a[i] == r);
        } else {
            assert(b[i - a.len()] == r);
        }
    }
}

proof fn lemma_one_object_holds(slug: Seq<char>, kinds: Seq<FeedKind>, r: Resource)
    ensures
        one_object(slug, kinds).contains(r) <==> match r {
            Resource::Records { slug: s } => s == slug,
            Resource::Feed { kind, slug: s } => s == slug && kinds.contains(kind),
            Resource::Flat { .. } => false,
        },
{
    let all = one_object(slug, kinds);
    assert(all[0] == Resource::Records { slug });
    if let Resource::Feed { kind, slug: s } = r {
        if s == slug && kinds.contains(kind) {
            let k = choose|k: int| 0 <= k < kinds.len() && kinds[k] == kind;
            assert(all[k + 1] == r);
        }
    }
    if all.contains(r) {
        let i = choose|i: int| 0 <= i < all.len() && all[i] == r;
        if i > 0 {
            assert(all[i] == (Resource::Feed { kind: kinds[i - 1], slug }));
            assert(kinds.contains(kinds[i - 1]));
        }
    }
}

/// Of each object its records are asked for, and each of the feeds; of nothing else they are.
pub proof fn law_every_object_has_its_resources(
    ordered: Seq<Seq<char>>,
    kinds: Seq<FeedKind>,
    r: Resource,
)
    ensures
        object_resources(ordered, kinds).contains(r) <==> match r {
            Resource::Records { slug } => ordered.contains(slug),
            Resource::Feed { kind, slug } => ordered.contains(slug) && kinds.contains(kind),
            Resource::Flat { .. } => false,
        },
    decreases ordered.len(),
{
    if ordered.len() > 0 {
        let rest = ordered.drop_last();
        let last = ordered.last();
        law_every_object_has_its_resources(rest, kinds, r);
        lemma_one_object_holds(last, kinds, r);
        lemma_either_part(object_resources(rest, kinds), one_object(last, kinds), r);
        assert forall|slug: Seq<char>| ordered.contains(slug) <==> rest.contains(slug) || slug
            == last by {
            if ordered.contains(slug) {
                let i = choose|i: int| 0 <= i < ordered.len() && ordered[i] == slug;
                if i < rest.len() {
                    assert(rest[i] == slug);
                }
            }
            if rest.contains(slug) {
                let i = choose|i: int| 0 <= i < rest.len() && rest[i] == slug;
                assert(ordered[i] == slug);
            }
            if slug == last {
                assert(ordered[ordered.len() - 1] == slug);
            }
        }
    }
}

proof fn lemma_planned_contains(
    tasks: Seq<FetchTask>,
    ordered: Seq<Seq<char>>,
    lists_came: bool,
    r: Resource,
)
    ensures
        planned(tasks, ordered, lists_came).contains(r) <==> exists|i: int|
            0 <= i < tasks.len() && task_resources(
                #[trigger] tasks[i],
                ordered,
                lists_came,
            ).contains(r),
    decreases tasks.len(),
{
    if tasks.len() > 0 {
        let rest = tasks.drop_last();
        let n = tasks.len() - 1;
        lemma_planned_contains(rest, ordered, lists_came, r);
        lemma_either_part(
            planned(rest, ordered, lists_came),
            task_resources(tasks.last(), ordered, lists_came),
            r,
        );
        if planned(rest, ordered, lists_came).contains(r) {
            let i = choose|i: int|
                0 <= i < rest.len() && task_resources(
                    #[trigger] rest[i],
                    ordered,
                    lists_came,
                ).contains(r);
            assert(tasks[i] == rest[i]);
        }
        if task_resources(tasks.last(), ordered, lists_came).contains(r) {
            assert(tasks[n] == tasks.last());
        }
        if exists|i: int|
            0 <= i < tasks.len() && task_resources(
                #[trigger] tasks[i],
                ordered,
                lists_came,
            ).contains(r) {
            let i = choose|i: int|
                0 <= i < tasks.len() && task_resources(
                    #[trigger] tasks[i],
                    ordered,
                    lists_came,
                ).contains(r);
            if i < n {
                assert(rest[i] == tasks[i]);
            }
        }
    }
}

proof fn lemma_task_holds(
    task: FetchTask,
    ordered: Seq<Seq<char>>,
    lists_came: bool,
    r: Resource,
)
    ensures
        task_resources(task, ordered, lists_came).contains(r) <==> match task {
            FetchTask::Objects { activities, attachments } => match r {
                Resource::Records { slug } => ordered.contains(slug),
                Resource::Feed { kind, slug } => ordered.contains(slug) && match kind {
                    FeedKind::Activities => activities,
                    FeedKind::Attachments => attachments,
                },
                Resource::Flat { .. } => false,
            },
            FetchTask::Schemas => r == (Resource::Flat { category: Category::Schemas }),
            FetchTask::Lists { keep, rows } => (keep && r == (Resource::Flat {
                category: Category::Lists,
            })) || (rows && lists_came && r == (Resource::Flat { category: Category::ListRows })),
            FetchTask::Linked(category) => r == (Resource::Flat { category }),
            FetchTask::Settings => r == (Resource::Flat { category: Category::Settings }),
        },
{
    match task {
        FetchTask::Objects { activities, attachments } => {
            law_every_object_has_its_resources(ordered, feed_kinds(activities, attachments), r);
            law_wanted_feeds_are_gone_through(activities, attachments);
        },
        FetchTask::Schemas => lemma_flat(Category::Schemas, r),
        FetchTask::Lists { keep, rows } => {
            lemma_flat(Category::Lists, r);
            lemma_flat(Category::ListRows, r);
            lemma_either_part(
                flat_if(keep, Category::Lists),
                flat_if(rows && lists_came, Category::ListRows),
                r,
            );
        },
        FetchTask::Linked(category) => lemma_flat(category, r),
        FetchTask::Settings => lemma_flat(Category::Settings, r),
    }
}

proof fn lemma_flat(category: Category, r: Resource)
    ensures
        flat(category).contains(r) <==> r == (Resource::Flat { category }),
{
    assert(flat(category)[0] == Resource::Flat { category });
}

/// What a plan asks for: of each object its records and the feeds that are taken, wherever records
/// are taken at all, and each other category that is taken. The rows of lists are asked for where
/// the lists came.
pub proof fn law_what_a_plan_asks_for(
    categories: Seq<Category>,
    ordered: Seq<Seq<char>>,
    lists_came: bool,
    r: Resource,
)
    ensures
        planned(task_list(categories), ordered, lists_came).contains(r) <==> match r {
            Resource::Records { slug } => categories.contains(Category::Records)
                && ordered.contains(slug),
            Resource::Feed { kind, slug } => categories.contains(Category::Records)
                && ordered.contains(slug) && match kind {
                FeedKind::Activities => categories.contains(Category::Activities),
                FeedKind::Attachments => categories.contains(Category::Attachments),
            },
            Resource::Flat { category } => match category {
                Category::Records => false,
                Category::Activities => false,
                Category::Attachments => false,
                Category::ListRows => categories.contains(Category::ListRows) && lists_came,
                _ => categories.contains(category),
            },
        },
{
    let tasks = task_list(categories);
    lemma_planned_contains(tasks, ordered, lists_came, r);
    if planned(tasks, ordered, lists_came).contains(r) {
        let i = choose|i: int|
            0 <= i < tasks.len() && task_resources(
                #[trigger] tasks[i],
                ordered,
                lists_came,
            ).contains(r);
        assert(tasks.contains(tasks[i]));
        law_what_is_fetched(categories, tasks[i]);
        lemma_task_holds(tasks[i], ordered, lists_came, r);
    }
    let task = match r {
        Resource::Records { .. } => FetchTask::Objects {
            activities: categories.contains(Category::Activities),
            attachments: categories.contains(Category::Attachments),
        },
        Resource::Feed { .. } => FetchTask::Objects {
            activities: categories.contains(Category::Activities),
            attachments: categories.contains(Category::Attachments),
        },
        Resource::Flat { category } => match category {
            Category::Schemas => FetchTask::Schemas,
            Category::Users => FetchTask::Linked(Category::Users),
            Category::Workflows => FetchTask::Linked(Category::Workflows),
            Category::Settings => FetchTask::Settings,
            _ => FetchTask::Lists {
                keep: categories.contains(Category::Lists),
                rows: categories.contains(Category::ListRows),
            },
        },
    };
    law_what_is_fetched(categories, task);
    lemma_task_holds(task, ordered, lists_came, r);
    if tasks.contains(task) && task_resources(task, ordered, lists_came).contains(r) {
        let i = choose|i: int| 0 <= i < tasks.len() && tasks[i] == task;
        assert(task_resources(tasks[i], ordered, lists_came).contains(r));
    }
}

/// Whatever a plan asks for has an outcome, which names it and its table and says that it came
/// through, that it failed, or for the records of an object and its feeds that there are none.
pub proof fn law_whatever_is_asked_for_has_an_outcome(
    outcomes: Seq<ResourceOutcome>,
    resources: Seq<Resource>,
    lists_came: bool,
    r: Resource,
) -> (i: int)
    requires
        accounts(outcomes, resources, lists_came),
        resources.contains(r),
    ensures
        0 <= i < outcomes.len(),
        outcomes[i].resource@ == resource_name(r),
        outcomes[i].table@ == resource_table(r),
        outcomes[i].status@ == "ok"@ || outcomes[i].status@ == "failed"@ || (outcomes[i].status@
            == "skipped"@ && !(r is Flat)),
{
    let i = choose|i: int| 0 <= i < resources.len() && resources[i] == r;
    assert(outcome_of(outcomes[i], resources[i]));
    i
}

/// A run that covers its plan and in which nothing failed has, for each category that its plan takes
/// and that has one table, an outcome that says that it came through.
pub proof fn law_covered_categories_came_through(
    run: BackupRun,
    outcomes: Seq<ResourceOutcome>,
    category: Category,
) -> (i: int)
    requires
        fully_covers(run, outcomes),
        run.plan.categories@.contains(category),
        category == Category::Schemas || category == Category::Lists || category == Category::Users
            || category == Category::Workflows || category == Category::Settings,
    ensures
        0 <= i < outcomes.len(),
        outcomes[i].resource@ == category_name(category),
        outcomes[i].table@ == category_name(category),
        outcomes[i].status@ == "ok"@,
{
    let (order, lists_came) = choose|order: Seq<usize>, lists_came: bool|
        {
            &&& run.plan.categories@.contains(Category::Records) ==> each_once(
                order,
                run.plan.objects@.len(),
            )
            &&& accounts(outcomes, #[trigger] planned_in(run, order, lists_came), lists_came)
            &&& run.plan.categories@.contains(Category::Lists) ==> lists_came
            &&& forall|i: int| 0 <= i < outcomes.len() ==> !failed(#[trigger] outcomes[i])
        };
    let r = Resource::Flat { category };
    law_what_a_plan_asks_for(
        run.plan.categories@,
        in_turn(slugs(run.plan.objects@), order),
        lists_came,
        r,
    );
    let i = law_whatever_is_asked_for_has_an_outcome(
        outcomes,
        planned_in(run, order, lists_came),
        lists_came,
        r,
    );
    assert(!failed(outcomes[i]));
    i
}

/// A run that covers its plan and in which nothing failed has, for each object that its plan takes,
/// an outcome of its records, which came through or of which there are none.
pub proof fn law_covered_objects_came_through(
    run: BackupRun,
    outcomes: Seq<ResourceOutcome>,
    k: int,
) -> (i: int)
    requires
        fully_covers(run, outcomes),
        run.plan.categories@.contains(Category::Records),
        0 <= k < run.plan.objects@.len(),
    ensures
        0 <= i < outcomes.len(),
        outcomes[i].table@ == records_table(run.plan.objects@[k].slug@),
        outcomes[i].status@ == "ok"@ || outcomes[i].status@ == "skipped"@,
{
    let (order, lists_came) = choose|order: Seq<usize>, lists_came: bool|
        {
            &&& run.plan.categories@.contains(Category::Records) ==> each_once(
                order,
                run.plan.objects@.len(),
            )
            &&& accounts(outcomes, #[trigger] planned_in(run, order, lists_came), lists_came)
            &&& run.plan.categories@.contains(Category::Lists) ==> lists_came
            &&& forall|i: int| 0 <= i < outcomes.len() ==> !failed(#[trigger] outcomes[i])
        };
    let slug = run.plan.objects@[k].slug@;
    let all = slugs(run.plan.objects@);
    let ordered = in_turn(all, order);
    lemma_each_drawn(order, run.plan.objects@.len(), k);
    let j = choose|j: int| 0 <= j < order.len() && #[trigger] order[j] == k;
    assert(ordered[j] == all[k]);
    assert(ordered.contains(slug));
    let r = Resource::Records { slug };
    law_what_a_plan_asks_for(run.plan.categories@, ordered, lists_came, r);
    let i = law_whatever_is_asked_for_has_an_outcome(
        outcomes,
        planned_in(run, order, lists_came),
        lists_came,
        r,
    );
    assert(!failed(outcomes[i]));
    i
}

/// A list that has as many numbers below `n` as there are, none of them twice, has each of them.
proof fn lemma_each_drawn(order: Seq<usize>, n: nat, k: int)
    requires
        each_once(order, n),
        0 <= k < n,
    ensures
        exists|j: int| 0 <= j < order.len() && #[trigger] order[j] == k,
{
    if !(exists|j: int| 0 <= j < order.len() && #[trigger] order[j] == k) {
        let ints = order.map_values(|i: usize| i as int);
        assert(ints.no_duplicates()) by {
            assert forall|i: int, j: int|
                0 <= i < ints.len() && 0 <= j < ints.len() && i != j implies ints[i] != ints[j] by {
                if i < j {
                    assert(order[i] != order[j]);
                } else {
                    assert(order[j] != order[i]);
                }
            }
        }
        ints.unique_seq_to_set();
        let below = vstd::set_lib::set_int_range(0, n as int);
        vstd::set_lib::lemma_int_range(0, n as int);
        let fewer = below.remove(k);
        assert forall|x: int| ints.to_set().contains(x) implies #[trigger] fewer.contains(x) by {
            let i = choose|i: int| 0 <= i < ints.len() && ints[i] == x;
            assert(order[i] < n);
            assert(order[i] != k);
        }
        vstd::set_lib::lemma_len_subset(ints.to_set(), fewer);
    }
}

/// What a resource with a table of its own name comes to: with its items a file and their number,
/// and otherwise a failure, for the reason that is said.
pub proof fn law_what_flat_resources_come_to(
    p: SpoolProduct,
    name: Seq<char>,
    started: Seq<char>,
    result: Result<u64, String>,
    ended: Seq<char>,
)
    requires
        flat_product(p, name, started, result, ended),
    ensures
        p.table@ == name,
        p.outcome.resource@ == name,
        p.outcome.table@ == name,
        p.outcome.fetch_started_at@ == started,
        p.outcome.fetch_ended_at@ == ended,
        result matches Ok(count) ==> p.outcome.status@ == "ok"@ && p.outcome.count == count
            && p.outcome.consistency@ == "clean"@ && maybe_text(p.path) == Some(name + ".ndjson"@),
        result matches Err(e) ==> p.outcome.status@ == "failed"@ && p.outcome.count == 0 && p.path
            is None && maybe_text(p.outcome.error) == Some(e@),
{
}

/// Where the rows of lists are wanted, they are next behind the lists, once these came; lists that
/// are wanted only for their rows leave no product of their own.
pub proof fn law_rows_follow_the_lists(
    before: FetchPhase,
    after: FetchPhase,
    started: Seq<char>,
    result: Result<u64, String>,
    ended: Seq<char>,
)
    requires
        flat_step(before, after, started, result, ended),
        before.due() == Category::Lists,
    ensures
        after.lists_came == result is Ok,
        before.tasks@[before.at as int] matches FetchTask::Lists { keep, rows } ==> {
            &&& after.rows_due <==> rows && result is Ok
            &&& after.at == if rows && result is Ok {
                before.at as int
            } else {
                before.at + 1
            }
            &&& after.products@.len() == before.products@.len() + if keep {
                1int
            } else {
                0int
            }
        },
{
}

} // verus!
