//! What a backup covers: the objects whose records are taken, and the categories of resources.

use vstd::prelude::*;
use crate::json::{at, found_text, JsonView};
use crate::schemas::{schema_views, ObjectSchema, SchemaView};
use crate::text::{
    contains, has_prefix, holds, join, joined, occurs, quote, quote_list, quoted, quoted_list, same,
    strip_prefix, texts,
};

verus! {

/// A category of resources.
#[derive(Debug, Clone, Copy, PartialEq, Eq, Structural)]
pub enum Category {
    Records,
    Schemas,
    Lists,
    ListRows,
    Users,
    Workflows,
    Settings,
    Activities,
    Attachments,
}

/// The name of a category.
pub open spec fn category_name(c: Category) -> Seq<char> {
    match c {
        Category::Records => "records"@,
        Category::Schemas => "schemas"@,
        Category::Lists => "lists"@,
        Category::ListRows => "list_rows"@,
        Category::Users => "users"@,
        Category::Workflows => "workflows"@,
        Category::Settings => "settings"@,
        Category::Activities => "activities"@,
        Category::Attachments => "attachments"@,
    }
}

/// All categories, in the order in which a plan lists them.
pub open spec fn all_categories() -> Seq<Category> {
    seq![
        Category::Records,
        Category::Schemas,
        Category::Lists,
        Category::ListRows,
        Category::Users,
        Category::Workflows,
        Category::Settings,
        Category::Activities,
        Category::Attachments,
    ]
}

impl Category {
    pub const ALL: [Category; 9] = [
        Category::Records,
        Category::Schemas,
        Category::Lists,
        Category::ListRows,
        Category::Users,
        Category::Workflows,
        Category::Settings,
        Category::Activities,
        Category::Attachments,
    ];

    /// The name by which a category is skipped and its table is called.
    pub fn name(&self) -> (r: &'static str)
        ensures
            r@ == category_name(*self),
    {
        match self {
            Category::Records => "records",
            Category::Schemas => "schemas",
            Category::Lists => "lists",
            Category::ListRows => "list_rows",
            Category::Users => "users",
            Category::Workflows => "workflows",
            Category::Settings => "settings",
            Category::Activities => "activities",
            Category::Attachments => "attachments",
        }
    }
}

/// The names of all categories.
pub open spec fn category_names() -> Seq<Seq<char>> {
    all_categories().map_values(|c: Category| category_name(c))
}

/// Whether a text names a category.
pub open spec fn names_category(token: Seq<char>) -> bool {
    exists|c: Category| #[trigger] category_name(c) == token
}

/// No two categories share a name, and none is mistaken for a token that skips an object.
pub proof fn law_category_names_are_distinct(a: Category, b: Category)
    ensures
        category_name(a) == category_name(b) ==> a == b,
        !has_prefix(category_name(a), "records:"@),
{
    reveal_strlit("records");
    reveal_strlit("schemas");
    reveal_strlit("lists");
    reveal_strlit("list_rows");
    reveal_strlit("users");
    reveal_strlit("workflows");
    reveal_strlit("settings");
    reveal_strlit("activities");
    reveal_strlit("attachments");
    reveal_strlit("records:");
    let (x, y) = (category_name(a), category_name(b));
    assert(x == y ==> x[0] == y[0] && x.len() == y.len());
    if has_prefix(x, "records:"@) {
        assert(x.take("records:"@.len() as int)[0] == x[0]);
        assert("records:"@[0] == 'r');
    }
}

// ---- the objects ----

/// Whether a schema is one whose records can be backed up.
pub open spec fn backed(s: SchemaView) -> bool {
    s.object && s.slug.len() > 0
}

/// Whether a schema comes from the documents of entities.
pub open spec fn from_entities(s: SchemaView) -> bool {
    match at(s.raw, "id"@) {
        JsonView::Text(id) => occurs(id, "/entities/"@),
        _ => false,
    }
}

/// The slugs of a list of schemas.
pub open spec fn view_slugs(list: Seq<SchemaView>) -> Seq<Seq<char>> {
    list.map_values(|s: SchemaView| s.slug)
}

/// The objects among the discovered schemas, each slug once, in the order in which the slugs first
/// occur. Of several documents for a slug, a later one counts where it comes from the entities.
pub open spec fn merged(schemas: Seq<SchemaView>) -> Seq<SchemaView>
    decreases schemas.len(),
{
    if schemas.len() == 0 {
        Seq::empty()
    } else {
        let before = merged(schemas.drop_last());
        let s = schemas.last();
        if !backed(s) {
            before
        } else if !view_slugs(before).contains(s.slug) {
            before.push(s)
        } else if from_entities(s) {
            before.map_values(|e: SchemaView| if e.slug == s.slug { s } else { e })
        } else {
            before
        }
    }
}

/// Whether no slug occurs twice.
pub open spec fn slugs_distinct(list: Seq<SchemaView>) -> bool {
    forall|i: int, j: int| 0 <= i < j < list.len() ==> (#[trigger] list[i]).slug != (#[trigger] list[j]).slug
}

/// Merging leaves each slug once, leaves only objects, and loses none: every object among the
/// schemas is there under its slug.
pub proof fn law_merged_covers_each_object_once(schemas: Seq<SchemaView>)
    ensures
        slugs_distinct(merged(schemas)),
        forall|i: int| 0 <= i < merged(schemas).len() ==> backed(#[trigger] merged(schemas)[i])
            && schemas.contains(merged(schemas)[i]),
        forall|k: int|
            0 <= k < schemas.len() && backed(#[trigger] schemas[k]) ==> view_slugs(
                merged(schemas),
            ).contains(schemas[k].slug),
    decreases schemas.len(),
{
    if schemas.len() > 0 {
        let before = merged(schemas.drop_last());
        let s = schemas.last();
        let after = merged(schemas);
        law_merged_covers_each_object_once(schemas.drop_last());
        assert forall|x: SchemaView| schemas.drop_last().contains(x) implies schemas.contains(x) by {
            let i = choose|i: int|
                0 <= i < schemas.drop_last().len() && schemas.drop_last()[i] == x;
            assert(schemas[i] == x);
        }
        assert(schemas[schemas.len() - 1] == s);
        assert forall|i: int| 0 <= i < after.len() implies backed(#[trigger] after[i])
            && schemas.contains(after[i]) by {
            if i < before.len() {
                assert(backed(before[i]) && schemas.drop_last().contains(before[i]));
            }
        }
        assert forall|i: int, j: int| 0 <= i < j < after.len() implies (#[trigger] after[i]).slug != (
        #[trigger] after[j]).slug by {
            if j < before.len() {
                assert(before[i].slug != before[j].slug);
                assert(after[i].slug == before[i].slug);
                assert(after[j].slug == before[j].slug);
            } else {
                assert(view_slugs(before)[i] == before[i].slug);
            }
        }
        assert(forall|i: int| 0 <= i < before.len() ==> #[trigger] view_slugs(after)[i] == view_slugs(before)[i]);
        assert forall|k: int| 0 <= k < schemas.len() && backed(#[trigger] schemas[k]) implies view_slugs(
            after,
        ).contains(schemas[k].slug) by {
            if k < schemas.len() - 1 {
                assert(schemas.drop_last()[k] == schemas[k]);
                let i = choose|i: int|
                    0 <= i < view_slugs(before).len() && view_slugs(before)[i] == schemas[k].slug;
                assert(view_slugs(after)[i] == schemas[k].slug);
            } else if !view_slugs(before).contains(s.slug) {
                assert(view_slugs(after)[before.len() as int] == s.slug);
            } else {
                let i = choose|i: int|
                    0 <= i < view_slugs(before).len() && view_slugs(before)[i] == s.slug;
                assert(view_slugs(after)[i] == s.slug);
            }
        }
    }
}

/// Where an object has a document among the entities, the plan takes one from the entities.
pub proof fn law_entities_document_preferred(schemas: Seq<SchemaView>, k: int, i: int)
    requires
        0 <= k < schemas.len(),
        backed(schemas[k]),
        from_entities(schemas[k]),
        0 <= i < merged(schemas).len(),
        merged(schemas)[i].slug == schemas[k].slug,
    ensures
        from_entities(merged(schemas)[i]),
    decreases schemas.len(),
{
    let before = merged(schemas.drop_last());
    let s = schemas.last();
    law_merged_covers_each_object_once(schemas.drop_last());
    if k == schemas.len() - 1 {
        assert(schemas.take(k) =~= schemas.drop_last());
    } else {
        assert(schemas.drop_last().take(k) =~= schemas.take(k));
        if i < before.len() {
            law_entities_document_preferred(schemas.drop_last(), k, i);
        } else {
            assert(schemas.drop_last()[k] == schemas[k]);
            assert(view_slugs(before).contains(schemas[k].slug));
        }
    }
}

// ---- the choices ----

/// What is said of an object that was asked for and not discovered.
pub open spec fn unknown_object(o: Seq<char>, known: Seq<Seq<char>>) -> Seq<char> {
    "unknown object "@ + quoted(o) + "; discovered objects: "@ + quoted_list(known)
}

/// What is said of a token that skips an object that was not discovered.
pub open spec fn unknown_skipped_object(token: Seq<char>, known: Seq<Seq<char>>) -> Seq<char> {
    "unknown object in skip token "@ + quoted(token) + "; discovered: "@ + quoted_list(known)
}

/// What is said of a token that skips nothing.
pub open spec fn unknown_token(token: Seq<char>) -> Seq<char> {
    "unknown skip token "@ + quoted(token) + "; valid: "@ + quoted_list(category_names())
        + " or records:<object>"@
}

/// What is said of the first object that was not discovered, where there is one.
pub open spec fn object_error(objects: Seq<Seq<char>>, known: Seq<Seq<char>>) -> Option<Seq<char>>
    decreases objects.len(),
{
    if objects.len() == 0 {
        None
    } else if !known.contains(objects[0]) {
        Some(unknown_object(objects[0], known))
    } else {
        object_error(objects.drop_first(), known)
    }
}

/// What is said of the first skip token that is none, where there is one.
pub open spec fn token_error(skip: Seq<Seq<char>>, known: Seq<Seq<char>>) -> Option<Seq<char>>
    decreases skip.len(),
{
    if skip.len() == 0 {
        None
    } else {
        let token = skip[0];
        if has_prefix(token, "records:"@) {
            if !known.contains(token.skip("records:"@.len() as int)) {
                Some(unknown_skipped_object(token, known))
            } else {
                token_error(skip.drop_first(), known)
            }
        } else if !names_category(token) {
            Some(unknown_token(token))
        } else {
            token_error(skip.drop_first(), known)
        }
    }
}

/// What is wrong with a choice of objects and skip tokens, where anything is; objects first.
pub open spec fn plan_error(
    known: Seq<Seq<char>>,
    objects: Seq<Seq<char>>,
    skip: Seq<Seq<char>>,
) -> Option<Seq<char>> {
    match object_error(objects, known) {
        Some(e) => Some(e),
        None => token_error(skip, known),
    }
}

/// Whether the records of an object are taken: it is asked for, or none is in particular, and it
/// is not skipped.
pub open spec fn wanted(slug: Seq<char>, objects: Seq<Seq<char>>, skip: Seq<Seq<char>>) -> bool {
    (objects.len() == 0 || objects.contains(slug)) && !skip.contains("records:"@ + slug)
}

/// The objects that a plan takes.
pub open spec fn chosen_objects(
    known: Seq<SchemaView>,
    objects: Seq<Seq<char>>,
    skip: Seq<Seq<char>>,
) -> Seq<SchemaView> {
    known.filter(|s: SchemaView| wanted(s.slug, objects, skip))
}

/// The categories that a plan takes.
pub open spec fn chosen_categories(skip: Seq<Seq<char>>) -> Seq<Category> {
    all_categories().filter(|c: Category| !skip.contains(category_name(c)))
}

/// What a backup covers.
#[derive(Debug)]
pub struct ResourcePlan {
    pub objects: Vec<ObjectSchema>,
    pub categories: Vec<Category>,
}

fn slug_list(schemas: &Vec<ObjectSchema>) -> (r: Vec<String>)
    ensures
        texts(r@) == view_slugs(schema_views(schemas@)),
{
    let mut out: Vec<String> = Vec::new();
    let mut i: usize = 0;
    let ghost want = view_slugs(schema_views(schemas@));
    while i < schemas.len()
        invariant
            i <= schemas@.len(),
            want == view_slugs(schema_views(schemas@)),
            texts(out@) == want.take(i as int),
        decreases schemas@.len() - i,
    {
        let ghost had = out@;
        out.push(schemas[i].slug.clone());
        assert(texts(out@) =~= texts(had).push(schemas@[i as int].slug@));
        i += 1;
        assert(texts(out@) =~= want.take(i as int));
    }
    assert(want.take(schemas@.len() as int) =~= want);
    out
}

fn category_list(categories: &[Category]) -> (r: Vec<String>)
    ensures
        texts(r@) == categories@.map_values(|c: Category| category_name(c)),
{
    let mut out: Vec<String> = Vec::new();
    let mut i: usize = 0;
    let ghost want = categories@.map_values(|c: Category| category_name(c));
    while i < categories.len()
        invariant
            i <= categories@.len(),
            want == categories@.map_values(|c: Category| category_name(c)),
            texts(out@) == want.take(i as int),
        decreases categories@.len() - i,
    {
        let ghost had = out@;
        let name = categories[i].name().to_owned();
        out.push(name);
        assert(texts(out@) =~= texts(had).push(name@));
        i += 1;
        assert(texts(out@) =~= want.take(i as int));
    }
    assert(want.take(categories@.len() as int) =~= want);
    out
}

fn comes_from_entities(s: &ObjectSchema) -> (r: bool)
    ensures
        r == from_entities(s@),
{
    match found_text(s.raw.get("id")) {
        Some(id) => contains(id, "/entities/"),
        None => false,
    }
}

/// The objects among the discovered schemas, each slug once.
pub fn merge(schemas: &[ObjectSchema]) -> (r: Vec<ObjectSchema>)
    ensures
        schema_views(r@) == merged(schema_views(schemas@)),
{
    let mut out: Vec<ObjectSchema> = Vec::new();
    let ghost all = schema_views(schemas@);
    let mut k: usize = 0;
    assert(schema_views(out@) =~= Seq::empty());
    assert(all.take(0) =~= Seq::empty());
    while k < schemas.len()
        invariant
            all == schema_views(schemas@),
            k <= schemas@.len(),
            schema_views(out@) == merged(all.take(k as int)),
        decreases schemas@.len() - k,
    {
        let s = &schemas[k];
        let ghost before = merged(all.take(k as int));
        proof {
            assert(all.take(k + 1).drop_last() =~= all.take(k as int));
            assert(all.take(k + 1).last() == s@);
            law_merged_covers_each_object_once(all.take(k as int));
        }
        if s.object && !s.slug.as_str().is_empty() {
            let mut j: usize = 0;
            while j < out.len() && !same(&out[j].slug, &s.slug)
                invariant
                    j <= out@.len(),
                    schema_views(out@) == before,
                    forall|i: int| 0 <= i < j ==> (#[trigger] before[i]).slug != s@.slug,
                decreases out@.len() - j,
            {
                assert(before[j as int] == out@[j as int]@);
                j += 1;
            }
            if j == out.len() {
                let c = s.clone();
                let ghost had = out@;
                out.push(c);
                proof {
                    assert(!view_slugs(before).contains(s@.slug)) by {
                        if view_slugs(before).contains(s@.slug) {
                            let i = choose|i: int|
                                0 <= i < view_slugs(before).len() && view_slugs(before)[i] == s@.slug;
                            assert(before[i].slug == s@.slug);
                        }
                    }
                    assert(schema_views(out@) =~= before.push(s@));
                }
            } else {
                assert(before[j as int] == out@[j as int]@);
                assert(view_slugs(before)[j as int] == s@.slug);
                if comes_from_entities(s) {
                    let c = s.clone();
                    out.set(j, c);
                    proof {
                        let e = before.map_values(
                            |e: SchemaView| if e.slug == s@.slug { s@ } else { e },
                        );
                        assert forall|i: int| 0 <= i < before.len() implies schema_views(out@)[i]
                            == #[trigger] e[i] by {
                            if i < j {
                                assert(before[i].slug != s@.slug);
                            } else if i > j {
                                assert(before[j as int].slug != before[i].slug);
                            }
                        }
                        assert(schema_views(out@) =~= e);
                    }
                }
            }
        }
        k += 1;
    }
    assert(all.take(schemas@.len() as int) =~= all);
    out
}

impl ResourcePlan {
    /// Builds the plan out of all discovered schemas, the objects asked for and the tokens to
    /// skip. Schemas that are no objects are left out, and an object that occurs under several
    /// documents is taken once, from the entities where it is there.
    pub fn build(schemas: &[ObjectSchema], objects: &[String], skip: &[String]) -> (r: Result<
        ResourcePlan,
        String,
    >)
        ensures
            ({
                let known = merged(schema_views(schemas@));
                let wrong = plan_error(view_slugs(known), texts(objects@), texts(skip@));
                match r {
                    Ok(plan) => wrong is None && schema_views(plan.objects@) == chosen_objects(
                        known,
                        texts(objects@),
                        texts(skip@),
                    ) && plan.categories@ == chosen_categories(texts(skip@)),
                    Err(e) => wrong == Some(e@),
                }
            }),
    {
        let by_slug = merge(schemas);
        let known = slug_list(&by_slug);
        let ghost kv = view_slugs(merged(schema_views(schemas@)));
        let ghost ov = texts(objects@);
        let ghost sv = texts(skip@);
        let mut i: usize = 0;
        assert(ov.skip(0) =~= ov);
        while i < objects.len()
            invariant
                texts(known@) == kv,
                kv == view_slugs(merged(schema_views(schemas@))),
                ov == texts(objects@),
                i <= objects@.len(),
                object_error(ov, kv) == object_error(ov.skip(i as int), kv),
            decreases objects@.len() - i,
        {
            assert(ov.skip(i as int)[0] == objects@[i as int]@);
            if !holds(&known, &objects[i]) {
                let mut e = "unknown object ".to_owned();
                e.append(&quote(&objects[i]));
                e.append("; discovered objects: ");
                e.append(&quote_list(&known));
                return Err(e);
            }
            assert(ov.skip(i as int).drop_first() =~= ov.skip(i + 1));
            i += 1;
        }
        let mut t: usize = 0;
        assert(sv.skip(0) =~= sv);
        while t < skip.len()
            invariant
                texts(known@) == kv,
                kv == view_slugs(merged(schema_views(schemas@))),
                object_error(texts(objects@), kv) is None,
                sv == texts(skip@),
                t <= skip@.len(),
                token_error(sv, kv) == token_error(sv.skip(t as int), kv),
            decreases skip@.len() - t,
        {
            let token = &skip[t];
            assert(sv.skip(t as int)[0] == token@);
            match strip_prefix(token, "records:") {
                Some(slug) => {
                    if !holds(&known, &slug) {
                        let mut e = "unknown object in skip token ".to_owned();
                        e.append(&quote(token));
                        e.append("; discovered: ");
                        e.append(&quote_list(&known));
                        return Err(e);
                    }
                },
                None => {
                    let all = Category::ALL;
                    assert(all@ =~= all_categories());
                    let names = category_list(&all);
                    if !holds(&names, token) {
                        proof {
                            assert forall|c: Category| #[trigger]
                                category_name(c) != token@ by {
                                lemma_all_categories(c);
                                let k = choose|k: int|
                                    0 <= k < all_categories().len() && all_categories()[k] == c;
                                assert(category_names()[k] == category_name(c));
                            }
                        }
                        let mut e = "unknown skip token ".to_owned();
                        e.append(&quote(token));
                        e.append("; valid: ");
                        e.append(&quote_list(&names));
                        e.append(" or records:<object>");
                        return Err(e);
                    }
                    proof {
                        let k = choose|k: int|
                            0 <= k < category_names().len() && category_names()[k] == token@;
                        assert(category_name(all_categories()[k]) == token@);
                    }
                },
            }
            assert(sv.skip(t as int).drop_first() =~= sv.skip(t + 1));
            t += 1;
        }
        let mut objects_out: Vec<ObjectSchema> = Vec::new();
        let ghost full = merged(schema_views(schemas@));
        let ghost pred = |s: SchemaView| wanted(s.slug, ov, sv);
        let mut j: usize = 0;
        proof {
            reveal(Seq::filter);
            assert(full.take(0) =~= Seq::empty());
            assert(schema_views(objects_out@) =~= Seq::empty());
        }
        while j < by_slug.len()
            invariant
                j <= by_slug@.len(),
                full == schema_views(by_slug@),
                ov == texts(objects@),
                sv == texts(skip@),
                pred == (|s: SchemaView| wanted(s.slug, ov, sv)),
                schema_views(objects_out@) == full.take(j as int).filter(pred),
            decreases by_slug@.len() - j,
        {
            let s = &by_slug[j];
            let ghost had = objects_out@;
            let mut token = "records:".to_owned();
            token.append(&s.slug);
            proof {
                reveal(Seq::filter);
                assert(full.take(j + 1).drop_last() =~= full.take(j as int));
                assert(full.take(j + 1).last() == s@);
                assert(token@ == "records:"@ + s@.slug);
            }
            if (objects.len() == 0 || holds(objects, &s.slug)) && !holds(skip, &token) {
                let c = s.clone();
                objects_out.push(c);
                assert(schema_views(objects_out@) =~= schema_views(had).push(s@));
            }
            j += 1;
        }
        assert(full.take(by_slug@.len() as int) =~= full);
        let mut categories: Vec<Category> = Vec::new();
        let all = Category::ALL;
        let ghost cpred = |c: Category| !sv.contains(category_name(c));
        let mut k: usize = 0;
        proof {
            reveal(Seq::filter);
            assert(all@ =~= all_categories());
            assert(all_categories().take(0) =~= Seq::empty());
        }
        while k < all.len()
            invariant
                k <= all@.len(),
                all@ == all_categories(),
                sv == texts(skip@),
                cpred == (|c: Category| !sv.contains(category_name(c))),
                categories@ == all_categories().take(k as int).filter(cpred),
            decreases all@.len() - k,
        {
            let c = all[k];
            proof {
                reveal(Seq::filter);
                assert(all_categories().take(k + 1).drop_last() =~= all_categories().take(k as int));
                assert(all_categories().take(k + 1).last() == c);
            }
            if !holds(skip, c.name()) {
                categories.push(c);
            }
            k += 1;
        }
        assert(all_categories().take(all@.len() as int) =~= all_categories());
        Ok(ResourcePlan { objects: objects_out, categories })
    }

    /// Whether the plan takes a category.
    pub fn includes(&self, c: Category) -> (r: bool)
        ensures
            r == self.categories@.contains(c),
    {
        let mut i: usize = 0;
        while i < self.categories.len()
            invariant
                i <= self.categories@.len(),
                forall|j: int| 0 <= j < i ==> self.categories@[j] != c,
            decreases self.categories@.len() - i,
        {
            if self.categories[i] == c {
                assert(self.categories@[i as int] == c);
                return true;
            }
            i += 1;
        }
        false
    }

    /// The plan on one line.
    pub fn describe(&self) -> (r: String)
        ensures
            r@ == plan_text(
                view_slugs(schema_views(self.objects@)),
                self.categories@.map_values(|c: Category| category_name(c)),
            ),
    {
        let mut s = "objects: [".to_owned();
        s.append(&join(&slug_list(&self.objects), ", "));
        s.append("]; categories: [");
        s.append(&join(&category_list(&self.categories), ", "));
        s.append("]");
        s
    }
}

/// A plan on one line.
pub open spec fn plan_text(slugs: Seq<Seq<char>>, categories: Seq<Seq<char>>) -> Seq<char> {
    "objects: ["@ + joined(slugs, ", "@) + "]; categories: ["@ + joined(categories, ", "@) + "]"@
}

proof fn lemma_all_categories(c: Category)
    ensures
        all_categories().contains(c),
{
    let s = all_categories();
    match c {
        Category::Records => assert(s[0] == c),
        Category::Schemas => assert(s[1] == c),
        Category::Lists => assert(s[2] == c),
        Category::ListRows => assert(s[3] == c),
        Category::Users => assert(s[4] == c),
        Category::Workflows => assert(s[5] == c),
        Category::Settings => assert(s[6] == c),
        Category::Activities => assert(s[7] == c),
        Category::Attachments => assert(s[8] == c),
    }
}

/// A plan takes a category exactly where no token skips it.
pub proof fn law_category_taken_unless_skipped(skip: Seq<Seq<char>>, c: Category)
    ensures
        chosen_categories(skip).contains(c) <==> !skip.contains(category_name(c)),
{
    let pred = |c: Category| !skip.contains(category_name(c));
    let all = all_categories();
    lemma_all_categories(c);
    if pred(c) {
        let i = choose|i: int| 0 <= i < all.len() && all[i] == c;
        all.lemma_filter_contains(pred, i);
    }
    if all.filter(pred).contains(c) {
        let i = choose|i: int| 0 <= i < all.filter(pred).len() && all.filter(pred)[i] == c;
        all.lemma_filter_pred(pred, i);
    }
}

/// Filtering keeps a list of which everything is kept.
pub proof fn lemma_filter_keeps_all<T>(s: Seq<T>, pred: spec_fn(T) -> bool)
    requires
        forall|i: int| 0 <= i < s.len() ==> pred(#[trigger] s[i]),
    ensures
        s.filter(pred) == s,
    decreases s.len(),
{
    reveal(Seq::filter);
    if s.len() > 0 {
        assert forall|i: int| 0 <= i < s.drop_last().len() implies pred(#[trigger] s.drop_last()[i]) by {
            assert(pred(s[i]));
        }
        lemma_filter_keeps_all(s.drop_last(), pred);
        assert(pred(s[s.len() - 1]));
        assert(s.drop_last().push(s.last()) =~= s);
    } else {
        assert(s.filter(pred) =~= s);
    }
}

/// Without choices a plan takes every category and every discovered object.
pub proof fn law_default_plan_takes_everything(known: Seq<SchemaView>)
    ensures
        plan_error(view_slugs(known), Seq::empty(), Seq::empty()) is None,
        chosen_objects(known, Seq::empty(), Seq::empty()) == known,
        chosen_categories(Seq::empty()) == all_categories(),
{
    let none = Seq::<Seq<char>>::empty();
    lemma_filter_keeps_all(known, |s: SchemaView| wanted(s.slug, none, none));
    lemma_filter_keeps_all(all_categories(), |c: Category| !none.contains(category_name(c)));
}

/// Where each element of a filtered list stood before.
proof fn lemma_filter_positions<T>(s: Seq<T>, pred: spec_fn(T) -> bool) -> (at: Seq<int>)
    ensures
        at.len() == s.filter(pred).len(),
        forall|i: int|
            0 <= i < at.len() ==> 0 <= #[trigger] at[i] < s.len() && s.filter(pred)[i] == s[at[i]],
        forall|i: int, j: int| 0 <= i < j < at.len() ==> #[trigger] at[i] < #[trigger] at[j],
    decreases s.len(),
{
    reveal(Seq::filter);
    if s.len() == 0 {
        Seq::empty()
    } else {
        let before = lemma_filter_positions(s.drop_last(), pred);
        if pred(s.last()) {
            before.push(s.len() - 1)
        } else {
            before
        }
    }
}

/// A plan takes an object exactly where it was discovered, where it stands somewhere among the
/// objects that are asked for or none is asked for, and where no token skips its records.
pub proof fn law_objects_are_taken_as_asked(
    known: Seq<SchemaView>,
    objects: Seq<Seq<char>>,
    skip: Seq<Seq<char>>,
    s: SchemaView,
)
    ensures
        chosen_objects(known, objects, skip).contains(s) <==> known.contains(s) && (objects.len()
            == 0 || exists|k: int| 0 <= k < objects.len() && #[trigger] objects[k] == s.slug) && (
        forall|k: int| 0 <= k < skip.len() ==> #[trigger] skip[k] != "records:"@ + s.slug),
{
    let pred = |s: SchemaView| wanted(s.slug, objects, skip);
    let taken = chosen_objects(known, objects, skip);
    if taken.contains(s) {
        let i = choose|i: int| 0 <= i < taken.len() && taken[i] == s;
        known.lemma_filter_pred(pred, i);
        let at = lemma_filter_positions(known, pred);
        assert(known[at[i]] == s);
        assert(wanted(s.slug, objects, skip));
        assert forall|k: int| 0 <= k < skip.len() implies #[trigger] skip[k] != "records:"@
            + s.slug by {
            if skip[k] == "records:"@ + s.slug {
                assert(skip.contains("records:"@ + s.slug));
            }
        }
    }
    if known.contains(s) && (objects.len() == 0 || exists|k: int|
        0 <= k < objects.len() && #[trigger] objects[k] == s.slug) && (forall|k: int|
        0 <= k < skip.len() ==> #[trigger] skip[k] != "records:"@ + s.slug) {
        assert(wanted(s.slug, objects, skip));
        let i = choose|i: int| 0 <= i < known.len() && known[i] == s;
        known.lemma_filter_contains(pred, i);
    }
}

/// A plan keeps the objects in the order in which they were discovered, and takes none twice that
/// was discovered once.
pub proof fn law_objects_keep_their_order(
    known: Seq<SchemaView>,
    objects: Seq<Seq<char>>,
    skip: Seq<Seq<char>>,
) -> (at: Seq<int>)
    ensures
        at.len() == chosen_objects(known, objects, skip).len(),
        forall|i: int|
            0 <= i < at.len() ==> 0 <= #[trigger] at[i] < known.len() && chosen_objects(
                known,
                objects,
                skip,
            )[i] == known[at[i]],
        forall|i: int, j: int| 0 <= i < j < at.len() ==> #[trigger] at[i] < #[trigger] at[j],
{
    lemma_filter_positions(known, |s: SchemaView| wanted(s.slug, objects, skip))
}

/// A plan takes each of the categories unless its name is among the tokens to skip.
pub proof fn law_skip_tokens_name_categories(skip: Seq<Seq<char>>)
    ensures
        chosen_categories(skip).contains(Category::Records) <==> !skip.contains("records"@),
        chosen_categories(skip).contains(Category::Schemas) <==> !skip.contains("schemas"@),
        chosen_categories(skip).contains(Category::Lists) <==> !skip.contains("lists"@),
        chosen_categories(skip).contains(Category::ListRows) <==> !skip.contains("list_rows"@),
        chosen_categories(skip).contains(Category::Users) <==> !skip.contains("users"@),
        chosen_categories(skip).contains(Category::Workflows) <==> !skip.contains("workflows"@),
        chosen_categories(skip).contains(Category::Settings) <==> !skip.contains("settings"@),
        chosen_categories(skip).contains(Category::Activities) <==> !skip.contains("activities"@),
        chosen_categories(skip).contains(Category::Attachments) <==> !skip.contains(
            "attachments"@,
        ),
        chosen_categories(skip).no_duplicates(),
{
    law_category_taken_unless_skipped(skip, Category::Records);
    law_category_taken_unless_skipped(skip, Category::Schemas);
    law_category_taken_unless_skipped(skip, Category::Lists);
    law_category_taken_unless_skipped(skip, Category::ListRows);
    law_category_taken_unless_skipped(skip, Category::Users);
    law_category_taken_unless_skipped(skip, Category::Workflows);
    law_category_taken_unless_skipped(skip, Category::Settings);
    law_category_taken_unless_skipped(skip, Category::Activities);
    law_category_taken_unless_skipped(skip, Category::Attachments);
    let at = lemma_filter_positions(
        all_categories(),
        |c: Category| !skip.contains(category_name(c)),
    );
    let taken = chosen_categories(skip);
    assert forall|i: int, j: int| 0 <= i < taken.len() && 0 <= j < taken.len() && i != j implies taken[i]
        != taken[j] by {
        assert(at[i] != at[j]);
        assert(taken[i] == all_categories()[at[i]]);
        assert(taken[j] == all_categories()[at[j]]);
    }
}

/// Whether a token to skip means something: the name of a category, or `records:` and the slug of a
/// discovered object.
pub open spec fn valid_token(token: Seq<char>, known: Seq<Seq<char>>) -> bool {
    ||| token == "records"@
    ||| token == "schemas"@
    ||| token == "lists"@
    ||| token == "list_rows"@
    ||| token == "users"@
    ||| token == "workflows"@
    ||| token == "settings"@
    ||| token == "activities"@
    ||| token == "attachments"@
    ||| exists|k: int| 0 <= k < known.len() && token == "records:"@ + #[trigger] known[k]
}

proof fn lemma_object_error(objects: Seq<Seq<char>>, known: Seq<Seq<char>>)
    ensures
        object_error(objects, known) is None <==> forall|k: int|
            0 <= k < objects.len() ==> known.contains(#[trigger] objects[k]),
    decreases objects.len(),
{
    if objects.len() > 0 {
        let rest = objects.drop_first();
        lemma_object_error(rest, known);
        if known.contains(objects[0]) {
            assert forall|k: int|
                0 <= k < objects.len() && (forall|k: int|
                    0 <= k < rest.len() ==> known.contains(#[trigger] rest[k])) implies known.contains(
                #[trigger] objects[k],
            ) by {
                if k > 0 {
                    assert(objects[k] == rest[k - 1]);
                }
            }
            assert forall|k: int|
                0 <= k < rest.len() && (forall|k: int|
                    0 <= k < objects.len() ==> known.contains(#[trigger] objects[k])) implies known.contains(
                #[trigger] rest[k],
            ) by {
                assert(rest[k] == objects[k + 1]);
            }
        } else {
            assert(!known.contains(objects[0]));
        }
    }
}

proof fn lemma_valid_token(token: Seq<char>, known: Seq<Seq<char>>)
    ensures
        valid_token(token, known) <==> if has_prefix(token, "records:"@) {
            known.contains(token.skip("records:"@.len() as int))
        } else {
            names_category(token)
        },
{
    let n = "records:"@.len() as int;
    if names_category(token) {
        let c = choose|c: Category| #[trigger] category_name(c) == token;
        law_category_names_are_distinct(c, c);
    }
    assert(names_category(token) <==> token == "records"@ || token == "schemas"@ || token
        == "lists"@ || token == "list_rows"@ || token == "users"@ || token == "workflows"@ || token
        == "settings"@ || token == "activities"@ || token == "attachments"@) by {
        assert(category_name(Category::Records) == "records"@);
        assert(category_name(Category::Schemas) == "schemas"@);
        assert(category_name(Category::Lists) == "lists"@);
        assert(category_name(Category::ListRows) == "list_rows"@);
        assert(category_name(Category::Users) == "users"@);
        assert(category_name(Category::Workflows) == "workflows"@);
        assert(category_name(Category::Settings) == "settings"@);
        assert(category_name(Category::Activities) == "activities"@);
        assert(category_name(Category::Attachments) == "attachments"@);
    }
    if has_prefix(token, "records:"@) {
        assert(token =~= "records:"@ + token.skip(n));
        if known.contains(token.skip(n)) {
            let k = choose|k: int| 0 <= k < known.len() && known[k] == token.skip(n);
            assert(token == "records:"@ + known[k]);
        }
    }
    if exists|k: int| 0 <= k < known.len() && token == "records:"@ + #[trigger] known[k] {
        let k = choose|k: int| 0 <= k < known.len() && token == "records:"@ + #[trigger] known[k];
        assert(token.take(n) =~= "records:"@);
        assert(token.skip(n) =~= known[k]);
        assert(known.contains(known[k]));
    }
}

proof fn lemma_token_error(skip: Seq<Seq<char>>, known: Seq<Seq<char>>)
    ensures
        token_error(skip, known) is None <==> forall|k: int|
            0 <= k < skip.len() ==> valid_token(#[trigger] skip[k], known),
    decreases skip.len(),
{
    if skip.len() > 0 {
        let rest = skip.drop_first();
        lemma_token_error(rest, known);
        lemma_valid_token(skip[0], known);
        if valid_token(skip[0], known) {
            assert forall|k: int|
                0 <= k < skip.len() && (forall|k: int|
                    0 <= k < rest.len() ==> valid_token(#[trigger] rest[k], known)) implies valid_token(
                #[trigger] skip[k],
                known,
            ) by {
                if k > 0 {
                    assert(skip[k] == rest[k - 1]);
                }
            }
            assert forall|k: int|
                0 <= k < rest.len() && (forall|k: int|
                    0 <= k < skip.len() ==> valid_token(#[trigger] skip[k], known)) implies valid_token(
                #[trigger] rest[k],
                known,
            ) by {
                assert(rest[k] == skip[k + 1]);
            }
        } else {
            assert(!valid_token(skip[0], known));
        }
    }
}

/// A plan is refused exactly where an object is asked for that was not discovered, or a token to
/// skip means nothing.
pub proof fn law_plan_refuses_what_it_does_not_know(
    known: Seq<Seq<char>>,
    objects: Seq<Seq<char>>,
    skip: Seq<Seq<char>>,
)
    ensures
        plan_error(known, objects, skip) is None <==> (forall|k: int|
            0 <= k < objects.len() ==> known.contains(#[trigger] objects[k])) && (forall|k: int|
            0 <= k < skip.len() ==> valid_token(#[trigger] skip[k], known)),
{
    lemma_object_error(objects, known);
    lemma_token_error(skip, known);
}

/// The document of an object in a plan: the last one of its slug that comes from the entities, and
/// where none does, the first one of its slug.
pub proof fn law_document_of_an_object(schemas: Seq<SchemaView>, i: int, k: int)
    requires
        0 <= i < merged(schemas).len(),
        0 <= k < schemas.len(),
        schemas[k].object,
        schemas[k].slug.len() > 0,
        schemas[k].slug == merged(schemas)[i].slug,
        if exists|j: int|
            0 <= j < schemas.len() && (#[trigger] schemas[j]).object && schemas[j].slug
                == schemas[k].slug && from_entities(schemas[j]) {
            from_entities(schemas[k]) && forall|j: int|
                k < j < schemas.len() && (#[trigger] schemas[j]).object && schemas[j].slug
                    == schemas[k].slug ==> !from_entities(schemas[j])
        } else {
            forall|j: int|
                0 <= j < k && (#[trigger] schemas[j]).object ==> schemas[j].slug
                    != schemas[k].slug
        },
    ensures
        merged(schemas)[i] == schemas[k],
    decreases schemas.len(),
{
    let rest = schemas.drop_last();
    let before = merged(rest);
    let s = schemas.last();
    let slug = schemas[k].slug;
    let n = schemas.len() - 1;
    law_merged_covers_each_object_once(rest);
    assert(forall|j: int| 0 <= j < n ==> rest[j] == schemas[j]);
    if k == n {
        // The document is the last one of all.
        if !view_slugs(before).contains(slug) {
            assert(merged(schemas) == before.push(s));
            if i < before.len() {
                assert(view_slugs(before)[i] == slug);
            }
        } else {
            let m = choose|m: int| 0 <= m < before.len() && view_slugs(before)[m] == slug;
            assert(before[m].slug == slug);
            assert(backed(before[m]) && rest.contains(before[m]));
            let j = choose|j: int| 0 <= j < rest.len() && rest[j] == before[m];
            assert(schemas[j].object && schemas[j].slug == slug);
            assert(from_entities(s));
        }
    } else {
        assert(rest[k] == schemas[k]);
        assert(backed(rest[k]));
        assert(view_slugs(before).contains(slug));
        assert(i < before.len() && before[i].slug == slug) by {
            if i >= before.len() {
                assert(merged(schemas) == before.push(s));
                assert(merged(schemas)[i] == s);
            } else {
                assert(merged(schemas)[i].slug == before[i].slug);
            }
        }
        if exists|j: int|
            0 <= j < rest.len() && (#[trigger] rest[j]).object && rest[j].slug == rest[k].slug
                && from_entities(rest[j]) {
            let j = choose|j: int|
                0 <= j < rest.len() && (#[trigger] rest[j]).object && rest[j].slug == rest[k].slug
                    && from_entities(rest[j]);
            assert(schemas[j].object && schemas[j].slug == slug && from_entities(schemas[j]));
            assert(from_entities(rest[k]));
        } else if exists|j: int|
            0 <= j < schemas.len() && (#[trigger] schemas[j]).object && schemas[j].slug == slug
                && from_entities(schemas[j]) {
            assert(from_entities(schemas[k]));
            assert(rest[k].object && from_entities(rest[k]));
        }
        law_document_of_an_object(rest, i, k);
        if s.object && s.slug == slug && from_entities(s) {
            assert(schemas[n].object && from_entities(schemas[n]));
        }
    }
}

/// A document comes from the entities exactly where its identifier has `/entities/` somewhere in it.
pub proof fn law_entities_are_told_by_identifier(s: SchemaView)
    ensures
        from_entities(s) <==> exists|head: Seq<char>, tail: Seq<char>|
            at(s.raw, "id"@) == JsonView::Text(#[trigger] (head + "/entities/"@ + tail)),
{
    let mark = "/entities/"@;
    if from_entities(s) {
        let id = at(s.raw, "id"@)->Text_0;
        let i = choose|i: int| crate::text::occurs_at(id, mark, i);
        let head = id.take(i);
        let tail = id.skip(i + mark.len());
        assert(id =~= head + mark + tail) by {
            assert forall|j: int| 0 <= j < id.len() implies id[j] == (head + mark + tail)[j] by {
                if i <= j < i + mark.len() {
                    assert(id.subrange(i, i + mark.len())[j - i] == mark[j - i]);
                }
            }
        }
        assert(at(s.raw, "id"@) == JsonView::Text(head + mark + tail));
    }
    if exists|head: Seq<char>, tail: Seq<char>|
        at(s.raw, "id"@) == JsonView::Text(#[trigger] (head + mark + tail)) {
        let (head, tail) = choose|head: Seq<char>, tail: Seq<char>|
            at(s.raw, "id"@) == JsonView::Text(#[trigger] (head + mark + tail));
        let id = head + mark + tail;
        let i = head.len() as int;
        assert(id.subrange(i, i + mark.len()) =~= mark);
        assert(crate::text::occurs_at(id, mark, i));
    }
}

/// Only documents of objects with a slug are backed up, and every such slug is.
pub proof fn law_objects_with_a_slug_are_backed_up(schemas: Seq<SchemaView>)
    ensures
        forall|i: int|
            0 <= i < merged(schemas).len() ==> (#[trigger] merged(schemas)[i]).object
                && merged(schemas)[i].slug.len() > 0,
        forall|k: int|
            0 <= k < schemas.len() && (#[trigger] schemas[k]).object && schemas[k].slug.len() > 0
                ==> exists|i: int|
                0 <= i < merged(schemas).len() && (#[trigger] merged(schemas)[i]).slug
                    == schemas[k].slug,
{
    let all = merged(schemas);
    law_merged_covers_each_object_once(schemas);
    assert forall|i: int| 0 <= i < all.len() implies (#[trigger] all[i]).object
        && all[i].slug.len() > 0 by {
        assert(backed(all[i]));
    }
    assert forall|k: int|
        0 <= k < schemas.len() && (#[trigger] schemas[k]).object && schemas[k].slug.len() > 0 implies exists|
        i: int,
    | 0 <= i < all.len() && (#[trigger] all[i]).slug == schemas[k].slug by {
        assert(backed(schemas[k]));
        let i = choose|i: int|
            0 <= i < view_slugs(all).len() && view_slugs(all)[i] == schemas[k].slug;
        assert(all[i].slug == schemas[k].slug);
    }
}

/// Objects stand in the order in which their slugs were first discovered: of one that stands before
/// another, there is a document before each document of the other.
pub proof fn law_objects_stand_as_discovered(schemas: Seq<SchemaView>, i: int, j: int, k: int) -> (h:
    int)
    requires
        0 <= i < j < merged(schemas).len(),
        0 <= k < schemas.len(),
        schemas[k].object,
        schemas[k].slug == merged(schemas)[j].slug,
    ensures
        0 <= h < k,
        schemas[h].object,
        schemas[h].slug == merged(schemas)[i].slug,
    decreases schemas.len(),
{
    let rest = schemas.drop_last();
    let before = merged(rest);
    let s = schemas.last();
    let n = schemas.len() - 1;
    law_merged_covers_each_object_once(rest);
    assert(i < before.len());
    assert(merged(schemas)[i].slug == before[i].slug);
    if k == n {
        assert(backed(before[i]) && rest.contains(before[i]));
        let h = choose|h: int| 0 <= h < rest.len() && rest[h] == before[i];
        assert(schemas[h] == rest[h]);
        h
    } else {
        assert(rest[k] == schemas[k]);
        if j >= before.len() {
            assert(merged(schemas)[j] == s);
            assert(backed(s));
            assert(backed(rest[k]));
            assert(view_slugs(before).contains(s.slug));
        }
        assert(merged(schemas)[j].slug == before[j].slug);
        let h = law_objects_stand_as_discovered(rest, i, j, k);
        assert(schemas[h] == rest[h]);
        h
    }
}

/// What is said of a refused plan names the first object that was not discovered, and lists those
/// that were.
pub proof fn law_refusal_names_the_first_unknown_object(
    known: Seq<Seq<char>>,
    objects: Seq<Seq<char>>,
    skip: Seq<Seq<char>>,
    k: int,
)
    requires
        0 <= k < objects.len(),
        !known.contains(objects[k]),
        forall|j: int| 0 <= j < k ==> known.contains(#[trigger] objects[j]),
    ensures
        plan_error(known, objects, skip) == Some(
            "unknown object "@ + quoted(objects[k]) + "; discovered objects: "@ + quoted_list(
                known,
            ),
        ),
    decreases k,
{
    if k > 0 {
        assert(known.contains(objects[0]));
        let rest = objects.drop_first();
        assert(rest[k - 1] == objects[k]);
        assert forall|j: int| 0 <= j < k - 1 implies known.contains(#[trigger] rest[j]) by {
            assert(rest[j] == objects[j + 1]);
        }
        law_refusal_names_the_first_unknown_object(known, rest, skip, k - 1);
        assert(object_error(rest, known) is Some) by {
            lemma_object_error(rest, known);
            assert(!known.contains(rest[k - 1]));
        }
    }
}

/// A plan on one line names its objects and its categories.
pub proof fn law_plan_names_what_it_takes(slugs: Seq<Seq<char>>, categories: Seq<Seq<char>>)
    ensures
        plan_text(slugs, categories) == "objects: ["@ + joined(slugs, ", "@) + "]; categories: ["@
            + joined(categories, ", "@) + "]"@,
{
}

/// Where every object that is asked for was discovered, what is said of a refused plan names the
/// first token that means nothing: one of an object that was not discovered as such, and any other
/// with the tokens that there are.
pub proof fn law_refusal_names_the_first_unknown_token(
    known: Seq<Seq<char>>,
    objects: Seq<Seq<char>>,
    skip: Seq<Seq<char>>,
    k: int,
)
    requires
        forall|j: int| 0 <= j < objects.len() ==> known.contains(#[trigger] objects[j]),
        0 <= k < skip.len(),
        !valid_token(skip[k], known),
        forall|j: int| 0 <= j < k ==> valid_token(#[trigger] skip[j], known),
    ensures
        has_prefix(skip[k], "records:"@) ==> plan_error(known, objects, skip) == Some(
            "unknown object in skip token "@ + quoted(skip[k]) + "; discovered: "@ + quoted_list(
                known,
            ),
        ),
        !has_prefix(skip[k], "records:"@) ==> plan_error(known, objects, skip) == Some(
            "unknown skip token "@ + quoted(skip[k]) + "; valid: "@ + quoted_list(category_names())
                + " or records:<object>"@,
        ),
        category_names().len() == 9,
    decreases k,
{
    lemma_object_error(objects, known);
    lemma_valid_token(skip[0], known);
    if k > 0 {
        assert(valid_token(skip[0], known));
        let rest = skip.drop_first();
        assert(rest[k - 1] == skip[k]);
        assert forall|j: int| 0 <= j < k - 1 implies valid_token(#[trigger] rest[j], known) by {
            assert(rest[j] == skip[j + 1]);
        }
        law_refusal_names_the_first_unknown_token(known, objects, rest, k - 1);
    }
}

} // verus!
