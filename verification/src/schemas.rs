//! Discovery of the object schemas of a workspace.

use vstd::prelude::*;
use crate::json::{
    at, found, found_text, json_id, lemma_object_view, member_of, members, text_or_empty, within,
    Json, JsonView,
};
use crate::text::{copied, sorted, sorted_from, texts};

verus! {

/// One discovered schema: its slug, the relationships that records of it have, whether it is an
/// object with records of its own, and the document it was read from.
#[derive(Debug)]
pub struct ObjectSchema {
    pub slug: String,
    pub relationships: Vec<String>,
    pub object: bool,
    pub raw: Json,
}

/// What a schema holds.
pub struct SchemaView {
    pub slug: Seq<char>,
    pub relationships: Seq<Seq<char>>,
    pub object: bool,
    pub raw: JsonView,
}

impl View for ObjectSchema {
    type V = SchemaView;

    open spec fn view(&self) -> SchemaView {
        SchemaView {
            slug: self.slug@,
            relationships: texts(self.relationships@),
            object: self.object,
            raw: self.raw@,
        }
    }
}

impl Clone for ObjectSchema {
    fn clone(&self) -> (r: ObjectSchema)
        ensures
            r@ == self@,
    {
        ObjectSchema {
            slug: self.slug.clone(),
            relationships: copied(&self.relationships),
            object: self.object,
            raw: self.raw.clone(),
        }
    }
}

/// What a list of schemas holds.
pub open spec fn schema_views(v: Seq<ObjectSchema>) -> Seq<SchemaView> {
    v.map_values(|s: ObjectSchema| s@)
}

/// The keys of the members whose value passes a test, in their order.
pub open spec fn keys_where(
    m: Seq<(Seq<char>, JsonView)>,
    test: spec_fn(JsonView) -> bool,
) -> Seq<Seq<char>>
    decreases m.len(),
{
    if m.len() == 0 {
        Seq::empty()
    } else {
        let before = keys_where(m.drop_last(), test);
        if test(m.last().1) {
            before.push(m.last().0)
        } else {
            before
        }
    }
}

/// The members of a document; none where it is no object.
pub open spec fn members_of(v: JsonView) -> Seq<(Seq<char>, JsonView)> {
    match v {
        JsonView::Object(m) => m,
        _ => Seq::empty(),
    }
}

/// Whether a field is declared as a relationship.
pub open spec fn relationship_field() -> spec_fn(JsonView) -> bool {
    |v: JsonView| at(v, "type"@) == JsonView::Text("relationship"@)
}

/// Whether a property is marked as a relationship.
pub open spec fn relationship_property() -> spec_fn(JsonView) -> bool {
    |v: JsonView| member_of(v, "xClarifyRelationship"@) is Some
}

/// Whether there is anything at all.
pub open spec fn any_member() -> spec_fn(JsonView) -> bool {
    |v: JsonView| true
}

/// The slug of a schema document: its entity, else its name, else its title, else its identifier.
pub open spec fn item_slug(item: JsonView) -> Seq<char> {
    let attrs = at(item, "attributes"@);
    match at(attrs, "entity"@) {
        JsonView::Text(s) => s,
        _ => match at(attrs, "name"@) {
            JsonView::Text(s) => s,
            _ => match at(attrs, "title"@) {
                JsonView::Text(s) => s,
                _ => text_or_empty(at(item, "id"@)),
            },
        },
    }
}

/// Whether a schema document describes an object with records: it names an entity, or it stands
/// in the namespace of objects.
pub open spec fn item_is_object(item: JsonView) -> bool {
    let attrs = at(item, "attributes"@);
    at(attrs, "entity"@) is Text || at(attrs, "xClarifyNamespace"@) == JsonView::Text("objects"@)
}

/// The relationships that a schema document declares: its fields of that type, else its
/// properties with that mark, else its own relationships.
pub open spec fn item_relationships(item: JsonView) -> Seq<Seq<char>> {
    let attrs = at(item, "attributes"@);
    let fields = keys_where(members_of(at(attrs, "fields"@)), relationship_field());
    let properties = keys_where(members_of(at(attrs, "properties"@)), relationship_property());
    if fields.len() > 0 {
        fields
    } else if properties.len() > 0 {
        properties
    } else {
        keys_where(members_of(at(item, "relationships"@)), any_member())
    }
}

/// Whether `s` is what a schema document says.
pub open spec fn schema_of(item: JsonView, s: SchemaView) -> bool {
    &&& s.slug == item_slug(item)
    &&& s.object == item_is_object(item)
    &&& sorted_from(s.relationships, item_relationships(item))
    &&& s.raw == item
}

/// What marks a relationship in each of the places where one is looked for.
#[derive(Clone, Copy, PartialEq, Eq, Structural)]
enum Mark {
    Field,
    Property,
    Any,
}

spec fn mark_test(mark: Mark) -> spec_fn(JsonView) -> bool {
    match mark {
        Mark::Field => relationship_field(),
        Mark::Property => relationship_property(),
        Mark::Any => any_member(),
    }
}

fn marked_keys(v: Option<&Json>, mark: Mark) -> (r: Vec<String>)
    ensures
        texts(r@) == keys_where(members_of(found(v)), mark_test(mark)),
{
    broadcast use lemma_object_view;

    let mut out: Vec<String> = Vec::new();
    assert(texts(out@) =~= Seq::empty());
    match v {
        Some(Json::Object(m)) => {
            let ghost all = members(m@);
            let mut i: usize = 0;
            assert(all.take(0) =~= Seq::empty());
            while i < m.len()
                invariant
                    i <= m@.len(),
                    all == members(m@),
                    texts(out@) == keys_where(all.take(i as int), mark_test(mark)),
                decreases m@.len() - i,
            {
                let ghost had = out@;
                assert(all.take(i + 1).drop_last() =~= all.take(i as int));
                assert(all.take(i + 1).last() == (m@[i as int].0@, m@[i as int].1@));
                let keep = match mark {
                    Mark::Field => match m[i].1.get("type") {
                        Some(t) => t.is_text("relationship"),
                        None => false,
                    },
                    Mark::Property => m[i].1.get("xClarifyRelationship").is_some(),
                    Mark::Any => true,
                };
                if keep {
                    out.push(m[i].0.clone());
                    assert(texts(out@) =~= texts(had).push(m@[i as int].0@));
                }
                i += 1;
            }
            assert(all.take(m@.len() as int) =~= all);
        },
        _ => {},
    }
    out
}

/// Reads a schema document.
pub fn extract(item: &Json) -> (r: ObjectSchema)
    ensures
        schema_of(item@, r@),
{
    let attrs = item.get("attributes");
    let entity = found_text(within(attrs, "entity"));
    let slug = match entity {
        Some(s) => s.clone(),
        None => match found_text(within(attrs, "name")) {
            Some(s) => s.clone(),
            None => match found_text(within(attrs, "title")) {
                Some(s) => s.clone(),
                None => json_id(item),
            },
        },
    };
    let object = entity.is_some() || match within(attrs, "xClarifyNamespace") {
        Some(n) => n.is_text("objects"),
        None => false,
    };
    let mut relationships = marked_keys(within(attrs, "fields"), Mark::Field);
    if relationships.len() == 0 {
        relationships = marked_keys(within(attrs, "properties"), Mark::Property);
        if relationships.len() == 0 {
            relationships = marked_keys(item.get("relationships"), Mark::Any);
        }
    }
    ObjectSchema { slug, relationships: sorted(relationships), object, raw: item.clone() }
}

// ---- what a schema document says ----

/// The slug of a schema document is the first text among its entity, its name, its title and its
/// identifier.
pub proof fn law_slug_is_the_first_name(item: JsonView, s: Seq<char>)
    ensures
        at(at(item, "attributes"@), "entity"@) == JsonView::Text(s) ==> item_slug(item) == s,
        !(at(at(item, "attributes"@), "entity"@) is Text) && at(at(item, "attributes"@), "name"@)
            == JsonView::Text(s) ==> item_slug(item) == s,
        !(at(at(item, "attributes"@), "entity"@) is Text) && !(at(
            at(item, "attributes"@),
            "name"@,
        ) is Text) && at(at(item, "attributes"@), "title"@) == JsonView::Text(s) ==> item_slug(item)
            == s,
        !(at(at(item, "attributes"@), "entity"@) is Text) && !(at(
            at(item, "attributes"@),
            "name"@,
        ) is Text) && !(at(at(item, "attributes"@), "title"@) is Text) && at(item, "id"@)
            == JsonView::Text(s) ==> item_slug(item) == s,
        !(at(at(item, "attributes"@), "entity"@) is Text) && !(at(
            at(item, "attributes"@),
            "name"@,
        ) is Text) && !(at(at(item, "attributes"@), "title"@) is Text) && !(at(
            item,
            "id"@,
        ) is Text) ==> item_slug(item).len() == 0,
{
}

/// A schema document describes an object exactly where it names an entity or stands in the
/// namespace of objects.
pub proof fn law_which_schemas_are_of_objects(item: JsonView)
    ensures
        item_is_object(item) <==> at(at(item, "attributes"@), "entity"@) is Text || at(
            at(item, "attributes"@),
            "xClarifyNamespace"@,
        ) == JsonView::Text("objects"@),
{
}

/// The keys that pass a test are those of the members whose values pass it.
pub proof fn law_keys_are_those_that_pass(
    m: Seq<(Seq<char>, JsonView)>,
    test: spec_fn(JsonView) -> bool,
    key: Seq<char>,
)
    ensures
        keys_where(m, test).contains(key) <==> exists|i: int|
            0 <= i < m.len() && (#[trigger] m[i]).0 == key && test(m[i].1),
    decreases m.len(),
{
    let all = keys_where(m, test);
    if m.len() > 0 {
        let rest = m.drop_last();
        let n = m.len() - 1;
        let before = keys_where(rest, test);
        law_keys_are_those_that_pass(rest, test, key);
        if all.contains(key) {
            let k = choose|k: int| 0 <= k < all.len() && all[k] == key;
            if k < before.len() {
                assert(before[k] == key);
                assert(before.contains(key));
                let i = choose|i: int|
                    0 <= i < rest.len() && (#[trigger] rest[i]).0 == key && test(rest[i].1);
                assert(m[i] == rest[i]);
            } else {
                assert(m[n].0 == key);
            }
        }
        if exists|i: int| 0 <= i < m.len() && (#[trigger] m[i]).0 == key && test(m[i].1) {
            let i = choose|i: int|
                0 <= i < m.len() && (#[trigger] m[i]).0 == key && test(m[i].1);
            if i < n {
                assert(rest[i] == m[i]);
                assert(before.contains(key));
                let k = choose|k: int| 0 <= k < before.len() && before[k] == key;
                assert(all[k] == key);
            } else {
                assert(all[before.len() as int] == key);
            }
        }
    }
}

/// The relationships of a schema document are the fields that are declared as one; where there is no
/// such field, the properties that are marked as one.
pub proof fn law_relationships_are_those_declared(item: JsonView, key: Seq<char>)
    ensures
        ({
            let fields = members_of(at(at(item, "attributes"@), "fields"@));
            let properties = members_of(at(at(item, "attributes"@), "properties"@));
            let own = members_of(at(item, "relationships"@));
            let declared = |i: int|
                0 <= i < fields.len() && at(fields[i].1, "type"@) == JsonView::Text(
                    "relationship"@,
                );
            let marked = |i: int|
                0 <= i < properties.len() && member_of(
                    properties[i].1,
                    "xClarifyRelationship"@,
                ) is Some;
            if exists|i: int| #[trigger] declared(i) {
                item_relationships(item).contains(key) <==> exists|i: int| #[trigger]
                    declared(i) && fields[i].0 == key
            } else if exists|i: int| #[trigger] marked(i) {
                item_relationships(item).contains(key) <==> exists|i: int| #[trigger]
                    marked(i) && properties[i].0 == key
            } else {
                item_relationships(item).contains(key) <==> exists|i: int|
                    0 <= i < own.len() && (#[trigger] own[i]).0 == key
            }
        }),
{
    let fields = members_of(at(at(item, "attributes"@), "fields"@));
    let properties = members_of(at(at(item, "attributes"@), "properties"@));
    let own = members_of(at(item, "relationships"@));
    let declared = |i: int|
        0 <= i < fields.len() && at(fields[i].1, "type"@) == JsonView::Text("relationship"@);
    let marked = |i: int|
        0 <= i < properties.len() && member_of(
            properties[i].1,
            "xClarifyRelationship"@,
        ) is Some;
    let a = keys_where(fields, relationship_field());
    let b = keys_where(properties, relationship_property());
    law_keys_are_those_that_pass(fields, relationship_field(), key);
    law_keys_are_those_that_pass(properties, relationship_property(), key);
    law_keys_are_those_that_pass(own, any_member(), key);
    if exists|i: int| #[trigger] declared(i) {
        let i = choose|i: int| #[trigger] declared(i);
        law_keys_are_those_that_pass(fields, relationship_field(), fields[i].0);
        assert(a.contains(fields[i].0));
        assert(a.len() > 0);
        if a.contains(key) {
            let j = choose|j: int|
                0 <= j < fields.len() && (#[trigger] fields[j]).0 == key && relationship_field()(
                    fields[j].1,
                );
            assert(declared(j));
        }
        if exists|i: int| #[trigger] declared(i) && fields[i].0 == key {
            let j = choose|i: int| #[trigger] declared(i) && fields[i].0 == key;
            assert(relationship_field()(fields[j].1));
        }
    } else {
        assert(a.len() == 0) by {
            if a.len() > 0 {
                law_keys_are_those_that_pass(fields, relationship_field(), a[0]);
                assert(a.contains(a[0]));
                let j = choose|j: int|
                    0 <= j < fields.len() && (#[trigger] fields[j]).0 == a[0]
                        && relationship_field()(fields[j].1);
                assert(declared(j));
            }
        }
        if exists|i: int| #[trigger] marked(i) {
            let i = choose|i: int| #[trigger] marked(i);
            law_keys_are_those_that_pass(properties, relationship_property(), properties[i].0);
            assert(b.contains(properties[i].0));
            if b.contains(key) {
                let j = choose|j: int|
                    0 <= j < properties.len() && (#[trigger] properties[j]).0 == key
                        && relationship_property()(properties[j].1);
                assert(marked(j));
            }
            if exists|i: int| #[trigger] marked(i) && properties[i].0 == key {
                let j = choose|i: int| #[trigger] marked(i) && properties[i].0 == key;
                assert(relationship_property()(properties[j].1));
            }
        } else {
            assert(b.len() == 0) by {
                if b.len() > 0 {
                    law_keys_are_those_that_pass(properties, relationship_property(), b[0]);
                    assert(b.contains(b[0]));
                    let j = choose|j: int|
                        0 <= j < properties.len() && (#[trigger] properties[j]).0 == b[0]
                            && relationship_property()(properties[j].1);
                    assert(marked(j));
                }
            }
        }
    }
}

/// What is read of a schema document: its slug, whether it is of an object, its relationships in
/// order, and the document itself, unchanged.
pub proof fn law_schema_is_what_its_document_says(item: JsonView, s: SchemaView, key: Seq<char>)
    requires
        schema_of(item, s),
    ensures
        s.raw == item,
        s.slug == item_slug(item),
        s.object <==> at(at(item, "attributes"@), "entity"@) is Text || at(
            at(item, "attributes"@),
            "xClarifyNamespace"@,
        ) == JsonView::Text("objects"@),
        s.relationships.contains(key) <==> item_relationships(item).contains(key),
        forall|i: int, j: int|
            0 <= i < j < s.relationships.len() ==> crate::text::text_le(
                #[trigger] s.relationships[i],
                #[trigger] s.relationships[j],
            ),
{
    crate::text::law_sorting_keeps_every_text(s.relationships, item_relationships(item), key);
}

} // verus!
