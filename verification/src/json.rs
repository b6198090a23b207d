//! JSON documents as plain values.
//!
//! `Json` holds what the library reads and writes of a document. The text form and its reading
//! are those of `serde_json`.

use vstd::prelude::*;
use crate::text::{
    at_most, lemma_text_le_antisymmetric, lemma_text_le_total, lemma_text_le_transitive, same,
    text_le,
};

verus! {

/// `serde_json::Number`, carried through for the numbers that the library does not read.
#[verifier::external_type_specification]
#[verifier::external_body]
pub struct ExNumber(serde_json::Number);

/// `<serde_json::Number as Clone>::clone`, a derived copy of the number's one field.
pub assume_specification[ <serde_json::Number as Clone>::clone ](
    n: &serde_json::Number,
) -> (r: serde_json::Number)
    ensures
        r == *n,
;

/// A JSON document.
///
/// A whole number that fits into 64 bits without a sign is an `Unsigned`; every other number is a
/// `Number`. The members of an object stand in the order of their keys, each key once.
#[derive(Debug)]
pub enum Json {
    Null,
    Bool(bool),
    Unsigned(u64),
    Number(serde_json::Number),
    Text(String),
    Array(Vec<Json>),
    Object(Vec<(String, Json)>),
}

/// What a JSON document holds.
pub enum JsonView {
    Null,
    Bool(bool),
    Unsigned(u64),
    Number(serde_json::Number),
    Text(Seq<char>),
    Array(Seq<JsonView>),
    Object(Seq<(Seq<char>, JsonView)>),
}

/// What a document holds.
pub open spec fn json_view(j: Json) -> JsonView
    decreases j,
{
    match j {
        Json::Null => JsonView::Null,
        Json::Bool(b) => JsonView::Bool(b),
        Json::Unsigned(n) => JsonView::Unsigned(n),
        Json::Number(n) => JsonView::Number(n),
        Json::Text(s) => JsonView::Text(s@),
        Json::Array(v) => JsonView::Array(
            Seq::new(
                v@.len(),
                |i: int|
                    if 0 <= i < v@.len() {
                        json_view(v@[i])
                    } else {
                        JsonView::Null
                    },
            ),
        ),
        Json::Object(m) => JsonView::Object(
            Seq::new(
                m@.len(),
                |i: int|
                    if 0 <= i < m@.len() {
                        (m@[i].0@, json_view(m@[i].1))
                    } else {
                        (Seq::empty(), JsonView::Null)
                    },
            ),
        ),
    }
}

impl View for Json {
    type V = JsonView;

    open spec fn view(&self) -> JsonView {
        json_view(*self)
    }
}

/// What a list of documents holds.
pub open spec fn items(v: Seq<Json>) -> Seq<JsonView> {
    v.map_values(|j: Json| j@)
}

/// What a list of members holds.
pub open spec fn members(m: Seq<(String, Json)>) -> Seq<(Seq<char>, JsonView)> {
    m.map_values(|p: (String, Json)| (p.0@, p.1@))
}

pub broadcast proof fn lemma_array_view(v: Vec<Json>)
    ensures
        #[trigger] Json::Array(v).view() == JsonView::Array(items(v@)),
{
    assert(Json::Array(v).view()->Array_0 =~= items(v@));
}

pub broadcast proof fn lemma_object_view(m: Vec<(String, Json)>)
    ensures
        #[trigger] Json::Object(m).view() == JsonView::Object(members(m@)),
{
    assert(Json::Object(m).view()->Object_0 =~= members(m@));
}

impl Clone for Json {
    fn clone(&self) -> (r: Json)
        ensures
            r@ == self@,
        decreases self,
    {
        broadcast use {lemma_array_view, lemma_object_view};
        match self {
            Json::Null => Json::Null,
            Json::Bool(b) => Json::Bool(*b),
            Json::Unsigned(n) => Json::Unsigned(*n),
            Json::Number(n) => Json::Number(n.clone()),
            Json::Text(s) => Json::Text(s.clone()),
            Json::Array(v) => {
                let mut out: Vec<Json> = Vec::new();
                let mut i: usize = 0;
                while i < v.len()
                    invariant
                        i <= v@.len(),
                        items(out@) == items(v@).take(i as int),
                        self == Json::Array(*v),
                    decreases v@.len() - i,
                {
                    let ghost had = out@;
                    assert(decreases_to!(*self => self->Array_0));
                    assert(decreases_to!(v@ => v@[i as int]));
                    let x = v[i].clone();
                    out.push(x);
                    assert(items(out@) =~= items(had).push(x@));
                    i += 1;
                    assert(items(out@) =~= items(v@).take(i as int));
                }
                assert(items(v@).take(v@.len() as int) =~= items(v@));
                Json::Array(out)
            },
            Json::Object(m) => {
                let mut out: Vec<(String, Json)> = Vec::new();
                let mut i: usize = 0;
                while i < m.len()
                    invariant
                        i <= m@.len(),
                        members(out@) == members(m@).take(i as int),
                        self == Json::Object(*m),
                    decreases m@.len() - i,
                {
                    let ghost had = out@;
                    assert(decreases_to!(*self => self->Object_0));
                    assert(decreases_to!(m@ => m@[i as int]));
                    assert(decreases_to!(m@[i as int] => m@[i as int].1));
                    let k = m[i].0.clone();
                    let x = m[i].1.clone();
                    out.push((k, x));
                    assert(members(out@) =~= members(had).push((k@, x@)));
                    i += 1;
                    assert(members(out@) =~= members(m@).take(i as int));
                }
                assert(members(m@).take(m@.len() as int) =~= members(m@));
                Json::Object(out)
            },
        }
    }
}

// ---- reading ----

/// The value of the first member under `key`.
pub open spec fn find_member(m: Seq<(Seq<char>, JsonView)>, key: Seq<char>) -> Option<JsonView>
    decreases m.len(),
{
    if m.len() == 0 {
        None
    } else if m[0].0 == key {
        Some(m[0].1)
    } else {
        find_member(m.drop_first(), key)
    }
}

/// What `v` holds under `key`, where it is an object with that member.
pub open spec fn member_of(v: JsonView, key: Seq<char>) -> Option<JsonView> {
    match v {
        JsonView::Object(m) => find_member(m, key),
        _ => None,
    }
}

/// What `v` holds under `key`; null where it holds nothing there.
pub open spec fn at(v: JsonView, key: Seq<char>) -> JsonView {
    match member_of(v, key) {
        Some(x) => x,
        None => JsonView::Null,
    }
}

/// The text that `v` is, where it is one.
pub open spec fn as_text(v: JsonView) -> Option<Seq<char>> {
    match v {
        JsonView::Text(s) => Some(s),
        _ => None,
    }
}

/// The text that `v` is; the empty text where it is none.
pub open spec fn text_or_empty(v: JsonView) -> Seq<char> {
    match v {
        JsonView::Text(s) => s,
        _ => Seq::empty(),
    }
}

/// The elements that `v` has, where it is an array; none where it is not.
pub open spec fn elements(v: JsonView) -> Seq<JsonView> {
    match v {
        JsonView::Array(s) => s,
        _ => Seq::empty(),
    }
}

/// The view of what a reader found: null where it found nothing.
pub open spec fn found(v: Option<&Json>) -> JsonView {
    match v {
        Some(j) => j@,
        None => JsonView::Null,
    }
}

impl Json {
    /// The member under `key`.
    pub fn get(&self, key: &str) -> (r: Option<&Json>)
        ensures
            r is Some <==> member_of(self@, key@) is Some,
            r matches Some(j) ==> member_of(self@, key@) == Some(j@),
    {
        broadcast use lemma_object_view;

        match self {
            Json::Object(m) => {
                let ghost all = members(m@);
                let mut i: usize = 0;
                assert(all.skip(0) =~= all);
                while i < m.len()
                    invariant
                        i <= m@.len(),
                        all == members(m@),
                        self@ == JsonView::Object(all),
                        find_member(all, key@) == find_member(all.skip(i as int), key@),
                    decreases m@.len() - i,
                {
                    assert(all.skip(i as int)[0] == all[i as int]);
                    if same(&m[i].0, key) {
                        return Some(&m[i].1);
                    }
                    assert(all.skip(i as int).drop_first() =~= all.skip(i + 1));
                    i += 1;
                }
                None
            },
            _ => None,
        }
    }

    /// The text that this document is.
    pub fn as_str(&self) -> (r: Option<&String>)
        ensures
            r is Some <==> as_text(self@) is Some,
            r matches Some(s) ==> as_text(self@) == Some(s@),
    {
        match self {
            Json::Text(s) => Some(s),
            _ => None,
        }
    }

    /// The whole number without a sign that this document is.
    pub fn as_u64(&self) -> (r: Option<u64>)
        ensures
            r == (match self@ {
                JsonView::Unsigned(n) => Some(n),
                _ => None,
            }),
    {
        match self {
            Json::Unsigned(n) => Some(*n),
            _ => None,
        }
    }

    /// Whether this document is the text `s`.
    pub fn is_text(&self, s: &str) -> (r: bool)
        ensures
            r == (self@ == JsonView::Text(s@)),
    {
        match self {
            Json::Text(t) => same(t, s),
            _ => false,
        }
    }
}

/// The member under `key` of what was found so far.
pub fn within<'a>(v: Option<&'a Json>, key: &str) -> (r: Option<&'a Json>)
    ensures
        found(r) == at(found(v), key@),
        r is Some <==> member_of(found(v), key@) is Some,
{
    match v {
        Some(j) => j.get(key),
        None => None,
    }
}

/// The text that was found.
pub fn found_text<'a>(v: Option<&'a Json>) -> (r: Option<&'a String>)
    ensures
        r is Some <==> as_text(found(v)) is Some,
        r matches Some(s) ==> as_text(found(v)) == Some(s@),
{
    match v {
        Some(j) => j.as_str(),
        None => None,
    }
}

/// The text under `key` of a document; the empty text where there is none.
pub fn text_at(v: &Json, key: &str) -> (r: String)
    ensures
        r@ == text_or_empty(at(v@, key@)),
{
    match found_text(v.get(key)) {
        Some(s) => s.clone(),
        None => String::new(),
    }
}

/// The identifier that the API gives an item; empty where it gives none.
pub fn json_id(item: &Json) -> (r: String)
    ensures
        r@ == text_or_empty(at(item@, "id"@)),
{
    text_at(item, "id")
}

// ---- building ----

/// No members, to push some behind.
pub open spec fn fields() -> Seq<(Seq<char>, JsonView)> {
    Seq::empty()
}

/// No members yet.
pub fn no_fields() -> (r: Vec<(String, Json)>)
    ensures
        members(r@) == fields(),
{
    let r: Vec<(String, Json)> = Vec::new();
    assert(members(r@) =~= fields());
    r
}

/// Puts one more member behind those that are there.
pub fn put(m: &mut Vec<(String, Json)>, key: &str, value: Json)
    ensures
        members(final(m)@) == members(old(m)@).push((key@, value@)),
{
    let ghost had = members(m@);
    m.push((key.to_owned(), value));
    assert(members(m@) =~= had.push((key@, value@)));
}

/// A text document.
pub fn text(s: &str) -> (r: Json)
    ensures
        r@ == JsonView::Text(s@),
{
    Json::Text(s.to_owned())
}

/// An object with the members that were put together.
pub fn object(m: Vec<(String, Json)>) -> (r: Json)
    ensures
        r@ == JsonView::Object(members(m@)),
{
    broadcast use lemma_object_view;

    Json::Object(m)
}

/// An array of the documents that were put together.
pub fn array(v: Vec<Json>) -> (r: Json)
    ensures
        r@ == JsonView::Array(items(v@)),
{
    broadcast use lemma_array_view;

    Json::Array(v)
}

/// The array of the texts in a list.
pub open spec fn text_items(list: Seq<Seq<char>>) -> Seq<JsonView> {
    list.map_values(|s: Seq<char>| JsonView::Text(s))
}

/// An array of texts.
pub fn text_array(list: &Vec<String>) -> (r: Json)
    ensures
        r@ == JsonView::Array(text_items(crate::text::texts(list@))),
{
    let mut out: Vec<Json> = Vec::new();
    let mut i: usize = 0;
    let ghost want = text_items(crate::text::texts(list@));
    while i < list.len()
        invariant
            i <= list@.len(),
            want == text_items(crate::text::texts(list@)),
            items(out@) == want.take(i as int),
        decreases list@.len() - i,
    {
        let ghost had = out@;
        let x = Json::Text(list[i].clone());
        out.push(x);
        assert(items(out@) =~= items(had).push(x@));
        i += 1;
        assert(items(out@) =~= want.take(i as int));
    }
    assert(want.take(list@.len() as int) =~= want);
    array(out)
}

/// The members of `m` with `value` under `key`: in the place of the member that stands there
/// already, or before the first whose key comes later.
pub open spec fn with_member(
    m: Seq<(Seq<char>, JsonView)>,
    key: Seq<char>,
    value: JsonView,
) -> Seq<(Seq<char>, JsonView)>
    decreases m.len(),
{
    if m.len() == 0 {
        seq![(key, value)]
    } else if m[0].0 == key {
        seq![(key, value)] + m.drop_first()
    } else if text_le(key, m[0].0) {
        seq![(key, value)] + m
    } else {
        seq![m[0]] + with_member(m.drop_first(), key, value)
    }
}

/// Puts `value` under `key`.
pub fn insert(m: &mut Vec<(String, Json)>, key: &str, value: Json)
    ensures
        members(final(m)@) == with_member(members(old(m)@), key@, value@),
{
    let ghost had = m@;
    let ghost all = members(had);
    let mut i: usize = 0;
    assert(all.skip(0) =~= all);
    assert(all.take(0) + with_member(all, key@, value@) =~= with_member(all, key@, value@));
    while i < m.len()
        invariant
            i <= m@.len(),
            m@ == had,
            had == old(m)@,
            all == members(had),
            with_member(all, key@, value@) == all.take(i as int) + with_member(
                all.skip(i as int),
                key@,
                value@,
            ),
        decreases m@.len() - i,
    {
        assert(all.skip(i as int)[0] == all[i as int]);
        if same(&m[i].0, key) {
            m.set(i, (key.to_owned(), value));
            assert(members(m@) =~= all.update(i as int, (key@, value@)));
            assert(members(m@) =~= all.take(i as int) + (seq![(key@, value@)] + all.skip(
                i as int,
            ).drop_first()));
            return;
        }
        if at_most(key, &m[i].0) {
            m.insert(i, (key.to_owned(), value));
            assert(members(m@) =~= all.insert(i as int, (key@, value@)));
            assert(members(m@) =~= all.take(i as int) + (seq![(key@, value@)] + all.skip(i as int)));
            return;
        }
        assert(all.skip(i as int).drop_first() =~= all.skip(i + 1));
        assert(all.take(i as int) + (seq![all[i as int]] + with_member(
            all.skip(i + 1),
            key@,
            value@,
        )) =~= all.take(i + 1) + with_member(all.skip(i + 1), key@, value@));
        i += 1;
    }
    assert(all.skip(i as int).len() == 0);
    m.push((key.to_owned(), value));
    assert(members(m@) =~= all.take(i as int) + seq![(key@, value@)]);
}

/// What was put under a key is found there, and everything else is found as before.
pub proof fn law_inserted_member_is_found(
    m: Seq<(Seq<char>, JsonView)>,
    key: Seq<char>,
    value: JsonView,
    other: Seq<char>,
)
    ensures
        find_member(with_member(m, key, value), key) == Some(value),
        other != key ==> find_member(with_member(m, key, value), other) == find_member(m, other),
    decreases m.len(),
{
    let w = with_member(m, key, value);
    if m.len() == 0 {
        assert(w.drop_first() =~= m);
    } else if m[0].0 == key {
        assert(w.drop_first() =~= m.drop_first());
    } else if text_le(key, m[0].0) {
        assert(w.drop_first() =~= m);
    } else {
        law_inserted_member_is_found(m.drop_first(), key, value, other);
        assert(w.drop_first() =~= with_member(m.drop_first(), key, value));
    }
}

// ---- the text form ----

/// Whether the keys stand in order, each once.
pub open spec fn keys_ordered(m: Seq<(Seq<char>, JsonView)>) -> bool {
    forall|i: int, j: int|
        0 <= i < j < m.len() ==> text_le((#[trigger] m[i]).0, (#[trigger] m[j]).0) && m[i].0
            != m[j].0
}

/// Whether `v` nests at most `depth` arrays and objects and has its members in the order of their
/// keys; where it is to be exact, also that it holds no number but those that are `Unsigned`.
pub open spec fn legible(v: JsonView, depth: nat, exact: bool) -> bool
    decreases v,
{
    match v {
        JsonView::Number(_) => !exact,
        JsonView::Array(s) => depth > 0 && forall|i: int|
            0 <= i < s.len() ==> legible(#[trigger] s[i], (depth - 1) as nat, exact),
        JsonView::Object(m) => depth > 0 && keys_ordered(m) && forall|i: int|
            0 <= i < m.len() ==> legible((#[trigger] m[i]).1, (depth - 1) as nat, exact),
        _ => true,
    }
}

/// Whether `v` nests at most `depth` arrays and objects, has its members in the order of their
/// keys, and holds no number but those that are `Unsigned`.
pub open spec fn plain(v: JsonView, depth: nat) -> bool {
    legible(v, depth, true)
}

/// Whether `v` nests at most `depth` arrays and objects and has its members in the order of their
/// keys, whatever numbers it holds.
pub open spec fn readable(v: JsonView, depth: nat) -> bool {
    legible(v, depth, false)
}

/// Whether members stand in the order of their keys and hold only legible values.
pub open spec fn legible_members(
    m: Seq<(Seq<char>, JsonView)>,
    depth: nat,
    exact: bool,
) -> bool {
    keys_ordered(m) && forall|i: int|
        0 <= i < m.len() ==> legible((#[trigger] m[i]).1, depth, exact)
}

/// Whether `a` is `b` but for the value of numbers: where `b` has a `Number`, `a` has some number.
pub open spec fn alike(a: JsonView, b: JsonView) -> bool
    decreases b,
{
    match b {
        JsonView::Number(_) => a is Number || a is Unsigned,
        JsonView::Array(t) => match a {
            JsonView::Array(s) => s.len() == t.len() && forall|i: int|
                0 <= i < t.len() ==> alike(s[i], #[trigger] t[i]),
            _ => false,
        },
        JsonView::Object(n) => match a {
            JsonView::Object(m) => m.len() == n.len() && forall|i: int|
                0 <= i < n.len() ==> m[i].0 == (#[trigger] n[i]).0 && alike(m[i].1, n[i].1),
            _ => false,
        },
        _ => a == b,
    }
}

/// Whether a text is read as a document that is `v` but for the value of numbers.
pub open spec fn reads_alike(s: Seq<char>, v: JsonView) -> bool {
    match json_parse(s) {
        Some(d) => alike(d, v),
        None => false,
    }
}

/// A document that is another but for the value of numbers has the same members, and what stands
/// under each is the same but for the value of numbers.
pub proof fn law_alike_documents_have_the_same_members(a: JsonView, b: JsonView, key: Seq<char>)
    requires
        alike(a, b),
    ensures
        member_of(a, key) is Some <==> member_of(b, key) is Some,
        member_of(b, key) matches Some(x) ==> alike(member_of(a, key)->Some_0, x),
{
    if let JsonView::Object(n) = b {
        let m = a->Object_0;
        lemma_alike_members(m, n, key);
    }
}

proof fn lemma_alike_members(
    m: Seq<(Seq<char>, JsonView)>,
    n: Seq<(Seq<char>, JsonView)>,
    key: Seq<char>,
)
    requires
        m.len() == n.len(),
        forall|i: int|
            0 <= i < n.len() ==> m[i].0 == (#[trigger] n[i]).0 && alike(m[i].1, n[i].1),
    ensures
        find_member(m, key) is Some <==> find_member(n, key) is Some,
        find_member(n, key) matches Some(x) ==> alike(find_member(m, key)->Some_0, x),
    decreases n.len(),
{
    if n.len() > 0 {
        assert(m[0].0 == n[0].0);
        let (s, t) = (m.drop_first(), n.drop_first());
        assert forall|i: int| 0 <= i < t.len() implies s[i].0 == (#[trigger] t[i]).0 && alike(
            s[i].1,
            t[i].1,
        ) by {
            assert(t[i] == n[i + 1] && s[i] == m[i + 1]);
        }
        lemma_alike_members(s, t, key);
    }
}

/// What `with_member` holds is the new member, or was there before.
proof fn lemma_with_member_origin(
    m: Seq<(Seq<char>, JsonView)>,
    key: Seq<char>,
    value: JsonView,
    i: int,
)
    requires
        0 <= i < with_member(m, key, value).len(),
    ensures
        with_member(m, key, value)[i] == (key, value) || m.contains(with_member(m, key, value)[i]),
    decreases m.len(),
{
    let w = with_member(m, key, value);
    if m.len() == 0 {
    } else if m[0].0 == key {
        if i > 0 {
            assert(w[i] == m[i]);
        }
    } else if text_le(key, m[0].0) {
        if i > 0 {
            assert(w[i] == m[i - 1]);
        }
    } else if i == 0 {
        assert(w[0] == m[0]);
    } else {
        let rest = m.drop_first();
        lemma_with_member_origin(rest, key, value, i - 1);
        assert(w[i] == with_member(rest, key, value)[i - 1]);
        if rest.contains(w[i]) {
            let j = choose|j: int| 0 <= j < rest.len() && rest[j] == w[i];
            assert(m[j + 1] == w[i]);
        }
    }
}

/// Putting a legible value into legible members leaves them legible, with their keys in order.
pub proof fn law_inserting_keeps_members_legible(
    m: Seq<(Seq<char>, JsonView)>,
    key: Seq<char>,
    value: JsonView,
    depth: nat,
    exact: bool,
)
    requires
        legible_members(m, depth, exact),
        legible(value, depth, exact),
    ensures
        legible_members(with_member(m, key, value), depth, exact),
    decreases m.len(),
{
    let w = with_member(m, key, value);
    assert forall|i: int| 0 <= i < w.len() implies legible((#[trigger] w[i]).1, depth, exact) by {
        lemma_with_member_origin(m, key, value, i);
        if m.contains(w[i]) {
            let j = choose|j: int| 0 <= j < m.len() && m[j] == w[i];
            assert(legible(m[j].1, depth, exact));
        }
    }
    if m.len() == 0 {
    } else if m[0].0 == key {
        assert forall|i: int, j: int| 0 <= i < j < w.len() implies text_le(
            (#[trigger] w[i]).0,
            (#[trigger] w[j]).0,
        ) && w[i].0 != w[j].0 by {
            assert(w[i].0 == m[i].0 && w[j].0 == m[j].0);
        }
    } else if text_le(key, m[0].0) {
        assert forall|i: int, j: int| 0 <= i < j < w.len() implies text_le(
            (#[trigger] w[i]).0,
            (#[trigger] w[j]).0,
        ) && w[i].0 != w[j].0 by {
            assert(w[j] == m[j - 1]);
            if i > 0 {
                assert(w[i] == m[i - 1]);
            } else if j > 1 {
                assert(text_le(m[0].0, m[j - 1].0) && m[0].0 != m[j - 1].0);
                lemma_text_le_transitive(key, m[0].0, m[j - 1].0);
                if key == m[j - 1].0 {
                    lemma_text_le_antisymmetric(key, m[0].0);
                }
            }
        }
    } else {
        let rest = m.drop_first();
        assert forall|i: int, j: int| 0 <= i < j < rest.len() implies text_le(
            (#[trigger] rest[i]).0,
            (#[trigger] rest[j]).0,
        ) && rest[i].0 != rest[j].0 by {
            assert(rest[i] == m[i + 1] && rest[j] == m[j + 1]);
        }
        assert forall|i: int| 0 <= i < rest.len() implies legible(
            (#[trigger] rest[i]).1,
            depth,
            exact,
        ) by {
            assert(rest[i] == m[i + 1]);
        }
        law_inserting_keeps_members_legible(rest, key, value, depth, exact);
        let tail = with_member(rest, key, value);
        lemma_text_le_total(key, m[0].0);
        assert forall|i: int, j: int| 0 <= i < j < w.len() implies text_le(
            (#[trigger] w[i]).0,
            (#[trigger] w[j]).0,
        ) && w[i].0 != w[j].0 by {
            assert(w[j] == tail[j - 1]);
            if i > 0 {
                assert(w[i] == tail[i - 1]);
            } else {
                lemma_with_member_origin(rest, key, value, j - 1);
                if rest.contains(tail[j - 1]) {
                    let k = choose|k: int| 0 <= k < rest.len() && rest[k] == tail[j - 1];
                    assert(m[k + 1] == tail[j - 1]);
                }
            }
        }
    }
}

/// Members whose neighbours stand in order stand in order.
pub proof fn lemma_neighbours_ordered(m: Seq<(Seq<char>, JsonView)>)
    requires
        forall|i: int|
            #![trigger m[i]]
            0 <= i < m.len() - 1 ==> text_le(m[i].0, m[i + 1].0) && m[i].0 != m[i + 1].0,
    ensures
        keys_ordered(m),
{
    assert forall|i: int, j: int| 0 <= i < j < m.len() implies text_le(
        (#[trigger] m[i]).0,
        (#[trigger] m[j]).0,
    ) && m[i].0 != m[j].0 by {
        lemma_neighbours_between(m, i, j);
    }
}

proof fn lemma_neighbours_between(m: Seq<(Seq<char>, JsonView)>, i: int, j: int)
    requires
        forall|k: int|
            #![trigger m[k]]
            0 <= k < m.len() - 1 ==> text_le(m[k].0, m[k + 1].0) && m[k].0 != m[k + 1].0,
        0 <= i < j < m.len(),
    ensures
        text_le(m[i].0, m[j].0),
        m[i].0 != m[j].0,
    decreases j - i,
{
    assert(text_le(m[j - 1].0, m[j - 1 + 1].0));
    if i < j - 1 {
        lemma_neighbours_between(m, i, j - 1);
        lemma_text_le_transitive(m[i].0, m[j - 1].0, m[j].0);
        if m[i].0 == m[j].0 {
            lemma_text_le_antisymmetric(m[j - 1].0, m[j].0);
        }
    }
}

/// A text comes before another that agrees with it up to a position and has a later character
/// there.
pub proof fn lemma_earlier(a: Seq<char>, b: Seq<char>, n: int)
    requires
        0 <= n < a.len(),
        n < b.len(),
        forall|i: int| 0 <= i < n ==> a[i] == b[i],
        a[n] < b[n],
    ensures
        text_le(a, b),
        a != b,
    decreases n,
{
    if n > 0 {
        assert forall|i: int| 0 <= i < n - 1 implies a.drop_first()[i] == b.drop_first()[i] by {
            assert(a[i + 1] == b[i + 1]);
        }
        lemma_earlier(a.drop_first(), b.drop_first(), n - 1);
    }
}

/// How many arrays and objects a document may nest for its text form to be read again.
pub const MAX_DEPTH: u64 = 127;

/// The compact text form that `serde_json` gives a document.
pub uninterp spec fn json_text(v: JsonView) -> Seq<char>;

/// The document that `serde_json` reads out of a text, where it reads one.
pub uninterp spec fn json_parse(s: Seq<char>) -> Option<JsonView>;

/// `serde_json::Value`, between a document and its text form.
#[verifier::external_type_specification]
#[verifier::external_body]
pub struct ExValue(serde_json::Value);

/// Turns a document into a `serde_json::Value`, value by value.
#[verifier::external_body]
fn to_value(j: &Json) -> (r: serde_json::Value) {
    match j {
        Json::Null => serde_json::Value::Null,
        Json::Bool(b) => serde_json::Value::Bool(*b),
        Json::Unsigned(n) => serde_json::Value::Number((*n).into()),
        Json::Number(n) => serde_json::Value::Number(n.clone()),
        Json::Text(s) => serde_json::Value::String(s.clone()),
        Json::Array(v) => serde_json::Value::Array(v.iter().map(to_value).collect()),
        Json::Object(m) => serde_json::Value::Object(
            m.iter().map(|p| (p.0.clone(), to_value(&p.1))).collect(),
        ),
    }
}

/// Turns a `serde_json::Value` into a document, value by value.
#[verifier::external_body]
fn of_value(v: serde_json::Value) -> (r: Json) {
    match v {
        serde_json::Value::Null => Json::Null,
        serde_json::Value::Bool(b) => Json::Bool(b),
        serde_json::Value::Number(n) => match n.as_u64() {
            Some(u) => Json::Unsigned(u),
            None => Json::Number(n),
        },
        serde_json::Value::String(s) => Json::Text(s),
        serde_json::Value::Array(a) => Json::Array(a.into_iter().map(of_value).collect()),
        serde_json::Value::Object(m) => Json::Object(
            m.into_iter().map(|p| (p.0, of_value(p.1))).collect(),
        ),
    }
}

/// `serde_json::Value::to_string`, the compact form.
///
/// The text depends on the document alone and has no line break in it: the form puts none between
/// values, and a break inside a text is escaped. Out of the text of a document that nests at most
/// `MAX_DEPTH` deep and has ordered keys `serde_json` reads the document again, with some number
/// where there was one: a whole number without a sign stays what it is, the last digit of a float
/// may change.
#[verifier::external_body]
pub(crate) fn show_json(j: &Json) -> (r: String)
    ensures
        r@ == json_text(j@),
        !r@.contains('\n'),
        plain(j@, MAX_DEPTH as nat) ==> json_parse(r@) == Some(j@),
        readable(j@, MAX_DEPTH as nat) ==> reads_alike(r@, j@),
{
    to_value(j).to_string()
}

/// `serde_json::from_str` to a `serde_json::Value`: the document that the text holds, or nothing
/// where the text is no JSON. Which document, or that there is none, depends on the text alone.
#[verifier::external_body]
pub(crate) fn parse_json(s: &str) -> (r: Option<Json>)
    ensures
        match r {
            Some(j) => json_parse(s@) == Some(j@),
            None => json_parse(s@) is None,
        },
{
    match serde_json::from_str(s) {
        Ok(v) => Some(of_value(v)),
        Err(_) => None,
    }
}

impl Json {
    /// The document that a text holds.
    pub fn parse(s: &str) -> (r: Option<Json>)
        ensures
            match r {
                Some(j) => json_parse(s@) == Some(j@),
                None => json_parse(s@) is None,
            },
    {
        parse_json(s)
    }

    /// The compact text form of this document, on one line.
    pub fn show(&self) -> (r: String)
        ensures
            r@ == json_text(self@),
            !r@.contains('\n'),
            plain(self@, MAX_DEPTH as nat) ==> json_parse(r@) == Some(self@),
            readable(self@, MAX_DEPTH as nat) ==> reads_alike(r@, self@),
    {
        show_json(self)
    }
}

/// A member is found under its key where no member before it has the same key.
pub proof fn lemma_found_at(m: Seq<(Seq<char>, JsonView)>, i: int)
    requires
        0 <= i < m.len(),
        forall|j: int| 0 <= j < i ==> (#[trigger] m[j]).0 != m[i].0,
    ensures
        find_member(m, m[i].0) == Some(m[i].1),
    decreases i,
{
    if i > 0 {
        assert(m[0].0 != m[i].0);
        let rest = m.drop_first();
        assert(rest[i - 1] == m[i]);
        assert forall|j: int| 0 <= j < i - 1 implies (#[trigger] rest[j]).0 != rest[i - 1].0 by {
            assert(rest[j] == m[j + 1]);
        }
        lemma_found_at(rest, i - 1);
    }
}

/// Nothing is found under a key that no member has.
pub proof fn lemma_not_found(m: Seq<(Seq<char>, JsonView)>, key: Seq<char>)
    requires
        forall|j: int| 0 <= j < m.len() ==> (#[trigger] m[j]).0 != key,
    ensures
        find_member(m, key) is None,
    decreases m.len(),
{
    if m.len() > 0 {
        assert(m[0].0 != key);
        let rest = m.drop_first();
        assert forall|j: int| 0 <= j < rest.len() implies (#[trigger] rest[j]).0 != key by {
            assert(rest[j] == m[j + 1]);
        }
        lemma_not_found(rest, key);
    }
}

/// What is read under a key is the value of the first member with that key, whatever else the
/// object holds; without such a member, and of anything that is no object, it is null.
pub proof fn law_reading_finds_the_first_member(v: JsonView, key: Seq<char>, i: int)
    ensures
        v matches JsonView::Object(m) ==> (0 <= i < m.len() && m[i].0 == key && (forall|j: int|
            0 <= j < i ==> (#[trigger] m[j]).0 != key) ==> at(v, key) == m[i].1),
        v matches JsonView::Object(m) ==> ((forall|j: int|
            0 <= j < m.len() ==> (#[trigger] m[j]).0 != key) ==> at(v, key) == JsonView::Null),
        !(v is Object) ==> at(v, key) == JsonView::Null,
{
    if let JsonView::Object(m) = v {
        if 0 <= i < m.len() && m[i].0 == key && (forall|j: int|
            0 <= j < i ==> (#[trigger] m[j]).0 != key) {
            lemma_found_at(m, i);
        }
        if forall|j: int| 0 <= j < m.len() ==> (#[trigger] m[j]).0 != key {
            lemma_not_found(m, key);
        }
    }
}

} // verus!
