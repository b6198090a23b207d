//! The key of the Clarify API, as Secret Manager keeps it, and tokens.

use vstd::prelude::*;
use vstd::utf8::{decode_utf8, encode_utf8, valid_utf8};
use crate::error::{success, SinkError};
use crate::json::{as_text, at, found_text, within, Json, JsonView};
use crate::text::{
    lemma_parts_append, lemma_parts_clean, lemma_parts_plain, lemma_parts_some, parts, quote,
    quoted, same, split, texts, trim_both, trim_end, trimmed, trimmed_end, trimmed_start,
};

verus! {

/// A version of a secret in Secret Manager.
#[derive(Debug)]
pub struct SecretRef {
    project: String,
    secret: String,
    version: String,
}

impl Clone for SecretRef {
    fn clone(&self) -> (r: Self)
        ensures
            r@ == self@,
    {
        SecretRef {
            project: self.project.clone(),
            secret: self.secret.clone(),
            version: self.version.clone(),
        }
    }
}

impl View for SecretRef {
    type V = (Seq<char>, Seq<char>, Seq<char>);

    /// The project, the secret and the version.
    closed spec fn view(&self) -> (Seq<char>, Seq<char>, Seq<char>) {
        (self.project@, self.secret@, self.version@)
    }
}

/// The version that a text refers to: `projects/<p>/secrets/<name>`, which means the latest, or
/// `projects/<p>/secrets/<name>/versions/<v>`. Slashes at either end do not count.
pub open spec fn parsed_ref(s: Seq<char>) -> Option<(Seq<char>, Seq<char>, Seq<char>)> {
    let p = parts(trimmed(s, '/'), '/');
    if p.len() == 4 && p[0] == "projects"@ && p[2] == "secrets"@ {
        Some((p[1], p[3], "latest"@))
    } else if p.len() == 6 && p[0] == "projects"@ && p[2] == "secrets"@ && p[4] == "versions"@ {
        Some((p[1], p[3], p[5]))
    } else {
        None
    }
}

/// What is said of a text that refers to no version.
pub open spec fn bad_ref(s: Seq<char>) -> Seq<char> {
    "secret ref must look like projects/<p>/secrets/<name>[/versions/<v>], got "@ + quoted(s)
}

/// The full name of a version.
pub open spec fn resource_text(r: (Seq<char>, Seq<char>, Seq<char>)) -> Seq<char> {
    "projects/"@ + r.0 + "/secrets/"@ + r.1 + "/versions/"@ + r.2
}

impl SecretRef {
    /// Reads a reference.
    pub fn parse(s: &str) -> (r: Result<Self, SinkError>)
        ensures
            match r {
                Ok(x) => parsed_ref(s@) == Some(x@),
                Err(SinkError::Config(e)) => parsed_ref(s@) is None && e@ == bad_ref(s@),
                Err(_) => false,
            },
    {
        let p = split(&trim_both(s, '/'), '/');
        let ghost all = parts(trimmed(s@, '/'), '/');
        assert(all == texts(p@));
        assert(forall|i: int| 0 <= i < p@.len() ==> #[trigger] p@[i]@ == all[i]);
        if p.len() == 4 && same(&p[0], "projects") && same(&p[2], "secrets") {
            return Ok(
                SecretRef {
                    project: p[1].clone(),
                    secret: p[3].clone(),
                    version: "latest".to_owned(),
                },
            );
        }
        if p.len() == 6 && same(&p[0], "projects") && same(&p[2], "secrets") && same(
            &p[4],
            "versions",
        ) {
            return Ok(
                SecretRef {
                    project: p[1].clone(),
                    secret: p[3].clone(),
                    version: p[5].clone(),
                },
            );
        }
        let mut e =
            "secret ref must look like projects/<p>/secrets/<name>[/versions/<v>], got ".to_owned();
        e.append(&quote(s));
        Err(SinkError::Config(e))
    }

    /// The full name of this version.
    pub fn resource_name(&self) -> (r: String)
        ensures
            r@ == resource_text(self@),
    {
        let mut s = "projects/".to_owned();
        s.append(&self.project);
        s.append("/secrets/");
        s.append(&self.secret);
        s.append("/versions/");
        s.append(&self.version);
        s
    }
}

proof fn lemma_trimmed_end(s: Seq<char>, c: char)
    ensures
        trimmed_end(s, c).len() > 0 ==> trimmed_end(s, c).last() != c,
    decreases s.len(),
{
    if s.len() > 0 && s.last() == c {
        lemma_trimmed_end(s.drop_last(), c);
    }
}

/// The full name of a version that was read from a text refers to that same version.
pub proof fn law_resource_name_reads_back(s: Seq<char>)
    requires
        parsed_ref(s) is Some,
    ensures
        parsed_ref(resource_text(parsed_ref(s)->Some_0)) == parsed_ref(s),
{
    reveal_strlit("projects");
    reveal_strlit("projects/");
    reveal_strlit("secrets");
    reveal_strlit("/secrets/");
    reveal_strlit("versions");
    reveal_strlit("/versions/");
    reveal_strlit("latest");
    let t = trimmed(s, '/');
    let r = parsed_ref(s)->Some_0;
    lemma_parts_clean(t, '/');
    lemma_trimmed_end(trimmed_start(s, '/'), '/');
    let p = parts(t, '/');
    if t.len() == 0 {
        assert(p == seq![Seq::<char>::empty()]);
        assert(false);
    }
    lemma_parts_some(t.drop_last(), '/');
    assert(p.last().len() > 0 && p.last().last() == t.last());
    assert(!p[1].contains('/') && !p[3].contains('/') && !p.last().contains('/'));
    assert(!"latest"@.contains('/')) by {
        if "latest"@.contains('/') {
            let k = choose|k: int| 0 <= k < "latest"@.len() && "latest"@[k] == '/';
        }
    }
    assert(!r.0.contains('/') && !r.1.contains('/') && !r.2.contains('/'));
    assert(r.2.len() > 0);
    let full = resource_text(r);
    let a0 = "projects"@;
    let a1 = a0.push('/') + r.0;
    let a2 = a1.push('/') + "secrets"@;
    let a3 = a2.push('/') + r.1;
    let a4 = a3.push('/') + "versions"@;
    let a5 = a4.push('/') + r.2;
    assert(!a0.contains('/'));
    assert(!"secrets"@.contains('/'));
    assert(!"versions"@.contains('/'));
    lemma_parts_plain(a0, '/');
    lemma_parts_append(a0, '/', r.0);
    lemma_parts_append(a1, '/', "secrets"@);
    lemma_parts_append(a2, '/', r.1);
    lemma_parts_append(a3, '/', "versions"@);
    lemma_parts_append(a4, '/', r.2);
    assert("projects/"@ =~= a0.push('/'));
    assert("/secrets/"@ =~= Seq::<char>::empty().push('/') + "secrets"@.push('/'));
    assert("/versions/"@ =~= Seq::<char>::empty().push('/') + "versions"@.push('/'));
    assert(full =~= a5);
    assert(full[0] == 'p');
    assert(full.last() == r.2.last());
    assert(r.2.last() == r.2[r.2.len() - 1]);
    assert(full.last() != '/');
    assert(trimmed(full, '/') == full);
    let q = parts(full, '/');
    assert(q.len() == 6);
    assert(q[0] == "projects"@ && q[1] == r.0 && q[2] == "secrets"@ && q[3] == r.1 && q[4]
        == "versions"@ && q[5] == r.2);
}

// ---- reading the secret ----

/// What the base64 alphabet of RFC 4648, with padding, decodes a text to, or what is said of a
/// text that it cannot decode.
pub uninterp spec fn base64_decoded(s: Seq<char>) -> Result<Seq<u8>, Seq<char>>;

/// `base64::engine::general_purpose::STANDARD.decode`, with its error as the text of its
/// `Display`. Bytes and error depend on the text alone.
#[verifier::external_body]
fn decode_base64(s: &str) -> (r: Result<Vec<u8>, String>)
    ensures
        match r {
            Ok(b) => base64_decoded(s@) == Ok::<Seq<u8>, Seq<char>>(b@),
            Err(e) => base64_decoded(s@) == Err::<Seq<u8>, Seq<char>>(e@),
        },
{
    base64::Engine::decode(&base64::engine::general_purpose::STANDARD, s).map_err(|e| e.to_string())
}

/// What std says of bytes that are no UTF-8.
pub uninterp spec fn utf8_error(bytes: Seq<u8>) -> Seq<char>;

/// `String::from_utf8` of std, with its error as the text of its `Display`: bytes that are UTF-8
/// become the text that they encode, and no others become one.
#[verifier::external_body]
pub(crate) fn text_of_utf8(bytes: Vec<u8>) -> (r: Result<String, String>)
    ensures
        match r {
            Ok(s) => valid_utf8(bytes@) && s@ == decode_utf8(bytes@),
            Err(e) => !valid_utf8(bytes@) && e@ == utf8_error(bytes@),
        },
{
    String::from_utf8(bytes).map_err(|e| e.to_string())
}

/// The text that a payload holds, or what is wrong with it.
pub open spec fn payload_text(decoded: Result<Seq<u8>, Seq<char>>) -> Result<Seq<char>, Seq<char>> {
    match decoded {
        Err(e) => Err("secret payload not base64: "@ + e),
        Ok(bytes) => if valid_utf8(bytes) {
            Ok(decode_utf8(bytes))
        } else {
            Err("secret not utf8: "@ + utf8_error(bytes))
        },
    }
}

/// The secret that a response holds, or what is wrong with it.
pub open spec fn secret_text(body: JsonView) -> Result<Seq<char>, Seq<char>> {
    match as_text(at(at(body, "payload"@), "data"@)) {
        None => Err("secret payload missing"@),
        Some(data) => payload_text(base64_decoded(data)),
    }
}

/// Turns what a payload decoded to into the text that it holds.
pub fn payload_value(decoded: Result<Vec<u8>, String>) -> (r: Result<String, SinkError>)
    ensures
        match r {
            Ok(s) => decoded matches Ok(b) && payload_text(Ok(b@)) == Ok::<Seq<char>, Seq<char>>(
                s@,
            ),
            Err(SinkError::Config(e)) => payload_text(
                match decoded {
                    Ok(b) => Ok(b@),
                    Err(d) => Err(d@),
                },
            ) == Err::<Seq<char>, Seq<char>>(e@),
            Err(_) => false,
        },
{
    match decoded {
        Err(d) => {
            let mut e = "secret payload not base64: ".to_owned();
            e.append(&d);
            Err(SinkError::Config(e))
        },
        Ok(bytes) => match text_of_utf8(bytes) {
            Ok(s) => Ok(s),
            Err(d) => {
                let mut e = "secret not utf8: ".to_owned();
                e.append(&d);
                Err(SinkError::Config(e))
            },
        },
    }
}

/// The secret that a response holds.
pub fn secret_value(body: &Json) -> (r: Result<String, SinkError>)
    ensures
        match r {
            Ok(s) => secret_text(body@) == Ok::<Seq<char>, Seq<char>>(s@),
            Err(SinkError::Config(e)) => secret_text(body@) == Err::<Seq<char>, Seq<char>>(e@),
            Err(_) => false,
        },
{
    match found_text(within(body.get("payload"), "data")) {
        None => Err(SinkError::Config("secret payload missing".to_owned())),
        Some(data) => payload_value(decode_base64(data)),
    }
}

/// Whatever text was stored is what is read, where the payload decodes to its UTF-8 bytes.
pub proof fn law_secret_is_what_was_stored(body: JsonView, data: Seq<char>, stored: Seq<char>)
    requires
        as_text(at(at(body, "payload"@), "data"@)) == Some(data),
        base64_decoded(data) == Ok::<Seq<u8>, Seq<char>>(encode_utf8(stored)),
    ensures
        secret_text(body) == Ok::<Seq<char>, Seq<char>>(stored),
{
    vstd::utf8::encode_utf8_valid_utf8(stored);
    vstd::utf8::encode_utf8_decode_utf8(stored);
}

/// A request for a secret.
#[derive(Debug)]
pub struct SecretAccess {
    pub url: String,
}

/// Asks for a secret.
pub fn fetch_secret(base_url: &str, secret: &SecretRef) -> (r: SecretAccess)
    ensures
        r.url@ == trimmed_end(base_url@, '/') + "/v1/"@ + resource_text(secret@) + ":access"@,
{
    let mut url = trim_end(base_url, '/');
    url.append("/v1/");
    url.append(&secret.resource_name());
    url.append(":access");
    SecretAccess { url }
}

impl SecretAccess {
    /// Takes the status of the response, with the body of one that is no success.
    pub fn granted(&self, status: u16, body: &str) -> (r: Result<(), SinkError>)
        ensures
            match r {
                Ok(_) => success(status),
                Err(SinkError::Http { status: s, url, body: b }) => !success(status) && s == status
                    && url@ == self.url@ && b@ == body@,
                Err(_) => false,
            },
    {
        if status >= 200 && status < 300 {
            return Ok(());
        }
        Err(SinkError::Http { status, url: self.url.clone(), body: body.to_owned() })
    }
}

// ---- tokens ----

/// The value of the header that a request to Google is authorized by.
pub fn bearer(token: &str) -> (r: String)
    ensures
        r@ == "Bearer "@ + token@,
{
    let mut s = "Bearer ".to_owned();
    s.append(token);
    s
}

/// A token that never changes.
pub struct StaticTokenProvider(pub String);

impl StaticTokenProvider {
    pub fn token(&self) -> (r: Result<String, SinkError>)
        ensures
            r matches Ok(t) && t@ == self.0@,
    {
        Ok(self.0.clone())
    }
}

// ---- what refers to a secret ----

proof fn lemma_trimmed_keeps(s: Seq<char>, c: char)
    requires
        s.len() > 0,
        s[0] != c,
        s.last() != c,
    ensures
        trimmed(s, c) == s,
{
}

/// A project and a secret refer to the latest version, and with a version to that one. Names are not
/// empty, and have no slash in them.
pub proof fn law_references_name_project_secret_and_version(
    project: Seq<char>,
    name: Seq<char>,
    version: Seq<char>,
)
    requires
        !project.contains('/'),
        !name.contains('/'),
        !version.contains('/'),
        name.len() > 0,
        version.len() > 0,
    ensures
        parsed_ref("projects/"@ + project + "/secrets/"@ + name) == Some(
            (project, name, "latest"@),
        ),
        parsed_ref("projects/"@ + project + "/secrets/"@ + name + "/versions/"@ + version) == Some(
            (project, name, version),
        ),
{
    reveal_strlit("projects");
    reveal_strlit("projects/");
    reveal_strlit("secrets");
    reveal_strlit("/secrets/");
    reveal_strlit("versions");
    reveal_strlit("/versions/");
    let a0 = "projects"@;
    let a1 = a0.push('/') + project;
    let a2 = a1.push('/') + "secrets"@;
    let a3 = a2.push('/') + name;
    let a4 = a3.push('/') + "versions"@;
    let a5 = a4.push('/') + version;
    assert(!a0.contains('/'));
    assert(!"secrets"@.contains('/'));
    assert(!"versions"@.contains('/'));
    lemma_parts_plain(a0, '/');
    lemma_parts_append(a0, '/', project);
    lemma_parts_append(a1, '/', "secrets"@);
    lemma_parts_append(a2, '/', name);
    lemma_parts_append(a3, '/', "versions"@);
    lemma_parts_append(a4, '/', version);
    assert("projects/"@ =~= a0.push('/'));
    assert("/secrets/"@ =~= Seq::<char>::empty().push('/') + "secrets"@.push('/'));
    assert("/versions/"@ =~= Seq::<char>::empty().push('/') + "versions"@.push('/'));
    let short = "projects/"@ + project + "/secrets/"@ + name;
    let long = short + "/versions/"@ + version;
    assert(short =~= a3);
    assert(long =~= a5);
    assert(short[0] == 'p' && long[0] == 'p');
    assert(short.last() == name[name.len() - 1]);
    assert(long.last() == version[version.len() - 1]);
    assert(name.contains(name[name.len() - 1]));
    assert(version.contains(version[version.len() - 1]));
    lemma_trimmed_keeps(short, '/');
    lemma_trimmed_keeps(long, '/');
    let p = parts(short, '/');
    assert(p =~= seq![a0, project, "secrets"@, name]);
    let q = parts(long, '/');
    assert(q =~= seq![a0, project, "secrets"@, name, "versions"@, version]);
}

/// Slashes in front and behind do not count.
pub proof fn law_slashes_around_a_reference_do_not_count(s: Seq<char>)
    ensures
        parsed_ref(seq!['/'] + s) == parsed_ref(s),
        parsed_ref(s.push('/')) == parsed_ref(s),
{
    assert((seq!['/'] + s).drop_first() =~= s);
    assert(trimmed((seq!['/'] + s), '/') == trimmed(s, '/'));
    lemma_trimmed_push(s, '/');
}

proof fn lemma_trimmed_push(s: Seq<char>, c: char)
    ensures
        trimmed(s.push(c), c) == trimmed(s, c),
    decreases s.len(),
{
    if s.len() == 0 {
        assert(s.push(c).drop_first() =~= s);
    } else if s.first() == c {
        assert(s.push(c).drop_first() =~= s.drop_first().push(c));
        lemma_trimmed_push(s.drop_first(), c);
    } else {
        assert(s.push(c).first() == s.first());
        assert(s.push(c).drop_last() =~= s);
    }
}

/// Nothing else refers to a secret: what does is, but for the slashes around it, made of `projects`,
/// a project, `secrets` and a secret, with `versions` and a version or without.
pub proof fn law_only_such_texts_are_references(s: Seq<char>)
    requires
        parsed_ref(s) is Some,
    ensures
        ({
            let (project, name, version) = parsed_ref(s)->Some_0;
            ||| trimmed(s, '/') == "projects/"@ + project + "/secrets/"@ + name && version
                == "latest"@
            ||| trimmed(s, '/') == "projects/"@ + project + "/secrets/"@ + name + "/versions/"@
                + version
        }),
{
    reveal_strlit("projects");
    reveal_strlit("projects/");
    reveal_strlit("secrets");
    reveal_strlit("/secrets/");
    reveal_strlit("versions");
    reveal_strlit("/versions/");
    let t = trimmed(s, '/');
    let p = parts(t, '/');
    let sep = seq!['/'];
    crate::text::law_joining_undoes_splitting(t, '/');
    reveal_with_fuel(crate::text::joined, 6);
    assert("projects/"@ =~= "projects"@ + sep);
    assert("/secrets/"@ =~= sep + "secrets"@ + sep);
    assert("/versions/"@ =~= sep + "versions"@ + sep);
    let p3 = p.take(3);
    let p2 = p.take(2);
    let p1 = p.take(1);
    let p4 = p.take(4);
    assert(p2.drop_last() =~= p1);
    assert(p3.drop_last() =~= p2);
    assert(p4.drop_last() =~= p3);
    if p.len() == 4 {
        assert(p4 =~= p);
        assert(t =~= "projects/"@ + p[1] + "/secrets/"@ + p[3]);
    } else {
        let p5 = p.take(5);
        assert(p5.drop_last() =~= p4);
        assert(p.drop_last() =~= p5);
        assert(crate::text::joined(p4, sep) =~= "projects/"@ + p[1] + "/secrets/"@ + p[3]);
        assert(t =~= "projects/"@ + p[1] + "/secrets/"@ + p[3] + "/versions/"@ + p[5]);
    }
}

/// The full name of a version names all three.
pub proof fn law_full_names_name_everything(r: (Seq<char>, Seq<char>, Seq<char>))
    ensures
        resource_text(r) == "projects/"@ + r.0 + "/secrets/"@ + r.1 + "/versions/"@ + r.2,
{
}

/// A response without a payload holds no secret, and neither does one whose payload is no base64 or
/// no UTF-8.
pub proof fn law_what_is_no_secret(body: JsonView, data: Seq<char>, bytes: Seq<u8>, why: Seq<char>)
    ensures
        !(at(at(body, "payload"@), "data"@) is Text) ==> secret_text(body) is Err,
        at(at(body, "payload"@), "data"@) == JsonView::Text(data) && base64_decoded(data) == Err::<
            Seq<u8>,
            Seq<char>,
        >(why) ==> secret_text(body) is Err,
        at(at(body, "payload"@), "data"@) == JsonView::Text(data) && base64_decoded(data) == Ok::<
            Seq<u8>,
            Seq<char>,
        >(bytes) ==> (secret_text(body) is Ok <==> valid_utf8(bytes)),
{
}

/// What is said of a text that refers to no secret shows the form of those that do, and the text.
pub proof fn law_bad_references_are_shown(s: Seq<char>)
    ensures
        bad_ref(s)
            == "secret ref must look like projects/<p>/secrets/<name>[/versions/<v>], got "@
            + quoted(s),
{
}

} // verus!
