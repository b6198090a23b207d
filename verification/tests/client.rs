use clarify_bq::envelope::{LinkedEnvelope, Links, ResourcesEnvelope, ResourcesMeta};
use clarify_bq::error::ClientError;
use clarify_bq::http::{ClarifyClient, GetRequest, GetStep, MAX_ATTEMPTS};
use clarify_bq::json::{json_id, Json};
use clarify_bq::records::{PageScan, PAGE_LIMIT};

fn client() -> ClarifyClient {
    ClarifyClient::new(
        "http://127.0.0.1:9999".to_string(),
        "sk_test_synthetic".to_string(),
        "acme".to_string(),
    )
}

fn doc(text: &str) -> Json {
    Json::parse(text).unwrap()
}

fn docs(texts: &[&str]) -> Vec<Json> {
    texts.iter().map(|t| doc(t)).collect()
}

fn linked(texts: &[&str], next: Option<&str>) -> LinkedEnvelope {
    LinkedEnvelope { data: docs(texts), links: Links { next: next.map(String::from) } }
}

fn record(id: &str) -> Json {
    doc(&format!(
        r#"{{"type":"person","id":"{id}","attributes":{{"name":"Synthetic {id}"}},"relationships":{{"company":{{"data":null}}}}}}"#
    ))
}

fn page(ids: &[&str], total: u64) -> ResourcesEnvelope {
    ResourcesEnvelope {
        data: ids.iter().map(|id| record(id)).collect(),
        meta: ResourcesMeta { total_records: Some(total) },
    }
}

/// Sends a request until it is over, with one status after the other.
fn drive(mut request: GetRequest, statuses: &[u16]) -> (GetStep, u32, Vec<u64>) {
    let mut delays = Vec::new();
    for status in statuses {
        request.send();
        match request.respond(*status, Some("0")) {
            GetStep::Retry { delay_seconds } => delays.push(delay_seconds),
            other => return (other, request.attempts, delays),
        }
    }
    panic!("the request is not over after {statuses:?}");
}

#[test]
fn http_next_links_upgrade_to_https_only_on_https_base() {
    let secure = ClarifyClient::new(
        "https://api.example/v1".to_string(),
        "k".to_string(),
        "acme".to_string(),
    );
    assert_eq!(
        secure.url("http://api.example/v1/workspaces/acme/x?page[offset]=500"),
        "https://api.example/v1/workspaces/acme/x?page[offset]=500"
    );
    // Local/test bases stay untouched.
    let plain = ClarifyClient::new(
        "http://127.0.0.1:9999".to_string(),
        "k".to_string(),
        "acme".to_string(),
    );
    assert_eq!(
        plain.url("http://127.0.0.1:9999/workspaces/acme/x"),
        "http://127.0.0.1:9999/workspaces/acme/x"
    );
}

#[test]
fn relative_paths_belong_to_the_workspace() {
    let c = ClarifyClient::new(
        "https://api.example/v1//".to_string(),
        "k".to_string(),
        "acme".to_string(),
    );
    assert_eq!(c.url("/users"), "https://api.example/v1/workspaces/acme/users");
    assert_eq!(c.url("https://elsewhere/x"), "https://elsewhere/x");
}

#[test]
fn sends_api_key_auth_header() {
    let c = client();
    assert_eq!(c.authorization(), "api-key sk_test_synthetic");
    assert_eq!(c.user_agent(), "clarify-bq/0.1");
    let request = c.get_json("/users");
    assert_eq!(request.url, "http://127.0.0.1:9999/workspaces/acme/users");
    assert_eq!(request.attempts, 0);
}

#[test]
fn retries_429_honoring_retry_after_then_succeeds() {
    let (step, attempts, delays) = drive(client().get_json("/users"), &[429, 429, 200]);
    assert!(matches!(step, GetStep::Accept));
    assert_eq!(attempts, 3);
    assert_eq!(delays, vec![0, 0]);
}

#[test]
fn retries_5xx_up_to_budget_then_errors() {
    let (step, attempts, delays) = drive(client().get_json("/users"), &[503, 503, 503, 503, 503]);
    assert_eq!(attempts, 5);
    assert_eq!(delays.len(), 4);
    assert!(matches!(
        step,
        GetStep::Fail(ClientError::Http { status: 503, attempts: 5, .. })
    ));
}

#[test]
fn auth_failure_is_immediate_no_retry() {
    let (step, attempts, _) = drive(client().get_json("/users"), &[401]);
    assert_eq!(attempts, 1);
    assert!(matches!(step, GetStep::Fail(ClientError::Auth { status: 401, .. })));
}

#[test]
fn a_client_error_is_final() {
    let (step, _, _) = drive(client().get_json("/users"), &[404]);
    match step {
        GetStep::Fail(e) => assert_eq!(
            e.message(),
            "HTTP 404 from http://127.0.0.1:9999/workspaces/acme/users after 1 attempts"
        ),
        _ => panic!("a 404 is a failure"),
    }
}

#[test]
fn pauses_double_where_the_server_asks_for_none() {
    let mut request = client().get_json("/users");
    let mut delays = Vec::new();
    for _ in 1..MAX_ATTEMPTS {
        request.send();
        match request.respond(500, Some("soon")) {
            GetStep::Retry { delay_seconds } => delays.push(delay_seconds),
            _ => panic!("a 500 is tried again"),
        }
    }
    assert_eq!(delays, vec![1, 2, 4, 8]);
    let mut asked = client().get_json("/users");
    asked.send();
    assert!(matches!(asked.respond(429, Some("17")), GetStep::Retry { delay_seconds: 17 }));
    assert!(matches!(asked.respond(429, None), GetStep::Retry { delay_seconds: 1 }));
}

#[test]
fn every_client_error_has_its_words() {
    let auth = ClientError::Auth { status: 403, hint: "check".to_string() };
    assert_eq!(auth.message(), "authentication rejected (HTTP 403): check");
    let spent = ClientError::RetriesExhausted { url: "u".to_string() };
    assert_eq!(spent.message(), "retry budget exhausted for u");
    let lost = ClientError::Transport("gone".to_string());
    assert_eq!(lost.message(), "transport error: gone");
    let shape = ClientError::Shape { url: "u".to_string(), detail: "d".to_string() };
    assert_eq!(shape.message(), "unexpected response shape from u: d");
}

#[test]
fn pages_by_returned_count_and_terminates_on_short_page() {
    let mut scan = client().fetch_records("person", &vec!["company".into(), "deals".into()]);
    assert_eq!(
        scan.query(),
        "/objects/person/resources?page[limit]=500&page[offset]=0&sortOrder[column]=_created_at&sortOrder[dir]=ASC&include=company,deals"
    );
    let mut seen = Vec::new();
    // The server clamps the limit: two per page even though 500 are asked for.
    let first = page(&["r1", "r2"], 3);
    seen.extend(first.data.iter().map(json_id));
    scan.page(first.data.len(), first.meta.total_records);
    assert!(!scan.done);
    assert!(scan.query().contains("page[offset]=2&"));
    let second = page(&["r3"], 3);
    seen.extend(second.data.iter().map(json_id));
    scan.page(second.data.len(), second.meta.total_records);
    assert!(scan.done);
    let stats = scan.stats();
    assert_eq!(seen, vec!["r1", "r2", "r3"]);
    assert_eq!(stats.fetched, 3);
    assert_eq!(stats.expected, Some(3));
    assert_eq!(stats.consistency(), "clean");
}

#[test]
fn count_drift_reports_dirty() {
    let mut scan = client().fetch_records("person", &vec![]);
    assert!(scan.query().ends_with("&sortOrder[dir]=ASC"));
    scan.page(page(&["r1"], 5).data.len(), Some(5));
    assert!(!scan.done);
    scan.page(page(&[], 5).data.len(), Some(5));
    assert!(scan.done);
    assert_eq!(scan.stats().fetched, 1);
    assert_eq!(scan.stats().consistency(), "dirty");
}

#[test]
fn a_full_page_never_ends_a_scan() {
    let mut scan = PageScan::start("/x", &vec![]);
    scan.page(PAGE_LIMIT, None);
    assert!(!scan.done);
    scan.page(0, None);
    assert!(scan.done);
    assert_eq!(scan.stats().fetched, 500);
    assert_eq!(scan.stats().consistency(), "clean");
    // A short page ends it where nothing was promised.
    let mut short = PageScan::start("/x", &vec![]);
    short.page(3, None);
    assert!(short.done);
}

#[test]
fn linked_collection_follows_next_until_null() {
    let mut scan = client().fetch_linked("/lists");
    assert_eq!(scan.next.as_deref(), Some("/lists"));
    let mut ids = Vec::new();
    let next = "http://127.0.0.1:9999/workspaces/acme/lists?page[offset]=1";
    let first = linked(
        &[r#"{"type":"list","id":"lst_1","attributes":{"entity":"person","name":"Synthetic A"}}"#],
        Some(next),
    );
    ids.extend(first.data.iter().map(json_id));
    scan.page(&first);
    assert_eq!(scan.next.as_deref(), Some(next));
    let second = linked(
        &[r#"{"type":"list","id":"lst_2","attributes":{"entity":"deal","name":"Synthetic B"}}"#],
        None,
    );
    ids.extend(second.data.iter().map(json_id));
    scan.page(&second);
    assert!(scan.next.is_none());
    assert_eq!(ids, vec!["lst_1", "lst_2"]);
    assert_eq!(scan.stats().fetched, 2);
}

#[test]
fn settings_is_returned_verbatim() {
    assert_eq!(
        client().fetch_settings().url,
        "http://127.0.0.1:9999/workspaces/acme/settings"
    );
    let d = doc(r#"{"orgDescription": "synthetic", "ingestionRules": []}"#);
    assert!(d.get("orgDescription").unwrap().is_text("synthetic"));
    assert_eq!(d.show(), r#"{"ingestionRules":[],"orgDescription":"synthetic"}"#);
}

#[test]
fn record_activities_path_is_correct() {
    let mut scan = client().fetch_record_activities("person", "rec_1");
    assert_eq!(scan.next.as_deref(), Some("/objects/person/records/rec_1/activities"));
    scan.page(&linked(
        &[r#"{"type":"activity","id":"act_1","attributes":{"kind":"comment"}}"#],
        None,
    ));
    assert_eq!(scan.stats().fetched, 1);
    assert_eq!(
        client().fetch_record_attachments("person", "rec_1").next.as_deref(),
        Some("/objects/person/records/rec_1/attachments")
    );
    assert_eq!(
        client().fetch_list_rows("deal", "lst_2").path,
        "/objects/deal/lists/lst_2/resources"
    );
}

#[test]
fn follows_cursor_to_exhaustion_and_extracts_slugs() {
    let mut scan = client().fetch_schemas();
    assert_eq!(scan.next.as_deref(), Some("/schemas"));
    let next = "http://127.0.0.1:9999/workspaces/acme/schemas?cursor=abc";
    scan.page(&linked(
        &[r#"{"type": "schema", "id": "sch_1", "attributes": {
                "entity": "person",
                "fields": {"company": {"type": "relationship"}, "name": {"type": "text"}}
            }}"#],
        Some(next),
    ));
    assert_eq!(scan.next.as_deref(), Some(next));
    scan.page(&linked(
        &[r#"{"type": "schema", "id": "sch_2", "attributes": {
                "entity": "c_sales_order", "fields": {}
            }}"#],
        None,
    ));
    assert!(scan.next.is_none());
    let schemas = scan.finish(None).unwrap();
    assert_eq!(schemas.len(), 2);
    assert_eq!(schemas[0].slug, "person");
    assert_eq!(schemas[0].relationships, vec!["company".to_string()]);
    assert_eq!(schemas[1].slug, "c_sales_order");
    assert!(schemas[1].relationships.is_empty());
}

#[test]
fn a_page_that_fails_leaves_no_schemas() {
    let mut scan = client().fetch_schemas();
    scan.page(&linked(&[r#"{"attributes": {"entity": "person"}}"#], Some("http://h/next")));
    let down = ClientError::Http { status: 500, url: "u".to_string(), attempts: 5 };
    assert_eq!(
        scan.finish(Some(down)).unwrap_err().message(),
        "HTTP 500 from u after 5 attempts"
    );
}

#[test]
fn follows_cursor_and_extracts_object_slugs_from_titles() {
    let mut scan = client().fetch_schemas();
    let next = "http://127.0.0.1:9999/workspaces/acme/schemas?cursor=abc";
    scan.page(&linked(
        &[
            r#"{"type": "schema", "id": "https://example.test/schemas/core/person",
                 "attributes": {
                    "$id": "https://example.test/schemas/core/person",
                    "title": "person",
                    "xClarifyNamespace": "objects",
                    "properties": {
                        "_id": {"type": "string"},
                        "company_id": {"type": ["string", "null"],
                            "xClarifyRelationship": {"kind": "many-to-one", "entity": "company"}},
                        "deals": {"oneOf": [{"type": "null"}],
                            "xClarifyRelationship": {"kind": "many-to-many", "entity": "deal"}}
                    }
                }}"#,
            r#"{"type": "schema", "id": "https://example.test/schemas/core/collectionOfStrings",
                 "attributes": {"$id": "https://example.test/schemas/core/collectionOfStrings",
                    "type": "object"}}"#,
        ],
        Some(next),
    ));
    scan.page(&linked(
        &[r#"{"type": "schema", "id": "https://example.test/schemas/entities/c_sales_order",
                "attributes": {"title": "c_sales_order", "xClarifyNamespace": "objects",
                    "properties": {}}}"#],
        None,
    ));
    let schemas = scan.found;
    assert_eq!(schemas.len(), 3);
    assert_eq!(schemas[0].slug, "person");
    assert!(schemas[0].object);
    assert_eq!(
        schemas[0].relationships,
        vec!["company_id".to_string(), "deals".to_string()]
    );
    assert!(!schemas[1].object, "value schema must not count as an object");
    assert_eq!(schemas[2].slug, "c_sales_order");
    assert!(schemas[2].object);
    assert!(schemas[2].relationships.is_empty());
}
