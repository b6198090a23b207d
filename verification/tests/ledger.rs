use clarify_bq::clock::{clock_rfc3339, new_run_id, now_rfc3339, run_time, timestamp, RunTime};
use clarify_bq::json::Json;
use clarify_bq::plan::ResourcePlan;
use clarify_bq::rows::{FetchCtx, RowKind};
use clarify_bq::runs::{
    counts_of, current_counts, overall_status, parse_prev_counts, prev_run_sql, runs_row,
    shrink_candidates, shrink_violations, write_marker, Compared, Counts, MarkerStep,
    ResourceOutcome,
};
use clarify_bq::spool::{sweep_orphans, RunSpool};
use clarify_bq::views::{
    create_latest_views, object_view_sql, passthrough_view_sql, plan_tables, views_dataset,
    ViewObject, AUX_TABLES,
};
use clarify_bq::admin::BqSink;
use clarify_bq::error::SinkError;

fn outcome(resource: &str, table: &str, status: &str, count: u64) -> ResourceOutcome {
    ResourceOutcome {
        resource: resource.to_string(),
        table: table.to_string(),
        status: status.to_string(),
        count,
        expected: None,
        consistency: "clean".to_string(),
        error: None,
        fetch_started_at: "2026-07-20T00:00:00Z".to_string(),
        fetch_ended_at: "2026-07-20T00:00:01Z".to_string(),
    }
}

fn counts(list: &[(&str, u64)]) -> Counts {
    let mut c = Counts::new();
    for (resource, count) in list {
        c.insert(resource, *count);
    }
    c
}

/// The drops that go over a threshold, in percent.
fn violations(prev: &Counts, curr: &Counts, threshold_pct: f64) -> Vec<String> {
    let drops: Vec<Compared> = shrink_candidates(prev, curr);
    let shown: Vec<Option<String>> = drops
        .iter()
        .map(|d| {
            let pct = 100.0 * (d.before.saturating_sub(d.now)) as f64 / d.before as f64;
            if pct > threshold_pct {
                Some(format!("{pct:.1}"))
            } else {
                None
            }
        })
        .collect();
    shrink_violations(&drops, &shown, &format!("{threshold_pct}"))
}

#[test]
fn status_matrix() {
    let ok = outcome("records_person", "records_person", "ok", 5);
    let aux_fail = outcome("users", "users", "failed", 0);
    let rec_fail = outcome("records_person", "records_person", "failed", 0);
    assert_eq!(overall_status(std::slice::from_ref(&ok)), "complete");
    assert_eq!(overall_status(&[ok.clone(), aux_fail.clone()]), "partial");
    assert_eq!(overall_status(&[rec_fail, aux_fail]), "failed");
}

#[test]
fn skipped_resources_leave_a_run_complete() {
    let skipped = outcome("records_agent", "records_agent", "skipped", 0);
    assert!(skipped.is_records());
    assert_eq!(overall_status(&[skipped]), "complete");
    assert_eq!(overall_status(&[]), "complete");
}

#[test]
fn shrink_flags_only_real_drops() {
    let prev = counts(&[("records_person", 100), ("users", 10), ("records_gone", 50)]);
    // 10% drop > 5% is flagged, growth is fine, and what is absent is another scope.
    let curr = counts(&[("records_person", 90), ("users", 12)]);
    let v = violations(&prev, &curr, 5.0);
    assert_eq!(v.len(), 1);
    assert!(v[0].contains("records_person"));
    assert_eq!(v[0], "records_person: 100 -> 90 (10.0% drop exceeds 5%)");
    assert!(violations(&prev, &curr, 15.0).is_empty());
}

#[test]
fn only_common_resources_are_compared() {
    let prev = counts(&[("a", 0), ("b", 3), ("c", 4)]);
    let curr = counts(&[("a", 0), ("b", 1), ("d", 9)]);
    let drops = shrink_candidates(&prev, &curr);
    assert_eq!(drops.len(), 1);
    assert_eq!(drops[0].resource, "b");
    assert_eq!((drops[0].before, drops[0].now), (3, 1));
}

#[test]
fn violations_are_sorted() {
    let prev = counts(&[("users", 10), ("lists", 10)]);
    let curr = counts(&[("users", 1), ("lists", 1)]);
    let v = violations(&prev, &curr, 5.0);
    assert!(v[0].starts_with("lists:") && v[1].starts_with("users:"));
}

#[test]
fn prev_counts_parse_ignores_failed_resources() {
    let json = r#"[
            {"resource":"records_person","status":"ok","count":100},
            {"resource":"users","status":"failed","count":0}
        ]"#;
    let counts = parse_prev_counts(json);
    assert_eq!(counts.get("records_person"), Some(&100));
    assert!(!counts.contains_key("users"));
}

#[test]
fn counts_that_are_no_list_are_none() {
    assert!(!parse_prev_counts("{\"repaired\":true}").contains_key("repaired"));
    assert!(!parse_prev_counts("no json").contains_key("x"));
    let c = counts_of(&Json::parse(r#"[{"resource":"x","status":"ok","count":-1}]"#).unwrap());
    assert!(!c.contains_key("x"));
    let again = counts(&[("x", 1), ("y", 2), ("x", 3)]);
    assert_eq!(again.get("x"), Some(&3));
    assert_eq!(again.get("y"), Some(&2));
}

#[test]
fn the_next_run_reads_what_was_written() {
    let mut users = outcome("users", "users", "failed", 0);
    users.error = Some("HTTP 500".to_string());
    let mut records = outcome("records_person", "records_person", "ok", 100);
    records.expected = Some(101);
    let list = vec![records, users];
    let row = runs_row("run", "2026-07-20T00:00:00Z", "2026-07-20T00:00:02Z", "partial", &list);
    assert_eq!(
        row.show(),
        concat_lines(&[
            r#"{"finished_at":"2026-07-20T00:00:02Z","resources":["#,
            r#"{"consistency":"clean","count":100,"error":null,"expected":101,"#,
            r#""fetch_ended_at":"2026-07-20T00:00:01Z","fetch_started_at":"2026-07-20T00:00:00Z","#,
            r#""resource":"records_person","status":"ok","table":"records_person"},"#,
            r#"{"consistency":"clean","count":0,"error":"HTTP 500","expected":null,"#,
            r#""fetch_ended_at":"2026-07-20T00:00:01Z","fetch_started_at":"2026-07-20T00:00:00Z","#,
            r#""resource":"users","status":"failed","table":"users"}],"#,
            r#""run_id":"run","snapshot_at":"2026-07-20T00:00:00Z","status":"partial"}"#,
        ])
    );
    let resources = row.get("resources").unwrap().show();
    let read = parse_prev_counts(&resources);
    let now = current_counts(&list);
    assert_eq!(read.get("records_person"), now.get("records_person"));
    assert!(!read.contains_key("users") && !now.contains_key("users"));
}

fn concat_lines(lines: &[&str]) -> String {
    lines.concat()
}

#[test]
fn the_previous_run_is_the_newest_complete_one() {
    assert_eq!(
        prev_run_sql("p", "d"),
        "SELECT TO_JSON_STRING(resources) FROM `p.d.runs` WHERE status = 'complete' ORDER BY snapshot_at DESC LIMIT 1"
    );
}

#[test]
fn the_row_is_tried_three_times() {
    let mut w = write_marker();
    assert!(matches!(w.attempted(Err("a".to_string())), MarkerStep::Again));
    assert!(matches!(w.attempted(Err("b".to_string())), MarkerStep::Again));
    match w.attempted(Err("c".to_string())) {
        MarkerStep::GiveUp(e) => assert_eq!(e, "c"),
        _ => panic!("three attempts are all"),
    }
    let mut w = write_marker();
    assert!(matches!(w.attempted(Err("a".to_string())), MarkerStep::Again));
    assert!(matches!(w.attempted(Ok(())), MarkerStep::Written));
}

#[test]
fn writes_ndjson_and_sweeps_orphans() {
    let entries = vec![
        ("old_run".to_string(), true),
        ("run_new".to_string(), true),
        ("clarify-bq.lock".to_string(), false),
    ];
    let spool = RunSpool::create("run_new");
    assert_eq!(spool.dir, "run_new");
    let removed = sweep_orphans(&entries, "run_new");
    assert_eq!(removed, vec!["old_run".to_string()]);

    let mut w = spool.writer("records_person");
    let mut text = String::new();
    text.push_str(&w.write_row(&Json::parse(r#"{"record_id": "r1", "data": {}}"#).unwrap()));
    text.push_str(&w.write_row(&Json::parse(r#"{"record_id": "r2", "data": {}}"#).unwrap()));
    let (path, rows) = w.finish();
    assert_eq!(path, "records_person.ndjson");
    assert_eq!(rows, 2);
    assert_eq!(text.lines().count(), 2);
    assert!(text.lines().all(|l| Json::parse(l).is_some()));
}

#[test]
fn line_breaks_inside_a_row_do_not_break_it() {
    let mut w = RunSpool::create("r").writer("x");
    let line = w.write_row(&Json::parse("{\"note\": \"a\\nb\"}").unwrap());
    assert_eq!(line, "{\"note\":\"a\\nb\"}\n");
    assert_eq!(line.matches('\n').count(), 1);
    let back = Json::parse(line.trim_end()).unwrap();
    assert!(back.get("note").unwrap().is_text("a\nb"));
}

#[test]
fn leftovers_are_swept_in_order() {
    let entries = vec![("b".to_string(), true), ("a".to_string(), true)];
    assert_eq!(sweep_orphans(&entries, "z"), vec!["a", "b"]);
}

#[test]
fn rows_are_stamped_and_keep_their_payload() {
    let ctx = FetchCtx { run_id: "run".to_string(), snapshot_at: "t".to_string() };
    let mut w = RunSpool::create("run").writer("records_person");
    let item = Json::parse(r#"{"id":"rec_1","n":1.5,"deep":{"z":[true,null]}}"#).unwrap();
    let lines = ctx.write_items(&mut w, &RowKind::Record { object: "person" }, &vec![item]);
    assert_eq!(
        lines,
        vec![
            "{\"data\":{\"deep\":{\"z\":[true,null]},\"id\":\"rec_1\",\"n\":1.5},\"object\":\"person\",\"record_id\":\"rec_1\",\"run_id\":\"run\",\"snapshot_at\":\"t\"}\n"
        ]
    );
    let list = Json::parse(r#"{"id":"l","attributes":{"entity":"deal"}}"#).unwrap();
    let lines = ctx.write_items(&mut w, &RowKind::List, &vec![list]);
    assert!(lines[0].contains(r#""list_id":"l","object":"deal""#));
    let bare = Json::parse(r#"{"orgDescription":"synthetic"}"#).unwrap();
    let lines = ctx.write_items(&mut w, &RowKind::Settings, &vec![bare]);
    assert_eq!(
        lines[0],
        "{\"data\":{\"orgDescription\":\"synthetic\"},\"run_id\":\"run\",\"snapshot_at\":\"t\"}\n"
    );
    assert_eq!(w.finish().1, 3);
}

#[test]
fn lines_with_any_number_read_back() {
    let ctx = FetchCtx { run_id: "run".to_string(), snapshot_at: "t".to_string() };
    let mut w = RunSpool::create("run").writer("users");
    let item = Json::parse(
        r#"{"id":"u","least":-9223372036854775808,"most":1.7976931348623157e308,"tiny":5e-324,"zero":-0.0,"many":18446744073709551615}"#,
    )
    .unwrap();
    let lines = ctx.write_items(&mut w, &RowKind::Identified, &vec![item]);
    let read = Json::parse(lines[0].trim_end()).unwrap();
    assert!(read.get("run_id").unwrap().is_text("run"));
    let data = read.get("data").unwrap();
    assert!(data.get("id").unwrap().is_text("u"));
    assert_eq!(data.get("many").unwrap().as_u64(), Some(u64::MAX));
    for key in ["least", "most", "tiny", "zero"] {
        assert!(matches!(data.get(key), Some(Json::Number(_))), "{key}");
    }
}

#[test]
fn times_are_written_to_the_second() {
    assert_eq!(timestamp(0).unwrap(), "1970-01-01T00:00:00Z");
    assert_eq!(timestamp(1_753_000_000).unwrap(), "2025-07-20T08:26:40Z");
    assert_eq!(timestamp(253_402_300_799).unwrap(), "9999-12-31T23:59:59Z");
    assert!(timestamp(253_402_300_800).is_none());
    assert_eq!(clock_rfc3339(Some(1_753_000_000)).unwrap(), "2025-07-20T08:26:40Z");
    assert!(clock_rfc3339(Some(253_402_300_800)).is_none());
    assert!(clock_rfc3339(None).is_none());
    assert_eq!(now_rfc3339().unwrap().len(), 20);
}

#[test]
fn run_identifiers_carry_their_time() {
    let id = new_run_id().unwrap();
    assert!(matches!(run_time(&id), RunTime::At(s) if s > 1_700_000_000));
    // 0x0198f0aa1111 milliseconds.
    assert!(matches!(
        run_time("0198f0aa-1111-7abc-8def-0123456789ab"),
        RunTime::At(1_756_384_334)
    ));
    // The same moment in the two older forms that have one.
    assert!(matches!(
        run_time("c232ab00-9414-11ec-b3c8-9f6bdeced846"),
        RunTime::At(1_645_557_742)
    ));
    assert!(matches!(
        run_time("1ec9414c-232a-6b00-b3c8-9f6bdeced846"),
        RunTime::At(1_645_557_742)
    ));
    assert!(matches!(run_time("2f1b7c3e-6f0f-4b6a-9d4b-0e2f8c9a1b2c"), RunTime::NoTime));
    assert!(matches!(run_time("not-a-uuid"), RunTime::NoUuid(_)));
}

fn person_schema() -> Json {
    Json::parse(
        r#"{
            "id": "https://example.test/schemas/entities/person",
            "attributes": {
                "title": "person",
                "xClarifyNamespace": "objects",
                "properties": {
                    "_id": {"type": "string"},
                    "_created_at": {"type": "string", "format": "date-time"},
                    "score": {"type": ["number", "null"]},
                    "active": {"type": "boolean"},
                    "name": {"oneOf": [{"type": "null"}, {"$ref": "https://x/personName"}]},
                    "company_id": {"type": ["string", "null"],
                        "xClarifyRelationship": {"kind": "many-to-one", "entity": "company"}},
                    "deals": {"oneOf": [{"type": "null"}],
                        "xClarifyRelationship": {"kind": "many-to-many", "entity": "deal"}}
                }
            }
        }"#,
    )
    .unwrap()
}

#[test]
fn object_view_flattens_types_relationships_and_json() {
    let sql = object_view_sql("p", "d", "d_latest", "records_person", "person", &person_schema());
    assert!(sql.starts_with("CREATE OR REPLACE VIEW `p.d_latest.person` AS"));
    assert!(sql.contains(r#"JSON_VALUE(data, '$.attributes."_id"') AS _id"#));
    assert!(sql.contains(
        r#"SAFE_CAST(JSON_VALUE(data, '$.attributes."_created_at"') AS TIMESTAMP) AS _created_at"#
    ));
    assert!(sql.contains(
        r#"SAFE_CAST(JSON_VALUE(data, '$.attributes."score"') AS FLOAT64) AS score"#
    ));
    assert!(sql.contains(
        r#"SAFE_CAST(JSON_VALUE(data, '$.attributes."active"') AS BOOL) AS active"#
    ));
    // nested object stays JSON
    assert!(sql.contains(r#"JSON_QUERY(data, '$.attributes."name"') AS name"#));
    // many-to-one is an id column; a collection is JSON refs
    assert!(sql.contains(r#"$.relationships."company_id".data.id')) AS company_id"#));
    assert!(sql.contains(r#"JSON_QUERY(data, '$.relationships."deals"') AS deals"#));
    // latest-run filter is dynamic and partition-bounded
    assert!(sql.contains("status = 'complete'"));
    assert!(sql.contains("ORDER BY snapshot_at DESC LIMIT 1"));
    assert!(sql.contains("t.snapshot_at >= TIMESTAMP_SUB"));
    // full history payload still available
    assert!(sql.trim_end().ends_with(
        "AND t.snapshot_at >= TIMESTAMP_SUB(CURRENT_TIMESTAMP(), INTERVAL 45 DAY)"
    ));
}

#[test]
fn passthrough_view_keeps_columns_drops_run_id() {
    let sql = passthrough_view_sql("p", "d", "d_latest", "users");
    assert!(sql.starts_with("CREATE OR REPLACE VIEW `p.d_latest.users` AS"));
    assert!(sql.contains("SELECT t.* EXCEPT (run_id)"));
}

#[test]
fn view_columns_are_distinct_and_legal() {
    let raw = Json::parse(
        r#"{"attributes":{"properties":{
            "Full Name":{"type":"string"}, "full_name":{"type":"integer"},
            "data":{"type":"string"}, "qu\"ote":{"type":"string"}, "":{"type":"string"},
            "n":{"type":"integer"}}}}"#,
    )
    .unwrap();
    let sql = object_view_sql("p", "d", "v", "records_x", "X", &raw);
    assert!(sql.contains("`p.v.x`"));
    assert!(sql.contains(
        "SELECT record_id, snapshot_at, JSON_VALUE(data, '$.attributes.\"Full Name\"') AS full_name, SAFE_CAST(JSON_VALUE(data, '$.attributes.\"n\"') AS INT64) AS n, data FROM `p.d.records_x` t"
    ));
}

#[test]
fn views_stand_for_themselves() {
    let sink = BqSink::new(
        "http://h".to_string(),
        "p".to_string(),
        "d".to_string(),
        "US".to_string(),
    );
    let objects = vec![ViewObject {
        slug: "person".to_string(),
        table: "records_person".to_string(),
        raw: person_schema(),
    }];
    let aux = vec!["users".to_string()];
    let mut run = create_latest_views(&sink, "d_latest", &objects, &aux, Ok(()));
    assert_eq!(run.next().unwrap().name, "person");
    run.tried(Err(SinkError::Config("denied".to_string())));
    assert_eq!(run.next().unwrap().name, "users");
    assert!(run.next().unwrap().sql.starts_with("CREATE OR REPLACE VIEW `p.d_latest.users`"));
    run.tried(Ok(()));
    assert!(run.next().is_none());
    assert_eq!(run.created, 1);
    assert_eq!(run.finish(), (1, vec!["view for person: config: denied".to_string()]));
    // Without the dataset no view is tried.
    let denied = SinkError::Config("denied".to_string());
    let none = create_latest_views(&sink, "d_latest", &objects, &aux, Err(&denied));
    assert!(none.next().is_none());
    assert_eq!(none.finish(), (0, vec!["ensure views dataset: config: denied".to_string()]));
    assert_eq!(views_dataset(&None, "d"), "d_latest");
    assert_eq!(views_dataset(&Some("v".to_string()), "d"), "v");
    let all = ResourcePlan::build(&[], &[], &[]).unwrap();
    assert_eq!(plan_tables(&all), AUX_TABLES);
}
