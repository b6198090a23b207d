use clarify_bq::admin::{AdminStep, ApiRequest, BqSink, Method};
use clarify_bq::error::SinkError;
use clarify_bq::json::Json;
use clarify_bq::load::{
    job_id, split_points, ChunkSplitter, PollStep, SplitError, MAX_CHUNK_BYTES,
};
use clarify_bq::secret::{bearer, fetch_secret, payload_value, secret_value, SecretRef, StaticTokenProvider};
use clarify_bq::tables::{Column, TableSpec};

fn sink() -> BqSink {
    BqSink::new(
        "http://127.0.0.1:9998/".to_string(),
        "proj".to_string(),
        "ds".to_string(),
        "US".to_string(),
    )
}

fn spec() -> TableSpec {
    TableSpec {
        name: "records_person".to_string(),
        columns: vec![
            Column::new("run_id", "STRING"),
            Column::new("snapshot_at", "TIMESTAMP"),
            Column::new("record_id", "STRING"),
            Column::new("object", "STRING"),
            Column::new("data", "JSON"),
        ],
        partition_expiration_days: Some(400),
    }
}

fn doc(text: &str) -> Json {
    Json::parse(text).unwrap()
}

fn sent(step: AdminStep) -> ApiRequest {
    match step {
        AdminStep::Send(request) => request,
        AdminStep::Done(_) => panic!("another request is due"),
    }
}

fn body(request: &ApiRequest) -> String {
    request.body.as_ref().unwrap().show()
}

#[test]
fn creates_missing_dataset_with_location() {
    let s = sink();
    let probe = s.ensure_dataset();
    assert_eq!(probe.method, Method::Get);
    assert_eq!(probe.url, "http://127.0.0.1:9998/bigquery/v2/projects/proj/datasets/ds");
    let create = sent(s.dataset_probed("ds", 404, &Json::Null));
    assert_eq!(create.method, Method::Post);
    assert_eq!(create.url, "http://127.0.0.1:9998/bigquery/v2/projects/proj/datasets");
    assert_eq!(
        body(&create),
        r#"{"datasetReference":{"datasetId":"ds","projectId":"proj"},"location":"US"}"#
    );
    assert!(create.finished(200, &doc("{}")).is_ok());
}

#[test]
fn a_dataset_that_is_there_is_left_alone() {
    assert!(matches!(
        sink().dataset_probed("ds", 200, &doc("{}")),
        AdminStep::Done(Ok(()))
    ));
    match sink().dataset_probed("ds", 403, &doc(r#"{"error":"denied"}"#)) {
        AdminStep::Done(Err(e)) => assert_eq!(
            e.message(),
            r#"HTTP 403 from http://127.0.0.1:9998/bigquery/v2/projects/proj/datasets/ds: {"error":"denied"}"#
        ),
        _ => panic!("a denied dataset is a failure"),
    }
}

#[test]
fn creates_missing_table_with_partitioning_clustering_expiration() {
    let s = sink();
    let probe = s.ensure_table(&spec());
    assert_eq!(
        probe.url,
        "http://127.0.0.1:9998/bigquery/v2/projects/proj/datasets/ds/tables/records_person"
    );
    let create = sent(s.table_probed(&spec(), 404, &Json::Null));
    assert_eq!(create.method, Method::Post);
    assert_eq!(
        create.url,
        "http://127.0.0.1:9998/bigquery/v2/projects/proj/datasets/ds/tables"
    );
    assert_eq!(
        body(&create),
        concat_lines(&[
            r#"{"clustering":{"fields":["run_id"]},"#,
            r#""schema":{"fields":["#,
            r#"{"name":"run_id","type":"STRING"},"#,
            r#"{"name":"snapshot_at","type":"TIMESTAMP"},"#,
            r#"{"name":"record_id","type":"STRING"},"#,
            r#"{"name":"object","type":"STRING"},"#,
            r#"{"name":"data","type":"JSON"}]},"#,
            r#""tableReference":{"datasetId":"ds","projectId":"proj","tableId":"records_person"},"#,
            r#""timePartitioning":{"expirationMs":"34560000000","field":"snapshot_at","type":"DAY"}}"#,
        ])
    );
}

fn concat_lines(lines: &[&str]) -> String {
    lines.concat()
}

#[test]
fn existing_table_gets_expiration_reasserted() {
    let s = sink();
    let patch = sent(s.table_probed(&spec(), 200, &doc("{}")));
    assert_eq!(patch.method, Method::Patch);
    assert_eq!(
        patch.url,
        "http://127.0.0.1:9998/bigquery/v2/projects/proj/datasets/ds/tables/records_person"
    );
    assert_eq!(
        body(&patch),
        r#"{"timePartitioning":{"expirationMs":"34560000000","field":"snapshot_at","type":"DAY"}}"#
    );
    assert!(patch.finished(500, &Json::Null).is_err());
}

#[test]
fn a_table_without_retention_is_not_patched() {
    let mut forever = spec();
    forever.partition_expiration_days = None;
    assert!(matches!(
        sink().table_probed(&forever, 200, &doc("{}")),
        AdminStep::Done(Ok(()))
    ));
    assert!(matches!(
        sink().table_probed(
            &forever,
            200,
            &doc(r#"{"timePartitioning":{"field":"snapshot_at","type":"DAY"}}"#)
        ),
        AdminStep::Done(Ok(()))
    ));
    let create = sent(sink().table_probed(&forever, 404, &Json::Null));
    assert!(body(&create).ends_with(r#""timePartitioning":{"field":"snapshot_at","type":"DAY"}}"#));
}

#[test]
fn a_table_that_is_to_stay_for_ever_loses_its_expiration() {
    let mut forever = spec();
    forever.partition_expiration_days = None;
    let expiring = doc(
        r#"{"timePartitioning":{"expirationMs":"34560000000","field":"snapshot_at","type":"DAY"}}"#,
    );
    let patch = sent(sink().table_probed(&forever, 200, &expiring));
    assert_eq!(patch.method, Method::Patch);
    assert_eq!(
        body(&patch),
        r#"{"timePartitioning":{"expirationMs":null,"field":"snapshot_at","type":"DAY"}}"#
    );
    assert!(patch.finished(200, &Json::Null).is_ok());
}

#[test]
fn removing_a_missing_table_succeeds() {
    let s = sink();
    assert_eq!(s.delete_table("t").method, Method::Delete);
    assert!(s.table_deleted("t", 404, &Json::Null).is_ok());
    assert!(s.table_deleted("t", 204, &Json::Null).is_ok());
    assert!(s.table_deleted("t", 403, &Json::Null).is_err());
}

#[test]
fn job_ids_are_deterministic_and_legal() {
    let id = job_id("0198f0aa-1111-7abc-8def-0123456789ab", "records_person", 0);
    assert_eq!(id, "clarify_bq_0198f0aa_1111_7abc_8def_0123456789ab_records_person_0");
    assert!(id.chars().all(|c| c.is_ascii_alphanumeric() || c == '_'));
}

#[test]
fn job_ids_differ_by_run() {
    let a = "0198f0aa-1111-7abc-8def-0123456789ab";
    let b = "0198f0aa-1111-7abc-8def-0123456789ac";
    assert_ne!(job_id(a, "users", 0), job_id(b, "users", 0));
}

#[test]
fn job_ids_differ_by_chunk_and_resource() {
    let a = job_id("run", "records_person", 1);
    assert_ne!(a, job_id("run", "records_person", 11));
    assert_ne!(a, job_id("run", "records_person_1", 1));
    assert_eq!(job_id("run", "k", 18), "clarify_bq_run_k_18");
}

#[test]
fn splits_on_line_boundaries_under_max() {
    let mut data = Vec::new();
    for i in 0..10 {
        data.extend_from_slice(format!("{{\"n\":{i},\"pad\":\"XXXXXXXXXX\"}}\n").as_bytes());
    }
    let ranges = split_points(&data, 60).unwrap();
    assert!(ranges.len() >= 5);
    let total: u64 = ranges.iter().map(|(s, e)| e - s).sum();
    assert_eq!(total, data.len() as u64);
    for (s, e) in &ranges {
        assert!(e - s <= 60, "chunk {s}-{e} exceeds max");
    }
}

#[test]
fn chunks_hold_whole_lines_and_all_bytes() {
    assert_eq!(split_points(b"aa\nbb\ncc\n", 6).unwrap(), vec![(0, 6), (6, 9)]);
    // The last line needs no line break.
    assert_eq!(split_points(b"a\nb\nc", 3).unwrap(), vec![(0, 2), (2, 5)]);
    assert_eq!(split_points(b"", 3).unwrap(), Vec::<(u64, u64)>::new());
    // A line may fill a chunk.
    assert_eq!(split_points(b"aaa\nb\n", 4).unwrap(), vec![(0, 4), (4, 6)]);
    // Data that comes in pieces is cut alike.
    let mut splitter = ChunkSplitter::new(6);
    splitter.feed(b"aa\nb");
    splitter.feed(b"b\ncc");
    splitter.feed(b"\n");
    assert_eq!(splitter.finish().unwrap(), vec![(0, 6), (6, 9)]);
    assert_eq!(MAX_CHUNK_BYTES, 90 * 1024 * 1024);
}

#[test]
fn lines_that_cannot_be_loaded_are_refused() {
    // A line that is longer than the limit fits into no chunk.
    assert_eq!(split_points(b"aaaaaaaa\nb\nc\n", 4), Err(SplitError::TooLong));
    assert_eq!(split_points(b"b\naaaaaaaa", 4), Err(SplitError::TooLong));
    assert_eq!(split_points(b"a\n\xff\n", 4), Err(SplitError::NotUtf8));
    // The first line that cannot be loaded says why.
    assert_eq!(split_points(b"\xff\naaaaaaaa\n", 4), Err(SplitError::NotUtf8));
    assert_eq!(split_points(b"aaaaaaaa\n\xff\n", 4), Err(SplitError::TooLong));
    assert_eq!(split_points("\u{e9}\n".as_bytes(), 4).unwrap(), vec![(0, 3)]);
    let mut splitter = ChunkSplitter::new(4);
    splitter.feed(b"aaa");
    splitter.feed(b"a\nb");
    splitter.feed(b"\n");
    assert_eq!(splitter.finish(), Err(SplitError::TooLong));
    assert_eq!(SplitError::NotUtf8.message(), "stream did not contain valid UTF-8");
    assert_eq!(SplitError::TooLong.message(), "a line is longer than a chunk may be");
}

fn spool(lines: usize) -> Vec<u8> {
    let mut data = Vec::new();
    for i in 0..lines {
        data.extend_from_slice(
            format!("{{\"run_id\":\"r\",\"record_id\":\"rec_{i}\",\"data\":{{}}}}\n").as_bytes(),
        );
    }
    data
}

/// Loads a spool with one answer to the upload and one to the question how the job is doing.
fn load(lines: usize, submitted: u16, polled: &str) -> Result<u64, SinkError> {
    let s = sink();
    let data = spool(lines);
    let mut run = s.load_ndjson(
        "records_person",
        "records_person",
        split_points(&data, MAX_CHUNK_BYTES).unwrap(),
        "run1",
    );
    while let Some(chunk) = run.next() {
        assert_eq!(chunk.job_id, "clarify_bq_run1_records_person_0");
        let upload = s.submit_chunk(
            &run.table,
            &chunk.job_id,
            &data[chunk.start as usize..chunk.end as usize],
        );
        assert_eq!(
            upload.url,
            "http://127.0.0.1:9998/upload/bigquery/v2/projects/proj/jobs?uploadType=multipart"
        );
        upload.submitted(submitted, "")?;
        assert_eq!(
            s.poll_job(&chunk.job_id).url,
            "http://127.0.0.1:9998/bigquery/v2/projects/proj/jobs/clarify_bq_run1_records_person_0?location=US"
        );
        match s.job_polled(&chunk.job_id, 200, &doc(polled)) {
            PollStep::Done(rows) => run.commit(rows),
            PollStep::Fail(e) => return Err(e),
            PollStep::Again => panic!("the job is done"),
        }
    }
    Ok(run.rows)
}

const DONE: &str = r#"{"status": {"state": "DONE"}, "statistics": {"load": {"outputRows": "3"}}}"#;

#[test]
fn submits_load_job_and_polls_to_done() {
    assert_eq!(load(3, 200, DONE).unwrap(), 3);
}

#[test]
fn duplicate_job_id_is_idempotent_via_poll() {
    assert_eq!(load(3, 409, DONE).unwrap(), 3);
}

#[test]
fn failed_job_surfaces_error_result() {
    let err = load(
        1,
        200,
        r#"{"status": {"state": "DONE", "errorResult": {"message": "synthetic parse error"}}}"#,
    )
    .unwrap_err();
    assert!(err.message().contains("synthetic parse error"));
}

#[test]
fn a_refused_upload_is_a_failure() {
    let s = sink();
    let upload = s.submit_chunk("t", "j", b"{}\n");
    match upload.submitted(413, "too large") {
        Err(e) => assert!(e.message().ends_with(": too large")),
        Ok(()) => panic!("a 413 is a failure"),
    }
}

#[test]
fn jobs_are_polled_until_they_are_done() {
    let s = sink();
    assert!(matches!(
        s.job_polled("j", 200, &doc(r#"{"status": {"state": "RUNNING"}}"#)),
        PollStep::Again
    ));
    // Rows that are not reported count as none, and a null error is none.
    assert!(matches!(
        s.job_polled("j", 200, &doc(r#"{"status": {"state": "DONE", "errorResult": null}}"#)),
        PollStep::Done(0)
    ));
    match s.job_polled("j", 200, &doc(r#"{"status": {"state": "DONE", "errorResult": {}}}"#)) {
        PollStep::Fail(e) => assert_eq!(e.message(), "BigQuery job j failed: unknown"),
        _ => panic!("an error without a message is an error"),
    }
    assert!(matches!(
        s.job_polled("j", 500, &Json::Null),
        PollStep::Fail(SinkError::Http { status: 500, .. })
    ));
}

#[test]
fn an_upload_appends_and_frames_its_data() {
    let upload = sink().submit_chunk("records_person", "job", b"{\"a\":1}\n");
    assert_eq!(upload.content_type, "multipart/related; boundary=clarify_bq_boundary");
    let text = String::from_utf8(upload.body).unwrap();
    assert_eq!(
        text,
        concat_lines(&[
            "--clarify_bq_boundary\r\nContent-Type: application/json; charset=UTF-8\r\n\r\n",
            r#"{"configuration":{"load":{"destinationTable":{"datasetId":"ds","projectId":"proj","tableId":"records_person"},"#,
            r#""schemaUpdateOptions":["ALLOW_FIELD_ADDITION"],"sourceFormat":"NEWLINE_DELIMITED_JSON","writeDisposition":"WRITE_APPEND"}},"#,
            r#""jobReference":{"jobId":"job","location":"US","projectId":"proj"}}"#,
            "\r\n--clarify_bq_boundary\r\nContent-Type: application/octet-stream\r\n\r\n",
            "{\"a\":1}\n",
            "\r\n--clarify_bq_boundary--\r\n",
        ])
    );
}

#[test]
fn queries_bring_rows_of_cells() {
    let s = sink();
    let q = s.query("SELECT 1");
    assert_eq!(q.url, "http://127.0.0.1:9998/bigquery/v2/projects/proj/queries");
    assert_eq!(body(&q), r#"{"location":"US","query":"SELECT 1","useLegacySql":false}"#);
    let rows = s
        .queried(200, &doc(r#"{"rows": [{"f": [{"v": "a"}, {"v": null}]}, {"f": [{}]}, {}]}"#))
        .unwrap();
    assert_eq!(rows.len(), 3);
    assert_eq!(rows[0].len(), 2);
    assert!(rows[0][0].is_text("a"));
    assert!(matches!(rows[0][1], Json::Null));
    assert!(matches!(rows[1][0], Json::Null));
    assert!(rows[2].is_empty());
    assert!(s.queried(200, &doc("{}")).unwrap().is_empty());
    assert!(s.queried(404, &doc("{}")).is_err());
}

#[test]
fn parses_short_ref_as_latest() {
    let r = SecretRef::parse("projects/demo-proj/secrets/clarify-key").unwrap();
    assert_eq!(r.resource_name(), "projects/demo-proj/secrets/clarify-key/versions/latest");
}

#[test]
fn parses_full_ref() {
    let r = SecretRef::parse("projects/demo-proj/secrets/k/versions/7").unwrap();
    assert_eq!(r.resource_name(), "projects/demo-proj/secrets/k/versions/7");
}

#[test]
fn rejects_garbage() {
    assert!(SecretRef::parse("clarify-key").is_err());
}

#[test]
fn refs_read_back_and_say_what_is_wrong() {
    let r = SecretRef::parse("//projects/p/secrets/k//").unwrap();
    let again = SecretRef::parse(&r.resource_name()).unwrap();
    assert_eq!(again.resource_name(), "projects/p/secrets/k/versions/latest");
    assert_eq!(r.clone().resource_name(), again.resource_name());
    match SecretRef::parse("a\"b") {
        Err(e) => assert_eq!(
            e.message(),
            "config: secret ref must look like projects/<p>/secrets/<name>[/versions/<v>], got \"a\\\"b\""
        ),
        Ok(_) => panic!("no reference"),
    }
}

#[test]
fn accesses_secret_and_decodes_payload() {
    let secret = SecretRef::parse("projects/demo-proj/secrets/clarify-key").unwrap();
    let access = fetch_secret("http://127.0.0.1:9998/", &secret);
    assert_eq!(
        access.url,
        "http://127.0.0.1:9998/v1/projects/demo-proj/secrets/clarify-key/versions/latest:access"
    );
    let token = StaticTokenProvider("tok_test".to_string()).token().unwrap();
    assert_eq!(bearer(&token), "Bearer tok_test");
    assert!(access.granted(200, "").is_ok());
    let b64 = base64::Engine::encode(
        &base64::engine::general_purpose::STANDARD,
        "sk_synthetic_value",
    );
    let value = secret_value(&doc(&format!(r#"{{"payload": {{"data": "{b64}"}}}}"#))).unwrap();
    assert_eq!(value, "sk_synthetic_value");
}

#[test]
fn secrets_that_cannot_be_read_say_why() {
    let secret = SecretRef::parse("projects/p/secrets/k").unwrap();
    match fetch_secret("http://h", &secret).granted(403, "denied") {
        Err(e) => assert_eq!(
            e.message(),
            "HTTP 403 from http://h/v1/projects/p/secrets/k/versions/latest:access: denied"
        ),
        Ok(()) => panic!("a 403 is a failure"),
    }
    assert_eq!(
        secret_value(&doc("{}")).unwrap_err().message(),
        "config: secret payload missing"
    );
    let wrong = secret_value(&doc(r#"{"payload": {"data": "***"}}"#)).unwrap_err().message();
    assert!(wrong.starts_with("config: secret payload not base64: "));
    // 0xff is no UTF-8.
    let bytes = secret_value(&doc(r#"{"payload": {"data": "/w=="}}"#)).unwrap_err().message();
    assert!(bytes.starts_with("config: secret not utf8: "));
    assert_eq!(payload_value(Ok(vec![107, 0xc3, 0xa9])).unwrap(), "ké");
    assert_eq!(
        payload_value(Err("d".to_string())).unwrap_err().message(),
        "config: secret payload not base64: d"
    );
}

#[test]
fn every_sink_error_has_its_words() {
    assert_eq!(SinkError::Auth("no".to_string()).message(), "GCP auth: no");
    assert_eq!(SinkError::Transport("gone".to_string()).message(), "transport: gone");
    assert_eq!(SinkError::Config("c".to_string()).message(), "config: c");
}
