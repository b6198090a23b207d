use clarify_bq::cli::{log_level, ConnArgs, ExitCode};
use clarify_bq::config::{Config, KeySource};
use clarify_bq::json::Json;
use clarify_bq::plan::{Category, ResourcePlan};
use clarify_bq::schemas::{extract, ObjectSchema};
use clarify_bq::tables::{check_table_spec, is_known_table, records_table_names, sanitize, spec_for};
use clarify_bq::text::{join, parse_u64, show_u64, sorted, split};

fn schema(slug: &str) -> ObjectSchema {
    ObjectSchema {
        slug: slug.to_string(),
        relationships: vec![],
        object: true,
        raw: Json::parse("{}").unwrap(),
    }
}

fn schemas() -> Vec<ObjectSchema> {
    ["person", "deal"].iter().map(|s| schema(s)).collect()
}

fn conn(secret: Option<&str>) -> ConnArgs {
    ConnArgs {
        workspace: "acme".to_string(),
        project: "demo-proj".to_string(),
        secret: secret.map(String::from),
        dataset: "clarify_crm".to_string(),
        location: "US".to_string(),
    }
}

#[test]
fn dedups_core_and_entities_schemas_preferring_entities() {
    let core = ObjectSchema {
        slug: "person".to_string(),
        relationships: vec!["company_id".to_string()],
        object: true,
        raw: Json::parse(r#"{"id": "https://x/schemas/core/person"}"#).unwrap(),
    };
    let entities = ObjectSchema {
        slug: "person".to_string(),
        relationships: vec!["company_id".to_string(), "deals".to_string()],
        object: true,
        raw: Json::parse(r#"{"id": "https://x/schemas/entities/person"}"#).unwrap(),
    };
    let value_schema = ObjectSchema {
        slug: "https://x/schemas/core/collectionOfStrings".to_string(),
        relationships: vec![],
        object: false,
        raw: Json::parse("{}").unwrap(),
    };
    let p = ResourcePlan::build(&[core, entities, value_schema], &[], &[]).unwrap();
    assert_eq!(p.objects.len(), 1, "value schemas dropped, duplicates merged");
    assert_eq!(p.objects[0].slug, "person");
    assert_eq!(p.objects[0].relationships.len(), 2, "entities/ doc preferred");
}

#[test]
fn default_plan_includes_everything() {
    let p = ResourcePlan::build(&schemas(), &[], &[]).unwrap();
    assert_eq!(p.objects.len(), 2);
    assert_eq!(p.categories.len(), Category::ALL.len());
    assert_eq!(
        p.describe(),
        "objects: [person, deal]; categories: [records, schemas, lists, list_rows, users, workflows, settings, activities, attachments]"
    );
}

#[test]
fn skip_category_and_per_object() {
    let p = ResourcePlan::build(
        &schemas(),
        &[],
        &["activities".to_string(), "records:deal".to_string()],
    )
    .unwrap();
    assert!(!p.includes(Category::Activities));
    assert_eq!(
        p.objects.iter().map(|o| o.slug.as_str()).collect::<Vec<_>>(),
        vec!["person"]
    );
}

#[test]
fn unknown_skip_token_is_error() {
    let err = ResourcePlan::build(&schemas(), &[], &["workflow".to_string()]).unwrap_err();
    assert!(err.contains("workflow"));
    assert!(err.contains("workflows"));
}

#[test]
fn unknown_object_is_error() {
    assert!(ResourcePlan::build(&schemas(), &["ghost".to_string()], &[]).is_err());
    assert!(ResourcePlan::build(&schemas(), &[], &["records:ghost".to_string()]).is_err());
    let only = ResourcePlan::build(&schemas(), &["deal".to_string()], &[]).unwrap();
    assert_eq!(only.objects.len(), 1);
    assert_eq!(only.objects[0].slug, "deal");
}

#[test]
fn sanitizes_to_lowercase_underscore() {
    assert_eq!(sanitize("Sales-Lead"), "sales_lead");
    assert_eq!(sanitize("c_order"), "c_order");
}

#[test]
fn sanitizing_twice_changes_nothing() {
    let once = sanitize("Äpfel & Birnen");
    assert_eq!(once, "_pfel___birnen");
    assert_eq!(sanitize(&once), once);
}

#[test]
fn collision_after_sanitization_fails_naming_both() {
    let err = records_table_names(&[schema("sales-lead"), schema("sales_lead")]).unwrap_err();
    assert!(err.contains("sales-lead") && err.contains("sales_lead"));
    assert_eq!(
        err,
        "objects \"sales-lead\" and \"sales_lead\" both map to table \"records_sales_lead\" after sanitization; rename one in Clarify or back them up separately"
    );
    let names = records_table_names(&schemas()).unwrap();
    assert_eq!(names[0], ("person".to_string(), "records_person".to_string()));
    assert_eq!(names[1], ("deal".to_string(), "records_deal".to_string()));
}

#[test]
fn runs_table_never_expires() {
    assert!(spec_for("runs", Some(400)).partition_expiration_days.is_none());
    assert_eq!(spec_for("records_person", Some(400)).partition_expiration_days, Some(400));
}

#[test]
fn tables_have_their_columns() {
    let names = |table: &str| {
        spec_for(table, None).columns.iter().map(|c| c.name).collect::<Vec<_>>().join(" ")
    };
    assert_eq!(names("records_x"), "run_id snapshot_at record_id object data");
    assert_eq!(names("schemas"), "run_id snapshot_at object data");
    assert_eq!(names("lists"), "run_id snapshot_at list_id object data");
    assert_eq!(names("list_rows"), "run_id snapshot_at list_id object record_id data");
    assert_eq!(names("users"), "run_id snapshot_at id data");
    assert_eq!(names("workflows"), "run_id snapshot_at id data");
    assert_eq!(names("settings"), "run_id snapshot_at data");
    assert_eq!(names("activities"), "run_id snapshot_at object record_id activity_id data");
    assert_eq!(names("attachments"), "run_id snapshot_at object record_id attachment_id data");
    assert_eq!(names("runs"), "run_id snapshot_at finished_at status resources");
    assert!(is_known_table("runs") && !is_known_table("run"));
    let scratch = check_table_spec();
    assert_eq!(scratch.name, "_clarify_bq_check");
    assert_eq!(scratch.columns.len(), 3);
    assert_eq!(scratch.partition_expiration_days, Some(1));
}

#[test]
fn slugs_fall_back_from_entity_to_identifier() {
    let slug = |text: &str| extract(&Json::parse(text).unwrap()).slug;
    assert_eq!(slug(r#"{"id":"i","attributes":{"entity":"e","name":"n","title":"t"}}"#), "e");
    assert_eq!(slug(r#"{"id":"i","attributes":{"name":"n","title":"t"}}"#), "n");
    assert_eq!(slug(r#"{"id":"i","attributes":{"title":"t"}}"#), "t");
    assert_eq!(slug(r#"{"id":"i"}"#), "i");
    let linked = extract(
        &Json::parse(r#"{"id":"i","relationships":{"b":{},"a":{}}}"#).unwrap(),
    );
    assert_eq!(linked.relationships, vec!["a".to_string(), "b".to_string()]);
    assert!(!linked.object);
}

#[test]
fn resolves_with_secret_ref() {
    let cfg = Config::resolve(&conn(Some("projects/demo-proj/secrets/k")), None).unwrap();
    assert!(cfg.secret.is_some());
    assert!(cfg.api_key_override.is_none());
    assert!(matches!(cfg.key_source(), KeySource::Secret(_)));
}

#[test]
fn api_key_override_makes_secret_optional() {
    let cfg = Config::resolve(&conn(None), Some("sk_local".to_string())).unwrap();
    assert_eq!(cfg.api_key_override.as_deref(), Some("sk_local"));
    assert!(matches!(cfg.key_source(), KeySource::Given(_)));
}

#[test]
fn missing_secret_and_override_is_config_error() {
    assert!(Config::resolve(&conn(None), None).is_err());
}

#[test]
fn hyphenated_dataset_rejected() {
    let mut c = conn(Some("projects/p/secrets/k"));
    c.dataset = "clarify-crm".to_string();
    let err = Config::resolve(&c, None).unwrap_err();
    assert!(err.contains("underscore"));
}

#[test]
fn blank_arguments_are_missing_ones() {
    let mut c = conn(Some("projects/p/secrets/k"));
    c.workspace = " \t\u{2003}".to_string();
    assert_eq!(Config::resolve(&c, None).unwrap_err(), "--workspace is required");
    let mut c = conn(Some("projects/p/secrets/k"));
    c.project = String::new();
    assert_eq!(Config::resolve(&c, None).unwrap_err(), "--project is required");
    let err = Config::resolve(&conn(Some("k")), Some("sk".to_string())).unwrap_err();
    assert!(err.starts_with("config: secret ref must look like"));
}

#[test]
fn exit_codes_are_those_of_the_manual() {
    assert_eq!(ExitCode::Complete.code(), 0);
    assert_eq!(ExitCode::Failed.code(), 1);
    assert_eq!(ExitCode::Partial.code(), 2);
    assert_eq!(ExitCode::ConfigAuth.code(), 3);
    assert_eq!(ExitCode::ShrinkCheck.code(), 4);
    assert_eq!(ExitCode::LockHeld.code(), 5);
}

#[test]
fn quiet_wins_over_verbose() {
    assert_eq!(log_level(0, 0), "info");
    assert_eq!(log_level(1, 0), "debug");
    assert_eq!(log_level(7, 0), "trace");
    assert_eq!(log_level(2, 1), "warn");
}

#[test]
fn numbers_read_back() {
    for n in [0, 9, 10, 86_400_000, u64::MAX] {
        assert_eq!(show_u64(n), n.to_string());
        assert_eq!(parse_u64(&show_u64(n)), Some(n));
    }
    assert_eq!(parse_u64("+7"), Some(7));
    assert_eq!(parse_u64("18446744073709551616"), None);
    assert_eq!(parse_u64(""), None);
    assert_eq!(parse_u64("-1"), None);
}

#[test]
fn texts_split_join_and_sort() {
    assert_eq!(split("a//b", '/'), vec!["a", "", "b"]);
    assert_eq!(join(&vec!["a".to_string(), "b".to_string()], ", "), "a, b");
    let list = vec!["b".to_string(), "a".to_string(), "B".to_string(), "a".to_string()];
    assert_eq!(sorted(list), vec!["B", "a", "a", "b"]);
}
