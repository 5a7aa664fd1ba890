use edgewit::api::auth::{expected_auth_header, is_authorized};
use edgewit::api::cluster::{HealthResponse, IndexStats, ShardsInfo, StatsResponse};
use edgewit::api::indexes::{align_definition_name, index_definition_file_name, is_index_definition_file, management_enabled};
use edgewit::api::search::{
    extract_hit_source, extract_query_string, matches_all, page_window, resolve_pagination, search_limit,
    SearchQueryParams, SearchRequestBody, TotalHits,
};
use edgewit::json::{JsonNumber, JsonValue};
use edgewit::schema::definition::{CompressionOption, IndexDefinition, PartitionStrategy, SchemaMode};

fn s(v: &str) -> JsonValue {
    JsonValue::String(v.to_string())
}

fn obj(entries: Vec<(&str, JsonValue)>) -> JsonValue {
    JsonValue::Object(entries.into_iter().map(|(k, v)| (k.to_string(), v)).collect())
}

fn params(q: Option<&str>, from: Option<usize>, size: Option<usize>) -> SearchQueryParams {
    SearchQueryParams { q: q.map(|x| x.to_string()), from, size }
}

fn body(query: Option<JsonValue>, from: Option<usize>, size: Option<usize>) -> SearchRequestBody {
    SearchRequestBody { query, from, size, sort: None }
}

#[test]
fn api_key_gate() {
    assert_eq!(expected_auth_header(None), None);
    assert_eq!(expected_auth_header(Some("")), None);
    assert_eq!(expected_auth_header(Some("test-secret-token")), Some("Bearer test-secret-token".to_string()));
    assert!(is_authorized(None, None));
    assert!(!is_authorized(Some("Bearer test-secret-token"), None));
    assert!(!is_authorized(Some("Bearer test-secret-token"), Some("Bearer wrong-token")));
    assert!(is_authorized(Some("Bearer test-secret-token"), Some("Bearer test-secret-token")));
}

#[test]
fn query_translation() {
    let p = params(None, None, None);
    assert_eq!(extract_query_string(&params(Some("message:hello"), None, None), None), "message:hello");
    assert_eq!(extract_query_string(&p, None), "*");
    let qs = body(Some(obj(vec![("query_string", obj(vec![("query", s("level:ERROR"))]))])), None, None);
    assert_eq!(extract_query_string(&p, Some(&qs)), "level:ERROR");
    let all = body(Some(obj(vec![("match_all", obj(vec![]))])), None, None);
    assert_eq!(extract_query_string(&p, Some(&all)), "*");
    let m = body(Some(obj(vec![("match", obj(vec![("message", s("hello"))]))])), None, None);
    assert_eq!(extract_query_string(&p, Some(&m)), "message:hello");
    let m2 = body(Some(obj(vec![("match", obj(vec![("message", obj(vec![("query", s("hi"))]))]))])), None, None);
    assert_eq!(extract_query_string(&p, Some(&m2)), "message:hi");
    let b = body(
        Some(obj(vec![(
            "bool",
            obj(vec![(
                "must",
                JsonValue::Array(vec![
                    obj(vec![("match", obj(vec![("level", s("WARN"))]))]),
                    obj(vec![("match_phrase", obj(vec![("message", s("disk full"))]))]),
                ]),
            )]),
        )])),
        None,
        None,
    );
    assert_eq!(extract_query_string(&p, Some(&b)), "level:WARN AND message:\"disk full\"");
    let unknown = body(Some(obj(vec![("range", obj(vec![]))])), None, None);
    assert_eq!(extract_query_string(&p, Some(&unknown)), "*");
}

#[test]
fn pagination_and_limits() {
    assert_eq!(resolve_pagination(&params(None, None, None), None), (0, 10));
    let b = body(None, Some(5), Some(2));
    assert_eq!(resolve_pagination(&params(None, None, None), Some(&b)), (5, 2));
    assert_eq!(resolve_pagination(&params(None, Some(1), None), Some(&b)), (1, 2));
    assert_eq!(search_limit(5, 0), 1);
    assert_eq!(search_limit(5, 10), 15);
    assert_eq!(page_window(vec![1, 2, 3, 4, 5], 1, 2), vec![2, 3]);
    assert_eq!(page_window(vec![1, 2, 3], 2, 10), vec![3]);
    assert_eq!(page_window(vec![1, 2, 3], 5, 10), Vec::<i32>::new());
    assert_eq!(page_window(vec![1, 2, 3], 0, 0), Vec::<i32>::new());
}

#[test]
fn match_all_queries() {
    assert!(matches_all("*"));
    assert!(matches_all("  *  "));
    assert!(matches_all(" "));
    assert!(matches_all(""));
    assert!(!matches_all("message:hello"));
    assert!(!matches_all("**"));
}

#[test]
fn hit_fields_from_stored_documents() {
    let doc = obj(vec![
        ("_source", JsonValue::Array(vec![obj(vec![("message", s("hello"))])])),
        ("_index", JsonValue::Array(vec![s("logs")])),
    ]);
    let (src, index) = extract_hit_source(&doc);
    assert_eq!(index, "logs");
    assert!(matches!(src, JsonValue::Object(e) if e.len() == 1 && e[0].0 == "message"));
    let plain = obj(vec![("_source", JsonValue::Number(JsonNumber::PosInt(1)))]);
    let (src, index) = extract_hit_source(&plain);
    assert_eq!(index, "unknown");
    assert!(matches!(src, JsonValue::Number(JsonNumber::PosInt(1))));
    let (src, _) = extract_hit_source(&obj(vec![]));
    assert!(matches!(src, JsonValue::Null));
    let t = TotalHits::exact(7);
    assert_eq!(t.value, 7);
    assert_eq!(t.relation, "eq");
}

#[test]
fn cluster_responses() {
    let h = HealthResponse::current();
    assert_eq!(h.cluster_name, "edgewit");
    assert_eq!(h.status, "green");
    let sh = ShardsInfo::all_successful(3);
    assert_eq!((sh.total, sh.successful, sh.skipped, sh.failed), (3, 3, 0, 0));
    let st = IndexStats::with_doc_count(42);
    assert_eq!(st.docs.count, 42);
    let resp = StatsResponse::for_doc_count(15);
    assert_eq!(resp._all.primaries.docs.count, 15);
    assert_eq!(resp._all.total.docs.count, 15);
}

#[test]
fn index_management_rules() {
    assert!(management_enabled(None));
    assert!(management_enabled(Some("TRUE")));
    assert!(management_enabled(Some("true")));
    assert!(!management_enabled(Some("false")));
    assert!(!management_enabled(Some("yes")));
    assert_eq!(index_definition_file_name("logs"), "logs.index.yaml");
    assert!(is_index_definition_file("logs.index.yaml"));
    assert!(is_index_definition_file("logs.index.yml"));
    assert!(!is_index_definition_file("logs.yaml"));
    let mut d = IndexDefinition {
        name: "other".to_string(),
        description: None,
        timestamp_field: "timestamp".to_string(),
        mode: SchemaMode::Dynamic,
        partition: PartitionStrategy::Unpartitioned,
        retention: None,
        compression: CompressionOption::Zstd,
        fields: Vec::new(),
        settings: Vec::new(),
    };
    d.description = Some("kept".to_string());
    d.compression = CompressionOption::Lz4;
    align_definition_name(&mut d, "logs");
    assert_eq!(d.name, "logs");
    assert_eq!(d.description, Some("kept".to_string()));
    assert_eq!(d.compression, CompressionOption::Lz4);
}
