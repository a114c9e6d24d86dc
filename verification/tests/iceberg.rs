use s3perf::iceberg::{is_retryable, CatalogConfig, ExternalCatalogType, IsAlreadyExists, RetryConfig};
use s3perf::schema::{build_iceberg_schema, build_iceberg_view_version, build_properties, column_type, default_schema_type};

#[test]
fn test_is_retryable() {
    assert!(is_retryable("Conflict: version mismatch"));
    assert!(is_retryable("Internal Server Error"));
    assert!(is_retryable("429 Too Many Requests"));
    assert!(!is_retryable("InvalidArgument"));
    assert!(!is_retryable("Not Found"));
}

#[test]
fn already_exists_detection() {
    assert!(IsAlreadyExists::check("AlreadyExistsException: table"));
    assert!(IsAlreadyExists::check("namespace already exists"));
    assert!(IsAlreadyExists::check("409 CONFLICT"));
    assert!(!IsAlreadyExists::check("NoSuchNamespace"));
}

#[test]
fn catalog_type_names() {
    assert_eq!(ExternalCatalogType::from_str("Polaris"), ExternalCatalogType::Polaris);
    assert_eq!(ExternalCatalogType::from_str("aistor"), ExternalCatalogType::Builtin);
    assert_eq!(ExternalCatalogType::default(), ExternalCatalogType::Builtin);
    let c = CatalogConfig::default();
    assert_eq!(c.warehouse, "benchmarkcatalog");
}

#[test]
fn retry_pacing() {
    let r = RetryConfig::default();
    assert!(r.should_retry(0, true));
    assert!(!r.should_retry(4, true));
    assert!(!r.should_retry(0, false));
    assert_eq!(r.next_backoff(100), 200);
    assert_eq!(r.next_backoff(40000), 60000);
}

#[test]
fn schema_and_properties() {
    assert_eq!(default_schema_type(), "struct");
    assert_eq!(column_type(0), "long");
    assert_eq!(column_type(7), "double");
    let s = build_iceberg_schema(3);
    assert_eq!(s.schema_type, "struct");
    assert_eq!(s.fields.len(), 3);
    assert_eq!(s.fields[2].name, "col_2");
    assert_eq!(s.fields[2].id, 3);
    let p = build_properties(2, "tbl_prop");
    assert_eq!(p[0], ("format-version".to_string(), "2".to_string()));
    assert_eq!(p[2], ("tbl_prop_1".to_string(), "val_1".to_string()));
    let v = build_iceberg_view_version(&["a".to_string(), "b".to_string()], "v1");
    assert_eq!(v.representations[0].sql, "SELECT * FROM a.b.v1 WHERE col_0 > 0");
}

#[test]
fn warehouse_request_is_sigv4_signed() {
    let body = "{\"name\":\"benchmarkcatalog\"}";
    let h = s3perf::iceberg::sign_warehouse_request("minioadmin", "minioadmin", "us-east-1", body, 1_700_000_000)
        .expect("representable time");
    assert_eq!(h.amz_date, "20231114T221320Z");
    assert_eq!(h.content_sha256, "35eeeb8cafd6f837fbe13118810ea3c61143b7d98a5b68ccbc92cea4e6e52c20");
    assert_eq!(
        h.authorization,
        "AWS4-HMAC-SHA256 Credential=minioadmin/20231114/us-east-1/s3tables/aws4_request, \
         SignedHeaders=content-type;host;x-amz-content-sha256;x-amz-date, \
         Signature=a9efe105cbcbb50ed9f8e50f51a9aa4217951e60c5883c2840dddb6b8251a96d"
    );
}

#[test]
fn polaris_endpoint_uses_bearer_credentials() {
    let cfg = CatalogConfig { external_catalog: ExternalCatalogType::Polaris, ..Default::default() };
    let ep = s3perf::iceberg::CatalogEndpoint::new(&cfg);
    assert_eq!(ep.auth_header.as_deref(), Some("Bearer bWluaW9hZG1pbjptaW5pb2FkbWlu"));
    assert!(ep.base_url.ends_with("/api/catalog/v1"));
    let builtin = s3perf::iceberg::CatalogEndpoint::new(&CatalogConfig::default());
    assert_eq!(builtin.auth_header, None);
    assert!(builtin.base_url.ends_with("/_iceberg/v1"));
}
