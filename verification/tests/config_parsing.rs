//! Configuration and request parsing: the engine-options flag, ingester
//! addresses, and the v1 write-path query decoding.

use tiered_compactor::ingester_address::IngesterAddress;
use tiered_compactor::querier::{parse_datafusion_config, DatafusionConfigError, QuerierConfig};
use tiered_compactor::v1_write::{
    parse_v1_write_params, Precision, RetentionPolicy, V1WriteParseError,
};

fn default_querier_config() -> QuerierConfig {
    QuerierConfig {
        num_query_threads: 0,
        exec_mem_pool_bytes: 8589934592,
        ingester_addresses: Vec::new(),
        ram_pool_metadata_bytes: 134217728,
        ram_pool_data_bytes: 1073741824,
        max_concurrent_queries: 10,
        ingester_circuit_breaker_threshold: 10,
        datafusion_config: Vec::new(),
    }
}

#[test]
fn test_default() {
    let actual = default_querier_config();

    assert_eq!(actual.num_query_threads(), None);
    assert!(actual.ingester_addresses.is_empty());
    assert!(actual.datafusion_config.is_empty());
}

#[test]
fn test_num_threads() {
    let actual = QuerierConfig {
        num_query_threads: 42,
        ..default_querier_config()
    };

    assert_eq!(actual.num_query_threads(), Some(42));
}

#[test]
fn test_getters() {
    let actual = default_querier_config();
    assert_eq!(actual.ram_pool_metadata_bytes(), 134217728);
    assert_eq!(actual.ram_pool_data_bytes(), 1073741824);
    assert_eq!(actual.max_concurrent_queries(), 10);
}

#[test]
fn test_ingester_addresses_list() {
    let addresses = "http://ingester-0:8082,http://ingester-1:8082";

    let actual: Vec<_> = addresses
        .split(',')
        .map(|part| IngesterAddress::from_str(part).unwrap().to_text())
        .collect();

    let expected = vec!["http://ingester-0:8082/", "http://ingester-1:8082/"];
    assert_eq!(actual, expected);
}

#[test]
fn bad_ingester_addresses_list() {
    let actual = IngesterAddress::from_str("\\ingester-0:8082")
        .unwrap_err()
        .message();

    assert!(
        actual.contains("Invalid: invalid uri character"),
        "unexpected message: {actual}"
    );
}

#[test]
fn missing_port_ingester_address() {
    let err = IngesterAddress::from_str("ingester-0").unwrap_err();
    let message = err.message();
    assert!(
        message.contains("Port is required; no port found in `ingester-0`"),
        "unexpected message: {message}"
    );

    // a port alone is enough, and so is an http scheme
    assert!(IngesterAddress::from_str("ingester-0:8082").is_ok());
    assert!(IngesterAddress::from_str("http://ingester-0").is_ok());
}

#[test]
fn test_datafusion_config() {
    let actual = parse_datafusion_config(" foo : bar , x:y:z  ").unwrap();

    assert_eq!(
        actual,
        vec![
            (String::from("foo"), String::from("bar")),
            (String::from("x"), String::from("y:z")),
        ],
    );
}

#[test]
fn bad_datafusion_config() {
    let actual = parse_datafusion_config("foo").unwrap_err().message();
    assert!(
        actual.contains("Invalid key value pair - expected 'KEY:VALUE' got 'foo'"),
        "unexpected message: {actual}"
    );

    let actual = parse_datafusion_config("foo:bar,baz:1,foo:2")
        .unwrap_err()
        .message();
    assert!(
        actual.contains("key 'foo' passed multiple times"),
        "unexpected message: {actual}"
    );
}

#[test]
fn empty_datafusion_config() {
    assert!(parse_datafusion_config("").unwrap().is_empty());
    assert!(parse_datafusion_config("   ").unwrap().is_empty());
}

#[test]
fn datafusion_config_error_variants() {
    assert!(matches!(
        parse_datafusion_config("nocolon"),
        Err(DatafusionConfigError::InvalidKeyValuePair { .. })
    ));
    assert!(matches!(
        parse_datafusion_config("a:1,a:2"),
        Err(DatafusionConfigError::DuplicateKey { .. })
    ));
}

#[test]
fn v1_write_params_basic() {
    let params = parse_v1_write_params(Some("db=bananas&precision=ms&rp=autogen")).unwrap();
    assert_eq!(params.db, "bananas");
    assert!(matches!(params.precision, Precision::Milliseconds));
    assert!(matches!(params.rp, RetentionPolicy::Autogen));
}

#[test]
fn v1_write_params_defaults() {
    let params = parse_v1_write_params(Some("db=bananas")).unwrap();
    assert_eq!(params.db, "bananas");
    assert!(matches!(params.precision, Precision::Nanoseconds));
    assert!(matches!(params.rp, RetentionPolicy::Unspecified));
}

#[test]
fn v1_write_params_rp_case_folding() {
    // fails if the case-folding step handed its argument back unchanged
    let params = parse_v1_write_params(Some("db=bananas&rp=AUTOGEN")).unwrap();
    assert!(matches!(params.rp, RetentionPolicy::Autogen));

    let params = parse_v1_write_params(Some("db=bananas&rp=WeekLy")).unwrap();
    match params.rp {
        RetentionPolicy::Named(name) => assert_eq!(name, "weekly"),
        other => panic!("expected a named policy, got {other:?}"),
    }
}

#[test]
fn v1_write_params_decoding() {
    // fails if the form decoder handed the query back unchanged
    let params = parse_v1_write_params(Some("db=a+b")).unwrap();
    assert_eq!(params.db, "a b");

    // a percent-encoded slash still counts as the reserved character
    let err = parse_v1_write_params(Some("db=foo%2Fbar")).unwrap_err();
    assert!(matches!(err, V1WriteParseError::ContainsRpSeparator));
}

#[test]
fn v1_write_params_errors() {
    let err = parse_v1_write_params(None).unwrap_err();
    assert!(matches!(err, V1WriteParseError::NoQueryParams));
    assert_eq!(err.message(), "no db destination provided");

    let err = parse_v1_write_params(Some("precision=ms")).unwrap_err();
    assert!(matches!(err, V1WriteParseError::DecodeFail { .. }));

    let err = parse_v1_write_params(Some("db=foo/bar")).unwrap_err();
    assert!(matches!(err, V1WriteParseError::ContainsRpSeparator));
    assert_eq!(
        err.message(),
        "db cannot contain the reserved character '/'"
    );

    let err = parse_v1_write_params(Some("db=ok&rp=a/b")).unwrap_err();
    assert!(matches!(err, V1WriteParseError::ContainsRpSeparator));

    let err = parse_v1_write_params(Some("db=ok&precision=fortnights")).unwrap_err();
    assert!(matches!(err, V1WriteParseError::DecodeFail { .. }));

    let err = parse_v1_write_params(Some("db=a&db=b")).unwrap_err();
    assert!(matches!(err, V1WriteParseError::DecodeFail { .. }));
}
