use percas::config::{
    data_path, default_cluster_id, default_data_dir, default_dir, default_listen_ctrl_addr,
    default_listen_data_addr, default_metrics_push_interval, env_name, find_option,
    known_option_entries, node_file_path, parse_integer, resolve_override, str_eq, Config,
    LogsConfig, OverrideError, OverrideValue,
};

#[test]
fn default_config() {
    let config = Config::default();
    assert_eq!(config.server.dir, "/var/lib/percas");
    assert_eq!(config.server.listen_data_addr, "0.0.0.0:7654");
    assert_eq!(config.server.listen_ctrl_addr, "0.0.0.0:7655");
    assert_eq!(config.server.cluster_id, "percas-cluster");
    assert!(config.server.advertise_data_addr.is_none());
    assert!(config.server.advertise_ctrl_addr.is_none());
    assert!(config.server.initial_peers.is_empty());

    assert_eq!(config.storage.data_dir, "/var/lib/percas/data");
    assert_eq!(config.storage.disk_capacity, 536870912);
    assert!(config.storage.disk_throttle.is_none());
    assert!(config.storage.memory_capacity.is_none());

    let file = config.telemetry.logs.file.unwrap();
    assert_eq!(file.filter, "INFO");
    assert_eq!(file.dir, "logs");
    assert_eq!(file.max_files, Some(64));
    assert_eq!(config.telemetry.logs.stderr.unwrap().filter, "INFO");
    let otel = config.telemetry.logs.opentelemetry.unwrap();
    assert_eq!(otel.filter, "INFO");
    assert_eq!(otel.otlp_endpoint, "http://127.0.0.1:4317");
    let traces = config.telemetry.traces.unwrap();
    assert_eq!(traces.capture_log_filter, "INFO");
    assert_eq!(traces.opentelemetry.unwrap().otlp_endpoint, "http://127.0.0.1:4317");
    let metrics = config.telemetry.metrics.unwrap().opentelemetry.unwrap();
    assert_eq!(metrics.otlp_endpoint, "http://127.0.0.1:4317");
    assert_eq!(metrics.push_interval, 30);
}

#[test]
fn defaults() {
    assert_eq!(default_dir(), "/var/lib/percas");
    assert_eq!(default_data_dir(), "/var/lib/percas/data");
    assert_eq!(default_cluster_id(), "percas-cluster");
    assert_eq!(default_listen_data_addr(), "0.0.0.0:7654");
    assert_eq!(default_listen_ctrl_addr(), "0.0.0.0:7655");
    assert_eq!(default_metrics_push_interval(), 30);
    let logs = LogsConfig::disabled();
    assert!(logs.file.is_none() && logs.stderr.is_none() && logs.opentelemetry.is_none());
}

#[test]
fn paths_are_joined_as_the_file_system_joins_them() {
    for base in ["/var/lib/percas", "/var/lib/percas/", "", "/", "relative", "a//"] {
        assert_eq!(
            node_file_path(base),
            std::path::Path::new(base).join("node.json").to_str().unwrap()
        );
        assert_eq!(data_path(base), std::path::Path::new(base).join("data").to_str().unwrap());
    }
    assert_eq!(node_file_path("/var/lib/percas"), "/var/lib/percas/node.json");
    assert_eq!(data_path("/usr/local/atrium"), "/usr/local/atrium/data");
}

#[test]
fn test_config_schema() {
    let expected = [
        ("PERCAS_CONFIG_SERVER_ADVERTISE_CTRL_ADDR", "server.advertise_ctrl_addr", "string"),
        ("PERCAS_CONFIG_SERVER_ADVERTISE_DATA_ADDR", "server.advertise_data_addr", "string"),
        ("PERCAS_CONFIG_SERVER_CLUSTER_ID", "server.cluster_id", "string"),
        ("PERCAS_CONFIG_SERVER_DIR", "server.dir", "string"),
        ("PERCAS_CONFIG_SERVER_INITIAL_PEERS", "server.initial_peers", "array"),
        ("PERCAS_CONFIG_SERVER_LISTEN_CTRL_ADDR", "server.listen_ctrl_addr", "string"),
        ("PERCAS_CONFIG_SERVER_LISTEN_DATA_ADDR", "server.listen_data_addr", "string"),
        ("PERCAS_CONFIG_STORAGE_DATA_DIR", "storage.data_dir", "string"),
        ("PERCAS_CONFIG_STORAGE_DISK_CAPACITY", "storage.disk_capacity", "integer"),
        (
            "PERCAS_CONFIG_STORAGE_DISK_THROTTLE_IOPS_COUNTER_MODE",
            "storage.disk_throttle.iops_counter.mode",
            "string",
        ),
        (
            "PERCAS_CONFIG_STORAGE_DISK_THROTTLE_IOPS_COUNTER_SIZE",
            "storage.disk_throttle.iops_counter.size",
            "integer",
        ),
        ("PERCAS_CONFIG_STORAGE_DISK_THROTTLE_READ_IOPS", "storage.disk_throttle.read_iops", "integer"),
        (
            "PERCAS_CONFIG_STORAGE_DISK_THROTTLE_READ_THROUGHPUT",
            "storage.disk_throttle.read_throughput",
            "integer",
        ),
        ("PERCAS_CONFIG_STORAGE_DISK_THROTTLE_WRITE_IOPS", "storage.disk_throttle.write_iops", "integer"),
        (
            "PERCAS_CONFIG_STORAGE_DISK_THROTTLE_WRITE_THROUGHPUT",
            "storage.disk_throttle.write_throughput",
            "integer",
        ),
        ("PERCAS_CONFIG_STORAGE_MEMORY_CAPACITY", "storage.memory_capacity", "integer"),
        ("PERCAS_CONFIG_TELEMETRY_LOGS_FILE_DIR", "telemetry.logs.file.dir", "string"),
        ("PERCAS_CONFIG_TELEMETRY_LOGS_FILE_FILTER", "telemetry.logs.file.filter", "string"),
        ("PERCAS_CONFIG_TELEMETRY_LOGS_FILE_MAX_FILES", "telemetry.logs.file.max_files", "integer"),
        (
            "PERCAS_CONFIG_TELEMETRY_LOGS_OPENTELEMETRY_FILTER",
            "telemetry.logs.opentelemetry.filter",
            "string",
        ),
        (
            "PERCAS_CONFIG_TELEMETRY_LOGS_OPENTELEMETRY_OTLP_ENDPOINT",
            "telemetry.logs.opentelemetry.otlp_endpoint",
            "string",
        ),
        ("PERCAS_CONFIG_TELEMETRY_LOGS_STDERR_FILTER", "telemetry.logs.stderr.filter", "string"),
        (
            "PERCAS_CONFIG_TELEMETRY_METRICS_OPENTELEMETRY_OTLP_ENDPOINT",
            "telemetry.metrics.opentelemetry.otlp_endpoint",
            "string",
        ),
        (
            "PERCAS_CONFIG_TELEMETRY_METRICS_OPENTELEMETRY_PUSH_INTERVAL",
            "telemetry.metrics.opentelemetry.push_interval",
            "string",
        ),
        (
            "PERCAS_CONFIG_TELEMETRY_TRACES_CAPTURE_LOG_FILTER",
            "telemetry.traces.capture_log_filter",
            "string",
        ),
        (
            "PERCAS_CONFIG_TELEMETRY_TRACES_OPENTELEMETRY_OTLP_ENDPOINT",
            "telemetry.traces.opentelemetry.otlp_endpoint",
            "string",
        ),
    ];
    let known_option_entries = known_option_entries();
    let options: Vec<(&str, &str, &str)> = known_option_entries
        .iter()
        .map(|e| (e.env_name.as_str(), e.ent_path, e.ent_type))
        .collect();
    assert_eq!(options, expected.to_vec());
    for e in &known_option_entries {
        let name = e.ent_path.to_ascii_uppercase().replace(".", "_");
        assert_eq!(e.env_name, format!("PERCAS_CONFIG_{name}"));
    }
}

#[test]
fn environment_names() {
    assert_eq!(env_name("server.dir"), "PERCAS_CONFIG_SERVER_DIR");
    assert_eq!(env_name(""), "PERCAS_CONFIG_");
    assert_eq!(env_name("a.b_c.d9"), "PERCAS_CONFIG_A_B_C_D9");
    assert_eq!(env_name("Already.UPPER"), "PERCAS_CONFIG_ALREADY_UPPER");
    assert_eq!(env_name("é.z"), "PERCAS_CONFIG_é_Z");
}

#[test]
fn integers_are_read_as_decimal() {
    assert_eq!(parse_integer("0"), Some(0));
    assert_eq!(parse_integer("536870912"), Some(536870912));
    assert_eq!(parse_integer("-42"), Some(-42));
    assert_eq!(parse_integer("+42"), Some(42));
    assert_eq!(parse_integer("007"), Some(7));
    assert_eq!(parse_integer("9223372036854775807"), Some(i64::MAX));
    assert_eq!(parse_integer("-9223372036854775808"), Some(i64::MIN));
    assert_eq!(parse_integer("9223372036854775808"), None);
    assert_eq!(parse_integer("-9223372036854775809"), None);
    assert_eq!(parse_integer("99999999999999999999999999999999999999999999"), None);
    assert_eq!(parse_integer("00000000000000000000000000000000000000000001"), Some(1));
    for bad in ["", "-", "+", "1 ", " 1", "1_000", "0x10", "1.5", "--1", "+-1", "١"] {
        assert_eq!(parse_integer(bad), None, "{bad:?}");
    }
    for s in ["0", "-0", "+0", "12", "-9223372036854775808", "9223372036854775808", "", "-", "a"] {
        assert_eq!(parse_integer(s), s.parse::<i64>().ok(), "{s:?}");
    }
}

#[test]
fn strings_compare_by_characters() {
    assert!(str_eq("", ""));
    assert!(str_eq("string", "string"));
    assert!(!str_eq("string", "strinG"));
    assert!(!str_eq("string", "strin"));
    assert!(str_eq("é", "é"));
}

#[test]
fn overrides_are_resolved_by_name_and_type() {
    let entries = known_option_entries();
    assert_eq!(find_option(&entries, "PERCAS_CONFIG_SERVER_DIR"), Some(3));
    assert_eq!(find_option(&entries, "PERCAS_CONFIG_NOPE"), None);

    match resolve_override(&entries, "PERCAS_CONFIG_SERVER_CLUSTER_ID", "my cluster") {
        Ok((i, OverrideValue::Text(v))) => {
            assert_eq!(entries[i].ent_path, "server.cluster_id");
            assert_eq!(v, "my cluster");
        }
        other => panic!("unexpected {other:?}"),
    }
    match resolve_override(&entries, "PERCAS_CONFIG_STORAGE_DISK_CAPACITY", "1024") {
        Ok((i, OverrideValue::Integer(v))) => {
            assert_eq!(entries[i].ent_path, "storage.disk_capacity");
            assert_eq!(v, 1024);
        }
        other => panic!("unexpected {other:?}"),
    }
    assert_eq!(
        resolve_override(&entries, "PERCAS_CONFIG_STORAGE_DISK_CAPACITY", "1k").unwrap_err(),
        OverrideError::BadInteger
    );
    assert_eq!(
        resolve_override(&entries, "PERCAS_CONFIG_UNKNOWN", "1").unwrap_err(),
        OverrideError::UnknownVariable
    );
    assert_eq!(
        resolve_override(&entries, "PERCAS_CONFIG_SERVER_INITIAL_PEERS", "[]").unwrap_err(),
        OverrideError::UnsupportedType
    );
    let flags = vec![percas::config::option_entry("feature.on", "boolean")];
    assert!(matches!(
        resolve_override(&flags, "PERCAS_CONFIG_FEATURE_ON", "true"),
        Ok((0, OverrideValue::Boolean(true)))
    ));
    assert!(matches!(
        resolve_override(&flags, "PERCAS_CONFIG_FEATURE_ON", "false"),
        Ok((0, OverrideValue::Boolean(false)))
    ));
    assert_eq!(
        resolve_override(&flags, "PERCAS_CONFIG_FEATURE_ON", "yes").unwrap_err(),
        OverrideError::BadBoolean
    );
}
