use chaos::config::client::{BatchConfig, BufferConfig, ClientConfig, ProviderConfig};
use chaos::config::error::ConfigError;
use chaos::config::server::{
    ApiConfig, BindReadings, DetectionConfig, IngestConfig, RetentionConfig, ServerConfig,
    StorageConfig,
};
use chaos::config::tls::{TlsConfig, TlsFiles};

const PRESENT: TlsFiles = TlsFiles {
    cert: true,
    key: true,
    ca: true,
};

fn tls() -> TlsConfig {
    TlsConfig {
        cert_path: "cert.pem".to_string(),
        key_path: "key.pem".to_string(),
        ca_path: "ca.pem".to_string(),
        server_name: None,
        min_version: "1.3".to_string(),
    }
}

fn client() -> ClientConfig {
    ClientConfig {
        session_name: "session".to_string(),
        providers: vec![provider("one"), provider("two")],
        server_url: "https://collector.example".to_string(),
        tls: tls(),
        batch: BatchConfig::default(),
        buffer: BufferConfig::for_platform(false),
    }
}

fn provider(name: &str) -> ProviderConfig {
    ProviderConfig {
        name: name.to_string(),
        events: Vec::new(),
        enabled: true,
    }
}

fn server() -> ServerConfig {
    ServerConfig {
        ingest: IngestConfig {
            bind: "0.0.0.0:9443".to_string(),
            tls: tls(),
            max_batch_size: 10_000,
            max_connections: 10_000,
            idle_timeout_secs: 300,
        },
        storage: StorageConfig {
            backend: "sqlite".to_string(),
            url: "events.db".to_string(),
            pool_size: 8,
            write_batch: 500,
            flush_interval_ms: 1_000,
        },
        api: ApiConfig::default(),
        detection: DetectionConfig::for_platform(false),
        retention: RetentionConfig::default(),
    }
}

fn binds() -> BindReadings {
    BindReadings {
        ingest: None,
        api: None,
    }
}

fn refusal(outcome: Result<(), ConfigError>) -> String {
    outcome.expect_err("must be refused").message()
}

#[test]
fn sound_settings_are_accepted() {
    assert!(client().validate(PRESENT).is_ok());
    assert!(server().validate(&binds(), PRESENT).is_ok());
    let mut older = tls();
    older.min_version = "1.2".to_string();
    assert!(older.validate(PRESENT).is_ok());
}

#[test]
fn each_rule_for_a_client_is_reported_by_its_field() {
    let mut c = client();
    c.session_name.clear();
    assert_eq!(
        refusal(c.validate(PRESENT)),
        "missing required field `session_name`"
    );
    let mut c = client();
    c.server_url = "http://collector.example".to_string();
    assert_eq!(
        refusal(c.validate(PRESENT)),
        "field `server_url` has invalid value: must start with https://"
    );
    let mut c = client();
    c.batch.max_size = 0;
    assert_eq!(
        refusal(c.validate(PRESENT)),
        "field `batch.max_size` has invalid value: must be greater than zero"
    );
    let mut c = client();
    c.batch.max_delay_ms = 0;
    assert_eq!(
        refusal(c.validate(PRESENT)),
        "field `batch.max_delay_ms` has invalid value: must be greater than zero"
    );
    let mut c = client();
    c.batch.channel_capacity = 0;
    assert_eq!(
        refusal(c.validate(PRESENT)),
        "field `batch.channel_capacity` has invalid value: must be greater than zero"
    );
    let mut c = client();
    c.providers[1].name.clear();
    assert_eq!(
        refusal(c.validate(PRESENT)),
        "field `providers[].name` has invalid value: provider at index 1 has empty name"
    );
}

#[test]
fn each_file_must_be_named_and_must_exist() {
    let mut t = tls();
    t.key_path.clear();
    assert_eq!(
        refusal(t.validate(PRESENT)),
        "missing required field `tls.key_path`"
    );
    let absent = TlsFiles {
        ca: false,
        ..PRESENT
    };
    assert_eq!(
        refusal(tls().validate(absent)),
        "field `tls.ca_path` has invalid value: file does not exist: ca.pem"
    );
    let mut t = tls();
    t.min_version = "1.1".to_string();
    assert_eq!(
        refusal(t.validate(PRESENT)),
        "field `tls.min_version` has invalid value: must be \"1.2\" or \"1.3\", got \"1.1\""
    );
}

#[test]
fn each_rule_for_a_server_is_reported_by_its_field() {
    let mut b = binds();
    b.ingest = Some("invalid socket address syntax".to_string());
    assert_eq!(
        refusal(server().validate(&b, PRESENT)),
        "field `ingest.bind` has invalid value: invalid socket address syntax"
    );
    let mut b = binds();
    b.api = Some("why".to_string());
    assert_eq!(
        refusal(server().validate(&b, PRESENT)),
        "field `api.bind` has invalid value: why"
    );
    let mut s = server();
    s.storage.backend = "mongo".to_string();
    assert_eq!(
        refusal(s.validate(&binds(), PRESENT)),
        "field `storage.backend` has invalid value: unknown backend `mongo`; expected `sqlite` or `clickhouse`"
    );
    let mut s = server();
    s.storage.backend = "clickhouse".to_string();
    assert!(s.validate(&binds(), PRESENT).is_ok());
    s.storage.pool_size = 0;
    assert!(refusal(s.validate(&binds(), PRESENT)).contains("storage.pool_size"));
    let mut s = server();
    s.ingest.max_batch_size = 0;
    assert!(refusal(s.validate(&binds(), PRESENT)).contains("ingest.max_batch_size"));
    let mut s = server();
    s.ingest.tls.cert_path.clear();
    assert!(refusal(s.validate(&binds(), PRESENT)).contains("tls.cert_path"));
}

#[test]
fn colder_tiers_keep_data_at_least_as_long() {
    let mut s = server();
    s.retention.hot_days = 0;
    assert!(refusal(s.validate(&binds(), PRESENT)).contains("retention.hot_days"));
    let mut s = server();
    s.retention.warm_days = 29;
    assert_eq!(
        refusal(s.validate(&binds(), PRESENT)),
        "field `retention.warm_days` has invalid value: must be >= hot_days"
    );
    let mut s = server();
    s.retention.cold_days = 89;
    assert_eq!(
        refusal(s.validate(&binds(), PRESENT)),
        "field `retention.cold_days` has invalid value: must be >= warm_days"
    );
}

#[test]
fn defaults_depend_on_the_platform_only_where_paths_do() {
    assert_eq!(
        BufferConfig::for_platform(true).path,
        "C:\\ProgramData\\Chaos\\buffer.db"
    );
    assert_eq!(
        BufferConfig::for_platform(false).path,
        "/var/lib/chaos/buffer.db"
    );
    assert_eq!(
        DetectionConfig::for_platform(true).rule_dir,
        "C:\\ProgramData\\Chaos\\rules"
    );
    assert_eq!(
        DetectionConfig::for_platform(false).rule_dir,
        "/etc/chaos/rules"
    );
    assert_eq!(BatchConfig::default().max_size, 1_000);
    assert_eq!(ApiConfig::default().bind, "127.0.0.1:8080");
    assert_eq!(RetentionConfig::default().cold_days, 365);
}

#[test]
fn a_configuration_error_says_where_it_comes_from() {
    let read = ConfigError::ReadFile {
        path: "/etc/x".to_string(),
        source: "denied".to_string(),
    };
    assert_eq!(read.message(), "failed to read config file /etc/x: denied");
    let parse = ConfigError::ParseToml {
        path: "/etc/x".to_string(),
        source: "line 1".to_string(),
    };
    assert_eq!(parse.message(), "invalid TOML in /etc/x: line 1");
    let env = ConfigError::MissingEnvVar {
        field: "api.jwt_secret_env",
        var: "SECRET".to_string(),
    };
    assert_eq!(
        env.message(),
        "environment variable `SECRET` referenced by `api.jwt_secret_env` is not set"
    );
    assert_eq!(
        ConfigError::Validation("x".to_string()).message(),
        "validation failed: x"
    );
}
