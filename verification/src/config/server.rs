//! Server settings.
use super::error::{finds, invalid, ConfigError, Fault};
use super::tls::{tls_fault, TlsConfig, TlsFiles};
use crate::text::{concat3, same};
use vstd::prelude::*;

verus! {

#[derive(Debug, Clone)]
pub struct ServerConfig {
    pub ingest: IngestConfig,
    pub storage: StorageConfig,
    pub api: ApiConfig,
    pub detection: DetectionConfig,
    pub retention: RetentionConfig,
}

#[derive(Debug, Clone)]
pub struct IngestConfig {
    pub bind: String,
    pub tls: TlsConfig,
    pub max_batch_size: usize,
    pub max_connections: usize,
    pub idle_timeout_secs: u64,
}

pub fn default_max_batch() -> (n: usize)
    ensures
        n == 10_000,
{
    10_000
}

pub fn default_max_connections() -> (n: usize)
    ensures
        n == 10_000,
{
    10_000
}

pub fn default_idle_timeout() -> (secs: u64)
    ensures
        secs == 300,
{
    300
}

#[derive(Debug, Clone)]
pub struct StorageConfig {
    pub backend: String,
    pub url: String,
    pub pool_size: u32,
    pub write_batch: usize,
    pub flush_interval_ms: u64,
}

pub fn default_pool_size() -> (n: u32)
    ensures
        n == 8,
{
    8
}

pub fn default_write_batch() -> (n: usize)
    ensures
        n == 500,
{
    500
}

pub fn default_flush_interval() -> (ms: u64)
    ensures
        ms == 1000,
{
    1000
}

#[derive(Debug, Clone)]
pub struct ApiConfig {
    pub bind: String,
    pub jwt_secret_env: String,
    pub jwt_ttl_secs: u64,
}

impl Default for ApiConfig {
    fn default() -> (api: ApiConfig)
        ensures
            api.bind@ == "127.0.0.1:8080"@,
            api.jwt_secret_env@ == "CHAOS_JWT_SECRET"@,
            api.jwt_ttl_secs == 3600,
    {
        ApiConfig {
            bind: default_api_bind(),
            jwt_secret_env: default_jwt_env(),
            jwt_ttl_secs: default_jwt_ttl(),
        }
    }
}

pub fn default_api_bind() -> (bind: String)
    ensures
        bind@ == "127.0.0.1:8080"@,
{
    "127.0.0.1:8080".to_string()
}

pub fn default_jwt_env() -> (name: String)
    ensures
        name@ == "CHAOS_JWT_SECRET"@,
{
    "CHAOS_JWT_SECRET".to_string()
}

pub fn default_jwt_ttl() -> (secs: u64)
    ensures
        secs == 3600,
{
    3600
}

/// Detection engine settings.
#[derive(Debug, Clone)]
pub struct DetectionConfig {
    pub rule_dir: String,
    pub reload_interval_secs: u64,
    pub workers: usize,
}

impl DetectionConfig {
    /// The defaults on Windows, or elsewhere.
    pub fn for_platform(windows: bool) -> (detection: DetectionConfig)
        ensures
            detection.rule_dir@ == rule_dir(windows),
            detection.reload_interval_secs == 60,
            detection.workers == 0,
    {
        DetectionConfig {
            rule_dir: default_rule_dir(windows),
            reload_interval_secs: default_reload_interval(),
            workers: 0,
        }
    }
}

/// Where rules are read from.
pub open spec fn rule_dir(windows: bool) -> Seq<char> {
    if windows {
        "C:\\ProgramData\\Chaos\\rules"@
    } else {
        "/etc/chaos/rules"@
    }
}

pub fn default_rule_dir(windows: bool) -> (path: String)
    ensures
        path@ == rule_dir(windows),
{
    if windows {
        "C:\\ProgramData\\Chaos\\rules".to_string()
    } else {
        "/etc/chaos/rules".to_string()
    }
}

pub fn default_reload_interval() -> (secs: u64)
    ensures
        secs == 60,
{
    60
}

#[derive(Debug, Clone, Copy, PartialEq, Eq, Structural)]
pub struct RetentionConfig {
    pub hot_days: u32,
    pub warm_days: u32,
    pub cold_days: u32,
}

impl Default for RetentionConfig {
    fn default() -> (retention: RetentionConfig)
        ensures
            retention == (RetentionConfig { hot_days: 30, warm_days: 90, cold_days: 365 }),
    {
        RetentionConfig {
            hot_days: default_hot_days(),
            warm_days: default_warm_days(),
            cold_days: default_cold_days(),
        }
    }
}

pub fn default_hot_days() -> (days: u32)
    ensures
        days == 30,
{
    30
}

pub fn default_warm_days() -> (days: u32)
    ensures
        days == 90,
{
    90
}

pub fn default_cold_days() -> (days: u32)
    ensures
        days == 365,
{
    365
}

/// How the two bind addresses read: nothing where they are socket addresses, and
/// otherwise why they are not.
#[derive(Debug, Clone)]
pub struct BindReadings {
    pub ingest: Option<String>,
    pub api: Option<String>,
}

/// The first thing wrong with a server's settings.
pub open spec fn server_fault(
    config: ServerConfig,
    binds: BindReadings,
    files: TlsFiles,
) -> Option<Fault> {
    if binds.ingest is Some {
        Some(Fault::Invalid("ingest.bind"@, (binds.ingest->0)@))
    } else if binds.api is Some {
        Some(Fault::Invalid("api.bind"@, (binds.api->0)@))
    } else if config.storage.backend@ != "sqlite"@ && config.storage.backend@ != "clickhouse"@ {
        Some(
            Fault::Invalid(
                "storage.backend"@,
                "unknown backend `"@ + config.storage.backend@
                    + "`; expected `sqlite` or `clickhouse`"@,
            ),
        )
    } else if config.storage.pool_size == 0 {
        Some(Fault::Invalid("storage.pool_size"@, "must be greater than zero"@))
    } else if config.ingest.max_batch_size == 0 {
        Some(Fault::Invalid("ingest.max_batch_size"@, "must be greater than zero"@))
    } else if config.retention.hot_days == 0 {
        Some(Fault::Invalid("retention.hot_days"@, "must be greater than zero"@))
    } else if config.retention.warm_days < config.retention.hot_days {
        Some(Fault::Invalid("retention.warm_days"@, "must be >= hot_days"@))
    } else if config.retention.cold_days < config.retention.warm_days {
        Some(Fault::Invalid("retention.cold_days"@, "must be >= warm_days"@))
    } else {
        tls_fault(config.ingest.tls, files)
    }
}

/// In settings without a fault, data is kept at least as long in each colder
/// tier, and for at least one day.
pub proof fn accepted_retention_is_ordered(
    config: ServerConfig,
    binds: BindReadings,
    files: TlsFiles,
)
    requires
        server_fault(config, binds, files) is None,
    ensures
        1 <= config.retention.hot_days <= config.retention.warm_days
            <= config.retention.cold_days,
{
}

impl ServerConfig {
    /// Accepts settings that break no rule; otherwise reports the first thing
    /// wrong. `binds` says how the bind addresses read, and `files` which of the
    /// configured files exist.
    pub fn validate(&self, binds: &BindReadings, files: TlsFiles) -> (outcome: Result<
        (),
        ConfigError,
    >)
        ensures
            finds(outcome, server_fault(*self, *binds, files)),
    {
        match &binds.ingest {
            Some(reason) => {
                return Err(invalid("ingest.bind", reason.as_str()));
            },
            None => {},
        }
        match &binds.api {
            Some(reason) => {
                return Err(invalid("api.bind", reason.as_str()));
            },
            None => {},
        }
        let backend = self.storage.backend.as_str();
        if !same(backend, "sqlite") && !same(backend, "clickhouse") {
            return Err(
                ConfigError::InvalidValue {
                    field: "storage.backend",
                    reason: concat3(
                        "unknown backend `",
                        backend,
                        "`; expected `sqlite` or `clickhouse`",
                    ),
                },
            );
        }
        if self.storage.pool_size == 0 {
            return Err(invalid("storage.pool_size", "must be greater than zero"));
        }
        if self.ingest.max_batch_size == 0 {
            return Err(invalid("ingest.max_batch_size", "must be greater than zero"));
        }
        if self.retention.hot_days == 0 {
            return Err(invalid("retention.hot_days", "must be greater than zero"));
        }
        if self.retention.warm_days < self.retention.hot_days {
            return Err(invalid("retention.warm_days", "must be >= hot_days"));
        }
        if self.retention.cold_days < self.retention.warm_days {
            return Err(invalid("retention.cold_days", "must be >= warm_days"));
        }
        self.ingest.tls.validate(files)
    }
}

/// Settings are accepted exactly where both addresses can be bound, the store is
/// a known one, nothing that must hold something is zero, data is kept no shorter
/// in each colder tier and the transport is accepted.
pub proof fn accepted_servers_are_complete(
    config: ServerConfig,
    binds: BindReadings,
    files: TlsFiles,
)
    ensures
        server_fault(config, binds, files) is None <==> {
            &&& binds.ingest is None && binds.api is None
            &&& config.storage.backend@ == "sqlite"@ || config.storage.backend@ == "clickhouse"@
            &&& config.storage.pool_size > 0
            &&& config.ingest.max_batch_size > 0
            &&& 0 < config.retention.hot_days <= config.retention.warm_days
                <= config.retention.cold_days
            &&& tls_fault(config.ingest.tls, files) is None
        },
{
}

/// A setting of a server is blamed only for what is wrong with it.
pub proof fn server_faults_name_the_culprit(
    config: ServerConfig,
    binds: BindReadings,
    files: TlsFiles,
)
    ensures
        match server_fault(config, binds, files) {
            Some(Fault::Invalid(field, why)) => {
                ||| field == "ingest.bind"@ && binds.ingest is Some && why == (binds.ingest->0)@
                ||| field == "api.bind"@ && binds.api is Some && why == (binds.api->0)@
                ||| field == "storage.backend"@ && config.storage.backend@ != "sqlite"@
                    && config.storage.backend@ != "clickhouse"@
                ||| field == "storage.pool_size"@ && config.storage.pool_size == 0
                ||| field == "ingest.max_batch_size"@ && config.ingest.max_batch_size == 0
                ||| field == "retention.hot_days"@ && config.retention.hot_days == 0
                ||| field == "retention.warm_days"@ && config.retention.warm_days
                    < config.retention.hot_days
                ||| field == "retention.cold_days"@ && config.retention.cold_days
                    < config.retention.warm_days
                ||| tls_fault(config.ingest.tls, files) == Some(Fault::Invalid(field, why))
            },
            Some(fault) => tls_fault(config.ingest.tls, files) == Some(fault),
            None => true,
        },
{
}

/// Rules stand under the program data of Windows, and elsewhere under `/etc`.
pub proof fn rules_stand_where_the_platform_keeps_settings()
    ensures
        rule_dir(true) == "C:\\ProgramData\\Chaos\\rules"@,
        rule_dir(false) == "/etc/chaos/rules"@,
{
}

} // verus!
