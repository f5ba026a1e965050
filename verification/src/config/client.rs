//! Client settings.
use super::error::{finds, invalid, ConfigError, Fault};
use super::tls::{tls_fault, TlsConfig, TlsFiles};
use crate::text::{chars_of, concat3, decimal, decimal_text, occurs_at, starts_with};
use vstd::prelude::*;

verus! {

#[derive(Debug, Clone)]
pub struct ClientConfig {
    pub session_name: String,
    pub providers: Vec<ProviderConfig>,
    pub server_url: String,
    pub tls: TlsConfig,
    pub batch: BatchConfig,
    pub buffer: BufferConfig,
}

#[derive(Debug, Clone)]
pub struct ProviderConfig {
    pub name: String,
    pub events: Vec<String>,
    pub enabled: bool,
}

/// A provider is enabled unless it says otherwise.
pub fn default_true() -> (yes: bool)
    ensures
        yes,
{
    true
}

#[derive(Debug, Clone, Copy, PartialEq, Eq, Structural)]
pub struct BatchConfig {
    pub max_size: usize,
    pub max_delay_ms: u64,
    pub channel_capacity: usize,
}

impl Default for BatchConfig {
    fn default() -> (batch: BatchConfig)
        ensures
            batch == (BatchConfig {
                max_size: 1000,
                max_delay_ms: 500,
                channel_capacity: 1_000_000,
            }),
    {
        BatchConfig {
            max_size: default_batch_size(),
            max_delay_ms: default_batch_delay(),
            channel_capacity: default_channel_capacity(),
        }
    }
}

pub fn default_batch_size() -> (n: usize)
    ensures
        n == 1000,
{
    1000
}

pub fn default_batch_delay() -> (ms: u64)
    ensures
        ms == 500,
{
    500
}

pub fn default_channel_capacity() -> (n: usize)
    ensures
        n == 1_000_000,
{
    1_000_000
}

#[derive(Debug, Clone)]
pub struct BufferConfig {
    pub path: String,
    pub max_size_mb: u64,
}

impl BufferConfig {
    /// The defaults on Windows, or elsewhere.
    pub fn for_platform(windows: bool) -> (buffer: BufferConfig)
        ensures
            buffer.path@ == buffer_path(windows),
            buffer.max_size_mb == 1024,
    {
        BufferConfig {
            path: default_buffer_path(windows),
            max_size_mb: default_buffer_size_mb(),
        }
    }
}

/// Where events are buffered.
pub open spec fn buffer_path(windows: bool) -> Seq<char> {
    if windows {
        "C:\\ProgramData\\Chaos\\buffer.db"@
    } else {
        "/var/lib/chaos/buffer.db"@
    }
}

pub fn default_buffer_path(windows: bool) -> (path: String)
    ensures
        path@ == buffer_path(windows),
{
    if windows {
        "C:\\ProgramData\\Chaos\\buffer.db".to_string()
    } else {
        "/var/lib/chaos/buffer.db".to_string()
    }
}

pub fn default_buffer_size_mb() -> (mb: u64)
    ensures
        mb == 1024,
{
    1024
}

/// The first provider without a name, or the number of providers.
pub open spec fn first_nameless(providers: Seq<ProviderConfig>, from: int) -> int
    decreases providers.len() - from,
{
    if from < 0 || from >= providers.len() {
        providers.len() as int
    } else if providers[from].name@.len() == 0 {
        from
    } else {
        first_nameless(providers, from + 1)
    }
}

/// What is wrong with the providers.
pub open spec fn provider_fault(providers: Seq<ProviderConfig>) -> Option<Fault> {
    let at = first_nameless(providers, 0);
    if at < providers.len() {
        Some(
            Fault::Invalid(
                "providers[].name"@,
                "provider at index "@ + decimal_text(at as nat) + " has empty name"@,
            ),
        )
    } else {
        None
    }
}

/// The first thing wrong with a client's settings.
pub open spec fn client_fault(config: ClientConfig, files: TlsFiles) -> Option<Fault> {
    if config.session_name@.len() == 0 {
        Some(Fault::Missing("session_name"@))
    } else if !occurs_at(config.server_url@, "https://"@, 0) {
        Some(Fault::Invalid("server_url"@, "must start with https://"@))
    } else if config.batch.max_size == 0 {
        Some(Fault::Invalid("batch.max_size"@, "must be greater than zero"@))
    } else if config.batch.max_delay_ms == 0 {
        Some(Fault::Invalid("batch.max_delay_ms"@, "must be greater than zero"@))
    } else if config.batch.channel_capacity == 0 {
        Some(Fault::Invalid("batch.channel_capacity"@, "must be greater than zero"@))
    } else if tls_fault(config.tls, files) is Some {
        tls_fault(config.tls, files)
    } else {
        provider_fault(config.providers@)
    }
}

impl ClientConfig {
    /// Accepts settings that break no rule; otherwise reports the first thing
    /// wrong. `files` says which of the configured files exist.
    pub fn validate(&self, files: TlsFiles) -> (outcome: Result<(), ConfigError>)
        ensures
            finds(outcome, client_fault(*self, files)),
    {
        if self.session_name.as_str().is_empty() {
            return Err(ConfigError::MissingField { field: "session_name" });
        }
        let url = chars_of(self.server_url.as_str());
        if !starts_with(url.as_slice(), chars_of("https://").as_slice()) {
            return Err(invalid("server_url", "must start with https://"));
        }
        if self.batch.max_size == 0 {
            return Err(invalid("batch.max_size", "must be greater than zero"));
        }
        if self.batch.max_delay_ms == 0 {
            return Err(invalid("batch.max_delay_ms", "must be greater than zero"));
        }
        if self.batch.channel_capacity == 0 {
            return Err(invalid("batch.channel_capacity", "must be greater than zero"));
        }
        match self.tls.validate(files) {
            Ok(_) => {},
            Err(error) => {
                return Err(error);
            },
        }
        let mut i: usize = 0;
        while i < self.providers.len()
            invariant
                i <= self.providers@.len(),
                first_nameless(self.providers@, 0) == first_nameless(self.providers@, i as int),
                client_fault(*self, files) == provider_fault(self.providers@),
            decreases self.providers@.len() - i,
        {
            if self.providers[i].name.as_str().is_empty() {
                return Err(
                    ConfigError::InvalidValue {
                        field: "providers[].name",
                        reason: concat3(
                            "provider at index ",
                            decimal(i as u64).as_str(),
                            " has empty name",
                        ),
                    },
                );
            }
            i += 1;
        }
        Ok(())
    }
}

proof fn lemma_first_nameless(providers: Seq<ProviderConfig>, from: int)
    requires
        0 <= from <= providers.len(),
    ensures
        from <= first_nameless(providers, from) <= providers.len(),
        forall|i: int|
            from <= i < first_nameless(providers, from) ==> (#[trigger] providers[i]).name@.len()
                > 0,
        first_nameless(providers, from) < providers.len() ==> providers[first_nameless(
            providers,
            from,
        )].name@.len() == 0,
    decreases providers.len() - from,
{
    if from < providers.len() && providers[from].name@.len() > 0 {
        lemma_first_nameless(providers, from + 1);
    }
}

/// Settings are accepted exactly where the session is named, the server is
/// reached by https, no limit of a batch is zero, the transport is accepted and
/// every provider has a name.
pub proof fn accepted_clients_are_complete(config: ClientConfig, files: TlsFiles)
    ensures
        client_fault(config, files) is None <==> {
            &&& config.session_name@.len() > 0
            &&& exists|rest: Seq<char>| #[trigger] ("https://"@ + rest) == config.server_url@
            &&& config.batch.max_size > 0
            &&& config.batch.max_delay_ms > 0
            &&& config.batch.channel_capacity > 0
            &&& tls_fault(config.tls, files) is None
            &&& forall|i: int|
                0 <= i < config.providers@.len() ==> (#[trigger] config.providers@[i]).name@.len()
                    > 0
        },
{
    let url = config.server_url@;
    let scheme = "https://"@;
    if occurs_at(url, scheme, 0) {
        let rest = url.skip(scheme.len() as int);
        assert(url == scheme + rest) by {
            assert(url.subrange(0, scheme.len() as int) == scheme);
        }
    }
    if exists|rest: Seq<char>| #[trigger] (scheme + rest) == url {
        let rest = choose|rest: Seq<char>| #[trigger] (scheme + rest) == url;
        assert(url.subrange(0, scheme.len() as int) == scheme);
        assert(occurs_at(url, scheme, 0));
    }
    lemma_first_nameless(config.providers@, 0);
}

/// A provider without a name is blamed at its own place, the first of them where
/// there are several.
pub proof fn the_first_nameless_provider_is_blamed(providers: Seq<ProviderConfig>, at: int)
    requires
        0 <= at < providers.len(),
        providers[at].name@.len() == 0,
        forall|i: int| 0 <= i < at ==> (#[trigger] providers[i]).name@.len() > 0,
    ensures
        provider_fault(providers) == Some(
            Fault::Invalid(
                "providers[].name"@,
                "provider at index "@ + decimal_text(at as nat) + " has empty name"@,
            ),
        ),
{
    lemma_first_nameless(providers, 0);
}

/// A setting of a client is blamed only for what is wrong with it.
pub proof fn client_faults_name_the_culprit(config: ClientConfig, files: TlsFiles)
    ensures
        match client_fault(config, files) {
            Some(fault) => {
                ||| fault == Fault::Missing("session_name"@) && config.session_name@.len() == 0
                ||| fault == Fault::Invalid("server_url"@, "must start with https://"@)
                    && !occurs_at(config.server_url@, "https://"@, 0)
                ||| fault == Fault::Invalid("batch.max_size"@, "must be greater than zero"@)
                    && config.batch.max_size == 0
                ||| fault == Fault::Invalid("batch.max_delay_ms"@, "must be greater than zero"@)
                    && config.batch.max_delay_ms == 0
                ||| fault == Fault::Invalid(
                    "batch.channel_capacity"@,
                    "must be greater than zero"@,
                ) && config.batch.channel_capacity == 0
                ||| Some(fault) == tls_fault(config.tls, files)
                ||| Some(fault) == provider_fault(config.providers@)
            },
            None => true,
        },
{
}

/// Events are buffered under the program data of Windows, and elsewhere under
/// `/var/lib`.
pub proof fn buffers_stand_where_the_platform_keeps_data()
    ensures
        buffer_path(true) == "C:\\ProgramData\\Chaos\\buffer.db"@,
        buffer_path(false) == "/var/lib/chaos/buffer.db"@,
{
}

} // verus!
