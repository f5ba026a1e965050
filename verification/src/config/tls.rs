//! Transport security settings.
use super::error::{finds, ConfigError, Fault};
use crate::text::{concat, concat3, same};
use vstd::prelude::*;

verus! {

#[derive(Debug, Clone)]
pub struct TlsConfig {
    pub cert_path: String,
    pub key_path: String,
    pub ca_path: String,
    pub server_name: Option<String>,
    pub min_version: String,
}

/// Which of the configured files exist.
#[derive(Debug, Clone, Copy)]
pub struct TlsFiles {
    pub cert: bool,
    pub key: bool,
    pub ca: bool,
}

/// The version used where none is configured.
pub fn default_tls_version() -> (version: String)
    ensures
        version@ == "1.3"@,
{
    "1.3".to_string()
}

/// What is wrong with one file: it is not named, or it is not there.
pub open spec fn file_fault(field: Seq<char>, path: Seq<char>, exists: bool) -> Option<Fault> {
    if path.len() == 0 {
        Some(Fault::Missing(field))
    } else if !exists {
        Some(Fault::Invalid(field, "file does not exist: "@ + path))
    } else {
        None
    }
}

/// The first thing wrong with the settings.
pub open spec fn tls_fault(tls: TlsConfig, files: TlsFiles) -> Option<Fault> {
    let cert = file_fault("tls.cert_path"@, tls.cert_path@, files.cert);
    let key = file_fault("tls.key_path"@, tls.key_path@, files.key);
    let ca = file_fault("tls.ca_path"@, tls.ca_path@, files.ca);
    if cert is Some {
        cert
    } else if key is Some {
        key
    } else if ca is Some {
        ca
    } else if tls.min_version@ != "1.3"@ && tls.min_version@ != "1.2"@ {
        Some(
            Fault::Invalid(
                "tls.min_version"@,
                "must be \"1.2\" or \"1.3\", got \""@ + tls.min_version@ + "\""@,
            ),
        )
    } else {
        None
    }
}

fn check_file(field: &'static str, path: &str, exists: bool) -> (outcome: Result<(), ConfigError>)
    ensures
        finds(outcome, file_fault(field@, path@, exists)),
{
    if path.is_empty() {
        return Err(ConfigError::MissingField { field });
    }
    if !exists {
        return Err(
            ConfigError::InvalidValue { field, reason: concat("file does not exist: ", path) },
        );
    }
    Ok(())
}

impl TlsConfig {
    /// Accepts settings whose files are named and exist and whose minimum
    /// version is 1.2 or 1.3; otherwise reports the first thing wrong.
    pub fn validate(&self, files: TlsFiles) -> (outcome: Result<(), ConfigError>)
        ensures
            finds(outcome, tls_fault(*self, files)),
    {
        match check_file("tls.cert_path", self.cert_path.as_str(), files.cert) {
            Ok(_) => {},
            Err(error) => {
                return Err(error);
            },
        }
        match check_file("tls.key_path", self.key_path.as_str(), files.key) {
            Ok(_) => {},
            Err(error) => {
                return Err(error);
            },
        }
        match check_file("tls.ca_path", self.ca_path.as_str(), files.ca) {
            Ok(_) => {},
            Err(error) => {
                return Err(error);
            },
        }
        if !same(self.min_version.as_str(), "1.3") && !same(self.min_version.as_str(), "1.2") {
            return Err(
                ConfigError::InvalidValue {
                    field: "tls.min_version",
                    reason: concat3(
                        "must be \"1.2\" or \"1.3\", got \"",
                        self.min_version.as_str(),
                        "\"",
                    ),
                },
            );
        }
        Ok(())
    }
}

/// Settings are accepted exactly where all three files are named and exist and
/// the minimum version is 1.2 or 1.3.
pub proof fn accepted_transport_is_complete(tls: TlsConfig, files: TlsFiles)
    ensures
        tls_fault(tls, files) is None <==> {
            &&& tls.cert_path@.len() > 0 && files.cert
            &&& tls.key_path@.len() > 0 && files.key
            &&& tls.ca_path@.len() > 0 && files.ca
            &&& tls.min_version@ == "1.2"@ || tls.min_version@ == "1.3"@
        },
{
}

/// A setting is blamed only for what is wrong with it: a path that is missing for
/// being empty, any other for a file that is not there or a version that is not
/// known.
pub proof fn transport_faults_name_the_culprit(tls: TlsConfig, files: TlsFiles)
    ensures
        match tls_fault(tls, files) {
            Some(Fault::Missing(field)) => {
                ||| field == "tls.cert_path"@ && tls.cert_path@.len() == 0
                ||| field == "tls.key_path"@ && tls.key_path@.len() == 0
                ||| field == "tls.ca_path"@ && tls.ca_path@.len() == 0
            },
            Some(Fault::Invalid(field, why)) => {
                ||| field == "tls.cert_path"@ && !files.cert && why == "file does not exist: "@
                    + tls.cert_path@
                ||| field == "tls.key_path"@ && !files.key && why == "file does not exist: "@
                    + tls.key_path@
                ||| field == "tls.ca_path"@ && !files.ca && why == "file does not exist: "@
                    + tls.ca_path@
                ||| field == "tls.min_version"@ && tls.min_version@ != "1.2"@ && tls.min_version@
                    != "1.3"@
            },
            None => true,
        },
{
}

} // verus!
