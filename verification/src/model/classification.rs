//! How sensitive each named field is.
use crate::text::same;
use vstd::prelude::*;

verus! {

/// How sensitive a field is.
#[derive(Debug, Clone, Copy, PartialEq, Eq, Hash, Structural)]
pub enum DataClass {
    Public,
    Internal,
    Sensitive,
}

/// What stands in the place of a sensitive value.
pub const REDACTED: &'static str = "[REDACTED]";

impl DataClass {
    /// Only sensitive data is redacted.
    pub fn requires_redaction(self) -> (yes: bool)
        ensures
            yes == (self is Sensitive),
    {
        matches!(self, DataClass::Sensitive)
    }

    /// Sensitive data is kept for ninety days, everything else for a year.
    pub fn retention_days(self) -> (days: u32)
        ensures
            days == (if self is Sensitive {
                90u32
            } else {
                365u32
            }),
    {
        match self {
            DataClass::Public | DataClass::Internal => 365,
            DataClass::Sensitive => 90,
        }
    }

    /// Only sensitive data is dropped from cold storage.
    pub fn stripped_in_cold_storage(self) -> (yes: bool)
        ensures
            yes == (self is Sensitive),
    {
        matches!(self, DataClass::Sensitive)
    }

    /// Only sensitive data needs an opt-in to be exported.
    pub fn requires_export_opt_in(self) -> (yes: bool)
        ensures
            yes == (self is Sensitive),
    {
        matches!(self, DataClass::Sensitive)
    }

    pub fn as_str(self) -> (name: &'static str)
        ensures
            name@ == match self {
                DataClass::Public => "public"@,
                DataClass::Internal => "internal"@,
                DataClass::Sensitive => "sensitive"@,
            },
    {
        match self {
            DataClass::Public => "public",
            DataClass::Internal => "internal",
            DataClass::Sensitive => "sensitive",
        }
    }
}

impl Default for DataClass {
    fn default() -> (class: DataClass)
        ensures
            class == DataClass::Sensitive,
    {
        DataClass::Sensitive
    }
}

/// Fields that may be shown to anyone.
pub open spec fn public_field(field: Seq<char>) -> bool {
    ||| field == "pid"@
    ||| field == "parent_pid"@
    ||| field == "tid"@
    ||| field == "exit_code"@
    ||| field == "level"@
    ||| field == "source_port"@
    ||| field == "destination_port"@
    ||| field == "bytes_sent"@
    ||| field == "bytes_received"@
    ||| field == "size"@
    ||| field == "bytes_written"@
    ||| field == "started_at"@
    ||| field == "exited_at"@
    ||| field == "initiated_at"@
    ||| field == "ended_at"@
    ||| field == "created_at"@
    ||| field == "written_at"@
    ||| field == "deleted_at"@
    ||| field == "renamed_at"@
    ||| field == "set_at"@
    ||| field == "queried_at"@
    ||| field == "loaded_at"@
    ||| field == "image_hash"@
    ||| field == "signed"@
    ||| field == "signer"@
    ||| field == "integrity_level"@
    ||| field == "protocol"@
    ||| field == "query_type"@
    ||| field == "response_code"@
    ||| field == "id"@
    ||| field == "event_id"@
    ||| field == "schema_version"@
    ||| field == "source"@
    ||| field == "rule_id"@
    ||| field == "alert_id"@
    ||| field == "severity"@
    ||| field == "status"@
    ||| field == "kind"@
    ||| field == "mitre_techniques"@
    ||| field == "enabled"@
    ||| field == "message_number"@
    ||| field == "message_total"@
    ||| field == "recorded_at"@
}

/// Fields that may be shown inside the organisation.
pub open spec fn internal_field(field: Seq<char>) -> bool {
    ||| field == "source_ip"@
    ||| field == "destination_ip"@
    ||| field == "provider"@
    ||| field == "hostname"@
    ||| field == "os"@
    ||| field == "labels"@
    ||| field == "first_seen"@
    ||| field == "last_seen"@
    ||| field == "script_block_id"@
}

/// Fields that name people, or what they typed, opened or ran.
pub open spec fn sensitive_field(field: Seq<char>) -> bool {
    ||| field == "command_line"@
    ||| field == "user"@
    ||| field == "executable"@
    ||| field == "image_path"@
    ||| field == "path"@
    ||| field == "old_path"@
    ||| field == "new_path"@
    ||| field == "working_directory"@
    ||| field == "key_path"@
    ||| field == "value_name"@
    ||| field == "value_data"@
    ||| field == "query_name"@
    ||| field == "answers"@
    ||| field == "title"@
    ||| field == "description"@
    ||| field == "host"@
    ||| field == "host_id"@
    ||| field == "events"@
    ||| field == "text"@
}

/// The class the table gives a field; `None` for a field it does not name.
pub open spec fn known_class(field: Seq<char>) -> Option<DataClass> {
    if public_field(field) {
        Some(DataClass::Public)
    } else if internal_field(field) {
        Some(DataClass::Internal)
    } else if sensitive_field(field) {
        Some(DataClass::Sensitive)
    } else {
        None
    }
}

/// The class of a field, where a field the table does not name is sensitive.
pub open spec fn field_class(field: Seq<char>) -> DataClass {
    match known_class(field) {
        Some(class) => class,
        None => DataClass::Sensitive,
    }
}

/// The two classifications agree on every field the table names, and a field it
/// does not name fails closed.
pub proof fn classifications_agree(field: Seq<char>)
    ensures
        known_class(field) is Some ==> known_class(field) == Some(field_class(field)),
        known_class(field) is None ==> field_class(field) == DataClass::Sensitive,
{
}

/// The class of a field. A field the table does not name is sensitive.
pub fn class_of(field: &str) -> (class: DataClass)
    ensures
        class == field_class(field@),
{
    match class_of_known(field) {
        Some(class) => class,
        None => DataClass::Sensitive,
    }
}

/// The explicit classification table, without the fail-closed default.
///
/// `None` means the field is not in the table. Callers that need a decision
/// should use [`class_of`] instead; this exists because "we decided this is
/// sensitive" and "we have never heard of this" deserve different handling.
pub fn class_of_known(field: &str) -> (class: Option<DataClass>)
    ensures
        class == known_class(field@),
{
    if same(field, "pid") || same(field, "parent_pid") || same(field, "tid") || same(field, "exit_code") || same(field, "level") || same(field, "source_port") || same(field, "destination_port") || same(field, "bytes_sent") || same(field, "bytes_received") || same(field, "size") || same(field, "bytes_written") || same(field, "started_at") || same(field, "exited_at") || same(field, "initiated_at") || same(field, "ended_at") || same(field, "created_at") || same(field, "written_at") || same(field, "deleted_at") || same(field, "renamed_at") || same(field, "set_at") || same(field, "queried_at") || same(field, "loaded_at") || same(field, "image_hash") || same(field, "signed") || same(field, "signer") || same(field, "integrity_level") || same(field, "protocol") || same(field, "query_type") || same(field, "response_code") || same(field, "id") || same(field, "event_id") || same(field, "schema_version") || same(field, "source") || same(field, "rule_id") || same(field, "alert_id") || same(field, "severity") || same(field, "status") || same(field, "kind") || same(field, "mitre_techniques") || same(field, "enabled") || same(field, "message_number") || same(field, "message_total") || same(field, "recorded_at") {
        Some(DataClass::Public)
    } else if same(field, "source_ip") || same(field, "destination_ip") || same(field, "provider") || same(field, "hostname") || same(field, "os") || same(field, "labels") || same(field, "first_seen") || same(field, "last_seen") || same(field, "script_block_id") {
        Some(DataClass::Internal)
    } else if same(field, "command_line") || same(field, "user") || same(field, "executable") || same(field, "image_path") || same(field, "path") || same(field, "old_path") || same(field, "new_path") || same(field, "working_directory") || same(field, "key_path") || same(field, "value_name") || same(field, "value_data") || same(field, "query_name") || same(field, "answers") || same(field, "title") || same(field, "description") || same(field, "host") || same(field, "host_id") || same(field, "events") || same(field, "text") {
        Some(DataClass::Sensitive)
    } else {
        None
    }
}

} // verus!
