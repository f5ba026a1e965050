//! What the classification table promises, and what redaction makes of it.
use super::classification::{
    field_class, internal_field, known_class, public_field, sensitive_field, DataClass,
};
use super::redact::{redacted, stripped, stripped_pairs};
use super::value::Tree;
use vstd::prelude::*;

verus! {

/// Names of fields that say nothing of a person or a network.
pub open spec fn harmless_names() -> Seq<Seq<char>> {
    seq![
        "pid"@,
        "parent_pid"@,
        "tid"@,
        "exit_code"@,
        "level"@,
        "source_port"@,
        "destination_port"@,
        "bytes_sent"@,
        "bytes_received"@,
        "size"@,
        "bytes_written"@,
        "started_at"@,
        "exited_at"@,
        "initiated_at"@,
        "ended_at"@,
        "created_at"@,
        "written_at"@,
        "deleted_at"@,
        "renamed_at"@,
        "set_at"@,
        "queried_at"@,
        "loaded_at"@,
        "image_hash"@,
        "signed"@,
        "signer"@,
        "integrity_level"@,
        "protocol"@,
        "query_type"@,
        "response_code"@,
        "id"@,
        "event_id"@,
        "schema_version"@,
        "source"@,
        "rule_id"@,
        "alert_id"@,
        "severity"@,
        "status"@,
        "kind"@,
        "mitre_techniques"@,
        "enabled"@,
        "message_number"@,
        "message_total"@,
        "recorded_at"@,
    ]
}

/// Names of fields that say something of a network and nothing of a person.
pub open spec fn network_names() -> Seq<Seq<char>> {
    seq![
        "source_ip"@,
        "destination_ip"@,
        "provider"@,
        "hostname"@,
        "os"@,
        "labels"@,
        "first_seen"@,
        "last_seen"@,
        "script_block_id"@,
    ]
}

/// Names of fields that hold people, or what they typed, opened or ran.
pub open spec fn personal_names() -> Seq<Seq<char>> {
    seq![
        "command_line"@,
        "user"@,
        "executable"@,
        "image_path"@,
        "path"@,
        "old_path"@,
        "new_path"@,
        "working_directory"@,
        "key_path"@,
        "value_name"@,
        "value_data"@,
        "query_name"@,
        "answers"@,
        "title"@,
        "description"@,
        "host"@,
        "host_id"@,
        "events"@,
        "text"@,
    ]
}

proof fn lemma_personal_apart()
    ensures
        forall|i: int|
            0 <= i < personal_names().len() ==> !public_field(#[trigger] personal_names()[i])
                && !internal_field(personal_names()[i]),
{
    reveal_strlit("command_line");
    reveal_strlit("user");
    reveal_strlit("executable");
    reveal_strlit("image_path");
    reveal_strlit("path");
    reveal_strlit("old_path");
    reveal_strlit("new_path");
    reveal_strlit("working_directory");
    reveal_strlit("key_path");
    reveal_strlit("value_name");
    reveal_strlit("value_data");
    reveal_strlit("query_name");
    reveal_strlit("answers");
    reveal_strlit("title");
    reveal_strlit("description");
    reveal_strlit("host");
    reveal_strlit("host_id");
    reveal_strlit("events");
    reveal_strlit("text");
    reveal_strlit("pid");
    reveal_strlit("parent_pid");
    reveal_strlit("tid");
    reveal_strlit("exit_code");
    reveal_strlit("level");
    reveal_strlit("source_port");
    reveal_strlit("destination_port");
    reveal_strlit("bytes_sent");
    reveal_strlit("bytes_received");
    reveal_strlit("size");
    reveal_strlit("bytes_written");
    reveal_strlit("started_at");
    reveal_strlit("exited_at");
    reveal_strlit("initiated_at");
    reveal_strlit("ended_at");
    reveal_strlit("created_at");
    reveal_strlit("written_at");
    reveal_strlit("deleted_at");
    reveal_strlit("renamed_at");
    reveal_strlit("set_at");
    reveal_strlit("queried_at");
    reveal_strlit("loaded_at");
    reveal_strlit("image_hash");
    reveal_strlit("signed");
    reveal_strlit("signer");
    reveal_strlit("integrity_level");
    reveal_strlit("protocol");
    reveal_strlit("query_type");
    reveal_strlit("response_code");
    reveal_strlit("id");
    reveal_strlit("event_id");
    reveal_strlit("schema_version");
    reveal_strlit("source");
    reveal_strlit("rule_id");
    reveal_strlit("alert_id");
    reveal_strlit("severity");
    reveal_strlit("status");
    reveal_strlit("kind");
    reveal_strlit("mitre_techniques");
    reveal_strlit("enabled");
    reveal_strlit("message_number");
    reveal_strlit("message_total");
    reveal_strlit("recorded_at");
    reveal_strlit("source_ip");
    reveal_strlit("destination_ip");
    reveal_strlit("provider");
    reveal_strlit("hostname");
    reveal_strlit("os");
    reveal_strlit("labels");
    reveal_strlit("first_seen");
    reveal_strlit("last_seen");
    reveal_strlit("script_block_id");
    assert("command_line"@.len() == 12);
    assert("user"@.len() == 4);
    assert("executable"@.len() == 10);
    assert("image_path"@.len() == 10);
    assert("path"@.len() == 4);
    assert("old_path"@.len() == 8);
    assert("new_path"@.len() == 8);
    assert("working_directory"@.len() == 17);
    assert("key_path"@.len() == 8);
    assert("value_name"@.len() == 10);
    assert("value_data"@.len() == 10);
    assert("query_name"@.len() == 10);
    assert("answers"@.len() == 7);
    assert("title"@.len() == 5);
    assert("description"@.len() == 11);
    assert("host"@.len() == 4);
    assert("host_id"@.len() == 7);
    assert("events"@.len() == 6);
    assert("text"@.len() == 4);
    assert("pid"@.len() == 3);
    assert("parent_pid"@.len() == 10);
    assert("tid"@.len() == 3);
    assert("exit_code"@.len() == 9);
    assert("level"@.len() == 5);
    assert("source_port"@.len() == 11);
    assert("destination_port"@.len() == 16);
    assert("bytes_sent"@.len() == 10);
    assert("bytes_received"@.len() == 14);
    assert("size"@.len() == 4);
    assert("bytes_written"@.len() == 13);
    assert("started_at"@.len() == 10);
    assert("exited_at"@.len() == 9);
    assert("initiated_at"@.len() == 12);
    assert("ended_at"@.len() == 8);
    assert("created_at"@.len() == 10);
    assert("written_at"@.len() == 10);
    assert("deleted_at"@.len() == 10);
    assert("renamed_at"@.len() == 10);
    assert("set_at"@.len() == 6);
    assert("queried_at"@.len() == 10);
    assert("loaded_at"@.len() == 9);
    assert("image_hash"@.len() == 10);
    assert("signed"@.len() == 6);
    assert("signer"@.len() == 6);
    assert("integrity_level"@.len() == 15);
    assert("protocol"@.len() == 8);
    assert("query_type"@.len() == 10);
    assert("response_code"@.len() == 13);
    assert("id"@.len() == 2);
    assert("event_id"@.len() == 8);
    assert("schema_version"@.len() == 14);
    assert("source"@.len() == 6);
    assert("rule_id"@.len() == 7);
    assert("alert_id"@.len() == 8);
    assert("severity"@.len() == 8);
    assert("status"@.len() == 6);
    assert("kind"@.len() == 4);
    assert("mitre_techniques"@.len() == 16);
    assert("enabled"@.len() == 7);
    assert("message_number"@.len() == 14);
    assert("message_total"@.len() == 13);
    assert("recorded_at"@.len() == 11);
    assert("source_ip"@.len() == 9);
    assert("destination_ip"@.len() == 14);
    assert("provider"@.len() == 8);
    assert("hostname"@.len() == 8);
    assert("os"@.len() == 2);
    assert("labels"@.len() == 6);
    assert("first_seen"@.len() == 10);
    assert("last_seen"@.len() == 9);
    assert("script_block_id"@.len() == 15);
    assert(!public_field("command_line"@) && !internal_field("command_line"@)) by {
        assert("command_line"@[0] != "initiated_at"@[0]);
    }
    assert(!public_field("user"@) && !internal_field("user"@)) by {
        assert("user"@[0] != "size"@[0]);
        assert("user"@[0] != "kind"@[0]);
    }
    assert(!public_field("executable"@) && !internal_field("executable"@)) by {
        assert("executable"@[0] != "parent_pid"@[0]);
        assert("executable"@[0] != "bytes_sent"@[0]);
        assert("executable"@[0] != "started_at"@[0]);
        assert("executable"@[0] != "created_at"@[0]);
        assert("executable"@[0] != "written_at"@[0]);
        assert("executable"@[0] != "deleted_at"@[0]);
        assert("executable"@[0] != "renamed_at"@[0]);
        assert("executable"@[0] != "queried_at"@[0]);
        assert("executable"@[0] != "image_hash"@[0]);
        assert("executable"@[0] != "query_type"@[0]);
        assert("executable"@[0] != "first_seen"@[0]);
    }
    assert(!public_field("image_path"@) && !internal_field("image_path"@)) by {
        assert("image_path"@[0] != "parent_pid"@[0]);
        assert("image_path"@[0] != "bytes_sent"@[0]);
        assert("image_path"@[0] != "started_at"@[0]);
        assert("image_path"@[0] != "created_at"@[0]);
        assert("image_path"@[0] != "written_at"@[0]);
        assert("image_path"@[0] != "deleted_at"@[0]);
        assert("image_path"@[0] != "renamed_at"@[0]);
        assert("image_path"@[0] != "queried_at"@[0]);
        assert("image_path"@[6] != "image_hash"@[6]);
        assert("image_path"@[0] != "query_type"@[0]);
        assert("image_path"@[0] != "first_seen"@[0]);
    }
    assert(!public_field("path"@) && !internal_field("path"@)) by {
        assert("path"@[0] != "size"@[0]);
        assert("path"@[0] != "kind"@[0]);
    }
    assert(!public_field("old_path"@) && !internal_field("old_path"@)) by {
        assert("old_path"@[0] != "ended_at"@[0]);
        assert("old_path"@[0] != "protocol"@[0]);
        assert("old_path"@[0] != "event_id"@[0]);
        assert("old_path"@[0] != "alert_id"@[0]);
        assert("old_path"@[0] != "severity"@[0]);
        assert("old_path"@[0] != "provider"@[0]);
        assert("old_path"@[0] != "hostname"@[0]);
    }
    assert(!public_field("new_path"@) && !internal_field("new_path"@)) by {
        assert("new_path"@[0] != "ended_at"@[0]);
        assert("new_path"@[0] != "protocol"@[0]);
        assert("new_path"@[0] != "event_id"@[0]);
        assert("new_path"@[0] != "alert_id"@[0]);
        assert("new_path"@[0] != "severity"@[0]);
        assert("new_path"@[0] != "provider"@[0]);
        assert("new_path"@[0] != "hostname"@[0]);
    }
    assert(!public_field("working_directory"@) && !internal_field("working_directory"@)) by {
    }
    assert(!public_field("key_path"@) && !internal_field("key_path"@)) by {
        assert("key_path"@[0] != "ended_at"@[0]);
        assert("key_path"@[0] != "protocol"@[0]);
        assert("key_path"@[0] != "event_id"@[0]);
        assert("key_path"@[0] != "alert_id"@[0]);
        assert("key_path"@[0] != "severity"@[0]);
        assert("key_path"@[0] != "provider"@[0]);
        assert("key_path"@[0] != "hostname"@[0]);
    }
    assert(!public_field("value_name"@) && !internal_field("value_name"@)) by {
        assert("value_name"@[0] != "parent_pid"@[0]);
        assert("value_name"@[0] != "bytes_sent"@[0]);
        assert("value_name"@[0] != "started_at"@[0]);
        assert("value_name"@[0] != "created_at"@[0]);
        assert("value_name"@[0] != "written_at"@[0]);
        assert("value_name"@[0] != "deleted_at"@[0]);
        assert("value_name"@[0] != "renamed_at"@[0]);
        assert("value_name"@[0] != "queried_at"@[0]);
        assert("value_name"@[0] != "image_hash"@[0]);
        assert("value_name"@[0] != "query_type"@[0]);
        assert("value_name"@[0] != "first_seen"@[0]);
    }
    assert(!public_field("value_data"@) && !internal_field("value_data"@)) by {
        assert("value_data"@[0] != "parent_pid"@[0]);
        assert("value_data"@[0] != "bytes_sent"@[0]);
        assert("value_data"@[0] != "started_at"@[0]);
        assert("value_data"@[0] != "created_at"@[0]);
        assert("value_data"@[0] != "written_at"@[0]);
        assert("value_data"@[0] != "deleted_at"@[0]);
        assert("value_data"@[0] != "renamed_at"@[0]);
        assert("value_data"@[0] != "queried_at"@[0]);
        assert("value_data"@[0] != "image_hash"@[0]);
        assert("value_data"@[0] != "query_type"@[0]);
        assert("value_data"@[0] != "first_seen"@[0]);
    }
    assert(!public_field("query_name"@) && !internal_field("query_name"@)) by {
        assert("query_name"@[0] != "parent_pid"@[0]);
        assert("query_name"@[0] != "bytes_sent"@[0]);
        assert("query_name"@[0] != "started_at"@[0]);
        assert("query_name"@[0] != "created_at"@[0]);
        assert("query_name"@[0] != "written_at"@[0]);
        assert("query_name"@[0] != "deleted_at"@[0]);
        assert("query_name"@[0] != "renamed_at"@[0]);
        assert("query_name"@[4] != "queried_at"@[4]);
        assert("query_name"@[0] != "image_hash"@[0]);
        assert("query_name"@[6] != "query_type"@[6]);
        assert("query_name"@[0] != "first_seen"@[0]);
    }
    assert(!public_field("answers"@) && !internal_field("answers"@)) by {
        assert("answers"@[0] != "rule_id"@[0]);
        assert("answers"@[0] != "enabled"@[0]);
    }
    assert(!public_field("title"@) && !internal_field("title"@)) by {
        assert("title"@[0] != "level"@[0]);
    }
    assert(!public_field("description"@) && !internal_field("description"@)) by {
        assert("description"@[0] != "source_port"@[0]);
        assert("description"@[0] != "recorded_at"@[0]);
    }
    assert(!public_field("host"@) && !internal_field("host"@)) by {
        assert("host"@[0] != "size"@[0]);
        assert("host"@[0] != "kind"@[0]);
    }
    assert(!public_field("host_id"@) && !internal_field("host_id"@)) by {
        assert("host_id"@[0] != "rule_id"@[0]);
        assert("host_id"@[0] != "enabled"@[0]);
    }
    assert(!public_field("events"@) && !internal_field("events"@)) by {
        assert("events"@[0] != "set_at"@[0]);
        assert("events"@[0] != "signed"@[0]);
        assert("events"@[0] != "signer"@[0]);
        assert("events"@[0] != "source"@[0]);
        assert("events"@[0] != "status"@[0]);
        assert("events"@[0] != "labels"@[0]);
    }
    assert(!public_field("text"@) && !internal_field("text"@)) by {
        assert("text"@[0] != "size"@[0]);
        assert("text"@[0] != "kind"@[0]);
    }
    let names = personal_names();
    assert(names[0] == "command_line"@);
    assert(names[1] == "user"@);
    assert(names[2] == "executable"@);
    assert(names[3] == "image_path"@);
    assert(names[4] == "path"@);
    assert(names[5] == "old_path"@);
    assert(names[6] == "new_path"@);
    assert(names[7] == "working_directory"@);
    assert(names[8] == "key_path"@);
    assert(names[9] == "value_name"@);
    assert(names[10] == "value_data"@);
    assert(names[11] == "query_name"@);
    assert(names[12] == "answers"@);
    assert(names[13] == "title"@);
    assert(names[14] == "description"@);
    assert(names[15] == "host"@);
    assert(names[16] == "host_id"@);
    assert(names[17] == "events"@);
    assert(names[18] == "text"@);
}

proof fn lemma_network_apart()
    ensures
        forall|i: int|
            0 <= i < network_names().len() ==> !public_field(#[trigger] network_names()[i]),
{
    reveal_strlit("source_ip");
    reveal_strlit("destination_ip");
    reveal_strlit("provider");
    reveal_strlit("hostname");
    reveal_strlit("os");
    reveal_strlit("labels");
    reveal_strlit("first_seen");
    reveal_strlit("last_seen");
    reveal_strlit("script_block_id");
    reveal_strlit("pid");
    reveal_strlit("parent_pid");
    reveal_strlit("tid");
    reveal_strlit("exit_code");
    reveal_strlit("level");
    reveal_strlit("source_port");
    reveal_strlit("destination_port");
    reveal_strlit("bytes_sent");
    reveal_strlit("bytes_received");
    reveal_strlit("size");
    reveal_strlit("bytes_written");
    reveal_strlit("started_at");
    reveal_strlit("exited_at");
    reveal_strlit("initiated_at");
    reveal_strlit("ended_at");
    reveal_strlit("created_at");
    reveal_strlit("written_at");
    reveal_strlit("deleted_at");
    reveal_strlit("renamed_at");
    reveal_strlit("set_at");
    reveal_strlit("queried_at");
    reveal_strlit("loaded_at");
    reveal_strlit("image_hash");
    reveal_strlit("signed");
    reveal_strlit("signer");
    reveal_strlit("integrity_level");
    reveal_strlit("protocol");
    reveal_strlit("query_type");
    reveal_strlit("response_code");
    reveal_strlit("id");
    reveal_strlit("event_id");
    reveal_strlit("schema_version");
    reveal_strlit("source");
    reveal_strlit("rule_id");
    reveal_strlit("alert_id");
    reveal_strlit("severity");
    reveal_strlit("status");
    reveal_strlit("kind");
    reveal_strlit("mitre_techniques");
    reveal_strlit("enabled");
    reveal_strlit("message_number");
    reveal_strlit("message_total");
    reveal_strlit("recorded_at");
    assert("source_ip"@.len() == 9);
    assert("destination_ip"@.len() == 14);
    assert("provider"@.len() == 8);
    assert("hostname"@.len() == 8);
    assert("os"@.len() == 2);
    assert("labels"@.len() == 6);
    assert("first_seen"@.len() == 10);
    assert("last_seen"@.len() == 9);
    assert("script_block_id"@.len() == 15);
    assert("pid"@.len() == 3);
    assert("parent_pid"@.len() == 10);
    assert("tid"@.len() == 3);
    assert("exit_code"@.len() == 9);
    assert("level"@.len() == 5);
    assert("source_port"@.len() == 11);
    assert("destination_port"@.len() == 16);
    assert("bytes_sent"@.len() == 10);
    assert("bytes_received"@.len() == 14);
    assert("size"@.len() == 4);
    assert("bytes_written"@.len() == 13);
    assert("started_at"@.len() == 10);
    assert("exited_at"@.len() == 9);
    assert("initiated_at"@.len() == 12);
    assert("ended_at"@.len() == 8);
    assert("created_at"@.len() == 10);
    assert("written_at"@.len() == 10);
    assert("deleted_at"@.len() == 10);
    assert("renamed_at"@.len() == 10);
    assert("set_at"@.len() == 6);
    assert("queried_at"@.len() == 10);
    assert("loaded_at"@.len() == 9);
    assert("image_hash"@.len() == 10);
    assert("signed"@.len() == 6);
    assert("signer"@.len() == 6);
    assert("integrity_level"@.len() == 15);
    assert("protocol"@.len() == 8);
    assert("query_type"@.len() == 10);
    assert("response_code"@.len() == 13);
    assert("id"@.len() == 2);
    assert("event_id"@.len() == 8);
    assert("schema_version"@.len() == 14);
    assert("source"@.len() == 6);
    assert("rule_id"@.len() == 7);
    assert("alert_id"@.len() == 8);
    assert("severity"@.len() == 8);
    assert("status"@.len() == 6);
    assert("kind"@.len() == 4);
    assert("mitre_techniques"@.len() == 16);
    assert("enabled"@.len() == 7);
    assert("message_number"@.len() == 14);
    assert("message_total"@.len() == 13);
    assert("recorded_at"@.len() == 11);
    assert(!public_field("source_ip"@)) by {
        assert("source_ip"@[0] != "exit_code"@[0]);
        assert("source_ip"@[0] != "exited_at"@[0]);
        assert("source_ip"@[0] != "loaded_at"@[0]);
    }
    assert(!public_field("destination_ip"@)) by {
        assert("destination_ip"@[0] != "bytes_received"@[0]);
        assert("destination_ip"@[0] != "schema_version"@[0]);
        assert("destination_ip"@[0] != "message_number"@[0]);
    }
    assert(!public_field("provider"@)) by {
        assert("provider"@[0] != "ended_at"@[0]);
        assert("provider"@[3] != "protocol"@[3]);
        assert("provider"@[0] != "event_id"@[0]);
        assert("provider"@[0] != "alert_id"@[0]);
        assert("provider"@[0] != "severity"@[0]);
    }
    assert(!public_field("hostname"@)) by {
        assert("hostname"@[0] != "ended_at"@[0]);
        assert("hostname"@[0] != "protocol"@[0]);
        assert("hostname"@[0] != "event_id"@[0]);
        assert("hostname"@[0] != "alert_id"@[0]);
        assert("hostname"@[0] != "severity"@[0]);
    }
    assert(!public_field("os"@)) by {
        assert("os"@[0] != "id"@[0]);
    }
    assert(!public_field("labels"@)) by {
        assert("labels"@[0] != "set_at"@[0]);
        assert("labels"@[0] != "signed"@[0]);
        assert("labels"@[0] != "signer"@[0]);
        assert("labels"@[0] != "source"@[0]);
        assert("labels"@[0] != "status"@[0]);
    }
    assert(!public_field("first_seen"@)) by {
        assert("first_seen"@[0] != "parent_pid"@[0]);
        assert("first_seen"@[0] != "bytes_sent"@[0]);
        assert("first_seen"@[0] != "started_at"@[0]);
        assert("first_seen"@[0] != "created_at"@[0]);
        assert("first_seen"@[0] != "written_at"@[0]);
        assert("first_seen"@[0] != "deleted_at"@[0]);
        assert("first_seen"@[0] != "renamed_at"@[0]);
        assert("first_seen"@[0] != "queried_at"@[0]);
        assert("first_seen"@[0] != "image_hash"@[0]);
        assert("first_seen"@[0] != "query_type"@[0]);
    }
    assert(!public_field("last_seen"@)) by {
        assert("last_seen"@[0] != "exit_code"@[0]);
        assert("last_seen"@[0] != "exited_at"@[0]);
        assert("last_seen"@[1] != "loaded_at"@[1]);
    }
    assert(!public_field("script_block_id"@)) by {
        assert("script_block_id"@[0] != "integrity_level"@[0]);
    }
    let names = network_names();
    assert(names[0] == "source_ip"@);
    assert(names[1] == "destination_ip"@);
    assert(names[2] == "provider"@);
    assert(names[3] == "hostname"@);
    assert(names[4] == "os"@);
    assert(names[5] == "labels"@);
    assert(names[6] == "first_seen"@);
    assert(names[7] == "last_seen"@);
    assert(names[8] == "script_block_id"@);
}

/// The table in full: each name has the class of its kind and no other, and a name
/// of no kind is not in the table.
pub proof fn fields_are_classified_by_what_they_hold(field: Seq<char>)
    ensures
        known_class(field) == Some(DataClass::Public) <==> harmless_names().contains(field),
        known_class(field) == Some(DataClass::Internal) <==> network_names().contains(field),
        known_class(field) == Some(DataClass::Sensitive) <==> personal_names().contains(field),
{
    lemma_personal_apart();
    lemma_network_apart();
    let h = harmless_names();
    let n = network_names();
    let s = personal_names();
    assert(public_field(field) <==> h.contains(field)) by {
        assert(h[0] == "pid"@);
        assert(h[1] == "parent_pid"@);
        assert(h[2] == "tid"@);
        assert(h[3] == "exit_code"@);
        assert(h[4] == "level"@);
        assert(h[5] == "source_port"@);
        assert(h[6] == "destination_port"@);
        assert(h[7] == "bytes_sent"@);
        assert(h[8] == "bytes_received"@);
        assert(h[9] == "size"@);
        assert(h[10] == "bytes_written"@);
        assert(h[11] == "started_at"@);
        assert(h[12] == "exited_at"@);
        assert(h[13] == "initiated_at"@);
        assert(h[14] == "ended_at"@);
        assert(h[15] == "created_at"@);
        assert(h[16] == "written_at"@);
        assert(h[17] == "deleted_at"@);
        assert(h[18] == "renamed_at"@);
        assert(h[19] == "set_at"@);
        assert(h[20] == "queried_at"@);
        assert(h[21] == "loaded_at"@);
        assert(h[22] == "image_hash"@);
        assert(h[23] == "signed"@);
        assert(h[24] == "signer"@);
        assert(h[25] == "integrity_level"@);
        assert(h[26] == "protocol"@);
        assert(h[27] == "query_type"@);
        assert(h[28] == "response_code"@);
        assert(h[29] == "id"@);
        assert(h[30] == "event_id"@);
        assert(h[31] == "schema_version"@);
        assert(h[32] == "source"@);
        assert(h[33] == "rule_id"@);
        assert(h[34] == "alert_id"@);
        assert(h[35] == "severity"@);
        assert(h[36] == "status"@);
        assert(h[37] == "kind"@);
        assert(h[38] == "mitre_techniques"@);
        assert(h[39] == "enabled"@);
        assert(h[40] == "message_number"@);
        assert(h[41] == "message_total"@);
        assert(h[42] == "recorded_at"@);
    }
    assert(internal_field(field) <==> n.contains(field)) by {
        assert(n[0] == "source_ip"@);
        assert(n[1] == "destination_ip"@);
        assert(n[2] == "provider"@);
        assert(n[3] == "hostname"@);
        assert(n[4] == "os"@);
        assert(n[5] == "labels"@);
        assert(n[6] == "first_seen"@);
        assert(n[7] == "last_seen"@);
        assert(n[8] == "script_block_id"@);
    }
    assert(sensitive_field(field) <==> s.contains(field)) by {
        assert(s[0] == "command_line"@);
        assert(s[1] == "user"@);
        assert(s[2] == "executable"@);
        assert(s[3] == "image_path"@);
        assert(s[4] == "path"@);
        assert(s[5] == "old_path"@);
        assert(s[6] == "new_path"@);
        assert(s[7] == "working_directory"@);
        assert(s[8] == "key_path"@);
        assert(s[9] == "value_name"@);
        assert(s[10] == "value_data"@);
        assert(s[11] == "query_name"@);
        assert(s[12] == "answers"@);
        assert(s[13] == "title"@);
        assert(s[14] == "description"@);
        assert(s[15] == "host"@);
        assert(s[16] == "host_id"@);
        assert(s[17] == "events"@);
        assert(s[18] == "text"@);
    }
}

/// What is personal, and what nobody has classified, is sensitive; a field is
/// shown only where the table says that it may be.
pub proof fn only_classified_fields_are_shown(field: Seq<char>)
    ensures
        personal_names().contains(field) ==> field_class(field) == DataClass::Sensitive,
        field_class(field) != DataClass::Sensitive <==> harmless_names().contains(field)
            || network_names().contains(field),
{
    fields_are_classified_by_what_they_hold(field);
}

/// The value a name is redacted to: the marker where the name is personal, and
/// where nobody has classified it and it holds no other names; otherwise the value,
/// redacted in turn.
pub proof fn redaction_replaces_what_is_personal(
    pairs: Seq<(Seq<char>, Tree)>,
    i: int,
)
    requires
        0 <= i < pairs.len(),
    ensures
        redacted(Tree::Object(pairs)) is Object,
        ({
            let out = redacted(Tree::Object(pairs))->Object_0;
            let name = pairs[i].0;
            let shown = harmless_names().contains(name) || network_names().contains(name);
            let holder = pairs[i].1 is Object || pairs[i].1 is Array;
            &&& out.len() == pairs.len()
            &&& out[i].0 == name
            &&& out[i].1 == if personal_names().contains(name) || !shown && !holder {
                Tree::Text("[REDACTED]"@)
            } else {
                redacted(pairs[i].1)
            }
        }),
        pairs[i].1 is Null || pairs[i].1 is Text ==> redacted(pairs[i].1) == pairs[i].1,
{
    fields_are_classified_by_what_they_hold(pairs[i].0);
}

/// Stripping keeps a name exactly where the table says that it may be shown, and
/// strips what it holds in turn; the names that stay keep their order.
pub proof fn stripping_keeps_what_may_be_shown(
    pairs: Seq<(Seq<char>, Tree)>,
    last: (Seq<char>, Tree),
)
    ensures
        stripped(Tree::Object(seq![])) == Tree::Object(seq![]),
        stripped(Tree::Object(pairs)) is Object,
        ({
            let front = stripped(Tree::Object(pairs))->Object_0;
            let shown = harmless_names().contains(last.0) || network_names().contains(last.0);
            stripped(Tree::Object(pairs.push(last))) == Tree::Object(
                if shown {
                    front.push((last.0, stripped(last.1)))
                } else {
                    front
                },
            )
        }),
{
    fields_are_classified_by_what_they_hold(last.0);
    lemma_stripped_prefix(pairs, last, pairs.len());
    let more = pairs.push(last);
    assert(more[pairs.len() as int] == last);
    reveal_with_fuel(stripped, 2);
    reveal_with_fuel(stripped_pairs, 2);
    assert(stripped(Tree::Object(more)) == Tree::Object(stripped_pairs(more, more.len())));
}

proof fn lemma_stripped_prefix(
    pairs: Seq<(Seq<char>, Tree)>,
    last: (Seq<char>, Tree),
    n: nat,
)
    requires
        n <= pairs.len(),
    ensures
        stripped_pairs(pairs.push(last), n) == stripped_pairs(pairs, n),
    decreases n,
{
    if n > 0 {
        lemma_stripped_prefix(pairs, last, (n - 1) as nat);
        assert(pairs.push(last)[n - 1] == pairs[n - 1]);
    }
}

} // verus!
