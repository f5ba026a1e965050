//! What a SIGMA rule sees of each event.
use super::view::{
    category_fields, category_known, comma_joined, datum_text, event_fields, field_datum,
    kind_category, mappable, universal, unsigned_status, Datum, CATEGORIES, UNIVERSAL_FIELDS,
};
use crate::model::event::TelemetryEvent;
use crate::model::kind::EventKind;
use crate::text::integer_text;
use vstd::prelude::*;

verus! {

/// Every name a view may give a field.
pub open spec fn field_names_known() -> Seq<Seq<char>> {
    seq![
        "EventID"@,
        "Provider_Name"@,
        "Channel"@,
        "Image"@,
        "CommandLine"@,
        "ParentImage"@,
        "ParentProcessId"@,
        "ProcessId"@,
        "User"@,
        "ExitCode"@,
        "ImageLoaded"@,
        "Signed"@,
        "Signature"@,
        "TargetObject"@,
        "Details"@,
        "TargetFilename"@,
        "SourceFilename"@,
        "QueryName"@,
        "QueryResults"@,
        "SourceIp"@,
        "SourcePort"@,
        "DestinationIp"@,
        "DestinationPort"@,
        "Protocol"@,
        "ScriptBlockText"@,
        "ScriptBlockId"@,
        "Path"@,
    ]
}

proof fn lemma_fields_apart()
    ensures
        forall|i: int, j: int|
            0 <= i < j < field_names_known().len() ==> #[trigger] field_names_known()[i] != #[trigger] field_names_known()[j],
{
    let all = field_names_known();
    reveal_strlit("EventID");
    reveal_strlit("Provider_Name");
    reveal_strlit("Channel");
    reveal_strlit("Image");
    reveal_strlit("CommandLine");
    reveal_strlit("ParentImage");
    reveal_strlit("ParentProcessId");
    reveal_strlit("ProcessId");
    reveal_strlit("User");
    reveal_strlit("ExitCode");
    reveal_strlit("ImageLoaded");
    reveal_strlit("Signed");
    reveal_strlit("Signature");
    reveal_strlit("TargetObject");
    reveal_strlit("Details");
    reveal_strlit("TargetFilename");
    reveal_strlit("SourceFilename");
    reveal_strlit("QueryName");
    reveal_strlit("QueryResults");
    reveal_strlit("SourceIp");
    reveal_strlit("SourcePort");
    reveal_strlit("DestinationIp");
    reveal_strlit("DestinationPort");
    reveal_strlit("Protocol");
    reveal_strlit("ScriptBlockText");
    reveal_strlit("ScriptBlockId");
    reveal_strlit("Path");
    assert(all[0].len() == 7);
    assert(all[1].len() == 13);
    assert(all[2].len() == 7);
    assert(all[3].len() == 5);
    assert(all[4].len() == 11);
    assert(all[5].len() == 11);
    assert(all[6].len() == 15);
    assert(all[7].len() == 9);
    assert(all[8].len() == 4);
    assert(all[9].len() == 8);
    assert(all[10].len() == 11);
    assert(all[11].len() == 6);
    assert(all[12].len() == 9);
    assert(all[13].len() == 12);
    assert(all[14].len() == 7);
    assert(all[15].len() == 14);
    assert(all[16].len() == 14);
    assert(all[17].len() == 9);
    assert(all[18].len() == 12);
    assert(all[19].len() == 8);
    assert(all[20].len() == 10);
    assert(all[21].len() == 13);
    assert(all[22].len() == 15);
    assert(all[23].len() == 8);
    assert(all[24].len() == 15);
    assert(all[25].len() == 13);
    assert(all[26].len() == 4);
    assert(all[0][0] != all[2][0]);
    assert(all[0][0] != all[14][0]);
    assert(all[1][0] != all[21][0]);
    assert(all[1][0] != all[25][0]);
    assert(all[2][0] != all[14][0]);
    assert(all[4][0] != all[5][0]);
    assert(all[4][0] != all[10][0]);
    assert(all[5][0] != all[10][0]);
    assert(all[6][0] != all[22][0]);
    assert(all[6][0] != all[24][0]);
    assert(all[7][0] != all[12][0]);
    assert(all[7][0] != all[17][0]);
    assert(all[8][0] != all[26][0]);
    assert(all[9][0] != all[19][0]);
    assert(all[9][0] != all[23][0]);
    assert(all[12][0] != all[17][0]);
    assert(all[13][0] != all[18][0]);
    assert(all[15][0] != all[16][0]);
    assert(all[19][0] != all[23][0]);
    assert(all[21][0] != all[25][0]);
    assert(all[22][0] != all[24][0]);
}

/// Every category there are views of.
pub open spec fn category_names() -> Seq<Seq<char>> {
    seq![
        "process_creation"@,
        "process_termination"@,
        "image_load"@,
        "registry_set"@,
        "file_event"@,
        "file_delete"@,
        "file_rename"@,
        "dns_query"@,
        "network_connection"@,
        "ps_script"@,
    ]
}

proof fn lemma_categories_apart()
    ensures
        forall|i: int, j: int|
            0 <= i < j < category_names().len() ==> #[trigger] category_names()[i] != #[trigger] category_names()[j],
{
    let all = category_names();
    reveal_strlit("process_creation");
    reveal_strlit("process_termination");
    reveal_strlit("image_load");
    reveal_strlit("registry_set");
    reveal_strlit("file_event");
    reveal_strlit("file_delete");
    reveal_strlit("file_rename");
    reveal_strlit("dns_query");
    reveal_strlit("network_connection");
    reveal_strlit("ps_script");
    assert(all[0].len() == 16);
    assert(all[1].len() == 19);
    assert(all[2].len() == 10);
    assert(all[3].len() == 12);
    assert(all[4].len() == 10);
    assert(all[5].len() == 11);
    assert(all[6].len() == 11);
    assert(all[7].len() == 9);
    assert(all[8].len() == 18);
    assert(all[9].len() == 9);
    assert(all[2][0] != all[4][0]);
    assert(all[5][5] != all[6][5]);
    assert(all[7][0] != all[9][0]);
}

/// The datum of an optional text.
pub open spec fn text_datum(text: Option<String>) -> Option<Datum> {
    match text {
        Some(s) => Some(Datum::Text(s@)),
        None => None,
    }
}

/// A start shows its image, command line, parent and user, each as the event has it.
pub proof fn starts_show_what_they_carry(event: TelemetryEvent)
    requires
        event.kind is ProcessStart,
    ensures
        ({
            let p = event.kind->ProcessStart_0;
            let fields = event_fields(event);
            &&& field_datum(fields, "Image"@) == Some(Datum::Text(p.executable@))
            &&& field_datum(fields, "CommandLine"@) == text_datum(p.command_line)
            &&& field_datum(fields, "ParentImage"@) == text_datum(p.parent_image)
            &&& field_datum(fields, "User"@) == text_datum(p.user)
            &&& field_datum(fields, "ProcessId"@) == Some(Datum::Int(p.pid.0 as int))
            &&& field_datum(fields, "ParentProcessId"@) == (match p.parent_pid {
                Some(pid) => Some(Datum::Int(pid.0 as int)),
                None => None,
            })
        }),
{
    lemma_fields_apart();
    let all = field_names_known();
    assert(all[0] == "EventID"@);
    assert(all[1] == "Provider_Name"@);
    assert(all[2] == "Channel"@);
    assert(all[3] == "Image"@);
    assert(all[4] == "CommandLine"@);
    assert(all[5] == "ParentImage"@);
    assert(all[8] == "User"@);
    assert(all[7] == "ProcessId"@);
    assert(all[6] == "ParentProcessId"@);
}

/// An exit shows its code as the unsigned number it is known by.
pub proof fn exits_show_what_they_carry(event: TelemetryEvent)
    requires
        event.kind is ProcessExit,
    ensures
        ({
            let e = event.kind->ProcessExit_0;
            let fields = event_fields(event);
            &&& field_datum(fields, "ProcessId"@) == Some(Datum::Int(e.pid.0 as int))
            &&& field_datum(fields, "ExitCode"@) == (match e.exit_code {
                Some(code) => Some(
                    Datum::Int(
                        if code >= 0 {
                            code as int
                        } else {
                            code + 0x1_0000_0000
                        },
                    ),
                ),
                None => None,
            })
        }),
{
    lemma_fields_apart();
    let all = field_names_known();
    assert(all[0] == "EventID"@);
    assert(all[1] == "Provider_Name"@);
    assert(all[2] == "Channel"@);
    assert(all[7] == "ProcessId"@);
    assert(all[9] == "ExitCode"@);
}

/// A load shows the image, and of its signature what is known.
pub proof fn loads_show_what_they_carry(event: TelemetryEvent)
    requires
        event.kind is ImageLoad,
    ensures
        ({
            let i = event.kind->ImageLoad_0;
            let fields = event_fields(event);
            &&& field_datum(fields, "ImageLoaded"@) == Some(Datum::Text(i.image_path@))
            &&& field_datum(fields, "Signature"@) == text_datum(i.signer)
            &&& field_datum(fields, "ProcessId"@) == Some(Datum::Int(i.pid.0 as int))
            &&& field_datum(fields, "Signed"@) == (match i.signed {
                Some(signed) => Some(Datum::Bool(signed)),
                None => None,
            })
        }),
{
    lemma_fields_apart();
    let all = field_names_known();
    assert(all[0] == "EventID"@);
    assert(all[1] == "Provider_Name"@);
    assert(all[2] == "Channel"@);
    assert(all[10] == "ImageLoaded"@);
    assert(all[12] == "Signature"@);
    assert(all[7] == "ProcessId"@);
    assert(all[11] == "Signed"@);
}

/// A registry write shows the key with the value's name below it, and the data.
pub proof fn registry_writes_show_what_they_carry(event: TelemetryEvent)
    requires
        event.kind is RegistrySet,
    ensures
        ({
            let r = event.kind->RegistrySet_0;
            let fields = event_fields(event);
            &&& field_datum(fields, "TargetObject"@) == Some(
                Datum::Text(
                    match r.value_name {
                        Some(name) => r.key_path@ + "\\"@ + name@,
                        None => r.key_path@,
                    },
                ),
            )
            &&& field_datum(fields, "Details"@) == text_datum(r.value_data)
            &&& field_datum(fields, "ProcessId"@) == Some(Datum::Int(r.pid.0 as int))
        }),
{
    lemma_fields_apart();
    let all = field_names_known();
    assert(all[0] == "EventID"@);
    assert(all[1] == "Provider_Name"@);
    assert(all[2] == "Channel"@);
    assert(all[13] == "TargetObject"@);
    assert(all[14] == "Details"@);
    assert(all[7] == "ProcessId"@);
}

/// A file that is made shows its path.
pub proof fn new_files_show_what_they_carry(event: TelemetryEvent)
    requires
        event.kind is FileCreate,
    ensures
        ({
            let f = event.kind->FileCreate_0;
            let fields = event_fields(event);
            &&& field_datum(fields, "TargetFilename"@) == Some(Datum::Text(f.path@))
            &&& field_datum(fields, "ProcessId"@) == Some(Datum::Int(f.pid.0 as int))
        }),
{
    lemma_fields_apart();
    let all = field_names_known();
    assert(all[0] == "EventID"@);
    assert(all[1] == "Provider_Name"@);
    assert(all[2] == "Channel"@);
    assert(all[15] == "TargetFilename"@);
    assert(all[7] == "ProcessId"@);
}

/// A file that is deleted shows its path.
pub proof fn deleted_files_show_what_they_carry(event: TelemetryEvent)
    requires
        event.kind is FileDelete,
    ensures
        ({
            let f = event.kind->FileDelete_0;
            let fields = event_fields(event);
            &&& field_datum(fields, "TargetFilename"@) == Some(Datum::Text(f.path@))
            &&& field_datum(fields, "ProcessId"@) == Some(Datum::Int(f.pid.0 as int))
        }),
{
    lemma_fields_apart();
    let all = field_names_known();
    assert(all[0] == "EventID"@);
    assert(all[1] == "Provider_Name"@);
    assert(all[2] == "Channel"@);
    assert(all[15] == "TargetFilename"@);
    assert(all[7] == "ProcessId"@);
}

/// A file that is renamed shows where it went as the target and where it was as the
/// source.
pub proof fn renamed_files_show_what_they_carry(event: TelemetryEvent)
    requires
        event.kind is FileRename,
    ensures
        ({
            let r = event.kind->FileRename_0;
            let fields = event_fields(event);
            &&& field_datum(fields, "TargetFilename"@) == Some(Datum::Text(r.new_path@))
            &&& field_datum(fields, "SourceFilename"@) == Some(Datum::Text(r.old_path@))
            &&& field_datum(fields, "ProcessId"@) == Some(Datum::Int(r.pid.0 as int))
        }),
{
    lemma_fields_apart();
    let all = field_names_known();
    assert(all[0] == "EventID"@);
    assert(all[1] == "Provider_Name"@);
    assert(all[2] == "Channel"@);
    assert(all[15] == "TargetFilename"@);
    assert(all[16] == "SourceFilename"@);
    assert(all[7] == "ProcessId"@);
}

/// A query shows its name, and its answers where there are any.
pub proof fn queries_show_what_they_carry(event: TelemetryEvent)
    requires
        event.kind is DnsQuery,
    ensures
        ({
            let d = event.kind->DnsQuery_0;
            let fields = event_fields(event);
            &&& field_datum(fields, "QueryName"@) == Some(Datum::Text(d.query_name@))
            &&& field_datum(fields, "QueryResults"@) == (if d.answers@.len() == 0 {
                None
            } else {
                Some(Datum::Text(comma_joined(d.answers@)))
            })
            &&& field_datum(fields, "ProcessId"@) == Some(Datum::Int(d.pid.0 as int))
        }),
{
    lemma_fields_apart();
    let all = field_names_known();
    assert(all[0] == "EventID"@);
    assert(all[1] == "Provider_Name"@);
    assert(all[2] == "Channel"@);
    assert(all[17] == "QueryName"@);
    assert(all[18] == "QueryResults"@);
    assert(all[7] == "ProcessId"@);
}

/// A connection shows both its ends, each with its own address and port.
pub proof fn connections_show_what_they_carry(event: TelemetryEvent)
    requires
        event.kind is NetworkConnect,
    ensures
        ({
            let n = event.kind->NetworkConnect_0;
            let fields = event_fields(event);
            &&& field_datum(fields, "SourceIp"@) == Some(Datum::Text(n.source_ip@))
            &&& field_datum(fields, "SourcePort"@) == Some(Datum::Int(n.source_port as int))
            &&& field_datum(fields, "DestinationIp"@) == Some(Datum::Text(n.destination_ip@))
            &&& field_datum(fields, "DestinationPort"@) == Some(Datum::Int(n.destination_port as int))
            &&& field_datum(fields, "Protocol"@) == Some(Datum::Text(n.protocol.name()))
            &&& field_datum(fields, "ProcessId"@) == Some(Datum::Int(n.pid.0 as int))
        }),
{
    lemma_fields_apart();
    let all = field_names_known();
    assert(all[0] == "EventID"@);
    assert(all[1] == "Provider_Name"@);
    assert(all[2] == "Channel"@);
    assert(all[19] == "SourceIp"@);
    assert(all[20] == "SourcePort"@);
    assert(all[21] == "DestinationIp"@);
    assert(all[22] == "DestinationPort"@);
    assert(all[23] == "Protocol"@);
    assert(all[7] == "ProcessId"@);
}

/// A script block shows its text, and where it came from.
pub proof fn script_blocks_show_what_they_carry(event: TelemetryEvent)
    requires
        event.kind is ScriptBlock,
    ensures
        ({
            let s = event.kind->ScriptBlock_0;
            let fields = event_fields(event);
            &&& field_datum(fields, "ScriptBlockText"@) == Some(Datum::Text(s.text@))
            &&& field_datum(fields, "ScriptBlockId"@) == text_datum(s.script_block_id)
            &&& field_datum(fields, "Path"@) == text_datum(s.path)
            &&& field_datum(fields, "ProcessId"@) == Some(Datum::Int(s.pid.0 as int))
        }),
{
    lemma_fields_apart();
    let all = field_names_known();
    assert(all[0] == "EventID"@);
    assert(all[1] == "Provider_Name"@);
    assert(all[2] == "Channel"@);
    assert(all[24] == "ScriptBlockText"@);
    assert(all[25] == "ScriptBlockId"@);
    assert(all[26] == "Path"@);
    assert(all[7] == "ProcessId"@);
}

/// Whatever else it shows, a view shows the event's number and its provider, which is
/// its channel too.
pub proof fn every_view_shows_where_it_came_from(event: TelemetryEvent)
    ensures
        field_datum(event_fields(event), "EventID"@) == Some(Datum::Int(event.event_id as int)),
        field_datum(event_fields(event), "Provider_Name"@) == Some(Datum::Text(event.provider@)),
        field_datum(event_fields(event), "Channel"@) == Some(Datum::Text(event.provider@)),
{
    lemma_fields_apart();
    let all = field_names_known();
    assert(all[0] == "EventID"@);
    assert(all[1] == "Provider_Name"@);
    assert(all[2] == "Channel"@);
    assert(all[3] == "Image"@);
    assert(all[4] == "CommandLine"@);
    assert(all[5] == "ParentImage"@);
    assert(all[6] == "ParentProcessId"@);
    assert(all[7] == "ProcessId"@);
    assert(all[8] == "User"@);
    assert(all[9] == "ExitCode"@);
    assert(all[10] == "ImageLoaded"@);
    assert(all[11] == "Signed"@);
    assert(all[12] == "Signature"@);
    assert(all[13] == "TargetObject"@);
    assert(all[14] == "Details"@);
    assert(all[15] == "TargetFilename"@);
    assert(all[16] == "SourceFilename"@);
    assert(all[17] == "QueryName"@);
    assert(all[18] == "QueryResults"@);
    assert(all[19] == "SourceIp"@);
    assert(all[20] == "SourcePort"@);
    assert(all[21] == "DestinationIp"@);
    assert(all[22] == "DestinationPort"@);
    assert(all[23] == "Protocol"@);
    assert(all[24] == "ScriptBlockText"@);
    assert(all[25] == "ScriptBlockId"@);
    assert(all[26] == "Path"@);
}

/// Each shape of event has its category, and the shapes SIGMA has none for have none.
pub proof fn each_shape_has_its_category(kind: EventKind)
    ensures
        kind_category(kind) == Some("process_creation"@) <==> kind is ProcessStart,
        kind_category(kind) == Some("process_termination"@) <==> kind is ProcessExit,
        kind_category(kind) == Some("image_load"@) <==> kind is ImageLoad,
        kind_category(kind) == Some("registry_set"@) <==> kind is RegistrySet,
        kind_category(kind) == Some("file_event"@) <==> kind is FileCreate,
        kind_category(kind) == Some("file_delete"@) <==> kind is FileDelete,
        kind_category(kind) == Some("file_rename"@) <==> kind is FileRename,
        kind_category(kind) == Some("dns_query"@) <==> kind is DnsQuery,
        kind_category(kind) == Some("network_connection"@) <==> kind is NetworkConnect,
        kind_category(kind) == Some("ps_script"@) <==> kind is ScriptBlock,
        kind_category(kind) is Some ==> category_names().contains(kind_category(kind)->0),
        forall|name: Seq<char>| #[trigger] category_known(name) <==> category_names().contains(name),
{
    lemma_categories_apart();
    let all = category_names();
    assert(all[0] == "process_creation"@);
    assert(CATEGORIES@[0]@ == all[0]);
    assert(all[1] == "process_termination"@);
    assert(CATEGORIES@[1]@ == all[1]);
    assert(all[2] == "image_load"@);
    assert(CATEGORIES@[2]@ == all[2]);
    assert(all[3] == "registry_set"@);
    assert(CATEGORIES@[3]@ == all[3]);
    assert(all[4] == "file_event"@);
    assert(CATEGORIES@[4]@ == all[4]);
    assert(all[5] == "file_delete"@);
    assert(CATEGORIES@[5]@ == all[5]);
    assert(all[6] == "file_rename"@);
    assert(CATEGORIES@[6]@ == all[6]);
    assert(all[7] == "dns_query"@);
    assert(CATEGORIES@[7]@ == all[7]);
    assert(all[8] == "network_connection"@);
    assert(CATEGORIES@[8]@ == all[8]);
    assert(all[9] == "ps_script"@);
    assert(CATEGORIES@[9]@ == all[9]);
    assert forall|name: Seq<char>| #[trigger] category_known(name) <==> all.contains(name) by {
        if category_known(name) {
            let i = choose|i: int| 0 <= i < 10 && (#[trigger] CATEGORIES@[i])@ == name;
            assert(all[i] == name);
        }
        if all.contains(name) {
            let i = choose|i: int| 0 <= i < all.len() && all[i] == name;
            assert(CATEGORIES@[i]@ == name);
        }
    }
}

/// The names a view of `process_creation` may show, and no others.
pub proof fn process_creation_fields_are_known(name: Seq<char>)
    ensures
        mappable("process_creation"@, name) <==> {
            ||| name == "EventID"@
            ||| name == "Provider_Name"@
            ||| name == "Channel"@
            ||| name == "Image"@
            ||| name == "CommandLine"@
            ||| name == "ParentImage"@
            ||| name == "ParentProcessId"@
            ||| name == "ProcessId"@
            ||| name == "User"@
        },
{
    lemma_categories_apart();
    let all = category_names();
    assert(all[0] == "process_creation"@);
    assert(all[1] == "process_termination"@);
    assert(all[2] == "image_load"@);
    assert(all[3] == "registry_set"@);
    assert(all[4] == "file_event"@);
    assert(all[5] == "file_delete"@);
    assert(all[6] == "file_rename"@);
    assert(all[7] == "dns_query"@);
    assert(all[8] == "network_connection"@);
    assert(all[9] == "ps_script"@);
    lemma_universal(name);
    let own = category_fields("process_creation"@);
    assert(own[0] == "Image"@);
    assert(own[1] == "CommandLine"@);
    assert(own[2] == "ParentImage"@);
    assert(own[3] == "ParentProcessId"@);
    assert(own[4] == "ProcessId"@);
    assert(own[5] == "User"@);
}

/// The names a view of `process_termination` may show, and no others.
pub proof fn process_termination_fields_are_known(name: Seq<char>)
    ensures
        mappable("process_termination"@, name) <==> {
            ||| name == "EventID"@
            ||| name == "Provider_Name"@
            ||| name == "Channel"@
            ||| name == "ProcessId"@
            ||| name == "ExitCode"@
        },
{
    lemma_categories_apart();
    let all = category_names();
    assert(all[0] == "process_creation"@);
    assert(all[1] == "process_termination"@);
    assert(all[2] == "image_load"@);
    assert(all[3] == "registry_set"@);
    assert(all[4] == "file_event"@);
    assert(all[5] == "file_delete"@);
    assert(all[6] == "file_rename"@);
    assert(all[7] == "dns_query"@);
    assert(all[8] == "network_connection"@);
    assert(all[9] == "ps_script"@);
    lemma_universal(name);
    let own = category_fields("process_termination"@);
    assert(own[0] == "ProcessId"@);
    assert(own[1] == "ExitCode"@);
}

/// The names a view of `image_load` may show, and no others.
pub proof fn image_load_fields_are_known(name: Seq<char>)
    ensures
        mappable("image_load"@, name) <==> {
            ||| name == "EventID"@
            ||| name == "Provider_Name"@
            ||| name == "Channel"@
            ||| name == "ImageLoaded"@
            ||| name == "Signed"@
            ||| name == "Signature"@
            ||| name == "ProcessId"@
        },
{
    lemma_categories_apart();
    let all = category_names();
    assert(all[0] == "process_creation"@);
    assert(all[1] == "process_termination"@);
    assert(all[2] == "image_load"@);
    assert(all[3] == "registry_set"@);
    assert(all[4] == "file_event"@);
    assert(all[5] == "file_delete"@);
    assert(all[6] == "file_rename"@);
    assert(all[7] == "dns_query"@);
    assert(all[8] == "network_connection"@);
    assert(all[9] == "ps_script"@);
    lemma_universal(name);
    let own = category_fields("image_load"@);
    assert(own[0] == "ImageLoaded"@);
    assert(own[1] == "Signed"@);
    assert(own[2] == "Signature"@);
    assert(own[3] == "ProcessId"@);
}

/// The names a view of `registry_set` may show, and no others.
pub proof fn registry_set_fields_are_known(name: Seq<char>)
    ensures
        mappable("registry_set"@, name) <==> {
            ||| name == "EventID"@
            ||| name == "Provider_Name"@
            ||| name == "Channel"@
            ||| name == "TargetObject"@
            ||| name == "Details"@
            ||| name == "ProcessId"@
        },
{
    lemma_categories_apart();
    let all = category_names();
    assert(all[0] == "process_creation"@);
    assert(all[1] == "process_termination"@);
    assert(all[2] == "image_load"@);
    assert(all[3] == "registry_set"@);
    assert(all[4] == "file_event"@);
    assert(all[5] == "file_delete"@);
    assert(all[6] == "file_rename"@);
    assert(all[7] == "dns_query"@);
    assert(all[8] == "network_connection"@);
    assert(all[9] == "ps_script"@);
    lemma_universal(name);
    let own = category_fields("registry_set"@);
    assert(own[0] == "TargetObject"@);
    assert(own[1] == "Details"@);
    assert(own[2] == "ProcessId"@);
}

/// The names a view of `file_event` may show, and no others.
pub proof fn file_event_fields_are_known(name: Seq<char>)
    ensures
        mappable("file_event"@, name) <==> {
            ||| name == "EventID"@
            ||| name == "Provider_Name"@
            ||| name == "Channel"@
            ||| name == "TargetFilename"@
            ||| name == "ProcessId"@
        },
{
    lemma_categories_apart();
    let all = category_names();
    assert(all[0] == "process_creation"@);
    assert(all[1] == "process_termination"@);
    assert(all[2] == "image_load"@);
    assert(all[3] == "registry_set"@);
    assert(all[4] == "file_event"@);
    assert(all[5] == "file_delete"@);
    assert(all[6] == "file_rename"@);
    assert(all[7] == "dns_query"@);
    assert(all[8] == "network_connection"@);
    assert(all[9] == "ps_script"@);
    lemma_universal(name);
    let own = category_fields("file_event"@);
    assert(own[0] == "TargetFilename"@);
    assert(own[1] == "ProcessId"@);
}

/// The names a view of `file_delete` may show, and no others.
pub proof fn file_delete_fields_are_known(name: Seq<char>)
    ensures
        mappable("file_delete"@, name) <==> {
            ||| name == "EventID"@
            ||| name == "Provider_Name"@
            ||| name == "Channel"@
            ||| name == "TargetFilename"@
            ||| name == "ProcessId"@
        },
{
    lemma_categories_apart();
    let all = category_names();
    assert(all[0] == "process_creation"@);
    assert(all[1] == "process_termination"@);
    assert(all[2] == "image_load"@);
    assert(all[3] == "registry_set"@);
    assert(all[4] == "file_event"@);
    assert(all[5] == "file_delete"@);
    assert(all[6] == "file_rename"@);
    assert(all[7] == "dns_query"@);
    assert(all[8] == "network_connection"@);
    assert(all[9] == "ps_script"@);
    lemma_universal(name);
    let own = category_fields("file_delete"@);
    assert(own[0] == "TargetFilename"@);
    assert(own[1] == "ProcessId"@);
}

/// The names a view of `file_rename` may show, and no others.
pub proof fn file_rename_fields_are_known(name: Seq<char>)
    ensures
        mappable("file_rename"@, name) <==> {
            ||| name == "EventID"@
            ||| name == "Provider_Name"@
            ||| name == "Channel"@
            ||| name == "TargetFilename"@
            ||| name == "SourceFilename"@
            ||| name == "ProcessId"@
        },
{
    lemma_categories_apart();
    let all = category_names();
    assert(all[0] == "process_creation"@);
    assert(all[1] == "process_termination"@);
    assert(all[2] == "image_load"@);
    assert(all[3] == "registry_set"@);
    assert(all[4] == "file_event"@);
    assert(all[5] == "file_delete"@);
    assert(all[6] == "file_rename"@);
    assert(all[7] == "dns_query"@);
    assert(all[8] == "network_connection"@);
    assert(all[9] == "ps_script"@);
    lemma_universal(name);
    let own = category_fields("file_rename"@);
    assert(own[0] == "TargetFilename"@);
    assert(own[1] == "SourceFilename"@);
    assert(own[2] == "ProcessId"@);
}

/// The names a view of `dns_query` may show, and no others.
pub proof fn dns_query_fields_are_known(name: Seq<char>)
    ensures
        mappable("dns_query"@, name) <==> {
            ||| name == "EventID"@
            ||| name == "Provider_Name"@
            ||| name == "Channel"@
            ||| name == "QueryName"@
            ||| name == "QueryResults"@
            ||| name == "ProcessId"@
        },
{
    lemma_categories_apart();
    let all = category_names();
    assert(all[0] == "process_creation"@);
    assert(all[1] == "process_termination"@);
    assert(all[2] == "image_load"@);
    assert(all[3] == "registry_set"@);
    assert(all[4] == "file_event"@);
    assert(all[5] == "file_delete"@);
    assert(all[6] == "file_rename"@);
    assert(all[7] == "dns_query"@);
    assert(all[8] == "network_connection"@);
    assert(all[9] == "ps_script"@);
    lemma_universal(name);
    let own = category_fields("dns_query"@);
    assert(own[0] == "QueryName"@);
    assert(own[1] == "QueryResults"@);
    assert(own[2] == "ProcessId"@);
}

/// The names a view of `network_connection` may show, and no others.
pub proof fn network_connection_fields_are_known(name: Seq<char>)
    ensures
        mappable("network_connection"@, name) <==> {
            ||| name == "EventID"@
            ||| name == "Provider_Name"@
            ||| name == "Channel"@
            ||| name == "SourceIp"@
            ||| name == "SourcePort"@
            ||| name == "DestinationIp"@
            ||| name == "DestinationPort"@
            ||| name == "Protocol"@
            ||| name == "ProcessId"@
        },
{
    lemma_categories_apart();
    let all = category_names();
    assert(all[0] == "process_creation"@);
    assert(all[1] == "process_termination"@);
    assert(all[2] == "image_load"@);
    assert(all[3] == "registry_set"@);
    assert(all[4] == "file_event"@);
    assert(all[5] == "file_delete"@);
    assert(all[6] == "file_rename"@);
    assert(all[7] == "dns_query"@);
    assert(all[8] == "network_connection"@);
    assert(all[9] == "ps_script"@);
    lemma_universal(name);
    let own = category_fields("network_connection"@);
    assert(own[0] == "SourceIp"@);
    assert(own[1] == "SourcePort"@);
    assert(own[2] == "DestinationIp"@);
    assert(own[3] == "DestinationPort"@);
    assert(own[4] == "Protocol"@);
    assert(own[5] == "ProcessId"@);
}

/// The names a view of `ps_script` may show, and no others.
pub proof fn ps_script_fields_are_known(name: Seq<char>)
    ensures
        mappable("ps_script"@, name) <==> {
            ||| name == "EventID"@
            ||| name == "Provider_Name"@
            ||| name == "Channel"@
            ||| name == "ScriptBlockText"@
            ||| name == "ScriptBlockId"@
            ||| name == "Path"@
            ||| name == "ProcessId"@
        },
{
    lemma_categories_apart();
    let all = category_names();
    assert(all[0] == "process_creation"@);
    assert(all[1] == "process_termination"@);
    assert(all[2] == "image_load"@);
    assert(all[3] == "registry_set"@);
    assert(all[4] == "file_event"@);
    assert(all[5] == "file_delete"@);
    assert(all[6] == "file_rename"@);
    assert(all[7] == "dns_query"@);
    assert(all[8] == "network_connection"@);
    assert(all[9] == "ps_script"@);
    lemma_universal(name);
    let own = category_fields("ps_script"@);
    assert(own[0] == "ScriptBlockText"@);
    assert(own[1] == "ScriptBlockId"@);
    assert(own[2] == "Path"@);
    assert(own[3] == "ProcessId"@);
}

proof fn lemma_universal(name: Seq<char>)
    ensures
        universal(name) <==> name == "EventID"@ || name == "Provider_Name"@ || name == "Channel"@,
{
    assert(UNIVERSAL_FIELDS@[0]@ == "EventID"@);
    assert(UNIVERSAL_FIELDS@[1]@ == "Provider_Name"@);
    assert(UNIVERSAL_FIELDS@[2]@ == "Channel"@);
}

/// A datum is compared as the text it is written as.
pub proof fn data_are_compared_as_text(s: Seq<char>, n: int)
    ensures
        datum_text(Datum::Text(s)) == s,
        datum_text(Datum::Int(n)) == integer_text(n),
        datum_text(Datum::Bool(true)) == "true"@,
        datum_text(Datum::Bool(false)) == "false"@,
{
}

/// Answers stand in their order with a comma between them.
pub proof fn answers_are_joined_by_commas(answers: Seq<String>, last: String)
    ensures
        comma_joined(seq![last]) == last@,
        answers.len() > 0 ==> comma_joined(answers.push(last)) == comma_joined(answers) + ","@
            + last@,
{
    assert(answers.push(last).drop_last() == answers);
}

/// An exit code is shown as an unsigned number of thirty-two bits, whatever its sign.
pub proof fn exit_codes_are_unsigned(code: i32)
    ensures
        0 <= unsigned_status(code as int) < 0x1_0000_0000,
        unsigned_status(code as int) == code as u32,
{
    if code < 0 {
        assert(code as u32 == code as i64 + 0x1_0000_0000) by (bit_vector)
            requires
                code < 0,
        ;
    } else {
        assert(code as u32 == code as i64) by (bit_vector)
            requires
                code >= 0,
        ;
    }
}

} // verus!
