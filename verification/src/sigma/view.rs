//! The bridge between typed events and the field names a SIGMA rule reads.
//!
//! SIGMA rules are written against a log schema, not against these events, so
//! every rule needs a translation. Only the shapes with an unambiguous SIGMA
//! category are mapped: inventing a field name for a shape SIGMA has no category
//! for would produce rules that never fire and look healthy.
use crate::model::event::TelemetryEvent;
use crate::model::kind::{EventKind, RegistrySet};
use crate::model::process::ProcessId;
use crate::text::{
    chars_of, concat3, integer, integer_text, parse_signed, parsed_signed, same, text_before, trim,
    trimmed,
};
use crate::textmap::{by_key, lemma_by_key, TextMap};
use vstd::prelude::*;

verus! {

/// Every category there are views of.
pub const CATEGORIES: [&'static str; 10] = [
    "process_creation",
    "process_termination",
    "image_load",
    "registry_set",
    "file_event",
    "file_delete",
    "file_rename",
    "dns_query",
    "network_connection",
    "ps_script",
];

/// Fields present on every view, whatever the category.
pub const UNIVERSAL_FIELDS: [&'static str; 3] = ["EventID", "Provider_Name", "Channel"];

/// The product every view claims.
pub const PRODUCT: &'static str = "windows";

/// A field's value, in the three shapes a SIGMA comparison needs.
#[derive(Debug, Clone, PartialEq)]
pub enum Value {
    Text(String),
    Int(i64),
    Bool(bool),
}

/// A field's value, as mathematics.
pub enum Datum {
    Text(Seq<char>),
    Int(int),
    Bool(bool),
}

/// Named data.
pub type Fields = Map<Seq<char>, Datum>;

/// A datum as text.
pub open spec fn datum_text(datum: Datum) -> Seq<char> {
    match datum {
        Datum::Text(s) => s,
        Datum::Int(i) => integer_text(i),
        Datum::Bool(b) => if b {
            "true"@
        } else {
            "false"@
        },
    }
}

impl Value {
    pub open spec fn datum(&self) -> Datum {
        match self {
            Value::Text(s) => Datum::Text(s@),
            Value::Int(i) => Datum::Int(*i as int),
            Value::Bool(b) => Datum::Bool(*b),
        }
    }

    /// The value as text, for the string comparisons SIGMA is mostly made of.
    pub fn as_text(&self) -> (text: String)
        ensures
            text@ == datum_text(self.datum()),
    {
        match self {
            Value::Text(s) => s.clone(),
            Value::Int(i) => integer(*i),
            Value::Bool(b) => if *b {
                "true".to_string()
            } else {
                "false".to_string()
            },
        }
    }

    /// The value as an integer. A decimal in a text field is still a number.
    pub fn as_int(&self) -> (number: Option<i64>)
        ensures
            match self.datum() {
                Datum::Int(i) => number matches Some(n) && n == i,
                Datum::Text(s) => match number {
                    Some(n) => parsed_signed(trimmed(s)) == Some(n as int),
                    None => parsed_signed(trimmed(s)) is None,
                },
                Datum::Bool(_) => number is None,
            },
    {
        match self {
            Value::Int(i) => Some(*i),
            Value::Text(s) => parse_signed(trim(chars_of(s.as_str()).as_slice()).as_slice()),
            Value::Bool(_) => None,
        }
    }
}

/// The data of named values.
pub open spec fn data(fields: Map<Seq<char>, Value>) -> Fields {
    fields.map_values(|v: Value| v.datum())
}

/// The datum of a name.
pub open spec fn field_datum(fields: Fields, name: Seq<char>) -> Option<Datum> {
    if fields.contains_key(name) {
        Some(fields[name])
    } else {
        None
    }
}

pub open spec fn with_text(fields: Fields, name: Seq<char>, text: Seq<char>) -> Fields {
    fields.insert(name, Datum::Text(text))
}

pub open spec fn with_number(fields: Fields, name: Seq<char>, number: int) -> Fields {
    fields.insert(name, Datum::Int(number))
}

pub open spec fn with_optional_text(
    fields: Fields,
    name: Seq<char>,
    text: Option<String>,
) -> Fields {
    match text {
        Some(s) => with_text(fields, name, s@),
        None => fields,
    }
}

pub open spec fn with_optional_pid(
    fields: Fields,
    name: Seq<char>,
    pid: Option<ProcessId>,
) -> Fields {
    match pid {
        Some(p) => with_number(fields, name, p.0 as int),
        None => fields,
    }
}

pub open spec fn with_optional_flag(fields: Fields, name: Seq<char>, flag: Option<bool>) -> Fields {
    match flag {
        Some(b) => fields.insert(name, Datum::Bool(b)),
        None => fields,
    }
}

/// An exit code as the unsigned status a crash carries, which is the number a
/// rule is written against.
pub open spec fn unsigned_status(code: int) -> int {
    if code < 0 {
        code + 0x1_0000_0000
    } else {
        code
    }
}

pub open spec fn with_exit_code(fields: Fields, name: Seq<char>, code: Option<i32>) -> Fields {
    match code {
        Some(c) => with_number(fields, name, unsigned_status(c as int)),
        None => fields,
    }
}

/// Texts with commas between them.
pub open spec fn comma_joined(texts: Seq<String>) -> Seq<char>
    decreases texts.len(),
{
    if texts.len() == 0 {
        seq![]
    } else if texts.len() == 1 {
        texts[0]@
    } else {
        comma_joined(texts.drop_last()) + ","@ + texts.last()@
    }
}

pub open spec fn with_answers(fields: Fields, name: Seq<char>, answers: Seq<String>) -> Fields {
    if answers.len() == 0 {
        fields
    } else {
        with_text(fields, name, comma_joined(answers))
    }
}

/// The full registry path: the key, and the value name below it.
pub open spec fn registry_target(set: RegistrySet) -> Seq<char> {
    match set.value_name {
        Some(name) => set.key_path@ + "\\"@ + name@,
        None => set.key_path@,
    }
}

/// The SIGMA category of an event's shape.
pub open spec fn kind_category(kind: EventKind) -> Option<Seq<char>> {
    match kind {
        EventKind::ProcessStart(_) => Some("process_creation"@),
        EventKind::ProcessExit(_) => Some("process_termination"@),
        EventKind::ImageLoad(_) => Some("image_load"@),
        EventKind::RegistrySet(_) => Some("registry_set"@),
        EventKind::FileCreate(_) => Some("file_event"@),
        EventKind::FileDelete(_) => Some("file_delete"@),
        EventKind::FileRename(_) => Some("file_rename"@),
        EventKind::DnsQuery(_) => Some("dns_query"@),
        EventKind::NetworkConnect(_) => Some("network_connection"@),
        EventKind::ScriptBlock(_) => Some("ps_script"@),
        _ => None,
    }
}

/// Fields together with those of an event's shape.
pub open spec fn with_kind_fields(fields: Fields, kind: EventKind) -> Fields {
    match kind {
        EventKind::ProcessStart(p) => {
            let fields = with_text(fields, "Image"@, p.executable@);
            let fields = with_optional_text(fields, "CommandLine"@, p.command_line);
            let fields = with_optional_text(fields, "ParentImage"@, p.parent_image);
            let fields = with_optional_pid(fields, "ParentProcessId"@, p.parent_pid);
            let fields = with_number(fields, "ProcessId"@, p.pid.0 as int);
            with_optional_text(fields, "User"@, p.user)
        },
        EventKind::ProcessExit(e) => {
            let fields = with_number(fields, "ProcessId"@, e.pid.0 as int);
            with_exit_code(fields, "ExitCode"@, e.exit_code)
        },
        EventKind::ImageLoad(i) => {
            let fields = with_text(fields, "ImageLoaded"@, i.image_path@);
            let fields = with_optional_flag(fields, "Signed"@, i.signed);
            let fields = with_optional_text(fields, "Signature"@, i.signer);
            with_number(fields, "ProcessId"@, i.pid.0 as int)
        },
        EventKind::RegistrySet(r) => {
            let fields = with_text(fields, "TargetObject"@, registry_target(r));
            let fields = with_optional_text(fields, "Details"@, r.value_data);
            with_number(fields, "ProcessId"@, r.pid.0 as int)
        },
        EventKind::FileCreate(f) => {
            let fields = with_text(fields, "TargetFilename"@, f.path@);
            with_number(fields, "ProcessId"@, f.pid.0 as int)
        },
        EventKind::FileDelete(f) => {
            let fields = with_text(fields, "TargetFilename"@, f.path@);
            with_number(fields, "ProcessId"@, f.pid.0 as int)
        },
        EventKind::FileRename(r) => {
            let fields = with_text(fields, "TargetFilename"@, r.new_path@);
            let fields = with_text(fields, "SourceFilename"@, r.old_path@);
            with_number(fields, "ProcessId"@, r.pid.0 as int)
        },
        EventKind::DnsQuery(d) => {
            let fields = with_text(fields, "QueryName"@, d.query_name@);
            let fields = with_answers(fields, "QueryResults"@, d.answers@);
            with_number(fields, "ProcessId"@, d.pid.0 as int)
        },
        EventKind::NetworkConnect(n) => {
            let fields = with_text(fields, "SourceIp"@, n.source_ip@);
            let fields = with_number(fields, "SourcePort"@, n.source_port as int);
            let fields = with_text(fields, "DestinationIp"@, n.destination_ip@);
            let fields = with_number(fields, "DestinationPort"@, n.destination_port as int);
            let fields = with_text(fields, "Protocol"@, n.protocol.name());
            with_number(fields, "ProcessId"@, n.pid.0 as int)
        },
        EventKind::ScriptBlock(s) => {
            let fields = with_text(fields, "ScriptBlockText"@, s.text@);
            let fields = with_optional_text(fields, "ScriptBlockId"@, s.script_block_id);
            let fields = with_optional_text(fields, "Path"@, s.path);
            with_number(fields, "ProcessId"@, s.pid.0 as int)
        },
        _ => fields,
    }
}

/// The fields any log line would have.
pub open spec fn universal_fields(event: TelemetryEvent) -> Fields {
    let fields = with_number(Map::empty(), "EventID"@, event.event_id as int);
    let fields = with_text(fields, "Provider_Name"@, event.provider@);
    with_text(fields, "Channel"@, event.provider@)
}

/// Every field of an event.
pub open spec fn event_fields(event: TelemetryEvent) -> Fields {
    with_kind_fields(universal_fields(event), event.kind)
}

/// One event, as a SIGMA rule sees it: a category and named fields.
#[derive(Debug, Clone)]
pub struct EventView {
    /// The SIGMA `category`, such as `process_creation`.
    pub category: &'static str,
    /// The SIGMA `service`, when the category does not already name one.
    pub service: Option<&'static str>,
    pub fields: TextMap<Value>,
}

fn put(fields: &mut TextMap<Value>, name: &'static str, value: Value)
    ensures
        data(final(fields)@) == data(old(fields)@).insert(name@, value.datum()),
{
    let _earlier = fields.insert(name, value);
    assert(data(fields@) =~= data(old(fields)@).insert(name@, value.datum()));
}

fn put_text(fields: &mut TextMap<Value>, name: &'static str, text: &str)
    ensures
        data(final(fields)@) == with_text(data(old(fields)@), name@, text@),
{
    put(fields, name, Value::Text(text.to_string()));
}

fn put_number(fields: &mut TextMap<Value>, name: &'static str, number: i64)
    ensures
        data(final(fields)@) == with_number(data(old(fields)@), name@, number as int),
{
    put(fields, name, Value::Int(number));
}

fn put_optional_text(
    fields: &mut TextMap<Value>,
    name: &'static str,
    text: &Option<String>,
)
    ensures
        data(final(fields)@) == with_optional_text(data(old(fields)@), name@, *text),
{
    match text {
        Some(s) => put_text(fields, name, s.as_str()),
        None => {},
    }
}

fn put_optional_pid(
    fields: &mut TextMap<Value>,
    name: &'static str,
    pid: Option<ProcessId>,
)
    ensures
        data(final(fields)@) == with_optional_pid(data(old(fields)@), name@, pid),
{
    match pid {
        Some(p) => put_number(fields, name, p.as_u32() as i64),
        None => {},
    }
}

fn put_optional_flag(
    fields: &mut TextMap<Value>,
    name: &'static str,
    flag: Option<bool>,
)
    ensures
        data(final(fields)@) == with_optional_flag(data(old(fields)@), name@, flag),
{
    match flag {
        Some(b) => {
            put(fields, name, Value::Bool(b));
        },
        None => {},
    }
}

fn put_exit_code(
    fields: &mut TextMap<Value>,
    name: &'static str,
    code: Option<i32>,
)
    ensures
        data(final(fields)@) == with_exit_code(data(old(fields)@), name@, code),
{
    match code {
        Some(c) => {
            let wide: i64 = c as i64;
            let status: i64 = if wide < 0 {
                wide + 0x1_0000_0000
            } else {
                wide
            };
            put_number(fields, name, status)
        },
        None => {},
    }
}

fn put_answers(
    fields: &mut TextMap<Value>,
    name: &'static str,
    answers: &Vec<String>,
)
    ensures
        data(final(fields)@) == with_answers(data(old(fields)@), name@, answers@),
{
    if answers.len() == 0 {
        return;
    }
    let mut joined = answers[0].clone();
    let mut i: usize = 1;
    assert(answers@.take(1)[0] == answers@[0]);
    while i < answers.len()
        invariant
            1 <= i <= answers@.len(),
            joined@ == comma_joined(answers@.take(i as int)),
        decreases answers@.len() - i,
    {
        assert(answers@.take(i + 1).drop_last() == answers@.take(i as int));
        joined.push_str(",");
        joined.push_str(answers[i].as_str());
        i += 1;
    }
    assert(answers@.take(i as int) == answers@);
    put_text(fields, name, joined.as_str())
}

fn registry_path(set: &RegistrySet) -> (path: String)
    ensures
        path@ == registry_target(*set),
{
    match &set.value_name {
        Some(name) => concat3(set.key_path.as_str(), "\\", name.as_str()),
        None => set.key_path.clone(),
    }
}

impl EventView {
    /// The data of the view's fields.
    pub open spec fn data(&self) -> Fields {
        data(self.fields@)
    }

    /// Builds a view, or `None` for a shape with no SIGMA category.
    pub fn of(event: &TelemetryEvent) -> (view: Option<EventView>)
        ensures
            match view {
                Some(v) => kind_category(event.kind) == Some(v.category@) && v.service is None
                    && v.data() == event_fields(*event),
                None => kind_category(event.kind) is None,
            },
    {
        let category = match category_of(event) {
            Some(category) => category,
            None => {
                return None;
            },
        };
        let mut fields: TextMap<Value> = TextMap::new();
        assert(data(fields@) =~= Map::<Seq<char>, Datum>::empty());
        put_number(&mut fields, "EventID", event.event_id as i64);
        put_text(&mut fields, "Provider_Name", event.provider.as_str());
        put_text(&mut fields, "Channel", event.provider.as_str());
        assert(data(fields@) == universal_fields(*event));
        match &event.kind {
            EventKind::ProcessStart(p) => {
                put_text(&mut fields, "Image", p.executable.as_str());
                put_optional_text(&mut fields, "CommandLine", &p.command_line);
                put_optional_text(&mut fields, "ParentImage", &p.parent_image);
                put_optional_pid(&mut fields, "ParentProcessId", p.parent_pid);
                put_number(&mut fields, "ProcessId", p.pid.as_u32() as i64);
                put_optional_text(&mut fields, "User", &p.user);
            },
            EventKind::ProcessExit(e) => {
                put_number(&mut fields, "ProcessId", e.pid.as_u32() as i64);
                put_exit_code(&mut fields, "ExitCode", e.exit_code);
            },
            EventKind::ImageLoad(i) => {
                put_text(&mut fields, "ImageLoaded", i.image_path.as_str());
                put_optional_flag(&mut fields, "Signed", i.signed);
                put_optional_text(&mut fields, "Signature", &i.signer);
                put_number(&mut fields, "ProcessId", i.pid.as_u32() as i64);
            },
            EventKind::RegistrySet(r) => {
                put_text(&mut fields, "TargetObject", registry_path(r).as_str());
                put_optional_text(&mut fields, "Details", &r.value_data);
                put_number(&mut fields, "ProcessId", r.pid.as_u32() as i64);
            },
            EventKind::FileCreate(f) => {
                put_text(&mut fields, "TargetFilename", f.path.as_str());
                put_number(&mut fields, "ProcessId", f.pid.as_u32() as i64);
            },
            EventKind::FileDelete(f) => {
                put_text(&mut fields, "TargetFilename", f.path.as_str());
                put_number(&mut fields, "ProcessId", f.pid.as_u32() as i64);
            },
            EventKind::FileRename(r) => {
                put_text(&mut fields, "TargetFilename", r.new_path.as_str());
                put_text(&mut fields, "SourceFilename", r.old_path.as_str());
                put_number(&mut fields, "ProcessId", r.pid.as_u32() as i64);
            },
            EventKind::DnsQuery(d) => {
                put_text(&mut fields, "QueryName", d.query_name.as_str());
                put_answers(&mut fields, "QueryResults", &d.answers);
                put_number(&mut fields, "ProcessId", d.pid.as_u32() as i64);
            },
            EventKind::NetworkConnect(n) => {
                put_text(&mut fields, "SourceIp", n.source_ip.as_str());
                put_number(&mut fields, "SourcePort", n.source_port as i64);
                put_text(&mut fields, "DestinationIp", n.destination_ip.as_str());
                put_number(&mut fields, "DestinationPort", n.destination_port as i64);
                put_text(&mut fields, "Protocol", n.protocol.lower_name().as_str());
                put_number(&mut fields, "ProcessId", n.pid.as_u32() as i64);
            },
            EventKind::ScriptBlock(s) => {
                put_text(&mut fields, "ScriptBlockText", s.text.as_str());
                put_optional_text(&mut fields, "ScriptBlockId", &s.script_block_id);
                put_optional_text(&mut fields, "Path", &s.path);
                put_number(&mut fields, "ProcessId", s.pid.as_u32() as i64);
            },
            _ => {},
        }
        assert(data(fields@) == event_fields(*event));
        Some(EventView { category, service: None, fields })
    }

    /// One field, by the exact name SIGMA would write.
    pub fn get(&self, field: &str) -> (value: Option<&Value>)
        ensures
            match value {
                Some(v) => field_datum(self.data(), field@) == Some(v.datum()),
                None => field_datum(self.data(), field@) is None,
            },
    {
        self.fields.get(field)
    }

    /// Every field name that appears in this view, in ascending order.
    pub fn field_names(&self) -> (names: Vec<&str>)
        ensures
            forall|i: int, j: int|
                0 <= i < j < names@.len() ==> text_before(
                    (#[trigger] names@[i])@,
                    (#[trigger] names@[j])@,
                ),
            forall|i: int|
                0 <= i < names@.len() ==> self.data().contains_key((#[trigger] names@[i])@),
            forall|name: Seq<char>| #[trigger]
                self.data().contains_key(name) ==> exists|i: int|
                    0 <= i < names@.len() && (#[trigger] names@[i])@ == name,
    {
        let all = self.fields.entries();
        let mut names: Vec<&str> = Vec::new();
        let mut i: usize = 0;
        while i < all.len()
            invariant
                i <= all@.len(),
                names@.len() == i,
                forall|k: int| 0 <= k < i ==> (#[trigger] names@[k])@ == all@[k].0@,
            decreases all@.len() - i,
        {
            names.push(all[i].0.as_str());
            i += 1;
        }
        proof {
            lemma_by_key(all@);
            assert forall|k: int| 0 <= k < names@.len() implies self.data().contains_key(
                (#[trigger] names@[k])@,
            ) by {
                assert(by_key(all@).contains_key(all@[k].0@));
            }
            assert forall|name: Seq<char>| #[trigger]
                self.data().contains_key(name) implies exists|k: int|
                0 <= k < names@.len() && (#[trigger] names@[k])@ == name by {
                assert(by_key(all@).contains_key(name));
                let k = choose|k: int| 0 <= k < all@.len() && (#[trigger] all@[k]).0@ == name;
                assert(names@[k]@ == name);
            }
        }
        names
    }
}

/// The SIGMA category of an event, from its shape alone: the category its view
/// has, without building the view.
pub fn category_of(event: &TelemetryEvent) -> (category: Option<&'static str>)
    ensures
        match category {
            Some(c) => kind_category(event.kind) == Some(c@),
            None => kind_category(event.kind) is None,
        },
{
    match &event.kind {
        EventKind::ProcessStart(_) => Some("process_creation"),
        EventKind::ProcessExit(_) => Some("process_termination"),
        EventKind::ImageLoad(_) => Some("image_load"),
        EventKind::RegistrySet(_) => Some("registry_set"),
        EventKind::FileCreate(_) => Some("file_event"),
        EventKind::FileDelete(_) => Some("file_delete"),
        EventKind::FileRename(_) => Some("file_rename"),
        EventKind::DnsQuery(_) => Some("dns_query"),
        EventKind::NetworkConnect(_) => Some("network_connection"),
        EventKind::ScriptBlock(_) => Some("ps_script"),
        EventKind::WmiProcess(_)
        | EventKind::WmiSubscription(_)
        | EventKind::TaskRegistered(_)
        | EventKind::NetworkDisconnect(_)
        | EventKind::FileWrite(_)
        | EventKind::RegistryDelete(_)
        | EventKind::Unclassified => None,
    }
}

/// The fields a view of a category can carry besides the universal ones.
pub open spec fn category_fields(category: Seq<char>) -> Seq<Seq<char>> {
    if category == "process_creation"@ {
        seq!["Image"@, "CommandLine"@, "ParentImage"@, "ParentProcessId"@, "ProcessId"@, "User"@]
    } else if category == "process_termination"@ {
        seq!["ProcessId"@, "ExitCode"@]
    } else if category == "image_load"@ {
        seq!["ImageLoaded"@, "Signed"@, "Signature"@, "ProcessId"@]
    } else if category == "registry_set"@ {
        seq!["TargetObject"@, "Details"@, "ProcessId"@]
    } else if category == "file_event"@ {
        seq!["TargetFilename"@, "ProcessId"@]
    } else if category == "file_delete"@ {
        seq!["TargetFilename"@, "ProcessId"@]
    } else if category == "file_rename"@ {
        seq!["TargetFilename"@, "SourceFilename"@, "ProcessId"@]
    } else if category == "dns_query"@ {
        seq!["QueryName"@, "QueryResults"@, "ProcessId"@]
    } else if category == "network_connection"@ {
        seq!["SourceIp"@, "SourcePort"@, "DestinationIp"@, "DestinationPort"@, "Protocol"@, "ProcessId"@]
    } else if category == "ps_script"@ {
        seq!["ScriptBlockText"@, "ScriptBlockId"@, "Path"@, "ProcessId"@]
    } else {
        seq![]
    }
}

/// Whether a field name is on every view.
pub open spec fn universal(field: Seq<char>) -> bool {
    exists|i: int| 0 <= i < 3 && (#[trigger] UNIVERSAL_FIELDS@[i])@ == field
}

/// Whether a field name could ever appear on a view of a category.
pub open spec fn mappable(category: Seq<char>, field: Seq<char>) -> bool {
    universal(field) || category_fields(category).contains(field)
}

/// The fields a view of `category` can ever carry besides the universal ones.
pub fn known_fields(category: &str) -> (names: Vec<&'static str>)
    ensures
        names@.map_values(|n: &'static str| n@) == category_fields(category@),
{
    let names: Vec<&'static str> = if same(category, "process_creation") {
        vec!["Image", "CommandLine", "ParentImage", "ParentProcessId", "ProcessId", "User"]
    } else if same(category, "process_termination") {
        vec!["ProcessId", "ExitCode"]
    } else if same(category, "image_load") {
        vec!["ImageLoaded", "Signed", "Signature", "ProcessId"]
    } else if same(category, "registry_set") {
        vec!["TargetObject", "Details", "ProcessId"]
    } else if same(category, "file_event") {
        vec!["TargetFilename", "ProcessId"]
    } else if same(category, "file_delete") {
        vec!["TargetFilename", "ProcessId"]
    } else if same(category, "file_rename") {
        vec!["TargetFilename", "SourceFilename", "ProcessId"]
    } else if same(category, "dns_query") {
        vec!["QueryName", "QueryResults", "ProcessId"]
    } else if same(category, "network_connection") {
        vec!["SourceIp", "SourcePort", "DestinationIp", "DestinationPort", "Protocol", "ProcessId"]
    } else if same(category, "ps_script") {
        vec!["ScriptBlockText", "ScriptBlockId", "Path", "ProcessId"]
    } else {
        Vec::new()
    };
    assert(names@.map_values(|n: &'static str| n@) == category_fields(category@));
    names
}

/// Whether a field name could ever appear on a view of `category`.
pub fn field_is_mappable(category: &str, field: &str) -> (yes: bool)
    ensures
        yes == mappable(category@, field@),
{
    let mut u: usize = 0;
    while u < 3
        invariant
            u <= 3,
            forall|k: int| 0 <= k < u ==> (#[trigger] UNIVERSAL_FIELDS@[k])@ != field@,
        decreases 3 - u,
    {
        if same(UNIVERSAL_FIELDS[u], field) {
            return true;
        }
        u += 1;
    }
    let names = known_fields(category);
    let ghost texts = names@.map_values(|n: &'static str| n@);
    let mut i: usize = 0;
    while i < names.len()
        invariant
            i <= names@.len(),
            texts == names@.map_values(|n: &'static str| n@),
            texts == category_fields(category@),
            !universal(field@),
            forall|k: int| 0 <= k < i ==> texts[k] != field@,
        decreases names@.len() - i,
    {
        if same(names[i], field) {
            assert(texts[i as int] == field@);
            return true;
        }
        i += 1;
    }
    false
}

/// Whether a category is one there are views of.
pub open spec fn category_known(name: Seq<char>) -> bool {
    exists|i: int| 0 <= i < 10 && (#[trigger] CATEGORIES@[i])@ == name
}

/// Whether a category is one there are views of.
pub fn is_category(name: &str) -> (yes: bool)
    ensures
        yes == category_known(name@),
{
    let mut i: usize = 0;
    while i < 10
        invariant
            i <= 10,
            forall|k: int| 0 <= k < i ==> (#[trigger] CATEGORIES@[k])@ != name@,
        decreases 10 - i,
    {
        if same(CATEGORIES[i], name) {
            return true;
        }
        i += 1;
    }
    false
}

/// A category's views carry only fields that are mappable for it: a name that is
/// not mappable is never present on an event of that category.
pub proof fn views_carry_only_mappable_fields(event: TelemetryEvent, name: Seq<char>)
    requires
        kind_category(event.kind) is Some,
        field_datum(event_fields(event), name) is Some,
    ensures
        mappable(kind_category(event.kind)->0, name),
{
    assert(UNIVERSAL_FIELDS@[0]@ == "EventID"@);
    assert(UNIVERSAL_FIELDS@[1]@ == "Provider_Name"@);
    assert(UNIVERSAL_FIELDS@[2]@ == "Channel"@);
    if !universal(name) {
        lemma_kind_names(event, name);
    }
}

/// Categories are told apart by their names.
proof fn lemma_category_texts()
    ensures
        forall|i: int, j: int|
            0 <= i < j < 10 ==> (#[trigger] CATEGORIES@[i])@ != (#[trigger] CATEGORIES@[j])@,
{
    reveal_strlit("process_creation");
    reveal_strlit("process_termination");
    reveal_strlit("image_load");
    reveal_strlit("registry_set");
    reveal_strlit("file_event");
    reveal_strlit("file_delete");
    reveal_strlit("file_rename");
    reveal_strlit("dns_query");
    reveal_strlit("network_connection");
    reveal_strlit("ps_script");
    assert forall|i: int, j: int| 0 <= i < j < 10 implies (#[trigger] CATEGORIES@[i])@ != (
    #[trigger] CATEGORIES@[j])@ by {
        let a = CATEGORIES@[i]@;
        let b = CATEGORIES@[j]@;
        assert(a.len() != b.len() || a[0] != b[0] || a[5] != b[5] || a[6] != b[6]);
    }
}

proof fn lemma_kind_names(event: TelemetryEvent, name: Seq<char>)
    requires
        kind_category(event.kind) is Some,
        event_fields(event).contains_key(name),
        name != "EventID"@,
        name != "Provider_Name"@,
        name != "Channel"@,
    ensures
        category_fields(kind_category(event.kind)->0).contains(name),
{
    lemma_category_texts();
    let names = category_fields(kind_category(event.kind)->0);
    match event.kind {
        EventKind::ProcessStart(_) => {
            assert(names[0] == "Image"@);
            assert(names[1] == "CommandLine"@);
            assert(names[2] == "ParentImage"@);
            assert(names[3] == "ParentProcessId"@);
            assert(names[4] == "ProcessId"@);
            assert(names[5] == "User"@);
        },
        EventKind::ProcessExit(_) => {
            assert(names[0] == "ProcessId"@);
            assert(names[1] == "ExitCode"@);
        },
        EventKind::ImageLoad(_) => {
            assert(names[0] == "ImageLoaded"@);
            assert(names[1] == "Signed"@);
            assert(names[2] == "Signature"@);
            assert(names[3] == "ProcessId"@);
        },
        EventKind::RegistrySet(_) => {
            assert(names[0] == "TargetObject"@);
            assert(names[1] == "Details"@);
            assert(names[2] == "ProcessId"@);
        },
        EventKind::FileCreate(_) => {
            assert(names[0] == "TargetFilename"@);
            assert(names[1] == "ProcessId"@);
        },
        EventKind::FileDelete(_) => {
            assert(names[0] == "TargetFilename"@);
            assert(names[1] == "ProcessId"@);
        },
        EventKind::FileRename(_) => {
            assert(names[0] == "TargetFilename"@);
            assert(names[1] == "SourceFilename"@);
            assert(names[2] == "ProcessId"@);
        },
        EventKind::DnsQuery(_) => {
            assert(names[0] == "QueryName"@);
            assert(names[1] == "QueryResults"@);
            assert(names[2] == "ProcessId"@);
        },
        EventKind::NetworkConnect(_) => {
            assert(names[0] == "SourceIp"@);
            assert(names[1] == "SourcePort"@);
            assert(names[2] == "DestinationIp"@);
            assert(names[3] == "DestinationPort"@);
            assert(names[4] == "Protocol"@);
            assert(names[5] == "ProcessId"@);
        },
        EventKind::ScriptBlock(_) => {
            assert(names[0] == "ScriptBlockText"@);
            assert(names[1] == "ScriptBlockId"@);
            assert(names[2] == "Path"@);
            assert(names[3] == "ProcessId"@);
        },
        _ => {},
    }
}

} // verus!
