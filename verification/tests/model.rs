use chaos::model::alert::{Alert, AlertId};
use chaos::model::classification::{class_of, class_of_known, DataClass, REDACTED};
use chaos::model::event::{
    default_schema_version, EventId, EventSource, LimitedCounter, Payload, ProviderId,
    TelemetryEvent, CURRENT_SCHEMA_VERSION, MAX_PAYLOAD_SIZE,
};
use chaos::model::host::{Host, HostId, OperatingSystem};
use chaos::model::kind::{EventKind, TaskRegistered, WmiProcess, WmiSubscription};
use chaos::model::process::ProcessId;
use chaos::model::redact::{redact, redact_in_place, strip_sensitive, strip_sensitive_in_place};
use chaos::model::rule::RuleId;
use chaos::model::value::{Object, Real, Scalar, Value};
use chaos::model::{ModelError, Severity, Timestamp};
use std::io::Write;

// ---- classification

#[test]
fn public_fields() {
    assert_eq!(class_of("pid"), DataClass::Public);
    assert_eq!(class_of("image_hash"), DataClass::Public);
    assert_eq!(class_of("started_at"), DataClass::Public);
    assert_eq!(class_of("severity"), DataClass::Public);
    assert_eq!(class_of("event_id"), DataClass::Public);
    assert_eq!(class_of("renamed_at"), DataClass::Public);
}

#[test]
fn internal_fields() {
    assert_eq!(class_of("source_ip"), DataClass::Internal);
    assert_eq!(class_of("destination_ip"), DataClass::Internal);
    assert_eq!(class_of("hostname"), DataClass::Internal);
    assert_eq!(class_of("provider"), DataClass::Internal);
}

#[test]
fn sensitive_fields() {
    assert_eq!(class_of("command_line"), DataClass::Sensitive);
    assert_eq!(class_of("user"), DataClass::Sensitive);
    assert_eq!(class_of("path"), DataClass::Sensitive);
    assert_eq!(class_of("old_path"), DataClass::Sensitive);
    assert_eq!(class_of("new_path"), DataClass::Sensitive);
    assert_eq!(class_of("executable"), DataClass::Sensitive);
    assert_eq!(class_of("query_name"), DataClass::Sensitive);
    assert_eq!(class_of("value_data"), DataClass::Sensitive);
}

#[test]
fn unknown_fields_fail_closed() {
    assert_eq!(class_of("environment_variables"), DataClass::Sensitive);
    assert_eq!(class_of("some_future_field"), DataClass::Sensitive);
    assert_eq!(class_of(""), DataClass::Sensitive);
}

#[test]
fn the_explicit_table_reports_ignorance_as_ignorance() {
    // `class_of` and `class_of_known` must agree on everything the table
    // knows, and differ only on what it does not.
    assert_eq!(class_of_known("pid"), Some(DataClass::Public));
    assert_eq!(class_of_known("command_line"), Some(DataClass::Sensitive));
    assert_eq!(class_of_known("hostname"), Some(DataClass::Internal));
    assert_eq!(class_of_known("image_path"), Some(DataClass::Sensitive));

    assert_eq!(class_of_known("environment_variables"), None);
    assert_eq!(class_of_known("some_future_field"), None);
    assert_eq!(class_of_known(""), None);

    assert_eq!(class_of("some_future_field"), DataClass::Sensitive);
}

#[test]
fn policy_methods() {
    assert!(DataClass::Sensitive.requires_redaction());
    assert!(!DataClass::Public.requires_redaction());
    assert_eq!(DataClass::Sensitive.retention_days(), 90);
    assert_eq!(DataClass::Public.retention_days(), 365);
    assert!(DataClass::Sensitive.stripped_in_cold_storage());
    assert!(DataClass::Sensitive.requires_export_opt_in());
}

// ---- redaction

fn obj(entries: &[(&str, Value)]) -> Value {
    let mut m = Object::new();
    for (k, v) in entries {
        m.insert((*k).into(), v.clone());
    }
    Value::Object(m)
}

#[test]
fn redacts_sensitive_fields() {
    let v = obj(&[
        ("pid", Value::Int(42)),
        ("command_line", Value::String("rm -rf /".into())),
        ("user", Value::String("alice".into())),
    ]);
    let r = redact(&v);
    assert_eq!(r.get_ref("pid").unwrap().as_i64(), Some(42));
    assert_eq!(r.get_ref("command_line").unwrap().as_str(), Some(REDACTED));
    assert_eq!(r.get_ref("user").unwrap().as_str(), Some(REDACTED));
}

#[test]
fn preserves_internal_and_public() {
    let v = obj(&[
        ("pid", Value::Int(42)),
        ("source_ip", Value::String("10.0.0.1".into())),
        ("hostname", Value::String("HOST-42".into())),
    ]);
    let r = redact(&v);
    assert_eq!(r.get_ref("source_ip").unwrap().as_str(), Some("10.0.0.1"));
    assert_eq!(r.get_ref("hostname").unwrap().as_str(), Some("HOST-42"));
}

#[test]
fn redacts_nested() {
    let v = obj(&[(
        "outer",
        obj(&[("path", Value::String("/home/alice/x".into()))]),
    )]);
    let r = redact(&v);
    assert_eq!(
        r.get_ref("outer")
            .unwrap()
            .get_ref("path")
            .unwrap()
            .as_str(),
        Some(REDACTED)
    );
}

#[test]
fn a_provider_payload_survives_redaction() {
    // The case that motivates the container rule: every top-level key here
    // is a provider-specific name the classification table has never seen.
    // A naive fail-closed pass would delete the entire event.
    let v = obj(&[
        ("ProcessSequenceNumber", Value::Uint(7)),
        (
            "ImageName",
            Value::String("C:\\Windows\\System32\\svchost.exe".into()),
        ),
        (
            "Nested",
            obj(&[("Payload", Value::String("SECRET".into()))]),
        ),
    ]);

    let r = redact(&v);
    assert_eq!(
        r.get_ref("ImageName").unwrap().as_str(),
        Some(REDACTED),
        "unknown leaf must still be redacted"
    );
    assert_eq!(
        r.get_ref("ProcessSequenceNumber").unwrap().as_str(),
        Some(REDACTED),
        "unknown scalar is replaced, so it stops being a number"
    );
    assert_eq!(r.get_ref("ProcessSequenceNumber").unwrap().as_u64(), None);
    assert_eq!(
        r.get_ref("Nested")
            .unwrap()
            .get_ref("Payload")
            .unwrap()
            .as_str(),
        Some(REDACTED)
    );
    // The container itself survived, which is what makes the event usable.
    assert!(r.get_ref("Nested").unwrap().as_object().is_some());
}

#[test]
fn an_explicitly_sensitive_field_is_removed_whole_whatever_it_holds() {
    let v = obj(&[(
        "command_line",
        obj(&[("nested", Value::String("x".into()))]),
    )]);
    let r = redact(&v);
    assert_eq!(
        r.get_ref("command_line").unwrap().as_str(),
        Some(REDACTED),
        "a known-sensitive name does not get recursed into"
    );
}

#[test]
fn arrays_are_walked() {
    let v = obj(&[(
        "answers",
        Value::Array(vec![
            Value::String("1.2.3.4".into()),
            obj(&[("path", Value::String("/etc/passwd".into()))]),
        ]),
    )]);
    let r = redact(&v);
    // `answers` is itself classified sensitive, so the array goes wholesale
    // and no element survives.
    assert_eq!(r.get_ref("answers").unwrap().as_str(), Some(REDACTED));
}

#[test]
fn strip_removes_sensitive_entirely() {
    let v = obj(&[
        ("pid", Value::Int(42)),
        ("command_line", Value::String("rm -rf /".into())),
    ]);
    let s = strip_sensitive(&v);
    assert!(s.get_ref("pid").is_some());
    assert!(s.get_ref("command_line").is_none());
}

#[test]
fn strip_fails_closed_on_unknown_names() {
    // Unlike `redact`, stripping an unfamiliar field keeps nothing of it.
    let v = obj(&[("ProviderSpecificField", Value::String("x".into()))]);
    let s = strip_sensitive(&v);
    assert!(s.get_ref("ProviderSpecificField").is_none());
}

#[test]
fn redact_in_place_matches_redact() {
    for value in [
        obj(&[("user", Value::String("alice".into()))]),
        obj(&[(
            "unknown_container",
            obj(&[("user", Value::String("alice".into()))]),
        )]),
        obj(&[("unknown_scalar", Value::String("x".into()))]),
        obj(&[(
            "outer",
            Value::Array(vec![obj(&[("path", Value::String("/a".into()))])]),
        )]),
    ] {
        let expected = redact(&value);
        let mut actual = value.clone();
        redact_in_place(&mut actual);
        assert_eq!(actual, expected);
    }
}

#[test]
fn redacting_twice_is_redacting_once() {
    let v = obj(&[
        ("user", Value::String("alice".into())),
        ("pid", Value::Int(4)),
        ("odd", Value::Array(vec![Value::Int(1), Value::Null])),
    ]);
    let once = redact(&v);
    assert_eq!(redact(&once), once);
    assert_eq!(once.as_object().unwrap().len(), 3);
}

#[test]
fn stripping_in_place_matches_stripping_and_is_idempotent() {
    let v = obj(&[
        ("user", Value::String("alice".into())),
        ("pid", Value::Int(4)),
        ("hostname", obj(&[("user", Value::Null), ("pid", Value::Uint(1))])),
    ]);
    let stripped = strip_sensitive(&v);
    let mut in_place = v.clone();
    strip_sensitive_in_place(&mut in_place);
    assert_eq!(in_place, stripped);
    assert_eq!(strip_sensitive(&stripped), stripped);
    assert!(stripped.get_ref("user").is_none());
}

// ---- payloads and events

/// Hands what a serialiser writes to the counter that limits it.
struct Limited(LimitedCounter);

impl Write for Limited {
    fn write(&mut self, buf: &[u8]) -> std::io::Result<usize> {
        if self.0.write(buf.len()) {
            Ok(buf.len())
        } else {
            Err(std::io::Error::other("payload exceeds limit"))
        }
    }

    fn flush(&mut self) -> std::io::Result<()> {
        Ok(())
    }
}

fn payload_of(text: String) -> Result<Payload, ModelError> {
    let mut limited = Limited(LimitedCounter::for_payload());
    let outcome = serde_json::to_writer(&mut limited, &text).map_err(|e| e.to_string());
    Payload::new(Value::String(text), &limited.0, outcome)
}

#[test]
fn the_ceiling_is_still_enforced() {
    // The reason `Payload::new` measures at all, and the one property that
    // must survive making the struct transparent.
    let huge = "x".repeat(MAX_PAYLOAD_SIZE + 1);
    assert!(matches!(
        payload_of(huge),
        Err(ModelError::PayloadTooLarge { .. })
    ));

    let fits = "x".repeat(1024);
    assert!(payload_of(fits).is_ok());
}

#[test]
fn a_value_that_does_not_serialise_is_an_invalid_payload() {
    let counter = LimitedCounter::for_payload();
    let refused = Payload::new(Value::Null, &counter, Err("no such thing".to_string()));
    match refused {
        Err(ModelError::InvalidValue { field, value }) => {
            assert_eq!(field, "payload");
            assert_eq!(value, "no such thing");
        }
        other => panic!("{other:?}"),
    }
}

#[test]
fn an_empty_payload_holds_null() {
    let payload = Payload::empty();
    assert!(payload.value().is_null());
    assert_eq!(payload.into_value(), Value::Null);
    let kept = payload_of("kept".to_string()).expect("small enough");
    assert_eq!(kept.into_value().as_str(), Some("kept"));
}

#[test]
fn the_counter_refuses_the_byte_past_its_limit() {
    let mut counter = LimitedCounter::for_payload();
    assert!(counter.write(MAX_PAYLOAD_SIZE));
    assert!(!counter.write(1));
    assert_eq!(counter.written, MAX_PAYLOAD_SIZE + 1);
}

fn event() -> TelemetryEvent {
    TelemetryEvent::new(
        EventId::new(9),
        HostId::new("host-a").expect("valid"),
        Timestamp::new(1_700_000_000, 0),
        EventSource::WindowsEtw,
        ProviderId::new("Microsoft-Windows-Kernel-Process"),
        1,
        42,
        42,
        4,
        EventKind::Unclassified,
        Payload::empty(),
    )
}

#[test]
fn an_event_starts_unreceived_at_the_current_schema() {
    let e = event();
    assert_eq!(e.id.as_u64(), 9);
    assert_eq!(e.provider.as_str(), "Microsoft-Windows-Kernel-Process");
    assert!(e.received_at.is_none());
    assert_eq!(e.schema_version, CURRENT_SCHEMA_VERSION);
    assert_eq!(CURRENT_SCHEMA_VERSION, 2);
    assert_eq!(default_schema_version(), 2);
    let e = e
        .with_received_at(Timestamp::new(1_700_000_001, 5))
        .with_schema_version(7);
    assert_eq!(e.received_at, Some(Timestamp::new(1_700_000_001, 5)));
    assert_eq!(e.schema_version, 7);
}

#[test]
fn an_instant_past_the_range_has_no_nanosecond_count() {
    assert_eq!(
        Timestamp::new(1_700_000_000, 7).timestamp_nanos_opt(),
        Some(1_700_000_000_000_000_007)
    );
    assert_eq!(Timestamp::new(-1, 5).timestamp_nanos_opt(), Some(-999_999_995));
    assert_eq!(Timestamp::new(i64::MAX, 0).timestamp_nanos_opt(), None);
}

// ---- hosts and identities

#[test]
fn a_host_id_cannot_be_empty() {
    assert!(HostId::new("").is_err());
    assert_eq!(HostId::new("host-a").expect("valid").as_str(), "host-a");
    assert_eq!(
        HostId::new(&String::from("host-b")).expect("valid").as_str(),
        "host-b"
    );
}

#[test]
fn cloning_a_host_id_shares_the_name_instead_of_copying_it() {
    // A sensor clones a `HostId` once per event, and an allocation there would
    // be on the hot path for a string that never changes. Pointer identity is
    // the only way to see that from outside.
    let id = HostId::new("host-a").expect("valid");
    let copy = id.clone();
    assert_eq!(copy, id);
    assert_eq!(
        copy.as_str().as_ptr(),
        id.as_str().as_ptr(),
        "a clone must not allocate a second copy of the name"
    );
}

#[test]
fn identities_are_never_empty() {
    assert!(matches!(
        AlertId::new(String::new()),
        Err(ModelError::EmptyField { field: "alert_id" })
    ));
    assert!(matches!(
        RuleId::new(String::new()),
        Err(ModelError::EmptyField { .. })
    ));
    assert_eq!(RuleId::new("r".to_string()).unwrap().as_str(), "r");
    assert_eq!(AlertId::new("a".to_string()).unwrap().as_str(), "a");
}

#[test]
fn touching_a_host_moves_only_its_last_sighting() {
    let id = HostId::new("h").unwrap();
    let mut host = Host::new(
        id,
        "ws-1".to_string(),
        OperatingSystem::Windows,
        Timestamp::new(10, 0),
    );
    host.touch(Timestamp::new(20, 0));
    assert_eq!(host.first_seen, Timestamp::new(10, 0));
    assert_eq!(host.last_seen, Timestamp::new(20, 0));
    assert_eq!(host.hostname, "ws-1");
    assert!(host.labels.is_empty());
}

#[test]
fn an_alert_is_what_it_was_made_of() {
    let alert = Alert::new(
        AlertId::new("a-1".to_string()).unwrap(),
        RuleId::new("r-1".to_string()).unwrap(),
        "title".to_string(),
        "description".to_string(),
        Severity::High,
        Timestamp::new(3, 0),
        HostId::new("h").unwrap(),
        vec![EventId::new(4)],
        vec!["T1059".to_string()],
    );
    assert_eq!(alert.id.as_str(), "a-1");
    assert_eq!(alert.severity, Severity::High);
    assert_eq!(alert.events, vec![EventId::new(4)]);
    assert!(Severity::Critical > Severity::High);
}

#[test]
fn a_model_error_says_what_is_wrong() {
    assert_eq!(
        ModelError::EmptyField { field: "host_id" }.message(""),
        "field `host_id` must not be empty"
    );
    let invalid = ModelError::InvalidValue {
        field: "payload",
        value: "why".to_string(),
    };
    assert_eq!(invalid.message(""), "field `payload` has invalid value: why");
    assert_eq!(
        ModelError::TimestampInFuture(Timestamp::new(0, 0)).message("1970-01-01 00:00:00 UTC"),
        "timestamp 1970-01-01 00:00:00 UTC is in the future"
    );
    assert_eq!(
        ModelError::PayloadTooLarge { size: 70_000, max: 65_536 }.message(""),
        "payload too large: 70000 bytes (max 65536)"
    );
}

// ---- kinds

/// One instance of every kind the ETW adapter can currently emit.
fn emitted_kinds() -> Vec<(EventKind, &'static str)> {
    let now = Timestamp::new(1_700_000_000, 0);
    vec![
        (
            EventKind::WmiProcess(WmiProcess {
                pid: ProcessId::new(4242),
                command_line: "cmd.exe /c whoami".into(),
                user: Some("CORP\\alice".into()),
                client_pid: Some(ProcessId::new(900)),
                client_machine: Some("ws-042.corp.example".into()),
                is_local: Some(false),
                created_at: now,
            }),
            "wmi_process",
        ),
        (
            EventKind::WmiSubscription(WmiSubscription {
                namespace: "root\\subscription".into(),
                event_filter: "SELECT * FROM __InstanceModificationEvent".into(),
                consumer: Some("CommandLineEventConsumer.Name=\"Updater\"".into()),
                recorded_at: now,
            }),
            "wmi_subscription",
        ),
        (
            EventKind::TaskRegistered(TaskRegistered {
                task_name: "\\MicrosoftEdgeUpdate\\MicrosoftUpdate".into(),
                user: Some("SYSTEM".into()),
                recorded_at: now,
            }),
            "task_registered",
        ),
    ]
}

#[test]
fn a_wmi_process_is_not_a_process_start_on_the_wire() {
    // Both describe a process being created, and folding them together
    // would lose the one fact T1047 turns on: that WMI — and not a parent
    // process — is what ran it. This pins the separation.
    let kinds = emitted_kinds();
    let (wmi, _) = kinds
        .iter()
        .find(|(kind, _)| matches!(kind, EventKind::WmiProcess(_)))
        .expect("a WmiProcess case");

    assert!(!matches!(wmi, EventKind::ProcessStart(_)));
    assert_ne!(wmi.as_str(), "process_start");
}

#[test]
fn every_emitted_kind_has_its_own_name() {
    for (kind, tag) in emitted_kinds() {
        assert_eq!(kind.as_str(), tag);
    }
    assert_eq!(EventKind::Unclassified.as_str(), "unclassified");
}

// ---- values

fn float(v: f64) -> Real {
    Real {
        bits: v.to_bits(),
        text: format!("{v}"),
    }
}

#[test]
fn a_value_renders_with_its_strings_quoted() {
    let v = Value::Array(vec![
        Value::Null,
        Value::Bool(true),
        Value::Int(-3),
        Value::Uint(u64::MAX),
        Value::Float(float(1.5)),
        Value::String("a\"b\n\\".into()),
        obj(&[("k\t", Value::String("é".into())), ("z", Value::Null)]),
    ]);
    assert_eq!(
        v.render(),
        "[null,true,-3,18446744073709551615,1.5,\"a\\\"b\\n\\\\\",{\"k\\t\":\"é\",\"z\":null}]"
    );
    assert_eq!(Value::Int(i64::MIN).render(), "-9223372036854775808");
    assert_eq!(Value::Object(Object::new()).render(), "{}");
}

#[test]
fn storing_under_a_name_reads_back_and_keeps_the_first_place() {
    let mut o = Object::with_capacity(2);
    assert!(o.is_empty());
    assert!(o.insert("a".to_string(), Value::Int(1)).is_none());
    assert!(o.insert("b".to_string(), Value::Int(2)).is_none());
    assert_eq!(o.insert("a".to_string(), Value::Int(3)), Some(Value::Int(1)));
    assert_eq!(o.len(), 2);
    assert_eq!(o.get("a"), Some(&Value::Int(3)));
    assert_eq!(o.get_index(0), Some((&"a".to_string(), &Value::Int(3))));
    *o.get_mut("b").unwrap() = Value::Null;
    assert_eq!(o.get("b"), Some(&Value::Null));
    assert!(o.get_mut("c").is_none());
}

#[test]
fn entries_are_reached_and_taken_out_by_their_place() {
    let mut o = Object::new();
    for (n, name) in ["a", "b", "c"].iter().enumerate() {
        o.insert(name.to_string(), Value::Uint(n as u64));
    }
    if let Some((name, value)) = o.get_index_mut(1) {
        assert_eq!(name, "b");
        *value = Value::Bool(true);
    }
    assert!(o.get_index_mut(3).is_none());
    assert_eq!(o.get("b"), Some(&Value::Bool(true)));
    assert_eq!(o.shift_remove_index(0), Some(("a".to_string(), Value::Uint(0))));
    assert!(o.shift_remove_index(2).is_none());
    assert_eq!(o.len(), 2);
    assert_eq!(o.get("a"), None);
    assert_eq!(o.get_index(0), Some((&"b".to_string(), &Value::Bool(true))));
    assert_eq!(o.get_index(1), Some((&"c".to_string(), &Value::Uint(2))));
    assert_eq!(o.get_index(2), None);
    let copy = o.clone();
    o.insert("c".to_string(), Value::Null);
    assert_eq!(copy.get("c"), Some(&Value::Uint(2)));
    assert_eq!(copy.get_index(0), Some((&"b".to_string(), &Value::Bool(true))));
}

#[test]
fn no_room_asked_for_is_too_much() {
    assert!(Object::with_capacity(usize::MAX).is_empty());
}

#[test]
fn redaction_keeps_the_order_of_the_names() {
    let v = obj(&[
        ("user", Value::String("u".into())),
        ("pid", Value::Int(1)),
        ("hostname", Value::String("h".into())),
    ]);
    let names = |v: &Value| -> Vec<String> {
        let o = v.as_object().unwrap();
        (0..o.len()).map(|i| o.get_index(i).unwrap().0.clone()).collect()
    };
    assert_eq!(names(&redact(&v)), ["user", "pid", "hostname"]);
    assert_eq!(names(&strip_sensitive(&v)), ["pid", "hostname"]);
    let mut stripped = v.clone();
    strip_sensitive_in_place(&mut stripped);
    assert_eq!(names(&stripped), ["pid", "hostname"]);
    let mut redacted = v.clone();
    redact_in_place(&mut redacted);
    assert_eq!(names(&redacted), ["user", "pid", "hostname"]);
    assert_eq!(redacted.get("user"), Value::String(REDACTED.into()));
}

#[test]
fn objects_are_equal_whatever_the_order_of_their_names() {
    let ab = obj(&[("a", Value::Int(1)), ("b", Value::Int(2))]);
    let ba = obj(&[("b", Value::Int(2)), ("a", Value::Int(1))]);
    assert_eq!(ab, ba);
    assert_ne!(ab, obj(&[("a", Value::Int(1))]));
    assert_ne!(Value::Int(1), Value::Uint(1));
}

#[test]
fn floats_compare_as_numbers() {
    let f = |v: f64| Value::Float(float(v));
    assert_eq!(f(0.0), f(-0.0));
    assert_ne!(f(f64::NAN), f(f64::NAN));
    assert_eq!(f(2.5), f(2.5));
    assert_ne!(f(2.5), f(-2.5));
}

#[test]
fn readers_see_only_their_own_kind() {
    assert_eq!(Value::Bool(true).as_bool(), Some(true));
    assert_eq!(Value::Int(5).as_u64(), Some(5));
    assert_eq!(Value::Int(-5).as_u64(), None);
    assert_eq!(Value::Uint(5).as_i64(), Some(5));
    assert_eq!(Value::Uint(u64::MAX).as_i64(), None);
    assert_eq!(Value::Null.as_str(), None);
    let mut list = Value::Array(vec![Value::Int(1)]);
    assert_eq!(list.as_array().unwrap().len(), 1);
    list.as_array_mut().unwrap().push(Value::Null);
    assert_eq!(list.get_index(1), Value::Null);
    assert_eq!(list.get_index(9), Value::Null);
    assert_eq!(list.get_index_ref(0), Some(&Value::Int(1)));
    assert!(list.get_index_ref(9).is_none());
    let mut o = obj(&[("k", Value::Int(1))]);
    assert_eq!(o.get("k"), Value::Int(1));
    assert_eq!(o.get("missing"), Value::Null);
    *o.get_mut("k").unwrap() = Value::Int(2);
    o.as_object_mut().unwrap().insert("l".to_string(), Value::Null);
    assert_eq!(o.get_ref("k"), Some(&Value::Int(2)));
    assert!(!o.is_empty());
    assert!(Value::Null.is_empty());
    assert_eq!(Value::Float(float(1.0)).kind_name(), "float");
    assert_eq!(Value::default(), Value::Null);
}

#[test]
fn conversions_keep_the_value() {
    assert_eq!(Value::from(true), Value::Bool(true));
    assert_eq!(Value::from(-1i64), Value::Int(-1));
    assert_eq!(Value::from(-1i32), Value::Int(-1));
    assert_eq!(Value::from(1u64), Value::Uint(1));
    assert_eq!(Value::from(1u32), Value::Uint(1));
    assert_eq!(Value::from(1usize), Value::Uint(1));
    assert_eq!(Value::from("x"), Value::String("x".into()));
    assert_eq!(Value::from("x".to_string()), Value::String("x".into()));
    assert_eq!(Value::from(vec![Value::Null]), Value::Array(vec![Value::Null]));
    assert_eq!(Value::from(Object::new()), Value::Object(Object::new()));
    assert_eq!(Value::from(float(2.0)), Value::Float(float(2.0)));
    assert_eq!(Value::from(Some(3u64)), Value::Uint(3));
    assert_eq!(Value::from(None::<u64>), Value::Null);
}

#[test]
fn wide_integers_fall_back_to_floats() {
    let wide = u128::from(u64::MAX) + 1;
    assert_eq!(
        Value::from_scalar(Scalar::Unsigned(wide, float(wide as f64))),
        Value::Float(float(wide as f64))
    );
    assert_eq!(
        Value::from_scalar(Scalar::Unsigned(7, float(7.0))),
        Value::Uint(7)
    );
    assert_eq!(
        Value::from_scalar(Scalar::Signed(-7, float(-7.0))),
        Value::Int(-7)
    );
    assert_eq!(Value::from_scalar(Scalar::Char('x')), Value::String("x".into()));
    assert_eq!(Value::from_scalar(Scalar::Unit), Value::Null);
}

#[test]
fn of_two_entries_with_one_name_the_later_value_stays() {
    let v = Value::from_entries(vec![
        ("a".to_string(), Value::Int(1)),
        ("b".to_string(), Value::Int(2)),
        ("a".to_string(), Value::Int(3)),
    ]);
    assert_eq!(v.get("a"), Value::Int(3));
    assert_eq!(v.as_object().unwrap().len(), 2);
}
