use chaos::ports::actuator::{ActionError, Response};
use chaos::ports::error::{AlertError, HostError, RuleError, SinkError, SourceError};

#[test]
fn suspend_is_reversible_and_terminate_is_not() {
    assert_eq!(
        Response::Suspend { pid: 10 }.inverse(),
        Some(Response::Resume { pid: 10 })
    );
    assert_eq!(
        Response::Resume { pid: 10 }.inverse(),
        Some(Response::Suspend { pid: 10 })
    );
    assert_eq!(Response::Terminate { pid: 10 }.inverse(), None);

    assert!(Response::Suspend { pid: 10 }.is_reversible());
    assert!(!Response::Terminate { pid: 10 }.is_reversible());
}

#[test]
fn an_inverse_is_its_own_inverse() {
    // Otherwise a revert-of-a-revert would do something nobody asked for.
    for response in [Response::Suspend { pid: 1 }, Response::Resume { pid: 1 }] {
        let back = response.inverse().expect("reversible").inverse();
        assert_eq!(back, Some(response));
    }
}

#[test]
fn every_response_names_its_target_and_its_verb() {
    assert_eq!(Response::Terminate { pid: 42 }.pid(), 42);
    assert_eq!(Response::Terminate { pid: 42 }.verb(), "terminate");
    assert_eq!(
        Response::Suspend { pid: 42 }.describe(),
        "suspend process 42"
    );
}

#[test]
fn a_refusal_reads_differently_from_an_os_failure() {
    let refused = ActionError::Refused("lsass.exe is protected".into()).message();
    let failed = ActionError::Os("access denied".into()).message();
    assert!(refused.starts_with("refused:"));
    assert!(failed.starts_with("the operating system declined:"));
}

#[test]
fn every_failure_says_what_failed() {
    assert_eq!(
        ActionError::Unsupported.message(),
        "responding is not implemented on this platform"
    );
    assert_eq!(
        SourceError::Unavailable("x".into()).message(),
        "source temporarily unavailable: x"
    );
    assert_eq!(
        SourceError::Malformed("x".into()).message(),
        "source produced malformed data: x"
    );
    assert_eq!(SourceError::ShutDown.message(), "source shut down");
    assert_eq!(
        SinkError::Temporary("x".into()).message(),
        "sink temporarily unavailable: x"
    );
    assert_eq!(
        SinkError::Permanent("x".into()).message(),
        "sink rejected event permanently: x"
    );
    assert_eq!(
        SinkError::Backpressure.message(),
        "sink backpressure: buffer full"
    );
    let parse = RuleError::Parse {
        location: "l".into(),
        message: "m".into(),
    };
    assert_eq!(parse.message(), "rule parse error in l: m");
    assert_eq!(
        RuleError::Unavailable("x".into()).message(),
        "rule store unavailable: x"
    );
    assert_eq!(
        AlertError::Delivery("x".into()).message(),
        "alert delivery failed: x"
    );
    assert_eq!(AlertError::Rejected("x".into()).message(), "alert rejected: x");
    assert_eq!(HostError::NotFound("x".into()).message(), "host not found: x");
    assert_eq!(
        HostError::Unavailable("x".into()).message(),
        "registry unavailable: x"
    );
}
