use schema_graph::ssrp::{build_ssrp_request, parse_ssrp_response, SsrpAttemptOutcome,
    SsrpAttempts, SsrpError};

#[test]
fn parse_ssrp_response_extracts_port() {
    // Simulated SSRP response
    let mut response = vec![0x05, 0x50, 0x00]; // Header: 0x05 + length
    response.extend_from_slice(
        b"ServerName;TESTSERVER;InstanceName;TESTINSTANCE;IsClustered;No;Version;16.0.1000.6;tcp;1444;np;\\\\TESTSERVER\\pipe\\MSSQL$TESTINSTANCE\\sql\\query;;"
    );

    let port = parse_ssrp_response(response.as_slice(), "TESTINSTANCE")
        .expect("expected SSRP parser to extract TCP port");
    assert_eq!(port, 1444);
}

#[test]
fn parse_ssrp_response_handles_invalid() {
    // Invalid response (wrong header)
    let response = vec![0x04, 0x00, 0x00];
    assert!(matches!(
        parse_ssrp_response(response.as_slice(), "TESTINSTANCE"),
        Err(SsrpError::InvalidResponse)
    ));

    // Too short
    let response = vec![0x05, 0x00];
    assert!(matches!(
        parse_ssrp_response(response.as_slice(), "TESTINSTANCE"),
        Err(SsrpError::InvalidResponse)
    ));

    // No tcp entry
    let mut response = vec![0x05, 0x10, 0x00];
    response.extend_from_slice(b"ServerName;TEST;;");
    assert!(matches!(
        parse_ssrp_response(response.as_slice(), "TESTINSTANCE"),
        Err(SsrpError::PortNotFound { .. })
    ));
}

#[test]
fn parse_ssrp_response_header_alone_is_invalid() {
    // Exactly the three header bytes carry no payload.
    let response = vec![0x05, 0x00, 0x00];
    assert!(matches!(
        parse_ssrp_response(response.as_slice(), "X"),
        Err(SsrpError::InvalidResponse)
    ));
}

#[test]
fn parse_ssrp_response_key_is_case_insensitive() {
    let mut response = vec![0x05, 0x20, 0x00];
    response.extend_from_slice(b"ServerName;S;TCP;1555;;");
    assert_eq!(parse_ssrp_response(response.as_slice(), "X").unwrap(), 1555);
}

#[test]
fn parse_ssrp_response_bad_port_is_invalid() {
    let mut response = vec![0x05, 0x20, 0x00];
    response.extend_from_slice(b"tcp;notaport;;");
    assert!(matches!(
        parse_ssrp_response(response.as_slice(), "X"),
        Err(SsrpError::InvalidResponse)
    ));

    let mut response = vec![0x05, 0x20, 0x00];
    response.extend_from_slice(b"tcp;70000;;");
    assert!(matches!(
        parse_ssrp_response(response.as_slice(), "X"),
        Err(SsrpError::InvalidResponse)
    ));
}

#[test]
fn parse_ssrp_response_trailing_tcp_without_value() {
    // A trailing `tcp` token with nothing after it opens no key/value pair.
    let mut response = vec![0x05, 0x10, 0x00];
    response.extend_from_slice(b"ServerName;S;tcp");
    assert!(matches!(
        parse_ssrp_response(response.as_slice(), "X"),
        Err(SsrpError::PortNotFound { .. })
    ));
}

#[test]
fn build_ssrp_request_is_marker_plus_name() {
    let req = build_ssrp_request("SQLEXPRESS");
    assert_eq!(req[0], 0x04);
    assert_eq!(&req[1..], b"SQLEXPRESS");
}

#[test]
fn ssrp_failure_precedence() {
    // PortNotFound beats everything.
    let mut a = SsrpAttempts::new();
    a.note(SsrpAttemptOutcome::IoFailed("boom".to_string()));
    a.note(SsrpAttemptOutcome::TimedOut);
    a.note(SsrpAttemptOutcome::BadResponse);
    a.note(SsrpAttemptOutcome::NoTcpPort);
    assert!(matches!(a.final_error("h", "i"), SsrpError::PortNotFound { .. }));

    // Then a malformed response.
    let mut b = SsrpAttempts::new();
    b.note(SsrpAttemptOutcome::TimedOut);
    b.note(SsrpAttemptOutcome::BadResponse);
    assert!(matches!(b.final_error("h", "i"), SsrpError::InvalidResponse));

    // Then a timeout.
    let mut c = SsrpAttempts::new();
    c.note(SsrpAttemptOutcome::IoFailed("boom".to_string()));
    c.note(SsrpAttemptOutcome::TimedOut);
    assert!(matches!(c.final_error("h", "i"), SsrpError::Timeout));

    // Then the last socket error.
    let mut d = SsrpAttempts::new();
    d.note(SsrpAttemptOutcome::IoFailed("first".to_string()));
    d.note(SsrpAttemptOutcome::IoFailed("second".to_string()));
    match d.final_error("h", "i") {
        SsrpError::Io(msg) => assert_eq!(msg, "second"),
        other => panic!("expected Io, got {:?}", other),
    }

    // With nothing noted, the host never resolved.
    let e = SsrpAttempts::new();
    assert!(matches!(e.final_error("h", "i"), SsrpError::HostResolution { .. }));
}

#[test]
fn ssrp_error_messages() {
    assert_eq!(
        SsrpError::Timeout.message(),
        "Timed out waiting for SQL Server Browser response on UDP 1434"
    );
    assert_eq!(
        SsrpError::PortNotFound { instance: "X".to_string() }.message(),
        "SQL Server Browser did not return a TCP port for instance `X`"
    );
    assert_eq!(
        SsrpError::HostResolution { host: "db".to_string() }.message(),
        "Could not resolve host `db` for SQL Server Browser lookup"
    );
}
