use schema_graph::connection::{build_connection_string, parse_server_endpoint, ConnectionError,
    ConnectionParams, ServerTarget};

fn expect_tcp(target: ServerTarget) -> (String, u16) {
    match target {
        ServerTarget::Tcp { host, port } => (host, port),
        other => panic!("expected a TCP target, got {:?}", other),
    }
}

#[test]
fn comma_form_splits_host_and_port() {
    let (host, port) = expect_tcp(parse_server_endpoint("sql.example.com,1444"));
    assert_eq!(host, "sql.example.com");
    assert_eq!(port, 1444);
}

#[test]
fn colon_form_splits_host_and_port() {
    let (host, port) = expect_tcp(parse_server_endpoint("sql.example.com:1555"));
    assert_eq!(host, "sql.example.com");
    assert_eq!(port, 1555);
}

#[test]
fn bare_host_gets_default_port() {
    let (host, port) = expect_tcp(parse_server_endpoint("localhost"));
    assert_eq!(host, "localhost");
    assert_eq!(port, 1433);
}

#[test]
fn comma_form_trims_both_sides() {
    let (host, port) = expect_tcp(parse_server_endpoint(" sql.example.com , 1444 "));
    assert_eq!(host, "sql.example.com");
    assert_eq!(port, 1444);
}

#[test]
fn backslash_form_names_an_instance() {
    match parse_server_endpoint("sql.example.com\\SQLEXPRESS") {
        ServerTarget::NamedInstance { host, instance } => {
            assert_eq!(host, "sql.example.com");
            assert_eq!(instance, "SQLEXPRESS");
        },
        other => panic!("expected a named instance, got {:?}", other),
    }
}

#[test]
fn bad_comma_suffix_falls_through() {
    // The comma suffix is no port, but the colon suffix is.
    let (host, port) = expect_tcp(parse_server_endpoint("host:1555,oops"));
    // Neither rule applies to ",oops", and the colon suffix "1555,oops"
    // is no port either, so the whole string is the host.
    assert_eq!(host, "host:1555,oops");
    assert_eq!(port, 1433);
}

#[test]
fn out_of_range_port_is_no_port() {
    let (host, port) = expect_tcp(parse_server_endpoint("host,70000"));
    assert_eq!(host, "host,70000");
    assert_eq!(port, 1433);

    let (host, port) = expect_tcp(parse_server_endpoint("host,0"));
    assert_eq!(host, "host,0");
    assert_eq!(port, 1433);
}

#[test]
fn colon_splits_at_the_last_colon() {
    let (host, port) = expect_tcp(parse_server_endpoint("fe80::1:1555"));
    assert_eq!(host, "fe80::1");
    assert_eq!(port, 1555);
}

#[test]
fn connection_string_carries_all_parameters() {
    let params = ConnectionParams {
        server: "db1,1444".to_string(),
        database: "sales".to_string(),
        username: "reader".to_string(),
        password: "pw".to_string(),
        trust_server_certificate: true,
    };
    assert_eq!(
        build_connection_string(&params),
        "Driver={ODBC Driver 18 for SQL Server};Server=db1,1444;Database=sales;Uid=reader;Pwd=pw;TrustServerCertificate=Yes;"
    );

    let plain = ConnectionParams { trust_server_certificate: false, ..params };
    assert!(!build_connection_string(&plain).contains("TrustServerCertificate"));
}

#[test]
fn instance_resolution_message_names_the_browser() {
    let err = ConnectionError::InstanceResolution {
        server: "db1".to_string(),
        instance: "SQLEXPRESS".to_string(),
        reason: "timed out".to_string(),
    };
    let msg = err.message();
    assert!(msg.contains("SQLEXPRESS"));
    assert!(msg.contains("db1"));
    assert!(msg.contains("SQL Server Browser"));
    assert!(msg.contains("UDP port 1434"));
    assert!(msg.contains("firewall"));
    assert!(msg.contains("`server,port`"));
}
