//! Connection parameters, server-string parsing and the connection error
//! type.
//!
//! A server string may name a plain host, a `host,port` or `host:port`
//! pair, or a `host\instance` named instance; the parsed target tells the
//! caller whether it can connect directly or must first discover the
//! instance's TCP port over SSRP.

use vstd::prelude::*;
use crate::ssrp::{ssrp_error_text, SsrpError};
use crate::text::{copy_range_chars, first_index_char, has_char, is_uint_str, last_index_char,
    lemma_first_index_char_at, lemma_last_index_char_at, parse_uint_chars, str_to_chars, trim,
    trim_indices, uint_str_val};
use vstd::string::StrSliceExecFns;

verus! {

/// Parameters of one database connection, as the caller supplies them.
#[derive(Debug, Clone)]
pub struct ConnectionParams {
    pub server: String,
    pub database: String,
    pub username: String,
    pub password: String,
    pub trust_server_certificate: bool,
}

/// Where a parsed server string points: a TCP endpoint ready to connect,
/// or a named instance whose port must still be discovered.
#[derive(Debug, Clone)]
pub enum ServerTarget {
    Tcp { host: String, port: u16 },
    NamedInstance { host: String, instance: String },
}

/// The default TCP port of SQL Server.
pub const DEFAULT_SQL_PORT: u16 = 1433;

/// Whether the server string splits at its first comma into a host and a
/// port in `1..=65535`, the port read from the trimmed suffix.
pub open spec fn comma_rule_applies(s: Seq<char>) -> bool {
    has_char(s, ',') && {
        let i = first_index_char(s, ',');
        let p = trim(s.subrange(i + 1, s.len() as int));
        is_uint_str(p, 65535) && uint_str_val(p) >= 1
    }
}

/// The trimmed host part of a comma-split server string.
pub open spec fn comma_host(s: Seq<char>) -> Seq<char> {
    trim(s.subrange(0, first_index_char(s, ',')))
}

/// The port of a comma-split server string.
pub open spec fn comma_port(s: Seq<char>) -> nat {
    uint_str_val(trim(s.subrange(first_index_char(s, ',') + 1, s.len() as int)))
}

/// Whether the server string splits at its last colon into a host and a
/// port in `1..=65535`.
pub open spec fn colon_rule_applies(s: Seq<char>) -> bool {
    last_index_char(s, ':') >= 0 && {
        let i = last_index_char(s, ':');
        let p = s.subrange(i + 1, s.len() as int);
        is_uint_str(p, 65535) && uint_str_val(p) >= 1
    }
}

/// The host part of a colon-split server string.
pub open spec fn colon_host(s: Seq<char>) -> Seq<char> {
    s.subrange(0, last_index_char(s, ':'))
}

/// The port of a colon-split server string.
pub open spec fn colon_port(s: Seq<char>) -> nat {
    uint_str_val(s.subrange(last_index_char(s, ':') + 1, s.len() as int))
}

/// Whether the server string names an instance: it holds a backslash and
/// neither port rule applies.
pub open spec fn instance_rule_applies(s: Seq<char>) -> bool {
    !comma_rule_applies(s) && !colon_rule_applies(s) && has_char(s, '\\')
}

/// Parses a user-supplied server string.
///
/// The rules apply in order: a string containing a comma whose trimmed
/// suffix reads as a port in `1..=65535` splits at the first comma, both
/// sides trimmed; else a string containing a colon whose suffix after the
/// last colon reads as a port splits there; else a string containing a
/// backslash splits at the first backslash into host and instance; else
/// the whole string is the host, on the default port 1433.
pub fn parse_server_endpoint(server: &str) -> (r: ServerTarget)
    ensures
        comma_rule_applies(server@) ==> (r matches ServerTarget::Tcp { host, port }
            && host@ == comma_host(server@) && port as nat == comma_port(server@)),
        !comma_rule_applies(server@) && colon_rule_applies(server@) ==> (r
            matches ServerTarget::Tcp { host, port } && host@ == colon_host(server@)
            && port as nat == colon_port(server@)),
        instance_rule_applies(server@) ==> (r matches ServerTarget::NamedInstance {
            host,
            instance,
        } && host@ == server@.subrange(0, first_index_char(server@, '\\')) && instance@
            == server@.subrange(first_index_char(server@, '\\') + 1, server@.len() as int)),
        !comma_rule_applies(server@) && !colon_rule_applies(server@) && !has_char(server@, '\\')
            ==> (r matches ServerTarget::Tcp { host, port } && host@ == server@ && port == 1433),
{
    let chars = str_to_chars(server);
    let n = chars.len();

    // Rule 1: first comma, trimmed suffix as port.
    let mut ci: usize = 0;
    while ci < n && chars[ci] != ','
        invariant
            ci <= n,
            n == chars@.len(),
            forall|j: int| 0 <= j < ci ==> chars@[j] != ',',
        decreases n - ci,
    {
        ci = ci + 1;
    }
    proof {
        lemma_first_index_char_at(server@, ',', ci as int);
    }
    if ci < n {
        let (plo, phi) = trim_indices(chars.as_slice(), ci + 1, n);
        let port_text = copy_range_chars(chars.as_slice(), plo, phi);
        if let Some(v) = parse_uint_chars(port_text.as_slice(), 65535) {
            if v >= 1 {
                let (hlo, hhi) = trim_indices(chars.as_slice(), 0, ci);
                let host = String::from_str(server.substring_char(hlo, hhi));
                return ServerTarget::Tcp { host, port: v as u16 };
            }
        }
    }

    // Rule 2: last colon, suffix as port.
    let mut li: usize = n;
    while li > 0 && chars[li - 1] != ':'
        invariant
            li <= n,
            n == chars@.len(),
            forall|j: int| li <= j < n ==> chars@[j] != ':',
        decreases li,
    {
        li = li - 1;
    }
    proof {
        lemma_last_index_char_at(server@, ':', li - 1);
    }
    if li > 0 {
        let port_text = copy_range_chars(chars.as_slice(), li, n);
        if let Some(v) = parse_uint_chars(port_text.as_slice(), 65535) {
            if v >= 1 {
                let host = String::from_str(server.substring_char(0, li - 1));
                return ServerTarget::Tcp { host, port: v as u16 };
            }
        }
    }

    // Rule 3: first backslash names an instance.
    let mut bi: usize = 0;
    while bi < n && chars[bi] != '\\'
        invariant
            bi <= n,
            n == chars@.len(),
            forall|j: int| 0 <= j < bi ==> chars@[j] != '\\',
        decreases n - bi,
    {
        bi = bi + 1;
    }
    proof {
        lemma_first_index_char_at(server@, '\\', bi as int);
    }
    if bi < n {
        let host = String::from_str(server.substring_char(0, bi));
        let instance = String::from_str(server.substring_char(bi + 1, n));
        return ServerTarget::NamedInstance { host, instance };
    }

    // Rule 4: the whole string is the host.
    ServerTarget::Tcp { host: String::from_str(server), port: DEFAULT_SQL_PORT }
}

/// The text of an ODBC connection string built from the given parameters.
pub open spec fn connection_string_text(p: ConnectionParams) -> Seq<char> {
    "Driver={ODBC Driver 18 for SQL Server};Server="@ + p.server@ + ";Database="@ + p.database@
        + ";Uid="@ + p.username@ + ";Pwd="@ + p.password@ + ";"@ + (
    if p.trust_server_certificate {
        "TrustServerCertificate=Yes;"@
    } else {
        ""@
    })
}

/// Builds the ODBC connection string for the given parameters, naming the
/// SQL Server driver, server, database and credentials, and asking the
/// driver to skip certificate validation only when the caller said so.
pub fn build_connection_string(params: &ConnectionParams) -> (r: String)
    ensures
        r@ == connection_string_text(*params),
{
    let mut s = String::from_str("Driver={ODBC Driver 18 for SQL Server};Server=");
    s.append(params.server.as_str());
    s.append(";Database=");
    s.append(params.database.as_str());
    s.append(";Uid=");
    s.append(params.username.as_str());
    s.append(";Pwd=");
    s.append(params.password.as_str());
    s.append(";");
    if params.trust_server_certificate {
        s.append("TrustServerCertificate=Yes;");
    }
    proof {
        reveal_strlit("");
        assert(s@ =~= connection_string_text(*params));
    }
    s
}

/// A failure to establish a session.
#[derive(Debug, Clone)]
pub enum ConnectionError {
    /// The driver reported a protocol or authentication failure.
    Driver(String),
    /// A socket operation failed.
    Io(String),
    /// The authentication mode cannot be used here.
    Auth(String),
    /// A named instance's port could not be discovered.
    InstanceResolution { server: String, instance: String, reason: String },
}

/// The text of a [`ConnectionError`], as shown to the user.
pub open spec fn connection_error_text(e: ConnectionError) -> Seq<char> {
    match e {
        ConnectionError::Driver(msg) => "Driver error: "@ + msg@,
        ConnectionError::Io(msg) => "Network error: "@ + msg@,
        ConnectionError::Auth(msg) => "Authentication error: "@ + msg@,
        ConnectionError::InstanceResolution { server, instance, reason } => "Could not resolve instance `"@
            + instance@ + "` on server `"@ + server@ + "`: "@ + reason@
            + ". Check that the SQL Server Browser service is running and that UDP port 1434 is not blocked by a firewall, or connect with an explicit `server,port` address."@,
    }
}

impl ConnectionError {
    /// The human-readable message for this failure.
    pub fn message(&self) -> (r: String)
        ensures
            r@ == connection_error_text(*self),
    {
        match self {
            ConnectionError::Driver(msg) => {
                let mut s = String::from_str("Driver error: ");
                s.append(msg.as_str());
                proof {
                    assert(s@ =~= connection_error_text(*self));
                }
                s
            },
            ConnectionError::Io(msg) => {
                let mut s = String::from_str("Network error: ");
                s.append(msg.as_str());
                proof {
                    assert(s@ =~= connection_error_text(*self));
                }
                s
            },
            ConnectionError::Auth(msg) => {
                let mut s = String::from_str("Authentication error: ");
                s.append(msg.as_str());
                proof {
                    assert(s@ =~= connection_error_text(*self));
                }
                s
            },
            ConnectionError::InstanceResolution { server, instance, reason } => {
                let mut s = String::from_str("Could not resolve instance `");
                s.append(instance.as_str());
                s.append("` on server `");
                s.append(server.as_str());
                s.append("`: ");
                s.append(reason.as_str());
                s.append(
                    ". Check that the SQL Server Browser service is running and that UDP port 1434 is not blocked by a firewall, or connect with an explicit `server,port` address.",
                );
                proof {
                    assert(s@ =~= connection_error_text(*self));
                }
                s
            },
        }
    }
}

/// Wraps an SSRP failure for `server\instance` into the connection error
/// that names the server, the instance and the reason.
pub fn instance_resolution_error(server: &str, instance: &str, cause: &SsrpError) -> (e:
    ConnectionError)
    ensures
        e matches ConnectionError::InstanceResolution { server: sv, instance: inst, reason }
            && sv@ == server@ && inst@ == instance@ && reason@ == ssrp_error_text(*cause),
{
    ConnectionError::InstanceResolution {
        server: String::from_str(server),
        instance: String::from_str(instance),
        reason: cause.message(),
    }
}

} // verus!
