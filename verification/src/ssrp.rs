//! The SQL Server Resolution Protocol, as far as it is computation: building
//! the discovery request for a named instance, reading the advertised TCP
//! port out of a response payload, and ranking the failures of the attempts.
//!
//! The UDP exchange itself lives with the caller; it hands the received
//! payload to [`parse_ssrp_response`] as plain bytes.

use vstd::prelude::*;
use vstd::string::StringSliceAdditionalSpecFns;
use crate::text::{is_uint_bytes, lower_byte, parse_uint_bytes, to_lower_byte, uint_bytes_val};

verus! {

/// A failure of named-instance resolution.
#[derive(Debug, Clone)]
pub enum SsrpError {
    /// The host name did not resolve to any address.
    HostResolution { host: String },
    /// No response arrived within the per-address timeout.
    Timeout,
    /// A response arrived but did not carry the expected header.
    InvalidResponse,
    /// A well-formed response carried no `tcp` key.
    PortNotFound { instance: String },
    /// A socket operation failed.
    Io(String),
}

/// The text of an [`SsrpError`], as shown to the user.
pub open spec fn ssrp_error_text(e: SsrpError) -> Seq<char> {
    match e {
        SsrpError::HostResolution { host } => "Could not resolve host `"@ + host@
            + "` for SQL Server Browser lookup"@,
        SsrpError::Timeout => "Timed out waiting for SQL Server Browser response on UDP 1434"@,
        SsrpError::InvalidResponse => "SQL Server Browser returned an invalid response"@,
        SsrpError::PortNotFound { instance } => "SQL Server Browser did not return a TCP port for instance `"@
            + instance@ + "`"@,
        SsrpError::Io(msg) => "Network error during SQL Server Browser lookup: "@ + msg@,
    }
}

impl SsrpError {
    /// The human-readable message for this failure.
    pub fn message(&self) -> (r: String)
        ensures
            r@ == ssrp_error_text(*self),
    {
        match self {
            SsrpError::HostResolution { host } => {
                let mut s = String::from_str("Could not resolve host `");
                s.append(host.as_str());
                s.append("` for SQL Server Browser lookup");
                proof {
                    assert(s@ =~= ssrp_error_text(*self));
                }
                s
            },
            SsrpError::Timeout => String::from_str(
                "Timed out waiting for SQL Server Browser response on UDP 1434",
            ),
            SsrpError::InvalidResponse => String::from_str(
                "SQL Server Browser returned an invalid response",
            ),
            SsrpError::PortNotFound { instance } => {
                let mut s = String::from_str(
                    "SQL Server Browser did not return a TCP port for instance `",
                );
                s.append(instance.as_str());
                s.append("`");
                proof {
                    assert(s@ =~= ssrp_error_text(*self));
                }
                s
            },
            SsrpError::Io(msg) => {
                let mut s = String::from_str("Network error during SQL Server Browser lookup: ");
                s.append(msg.as_str());
                proof {
                    assert(s@ =~= ssrp_error_text(*self));
                }
                s
            },
        }
    }
}

/// The discovery request for a named instance: the CLNT_UCAST_INST marker
/// byte followed by the raw instance-name bytes.  The protocol does not
/// require a terminator, so none is sent.
pub fn build_ssrp_request(instance: &str) -> (r: Vec<u8>)
    ensures
        r@ == seq![4u8] + instance.spec_bytes(),
{
    let mut r: Vec<u8> = Vec::new();
    r.push(4u8);
    r.extend_from_slice(instance.as_bytes());
    proof {
        assert(r@ =~= seq![4u8] + instance.spec_bytes());
    }
    r
}

/// The index of the first `;` in a byte sequence, or `-1` when there is
/// none.
pub open spec fn first_semi(s: Seq<u8>) -> int
    decreases s.len(),
{
    if s.len() == 0 {
        -1
    } else if s[0] == 59 {
        0
    } else {
        let r = first_semi(s.subrange(1, s.len() as int));
        if r < 0 {
            -1
        } else {
            r + 1
        }
    }
}

/// A found separator index lies inside the sequence.
proof fn lemma_first_semi_bounds(s: Seq<u8>)
    ensures
        first_semi(s) < s.len(),
        first_semi(s) >= 0 || first_semi(s) == -1,
    decreases s.len(),
{
    if s.len() > 0 && s[0] != 59 {
        lemma_first_semi_bounds(s.subrange(1, s.len() as int));
    }
}

proof fn lemma_first_semi_at(s: Seq<u8>, i: int)
    requires
        0 <= i <= s.len(),
        forall|j: int| 0 <= j < i ==> s[j] != 59,
        i < s.len() ==> s[i] == 59,
    ensures
        i == s.len() ==> first_semi(s) == -1,
        i < s.len() ==> first_semi(s) == i,
    decreases i,
{
    if i > 0 {
        let rest = s.subrange(1, s.len() as int);
        lemma_first_semi_at(rest, i - 1);
    }
}

/// The leading token of a byte sequence: everything up to the first `;`, or
/// the whole sequence when there is none.
pub open spec fn leading_token(s: Seq<u8>) -> Seq<u8> {
    if first_semi(s) < 0 {
        s
    } else {
        s.subrange(0, first_semi(s))
    }
}

/// Whether a token is the key `tcp`, compared without regard to ASCII case.
pub open spec fn is_tcp_token(tok: Seq<u8>) -> bool {
    tok.len() == 3 && lower_byte(tok[0]) == 116 && lower_byte(tok[1]) == 99 && lower_byte(tok[2])
        == 112
}

/// Scans the `;`-delimited key/value payload as adjacent pairs and returns
/// the token that follows the first `tcp` key, if any key does.  A trailing
/// `tcp` token with no `;` after it opens no pair and is passed over.
pub open spec fn find_tcp_port(s: Seq<u8>) -> Option<Seq<u8>>
    decreases s.len(),
    via find_tcp_port_decreases
{
    let fs = first_semi(s);
    if fs < 0 {
        None
    } else {
        let tok = s.subrange(0, fs);
        let rest = s.subrange(fs + 1, s.len() as int);
        if is_tcp_token(tok) {
            Some(leading_token(rest))
        } else {
            find_tcp_port(rest)
        }
    }
}

#[via_fn]
proof fn find_tcp_port_decreases(s: Seq<u8>) {
    lemma_first_semi_bounds(s);
}

/// Finds the byte range of the token that follows the first `tcp` key,
/// starting the scan at `pos`.
fn find_port_token(data: &[u8], pos: usize) -> (r: Option<(usize, usize)>)
    requires
        pos <= data@.len(),
    ensures
        match find_tcp_port(data@.subrange(pos as int, data@.len() as int)) {
            Option::None => r is None,
            Option::Some(ptok) => {
                &&& r matches Some((a, b))
                &&& pos <= a <= b <= data@.len()
                &&& data@.subrange(a as int, b as int) == ptok
            },
        },
    decreases data@.len() - pos,
{
    let n = data.len();
    let ghost rest = data@.subrange(pos as int, n as int);
    let mut k: usize = pos;
    while k < n && data[k] != 59
        invariant
            pos <= k <= n,
            n == data@.len(),
            forall|j: int| pos <= j < k ==> data@[j] != 59,
        decreases n - k,
    {
        k = k + 1;
    }
    proof {
        lemma_first_semi_at(rest, k - pos);
    }
    if k == n {
        return None;
    }
    let ghost fs = (k - pos) as int;
    let ghost tok = rest.subrange(0, fs);
    let ghost rest2 = rest.subrange(fs + 1, rest.len() as int);
    proof {
        assert(rest2 =~= data@.subrange(k + 1, n as int));
    }
    let tcp_here = k - pos == 3 && to_lower_byte(data[pos]) == 116 && to_lower_byte(data[pos + 1])
        == 99 && to_lower_byte(data[pos + 2]) == 112;
    proof {
        assert(tok.len() == fs);
        if fs == 3 {
            assert(tok[0] == data@[pos as int]);
            assert(tok[1] == data@[pos + 1]);
            assert(tok[2] == data@[pos + 2]);
        }
        assert(tcp_here == is_tcp_token(tok));
    }
    if tcp_here {
        let mut m: usize = k + 1;
        while m < n && data[m] != 59
            invariant
                k + 1 <= m <= n,
                n == data@.len(),
                forall|j: int| k + 1 <= j < m ==> data@[j] != 59,
            decreases n - m,
        {
            m = m + 1;
        }
        proof {
            lemma_first_semi_at(rest2, m - (k + 1));
            assert(leading_token(rest2) =~= data@.subrange(k + 1, m as int));
        }
        Some((k + 1, m))
    } else {
        find_port_token(data, k + 1)
    }
}

/// Copies a range of a byte slice.
fn copy_range(s: &[u8], a: usize, b: usize) -> (v: Vec<u8>)
    requires
        a <= b <= s@.len(),
    ensures
        v@ == s@.subrange(a as int, b as int),
{
    let mut v: Vec<u8> = Vec::new();
    let mut i: usize = a;
    while i < b
        invariant
            a <= i <= b <= s@.len(),
            v@ == s@.subrange(a as int, i as int),
        decreases b - i,
    {
        v.push(s[i]);
        i = i + 1;
        proof {
            assert(v@ =~= s@.subrange(a as int, i as int));
        }
    }
    v
}

/// Reads the advertised TCP port out of an SSRP response.
///
/// A payload of more than three bytes starting with `0x05` carries, after a
/// three-byte header, a `;`-delimited list of keys and values; the value
/// after the first `tcp` key, read as a decimal number up to 65535, is the
/// port.  Anything without that header is an invalid response, as is a
/// `tcp` value that does not read as a port; a well-formed payload without
/// a `tcp` pair names no port for the instance.
pub fn parse_ssrp_response(data: &[u8], instance: &str) -> (r: Result<u16, SsrpError>)
    ensures
        data@.len() <= 3 || data@[0] != 5 ==> r == Err::<u16, SsrpError>(
            SsrpError::InvalidResponse,
        ),
        data@.len() > 3 && data@[0] == 5 ==> match find_tcp_port(
            data@.subrange(3, data@.len() as int),
        ) {
            Option::Some(ptok) => {
                if is_uint_bytes(ptok, 65535) {
                    r == Ok::<u16, SsrpError>(uint_bytes_val(ptok) as u16)
                } else {
                    r == Err::<u16, SsrpError>(SsrpError::InvalidResponse)
                }
            },
            Option::None => {
                &&& r matches Err(e)
                &&& e matches SsrpError::PortNotFound { instance: inst }
                &&& inst@ == instance@
            },
        },
{
    let n = data.len();
    if n <= 3 || data[0] != 5 {
        return Err(SsrpError::InvalidResponse);
    }
    match find_port_token(data, 3) {
        Some((a, b)) => {
            let port_bytes = copy_range(data, a, b);
            match parse_uint_bytes(port_bytes.as_slice(), 65535) {
                Some(v) => Ok(v as u16),
                None => Err(SsrpError::InvalidResponse),
            }
        },
        None => Err(
            SsrpError::PortNotFound { instance: String::from_str(instance) },
        ),
    }
}

/// What one resolution attempt against one browser address came to.
pub enum SsrpAttemptOutcome {
    /// A socket operation failed with the given message.
    IoFailed(String),
    /// The response did not arrive in time.
    TimedOut,
    /// The response did not parse.
    BadResponse,
    /// The response parsed but carried no TCP port.
    NoTcpPort,
}

/// The record of failed resolution attempts across the addresses of a host.
///
/// When every address has been tried without success, [`Self::final_error`]
/// reports the most specific failure seen: a missing port over a malformed
/// response, over a timeout, over a socket error, over a host that never
/// resolved at all.
pub struct SsrpAttempts {
    pub timed_out: bool,
    pub invalid_response: bool,
    pub missing_port: bool,
    pub last_io_error: Option<String>,
}

impl SsrpAttempts {
    /// A record with no attempts noted.
    pub fn new() -> (r: SsrpAttempts)
        ensures
            !r.timed_out,
            !r.invalid_response,
            !r.missing_port,
            r.last_io_error is None,
    {
        SsrpAttempts { timed_out: false, invalid_response: false, missing_port: false, last_io_error: None }
    }

    /// Notes the outcome of one failed attempt.
    pub fn note(&mut self, outcome: SsrpAttemptOutcome)
        ensures
            final(self).timed_out == (old(self).timed_out || outcome is TimedOut),
            final(self).invalid_response == (old(self).invalid_response
                || outcome is BadResponse),
            final(self).missing_port == (old(self).missing_port || outcome is NoTcpPort),
            final(self).last_io_error == (if outcome is IoFailed {
                Some(outcome->IoFailed_0)
            } else {
                old(self).last_io_error
            }),
    {
        match outcome {
            SsrpAttemptOutcome::IoFailed(msg) => {
                self.last_io_error = Some(msg);
            },
            SsrpAttemptOutcome::TimedOut => {
                self.timed_out = true;
            },
            SsrpAttemptOutcome::BadResponse => {
                self.invalid_response = true;
            },
            SsrpAttemptOutcome::NoTcpPort => {
                self.missing_port = true;
            },
        }
    }

    /// The error to surface once every address is exhausted, in order of
    /// specificity: `PortNotFound`, then `InvalidResponse`, then `Timeout`,
    /// then the last socket error, then failed host resolution.
    pub fn final_error(&self, host: &str, instance: &str) -> (e: SsrpError)
        ensures
            self.missing_port ==> (e matches SsrpError::PortNotFound { instance: i }
                && i@ == instance@),
            !self.missing_port && self.invalid_response ==> e == SsrpError::InvalidResponse,
            !self.missing_port && !self.invalid_response && self.timed_out ==> e
                == SsrpError::Timeout,
            self.last_io_error matches Some(m) ==> (!self.missing_port && !self.invalid_response
                && !self.timed_out ==> e == SsrpError::Io(m)),
            !self.missing_port && !self.invalid_response && !self.timed_out
                && self.last_io_error is None ==> (e matches SsrpError::HostResolution { host: h }
                && h@ == host@),
    {
        if self.missing_port {
            SsrpError::PortNotFound { instance: String::from_str(instance) }
        } else if self.invalid_response {
            SsrpError::InvalidResponse
        } else if self.timed_out {
            SsrpError::Timeout
        } else {
            match &self.last_io_error {
                Some(m) => SsrpError::Io(m.clone()),
                None => SsrpError::HostResolution { host: String::from_str(host) },
            }
        }
    }
}

} // verus!
