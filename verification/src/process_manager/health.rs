//! Health probes: configuration, probe outcomes, and their classification.
//!
//! The daemon performs the probe I/O (a TCP connect, an HTTP exchange, or a
//! child command) and hands what it observed to [`check_health`] as a
//! [`ProbeOutcome`]; the classification into a [`HealthStatus`] is verified
//! here. Durations are held in whole seconds.

use vstd::prelude::*;
use vstd::string::StringSliceAdditionalSpecFns;
use vstd::utf8::valid_utf8;

use crate::strutil::{
    all_digits, bytes_range, dec_digits, dec_value, find_byte, find_non_ws, find_ws,
    first_non_ws_from, first_ws_from, i64_to_string, index_of_from, lemma_ascii_boundary,
    parse_u64_bytes, seq_starts_with, str_starts_with, u64_to_string, utf8_sub,
};

verus! {

/// Result of one health probe.
#[derive(Debug, PartialEq, Eq)]
pub enum HealthStatus {
    Healthy,
    Unhealthy(String),
    Unknown,
}

impl HealthStatus {
    /// An equal copy of the status.
    pub fn dup(&self) -> (r: Self)
        ensures
            r == *self,
    {
        match self {
            HealthStatus::Healthy => HealthStatus::Healthy,
            HealthStatus::Unhealthy(reason) => HealthStatus::Unhealthy(reason.clone()),
            HealthStatus::Unknown => HealthStatus::Unknown,
        }
    }
}

/// How a process is probed.
#[derive(Debug)]
pub enum HealthCheckType {
    Http { url: String, expected_status: Option<u16> },
    Tcp { host: String, port: u16 },
    Command { cmd: String, args: Vec<String> },
}

/// Health check configuration of one process. Durations are in seconds.
#[derive(Debug)]
pub struct HealthCheckConfig {
    pub check_type: HealthCheckType,
    pub interval: u64,
    pub timeout: u64,
    pub retries: u32,
    pub start_period: u64,
}

impl Default for HealthCheckConfig {
    /// A TCP probe of 127.0.0.1:8080 every 30 s, 5 s timeout, 3 retries,
    /// 10 s start period.
    fn default() -> (r: Self)
        ensures
            (r.check_type matches HealthCheckType::Tcp { host, port } && host@ == "127.0.0.1"@
                && port == 8080),
            r.interval == 30,
            r.timeout == 5,
            r.retries == 3,
            r.start_period == 10,
    {
        HealthCheckConfig {
            check_type: HealthCheckType::Tcp { host: "127.0.0.1".to_owned(), port: 8080 },
            interval: 30,
            timeout: 5,
            retries: 3,
            start_period: 10,
        }
    }
}

/// What the daemon observed when it executed one probe.
#[derive(Debug)]
pub enum ProbeOutcome {
    /// A TCP connect attempt: whether it succeeded, and the error text when
    /// it did not.
    TcpConnect { success: bool, error: String },
    /// An HTTP exchange: the raw response text, or the error line when the
    /// connect, send or read failed.
    HttpExchange { response: Result<String, String> },
    /// A command run: whether the wall clock exceeded the timeout, and the
    /// command's exit, or the error line when it could not be run.
    CommandRun { timed_out: bool, run: Result<CommandExit, String> },
}

/// Exit of a probe command.
#[derive(Debug, Clone, Copy)]
pub struct CommandExit {
    /// Whether the command exited successfully.
    pub success: bool,
    /// The exit code, with -1 standing for an exit without a code.
    pub code: i64,
}

/// The scheme prefix is removed from a URL, first `http://`, then
/// `https://`.
pub open spec fn spec_url_rest(b: Seq<u8>) -> Seq<u8> {
    let b1 = if seq_starts_with(b, "http://".spec_bytes()) {
        b.skip("http://".spec_bytes().len() as int)
    } else {
        b
    };
    if seq_starts_with(b1, "https://".spec_bytes()) {
        b1.skip("https://".spec_bytes().len() as int)
    } else {
        b1
    }
}

/// The host of a URL: the part before the first `:` or `/` after the
/// scheme.
pub open spec fn spec_url_host(b: Seq<u8>) -> Seq<u8> {
    let rest = spec_url_rest(b);
    let hp = rest.take(index_of_from(rest, 47, 0));
    hp.take(index_of_from(hp, 58, 0))
}

/// The port of a URL: the digits between the first and second `:` before
/// the first `/`, defaulting to 80 when absent or not a port number.
pub open spec fn spec_url_port(b: Seq<u8>) -> int {
    let rest = spec_url_rest(b);
    let hp = rest.take(index_of_from(rest, 47, 0));
    let ci = index_of_from(hp, 58, 0);
    if ci == hp.len() {
        80
    } else {
        let after = hp.skip(ci + 1);
        let seg = after.take(index_of_from(after, 58, 0));
        if seg.len() > 0 && all_digits(seg) && dec_value(seg) <= u16::MAX {
            dec_value(seg)
        } else {
            80
        }
    }
}

/// The path of a URL: from the first `/` after the scheme, or `/` when the
/// URL has none.
pub open spec fn spec_url_path(b: Seq<u8>) -> Seq<u8> {
    let rest = spec_url_rest(b);
    let si = index_of_from(rest, 47, 0);
    if si == rest.len() {
        "/".spec_bytes()
    } else {
        rest.skip(si)
    }
}

/// Split an HTTP URL into host, port and request path.
#[verifier::rlimit(100)]
pub fn parse_http_url(url: &str) -> (r: (String, u16, String))
    ensures
        vstd::utf8::encode_utf8(r.0@) == spec_url_host(url.spec_bytes()),
        r.1 as int == spec_url_port(url.spec_bytes()),
        vstd::utf8::encode_utf8(r.2@) == spec_url_path(url.spec_bytes()),
{
    let b = url.as_bytes();
    proof {
        vstd::utf8::encode_utf8_valid_utf8(url@);
    }
    let mut start: usize = 0;
    if str_starts_with(url, "http://") {
        start = "http://".as_bytes().len();
    }
    let rest_b = &b[start..b.len()];
    proof {
        if seq_starts_with(url.spec_bytes(), "http://".spec_bytes()) {
            assert(rest_b@ =~= url.spec_bytes().skip("http://".spec_bytes().len() as int));
        } else {
            assert(rest_b@ =~= url.spec_bytes());
        }
    }
    let mut start2: usize = 0;
    let pb = "https://".as_bytes();
    if crate::strutil::slice_starts_with(rest_b, pb) {
        start2 = pb.len();
    }
    let rest = &b[(start + start2)..b.len()];
    proof {
        assert(rest@ =~= spec_url_rest(url.spec_bytes()));
        assert(valid_utf8(b@));
    }
    let slash = find_byte(rest, 47, 0);
    let colon = {
        let c = find_byte(rest, 58, 0);
        if c < slash {
            c
        } else {
            slash
        }
    };
    proof {
        lemma_colon_in_prefix(rest@, slash as int, colon as int);
    }
    // host
    let host_from = start + start2;
    proof {
        vstd::utf8::encode_utf8_valid_utf8("http://"@);
        vstd::utf8::encode_utf8_valid_utf8("https://"@);
        if start > 0 && start2 > 0 {
            vstd::utf8::valid_utf8_concat("http://".spec_bytes(), "https://".spec_bytes());
            assert(b@.take(host_from as int) =~= "http://".spec_bytes()
                + "https://".spec_bytes());
        } else if start > 0 {
            assert(b@.take(host_from as int) =~= "http://".spec_bytes());
        } else if start2 > 0 {
            assert(b@.take(host_from as int) =~= "https://".spec_bytes());
        } else {
            assert(b@.take(host_from as int) =~= Seq::<u8>::empty());
            assert(vstd::utf8::valid_utf8(b@.take(host_from as int)));
        }
        crate::strutil::lemma_valid_prefix_boundary(b@, host_from as int);
        lemma_index_bounds(rest@, 47, 0);
        lemma_index_bounds(rest@, 58, 0);
        lemma_ascii_boundary(b@, (host_from + colon) as int);
        assert(b@.subrange(host_from as int, host_from + colon) =~= spec_url_host(
            url.spec_bytes(),
        ));
    }
    let host = utf8_sub(b, host_from, host_from + colon);
    // port
    let port: u16 = if colon == slash {
        proof {
            assert(spec_url_port(url.spec_bytes()) == 80);
        }
        80u16
    } else {
        let after_from = colon + 1;
        let colon2 = find_byte(rest, 58, after_from);
        let seg_end = if colon2 < slash {
            colon2
        } else {
            slash
        };
        proof {
            lemma_second_colon(rest@, slash as int, colon as int, colon2 as int, seg_end as int);
        }
        let seg = bytes_range(rest, after_from, seg_end);
        match parse_u64_bytes(seg.as_slice()) {
            Some(v) => {
                if v <= 65535 {
                    v as u16
                } else {
                    80u16
                }
            },
            None => 80u16,
        }
    };
    // path
    let path: String = if slash == rest.len() {
        "/".to_owned()
    } else {
        proof {
            lemma_index_bounds(rest@, 47, 0);
            lemma_ascii_boundary(b@, (host_from + slash) as int);
            lemma_ascii_boundary(b@, b@.len() as int);
            assert(b@.subrange(host_from + slash, b@.len() as int) =~= spec_url_path(
                url.spec_bytes(),
            ));
        }
        utf8_sub(b, host_from + slash, b.len())
    };
    (host, port, path)
}

/// Inside the host-port part (before the first slash), the first colon of
/// the whole rest is the first colon of that part.
proof fn lemma_colon_in_prefix(rest: Seq<u8>, slash: int, colon: int)
    requires
        slash == index_of_from(rest, 47, 0),
        colon == (if index_of_from(rest, 58, 0) < slash {
            index_of_from(rest, 58, 0)
        } else {
            slash
        }),
    ensures
        ({
            let hp = rest.take(slash);
            colon == index_of_from(hp, 58, 0)
        }),
{
    let hp = rest.take(slash);
    lemma_index_bounds(rest, 47, 0);
    lemma_index_bounds(rest, 58, 0);
    let c = index_of_from(rest, 58, 0);
    if c < slash {
        crate::strutil::lemma_index_of_from_at(hp, 58, 0, c);
    } else {
        crate::strutil::lemma_index_of_from_at(hp, 58, 0, slash);
    }
}

/// The port segment ends at the second colon or the slash, whichever comes
/// first.
proof fn lemma_second_colon(rest: Seq<u8>, slash: int, colon: int, colon2: int, seg_end: int)
    requires
        slash == index_of_from(rest, 47, 0),
        0 <= colon < slash,
        colon == index_of_from(rest.take(slash), 58, 0),
        colon2 == index_of_from(rest, 58, colon + 1),
        seg_end == (if colon2 < slash {
            colon2
        } else {
            slash
        }),
    ensures
        ({
            let hp = rest.take(slash);
            let after = hp.skip(colon + 1);
            rest.subrange(colon + 1, seg_end) == after.take(index_of_from(after, 58, 0))
        }),
{
    let hp = rest.take(slash);
    let after = hp.skip(colon + 1);
    lemma_index_bounds(rest, 47, 0);
    lemma_index_bounds(rest, 58, colon + 1);
    lemma_index_bounds(hp, 58, 0);
    if colon2 < slash {
        assert forall|j: int| 0 <= j < colon2 - (colon + 1) implies after[j] != 58 by {
            assert(after[j] == rest[colon + 1 + j]);
            lemma_index_skipped(rest, 58, colon + 1, colon + 1 + j, colon2);
        }
        crate::strutil::lemma_index_of_from_at(after, 58, 0, colon2 - (colon + 1));
        assert(rest.subrange(colon + 1, colon2) =~= after.take(colon2 - (colon + 1)));
    } else {
        assert forall|j: int| 0 <= j < after.len() implies after[j] != 58 by {
            assert(after[j] == rest[colon + 1 + j]);
            lemma_index_skipped(rest, 58, colon + 1, colon + 1 + j, colon2);
        }
        crate::strutil::lemma_index_of_from_at(after, 58, 0, after.len() as int);
        assert(rest.subrange(colon + 1, slash) =~= after.take(after.len() as int));
    }
}

/// The first find's result bounds: between `from` and the length, and no
/// hit before it.
proof fn lemma_index_bounds(b: Seq<u8>, c: u8, from: int)
    requires
        0 <= from <= b.len(),
    ensures
        from <= index_of_from(b, c, from) <= b.len(),
        index_of_from(b, c, from) < b.len() ==> b[index_of_from(b, c, from)] == c,
        forall|j: int| from <= j < index_of_from(b, c, from) ==> b[j] != c,
    decreases b.len() - from,
{
    if from < b.len() && b[from] != c {
        lemma_index_bounds(b, c, from + 1);
    }
}

/// No byte before the found index equals the needle.
proof fn lemma_index_skipped(b: Seq<u8>, c: u8, from: int, j: int, found: int)
    requires
        0 <= from <= b.len(),
        found == index_of_from(b, c, from),
        from <= j < found,
    ensures
        b[j] != c,
{
    lemma_index_bounds(b, c, from);
}

/// The first line of a response: up to the first newline, with a trailing
/// carriage return removed.
pub open spec fn spec_first_line(b: Seq<u8>) -> Seq<u8> {
    let line = b.take(index_of_from(b, 10, 0));
    if line.len() > 0 && line.last() == 13 {
        line.drop_last()
    } else {
        line
    }
}

/// The status code of an HTTP response: the second whitespace-separated
/// token of the first line, read as a decimal number fitting a `u16`.
pub open spec fn spec_http_status(b: Seq<u8>) -> Option<int> {
    let line = spec_first_line(b);
    let i1 = first_non_ws_from(line, 0);
    let e1 = first_ws_from(line, i1);
    let i2 = first_non_ws_from(line, e1);
    let e2 = first_ws_from(line, i2);
    let tok = line.subrange(i2, e2);
    if tok.len() > 0 && all_digits(tok) && dec_value(tok) <= u16::MAX {
        Some(dec_value(tok))
    } else {
        None
    }
}

/// Extract the status code from a raw HTTP response.
pub fn parse_http_status(response: &str) -> (r: Option<u16>)
    ensures
        (match r {
            Some(v) => spec_http_status(response.spec_bytes()) == Some(v as int),
            None => spec_http_status(response.spec_bytes()) is None,
        }),
{
    let b = response.as_bytes();
    let nl = find_byte(b, 10, 0);
    let mut line = bytes_range(b, 0, nl);
    if line.len() > 0 && line[line.len() - 1] == 13 {
        line.pop();
        proof {
            assert(line@ =~= spec_first_line(b@));
        }
    }
    proof {
        assert(line@ =~= spec_first_line(b@));
    }
    let ls = line.as_slice();
    let i1 = find_non_ws(ls, 0);
    let e1 = find_ws(ls, i1);
    let i2 = find_non_ws(ls, e1);
    let e2 = find_ws(ls, i2);
    let tok = bytes_range(ls, i2, e2);
    match parse_u64_bytes(tok.as_slice()) {
        Some(v) => {
            if v <= 65535 {
                Some(v as u16)
            } else {
                None
            }
        },
        None => None,
    }
}

/// Classify the outcome of one probe, as configured. An outcome of a
/// different probe kind than the configuration names is Unknown.
pub fn check_health(config: &HealthCheckConfig, outcome: &ProbeOutcome) -> (r: HealthStatus)
    ensures
        (match config.check_type {
            HealthCheckType::Tcp { .. } => (match outcome {
                ProbeOutcome::TcpConnect { success, error } => {
                    if *success {
                        r is Healthy
                    } else {
                        r matches HealthStatus::Unhealthy(m) && m@ == "Connection failed: "@
                            + error@
                    }
                },
                _ => r is Unknown,
            }),
            HealthCheckType::Http { .. } => (match outcome {
                ProbeOutcome::HttpExchange { response } => (match response {
                    Err(m0) => r matches HealthStatus::Unhealthy(m) && m == m0,
                    Ok(text) => spec_http_health(
                        r,
                        spec_http_status(vstd::utf8::encode_utf8(text@)),
                        (match config.check_type {
                            HealthCheckType::Http { expected_status, .. } => expected_status,
                            _ => None,
                        }),
                    ),
                }),
                _ => r is Unknown,
            }),
            HealthCheckType::Command { .. } => (match outcome {
                ProbeOutcome::CommandRun { timed_out, run } => {
                    if *timed_out {
                        r matches HealthStatus::Unhealthy(m) && m@ == "Command timed out"@
                    } else {
                        match run {
                            Err(e) => (r matches HealthStatus::Unhealthy(m) && m@
                                == "Command failed: "@ + e@),
                            Ok(exit) => {
                                if exit.success {
                                    r is Healthy
                                } else {
                                    r matches HealthStatus::Unhealthy(m) && m@
                                        == "Command exited with code: "@ + spec_i64_digits(
                                        exit.code as int,
                                    )
                                }
                            },
                        }
                    }
                },
                _ => r is Unknown,
            }),
        }),
{
    match &config.check_type {
        HealthCheckType::Tcp { .. } => {
            match outcome {
                ProbeOutcome::TcpConnect { success, error } => {
                    if *success {
                        HealthStatus::Healthy
                    } else {
                        HealthStatus::Unhealthy(
                            "Connection failed: ".to_owned().concat(error.as_str()),
                        )
                    }
                },
                _ => HealthStatus::Unknown,
            }
        },
        HealthCheckType::Http { url: _, expected_status } => {
            match outcome {
                ProbeOutcome::HttpExchange { response } => {
                    match response {
                        Err(m) => HealthStatus::Unhealthy(m.clone()),
                        Ok(text) => {
                            let status = parse_http_status(text.as_str());
                            classify_http_status(status, *expected_status)
                        },
                    }
                },
                _ => HealthStatus::Unknown,
            }
        },
        HealthCheckType::Command { .. } => {
            match outcome {
                ProbeOutcome::CommandRun { timed_out, run } => {
                    if *timed_out {
                        HealthStatus::Unhealthy("Command timed out".to_owned())
                    } else {
                        match run {
                            Err(e) => HealthStatus::Unhealthy(
                                "Command failed: ".to_owned().concat(e.as_str()),
                            ),
                            Ok(exit) => {
                                if exit.success {
                                    HealthStatus::Healthy
                                } else {
                                    HealthStatus::Unhealthy(
                                        "Command exited with code: ".to_owned().concat(
                                            i64_to_string(exit.code).as_str(),
                                        ),
                                    )
                                }
                            },
                        }
                    }
                },
                _ => HealthStatus::Unknown,
            }
        },
    }
}

/// The decimal rendering of a signed value, as characters.
pub open spec fn spec_i64_digits(n: int) -> Seq<char> {
    if n >= 0 {
        dec_digits(n)
    } else {
        seq!['-'] + dec_digits(-n)
    }
}

/// How a parsed HTTP status is judged: the expected status when one is
/// configured, else any code in [200, 400).
pub open spec fn spec_http_health(r: HealthStatus, status: Option<int>, expected: Option<u16>) -> bool {
    match status {
        None => r matches HealthStatus::Unhealthy(m) && m@ == "Invalid HTTP response"@,
        Some(code) => match expected {
            Some(e) => {
                if code == e as int {
                    r is Healthy
                } else {
                    r matches HealthStatus::Unhealthy(m) && m@ == "Expected status "@ + dec_digits(
                        e as int,
                    ) + ", got "@ + dec_digits(code)
                }
            },
            None => {
                if 200 <= code < 400 {
                    r is Healthy
                } else {
                    r matches HealthStatus::Unhealthy(m) && m@ == "Status code: "@ + dec_digits(
                        code,
                    )
                }
            },
        },
    }
}

/// Judge a parsed HTTP status code against the expectation.
pub fn classify_http_status(status: Option<u16>, expected: Option<u16>) -> (r: HealthStatus)
    ensures
        spec_http_health(
            r,
            (match status {
                Some(v) => Some(v as int),
                None => None,
            }),
            expected,
        ),
{
    match status {
        None => HealthStatus::Unhealthy("Invalid HTTP response".to_owned()),
        Some(code) => match expected {
            Some(e) => {
                if code == e {
                    HealthStatus::Healthy
                } else {
                    let m = "Expected status ".to_owned().concat(
                        u64_to_string(e as u64).as_str(),
                    ).concat(", got ").concat(u64_to_string(code as u64).as_str());
                    HealthStatus::Unhealthy(m)
                }
            },
            None => {
                if 200 <= code && code < 400 {
                    HealthStatus::Healthy
                } else {
                    HealthStatus::Unhealthy(
                        "Status code: ".to_owned().concat(u64_to_string(code as u64).as_str()),
                    )
                }
            },
        },
    }
}


/// The two probe kinds hold the same data. The command argument vector is
/// compared by its contents.
pub open spec fn same_check_type(a: HealthCheckType, b: HealthCheckType) -> bool {
    match (a, b) {
        (
            HealthCheckType::Http { url: u1, expected_status: e1 },
            HealthCheckType::Http { url: u2, expected_status: e2 },
        ) => u1 == u2 && e1 == e2,
        (
            HealthCheckType::Tcp { host: h1, port: p1 },
            HealthCheckType::Tcp { host: h2, port: p2 },
        ) => h1 == h2 && p1 == p2,
        (
            HealthCheckType::Command { cmd: c1, args: a1 },
            HealthCheckType::Command { cmd: c2, args: a2 },
        ) => c1 == c2 && a1@ == a2@,
        _ => false,
    }
}

/// The two configurations hold the same data.
pub open spec fn same_health_config(a: HealthCheckConfig, b: HealthCheckConfig) -> bool {
    &&& same_check_type(a.check_type, b.check_type)
    &&& a.interval == b.interval
    &&& a.timeout == b.timeout
    &&& a.retries == b.retries
    &&& a.start_period == b.start_period
}

impl HealthCheckType {
    /// A copy holding the same data.
    pub fn dup(&self) -> (r: Self)
        ensures
            same_check_type(r, *self),
    {
        match self {
            HealthCheckType::Http { url, expected_status } => HealthCheckType::Http {
                url: url.clone(),
                expected_status: *expected_status,
            },
            HealthCheckType::Tcp { host, port } => HealthCheckType::Tcp {
                host: host.clone(),
                port: *port,
            },
            HealthCheckType::Command { cmd, args } => HealthCheckType::Command {
                cmd: cmd.clone(),
                args: crate::strutil::clone_string_vec(args),
            },
        }
    }
}

impl HealthCheckConfig {
    /// A copy holding the same data.
    pub fn dup(&self) -> (r: Self)
        ensures
            same_health_config(r, *self),
    {
        HealthCheckConfig {
            check_type: self.check_type.dup(),
            interval: self.interval,
            timeout: self.timeout,
            retries: self.retries,
            start_period: self.start_period,
        }
    }
}

} // verus!
