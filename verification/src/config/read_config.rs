//! Application descriptors, as read from a JSON configuration file.
//!
//! The surrounding binary parses the JSON document and hands the library a
//! plain [`AppConfig`] value; the interpretation of that value — defaults,
//! duration strings, flattening projects into an application list — is
//! verified here. Duration values are held in whole seconds.

use vstd::prelude::*;
use vstd::string::StringSliceAdditionalSpecFns;

use crate::config::error::ConfigError;
use crate::strutil::{
    all_digits, dec_value, parse_u64_bytes, seq_ends_with, spec_trim_suffix, str_ends_with,
    trim_suffix_len,
};

verus! {

/// A configuration document: a single application, or named projects each
/// holding a list of applications.
#[derive(Debug)]
pub enum AppConfig {
    SingleApp(Box<App>),
    MultiApp(Vec<(String, Vec<App>)>),
}

/// One application descriptor.
#[derive(Debug)]
pub struct App {
    pub name: String,
    pub script: String,
    pub args: Vec<String>,
    pub cwd: Option<String>,
    pub env: Vec<(String, String)>,
    pub log: LogConfig,
    pub restart: RestartConfig,
    pub healthcheck: Option<HealthCheck>,
    /// Reserved for a cron-style schedule.
    pub schedule: Option<String>,
}

/// Where an application's output goes.
#[derive(Debug)]
pub struct LogConfig {
    pub out: String,
    pub error: String,
    pub combined: bool,
}

/// The restart policy of an application. The delay is in seconds.
#[derive(Debug)]
pub struct RestartConfig {
    pub policy: RestartPolicy,
    /// -1 stands for unlimited restarts.
    pub max_restarts: i32,
    pub restart_delay: u64,
}

#[derive(Debug, Clone, Copy, PartialEq, Eq, Structural)]
pub enum RestartPolicy {
    Always,
    OnFailure,
    Never,
}

/// A health check, as declared in the configuration file. Durations are
/// strings such as `30s`, `5min` or `1h`.
#[derive(Debug)]
pub struct HealthCheck {
    pub check_type: HealthCheckType,
    pub interval: String,
    pub timeout: String,
    pub retries: u32,
    pub start_period: Option<String>,
    pub url: Option<String>,
    pub command: Option<String>,
    pub host: Option<String>,
    pub port: Option<u16>,
}

#[derive(Debug, Clone, Copy, PartialEq, Eq, Structural)]
pub enum HealthCheckType {
    Http,
    Tcp,
    Command,
}

pub fn default_log_out() -> (r: String)
    ensures
        r@ == "stdout"@,
{
    "stdout".to_owned()
}

pub fn default_log_error() -> (r: String)
    ensures
        r@ == "stderr"@,
{
    "stderr".to_owned()
}

pub fn default_restart_policy() -> (r: RestartPolicy)
    ensures
        r is OnFailure,
{
    RestartPolicy::OnFailure
}

pub fn default_max_restarts() -> (r: i32)
    ensures
        r == -1,
{
    -1
}

pub fn default_restart_delay() -> (r: u64)
    ensures
        r == 5,
{
    5
}

pub fn default_health_interval() -> (r: String)
    ensures
        r@ == "30s"@,
{
    "30s".to_owned()
}

pub fn default_health_timeout() -> (r: String)
    ensures
        r@ == "5s"@,
{
    "5s".to_owned()
}

pub fn default_health_retries() -> (r: u32)
    ensures
        r == 3,
{
    3
}

impl Default for LogConfig {
    /// Output to the default log files, not combined.
    fn default() -> (r: Self)
        ensures
            r.out@ == "stdout"@,
            r.error@ == "stderr"@,
            !r.combined,
    {
        LogConfig { out: default_log_out(), error: default_log_error(), combined: false }
    }
}

impl Default for RestartConfig {
    /// Restart on failure, unlimited, with a 5 s delay.
    fn default() -> (r: Self)
        ensures
            r.policy is OnFailure,
            r.max_restarts == -1,
            r.restart_delay == 5,
    {
        RestartConfig {
            policy: default_restart_policy(),
            max_restarts: default_max_restarts(),
            restart_delay: default_restart_delay(),
        }
    }
}

impl LogConfig {
    /// An equal copy.
    pub fn dup(&self) -> (r: Self)
        ensures
            r == *self,
    {
        LogConfig { out: self.out.clone(), error: self.error.clone(), combined: self.combined }
    }
}

impl RestartConfig {
    /// An equal copy.
    pub fn dup(&self) -> (r: Self)
        ensures
            r == *self,
    {
        RestartConfig {
            policy: self.policy,
            max_restarts: self.max_restarts,
            restart_delay: self.restart_delay,
        }
    }
}

impl HealthCheck {
    /// An equal copy.
    pub fn dup(&self) -> (r: Self)
        ensures
            r == *self,
    {
        HealthCheck {
            check_type: self.check_type,
            interval: self.interval.clone(),
            timeout: self.timeout.clone(),
            retries: self.retries,
            start_period: crate::strutil::clone_opt_string(&self.start_period),
            url: crate::strutil::clone_opt_string(&self.url),
            command: crate::strutil::clone_opt_string(&self.command),
            host: crate::strutil::clone_opt_string(&self.host),
            port: self.port,
        }
    }
}

/// The two descriptors hold the same data. Vector-valued fields are
/// compared by their contents.
pub open spec fn same_app(a: App, b: App) -> bool {
    &&& a.name == b.name
    &&& a.script == b.script
    &&& a.args@ == b.args@
    &&& a.cwd == b.cwd
    &&& a.env@ == b.env@
    &&& a.log == b.log
    &&& a.restart == b.restart
    &&& a.healthcheck == b.healthcheck
    &&& a.schedule == b.schedule
}

impl App {
    /// A copy holding the same data.
    pub fn dup(&self) -> (r: Self)
        ensures
            same_app(r, *self),
    {
        App {
            name: self.name.clone(),
            script: self.script.clone(),
            args: crate::strutil::clone_string_vec(&self.args),
            cwd: crate::strutil::clone_opt_string(&self.cwd),
            env: crate::strutil::clone_string_pairs(&self.env),
            log: self.log.dup(),
            restart: self.restart.dup(),
            healthcheck: (match &self.healthcheck {
                Some(hc) => Some(hc.dup()),
                None => None,
            }),
            schedule: crate::strutil::clone_opt_string(&self.schedule),
        }
    }
}

/// All applications of a project list, in declaration order.
pub open spec fn flat_apps(ps: Seq<(String, Vec<App>)>) -> Seq<App>
    decreases ps.len(),
{
    if ps.len() == 0 {
        Seq::empty()
    } else {
        flat_apps(ps.drop_last()) + ps.last().1@
    }
}

impl AppConfig {
    /// All applications in this document, with the first project's name
    /// when the document names projects.
    pub fn get_apps(&self) -> (r: (Option<String>, Vec<App>))
        requires
            (self matches AppConfig::MultiApp(ps) ==> ps@.len() > 0),
        ensures
            (match self {
                AppConfig::SingleApp(app) => {
                    &&& r.0 is None
                    &&& r.1@.len() == 1
                    &&& same_app(r.1@[0], **app)
                },
                AppConfig::MultiApp(ps) => {
                    &&& (r.0 matches Some(n) && n == ps@[0].0)
                    &&& r.1@.len() == flat_apps(ps@).len()
                    &&& (forall|i: int|
                        0 <= i < r.1@.len() ==> same_app(#[trigger] r.1@[i], flat_apps(ps@)[i]))
                },
            }),
    {
        match self {
            AppConfig::SingleApp(app) => {
                let mut v: Vec<App> = Vec::new();
                v.push((**app).dup());
                (None, v)
            },
            AppConfig::MultiApp(ps) => {
                let project_name = Some(ps[0].0.clone());
                let mut apps: Vec<App> = Vec::new();
                let mut i: usize = 0;
                while i < ps.len()
                    invariant
                        i <= ps@.len(),
                        apps@.len() == flat_apps(ps@.take(i as int)).len(),
                        forall|k: int|
                            0 <= k < apps@.len() ==> same_app(
                                #[trigger] apps@[k],
                                flat_apps(ps@.take(i as int))[k],
                            ),
                    decreases ps@.len() - i,
                {
                    let ghost prefix = flat_apps(ps@.take(i as int));
                    let project = &ps[i];
                    let mut j: usize = 0;
                    while j < project.1.len()
                        invariant
                            i < ps@.len(),
                            j <= project.1@.len(),
                            project == ps@[i as int],
                            apps@.len() == prefix.len() + j,
                            forall|k: int|
                                0 <= k < prefix.len() ==> same_app(
                                    #[trigger] apps@[k],
                                    prefix[k],
                                ),
                            forall|k: int|
                                0 <= k < j ==> same_app(
                                    #[trigger] apps@[prefix.len() + k],
                                    project.1@[k],
                                ),
                        decreases project.1@.len() - j,
                    {
                        apps.push(project.1[j].dup());
                        j += 1;
                    }
                    proof {
                        assert(ps@.take(i + 1).drop_last() =~= ps@.take(i as int));
                        assert(ps@.take(i + 1).last() == ps@[i as int]);
                        assert(flat_apps(ps@.take(i + 1)) == prefix + project.1@);
                        assert forall|k: int| 0 <= k < apps@.len() implies same_app(
                            #[trigger] apps@[k],
                            flat_apps(ps@.take(i + 1))[k],
                        ) by {
                            if k >= prefix.len() {
                                assert(same_app(apps@[prefix.len() + (k - prefix.len())],
                                    project.1@[k - prefix.len()]));
                            }
                        }
                    }
                    i += 1;
                }
                proof {
                    assert(ps@.take(ps@.len() as int) =~= ps@);
                }
                (project_name, apps)
            },
        }
    }
}

/// The seconds that a duration string denotes: a decimal count followed by
/// `s` for seconds, `min` or `m` for minutes, or `hr` or `h` for hours;
/// nothing for any other form. The suffix test for seconds comes first, so
/// `ms` is not milliseconds but a malformed count.
pub open spec fn spec_parse_duration(b: Seq<u8>) -> Option<int> {
    if seq_ends_with(b, "s".spec_bytes()) {
        let d = spec_trim_suffix(b, "s".spec_bytes());
        if d.len() > 0 && all_digits(d) && dec_value(d) <= u64::MAX {
            Some(dec_value(d))
        } else {
            None
        }
    } else if seq_ends_with(b, "min".spec_bytes()) || seq_ends_with(b, "m".spec_bytes()) {
        let d = spec_trim_suffix(spec_trim_suffix(b, "min".spec_bytes()), "m".spec_bytes());
        if d.len() > 0 && all_digits(d) && dec_value(d) <= u64::MAX {
            Some(dec_value(d) * 60)
        } else {
            None
        }
    } else if seq_ends_with(b, "hr".spec_bytes()) || seq_ends_with(b, "h".spec_bytes()) {
        let d = spec_trim_suffix(spec_trim_suffix(b, "hr".spec_bytes()), "h".spec_bytes());
        if d.len() > 0 && all_digits(d) && dec_value(d) <= u64::MAX {
            Some(dec_value(d) * 3600)
        } else {
            None
        }
    } else {
        None
    }
}

/// Parse a duration string into seconds. Fails exactly when the string has
/// no known suffix, the count is not a number fitting a `u64`, or the
/// seconds overflow a `u64`.
pub fn parse_duration(s: &str) -> (r: Result<u64, ConfigError>)
    ensures
        (match r {
            Ok(v) => spec_parse_duration(s.spec_bytes()) == Some(v as int),
            Err(e) => {
                &&& (match spec_parse_duration(s.spec_bytes()) {
                    Some(v) => v > u64::MAX,
                    None => true,
                })
                &&& e is InvalidDuration
            },
        }),
{
    let b = s.as_bytes();
    if str_ends_with(s, "s") {
        let end = trim_suffix_len(b, "s".as_bytes());
        let d = crate::strutil::bytes_range(b, 0, end);
        proof {
            assert(d@ == spec_trim_suffix(s.spec_bytes(), "s".spec_bytes()));
        }
        match parse_u64_bytes(d.as_slice()) {
            Some(v) => Ok(v),
            None => Err(ConfigError::InvalidDuration),
        }
    } else if str_ends_with(s, "min") || str_ends_with(s, "m") {
        let end1 = trim_suffix_len(b, "min".as_bytes());
        let b1 = crate::strutil::bytes_range(b, 0, end1);
        let end2 = trim_suffix_len(b1.as_slice(), "m".as_bytes());
        let d = crate::strutil::bytes_range(b1.as_slice(), 0, end2);
        match parse_u64_bytes(d.as_slice()) {
            Some(v) => {
                match v.checked_mul(60) {
                    Some(secs) => Ok(secs),
                    None => Err(ConfigError::InvalidDuration),
                }
            },
            None => Err(ConfigError::InvalidDuration),
        }
    } else if str_ends_with(s, "hr") || str_ends_with(s, "h") {
        let end1 = trim_suffix_len(b, "hr".as_bytes());
        let b1 = crate::strutil::bytes_range(b, 0, end1);
        let end2 = trim_suffix_len(b1.as_slice(), "h".as_bytes());
        let d = crate::strutil::bytes_range(b1.as_slice(), 0, end2);
        match parse_u64_bytes(d.as_slice()) {
            Some(v) => {
                match v.checked_mul(3600) {
                    Some(secs) => Ok(secs),
                    None => Err(ConfigError::InvalidDuration),
                }
            },
            None => Err(ConfigError::InvalidDuration),
        }
    } else {
        Err(ConfigError::InvalidDuration)
    }
}

} // verus!
