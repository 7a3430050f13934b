//! The process registry: the one shared, mutable state of the daemon.
//!
//! A registry is a sequence of records with pairwise distinct names. The
//! daemon wraps it in its lock; every operation here is a plain value
//! transformation with an exact contract. Timestamps are unix seconds,
//! handed in by the caller; CPU usage is held in tenths of a percent.

use vstd::prelude::*;
use vstd::string::StringSliceAdditionalSpecFns;

use crate::config::read_config::{
    App, HealthCheck, HealthCheckType as ConfigHealthCheckType, RestartPolicy,
};
use crate::process_manager::error::ProcessManagerError;
use crate::process_manager::health::{
    same_health_config, HealthCheckConfig, HealthCheckType, HealthStatus,
};
use crate::strutil::{all_digits, dec_digits, dec_value, seq_ends_with, spec_trim_suffix, str_eq, trim_suffix_len};

verus! {

/// Lifecycle state of a managed process.
#[derive(Debug, Clone, Copy, PartialEq, Eq, Structural)]
pub enum ProcessState {
    Starting,
    Running,
    Stopping,
    Stopped,
    Errored,
    Restarting,
}

impl ProcessState {
    /// The lower-case name of the state.
    pub fn label(&self) -> (r: String)
        ensures
            (match self {
                ProcessState::Starting => r@ == "starting"@,
                ProcessState::Running => r@ == "running"@,
                ProcessState::Stopping => r@ == "stopping"@,
                ProcessState::Stopped => r@ == "stopped"@,
                ProcessState::Errored => r@ == "errored"@,
                ProcessState::Restarting => r@ == "restarting"@,
            }),
    {
        match self {
            ProcessState::Starting => "starting".to_owned(),
            ProcessState::Running => "running".to_owned(),
            ProcessState::Stopping => "stopping".to_owned(),
            ProcessState::Stopped => "stopped".to_owned(),
            ProcessState::Errored => "errored".to_owned(),
            ProcessState::Restarting => "restarting".to_owned(),
        }
    }
}

/// Everything the supervisor tracks about one managed application.
#[derive(Debug)]
pub struct ProcessInfo {
    /// Unique name; the key of the registry.
    pub name: String,
    /// Process id, present exactly while the process lives.
    pub pid: Option<u32>,
    pub state: ProcessState,
    /// Path of the descriptor this record was built from.
    pub config_path: String,
    pub script: String,
    pub args: Vec<String>,
    pub cwd: Option<String>,
    pub env: Vec<(String, String)>,
    /// How often the process was restarted; never decreases.
    pub restart_count: u32,
    /// Unix seconds of the last successful spawn.
    pub started_at: Option<i64>,
    /// Last sampled CPU usage, in tenths of a percent.
    pub cpu_usage: u64,
    /// Last sampled memory usage, in bytes.
    pub memory_usage: u64,
    pub stdout_log: String,
    pub stderr_log: String,
    pub auto_restart: bool,
    /// Memory ceiling before restart; 0 disables it.
    pub max_memory: u64,
    pub healthcheck: Option<HealthCheckConfig>,
    pub health_status: HealthStatus,
    /// Unix seconds of the last health check.
    pub last_health_check: Option<i64>,
    /// Consecutive health check failures.
    pub health_failures: u32,
    pub watch_dirs: Vec<String>,
    pub watch_patterns: Vec<String>,
}

/// A record holds a pid exactly when its state says the process lives:
/// Starting, Running, Stopping or Restarting. This is the shape every
/// record has once a handler or a monitor pass has finished with it.
pub open spec fn lifecycle_consistent(p: ProcessInfo) -> bool {
    p.pid is Some <==> (p.state is Starting || p.state is Running || p.state is Stopping
        || p.state is Restarting)
}

/// The two records hold the same data. Vector-valued fields are compared by
/// their contents.
pub open spec fn same_record(a: ProcessInfo, b: ProcessInfo) -> bool {
    &&& a.name == b.name
    &&& a.pid == b.pid
    &&& a.state == b.state
    &&& a.config_path == b.config_path
    &&& a.script == b.script
    &&& a.args@ == b.args@
    &&& a.cwd == b.cwd
    &&& a.env@ == b.env@
    &&& a.restart_count == b.restart_count
    &&& a.started_at == b.started_at
    &&& a.cpu_usage == b.cpu_usage
    &&& a.memory_usage == b.memory_usage
    &&& a.stdout_log == b.stdout_log
    &&& a.stderr_log == b.stderr_log
    &&& a.auto_restart == b.auto_restart
    &&& a.max_memory == b.max_memory
    &&& (match (a.healthcheck, b.healthcheck) {
        (Some(x), Some(y)) => same_health_config(x, y),
        (None, None) => true,
        _ => false,
    })
    &&& a.health_status == b.health_status
    &&& a.last_health_check == b.last_health_check
    &&& a.health_failures == b.health_failures
    &&& a.watch_dirs@ == b.watch_dirs@
    &&& a.watch_patterns@ == b.watch_patterns@
}

impl ProcessInfo {
    /// A copy holding the same data.
    pub fn dup(&self) -> (r: Self)
        ensures
            same_record(r, *self),
    {
        ProcessInfo {
            name: self.name.clone(),
            pid: self.pid,
            state: self.state,
            config_path: self.config_path.clone(),
            script: self.script.clone(),
            args: crate::strutil::clone_string_vec(&self.args),
            cwd: crate::strutil::clone_opt_string(&self.cwd),
            env: crate::strutil::clone_string_pairs(&self.env),
            restart_count: self.restart_count,
            started_at: self.started_at,
            cpu_usage: self.cpu_usage,
            memory_usage: self.memory_usage,
            stdout_log: self.stdout_log.clone(),
            stderr_log: self.stderr_log.clone(),
            auto_restart: self.auto_restart,
            max_memory: self.max_memory,
            healthcheck: (match &self.healthcheck {
                Some(hc) => Some(hc.dup()),
                None => None,
            }),
            health_status: self.health_status.dup(),
            last_health_check: self.last_health_check,
            health_failures: self.health_failures,
            watch_dirs: crate::strutil::clone_string_vec(&self.watch_dirs),
            watch_patterns: crate::strutil::clone_string_vec(&self.watch_patterns),
        }
    }
}

/// The registry of managed processes, keyed by record name.
#[derive(Debug)]
pub struct ProcessRegistry {
    processes: Vec<ProcessInfo>,
}

impl ProcessRegistry {
    /// The records, in registration order.
    pub closed spec fn rows(&self) -> Seq<ProcessInfo> {
        self.processes@
    }

    /// Names are pairwise distinct.
    pub open spec fn wf(&self) -> bool {
        forall|i: int, j: int|
            0 <= i < j < self.rows().len() ==> (#[trigger] self.rows()[i]).name@ != (
            #[trigger] self.rows()[j]).name@
    }

    /// Some record carries this name.
    pub open spec fn contains_name(&self, name: Seq<char>) -> bool {
        exists|i: int| 0 <= i < self.rows().len() && (#[trigger] self.rows()[i]).name@ == name
    }

    /// The index of the record with this name.
    pub open spec fn idx_of(&self, name: Seq<char>) -> int {
        choose|i: int| 0 <= i < self.rows().len() && (#[trigger] self.rows()[i]).name@ == name
    }

    /// The record with this name.
    pub open spec fn record_of(&self, name: Seq<char>) -> ProcessInfo {
        self.rows()[self.idx_of(name)]
    }

    /// Every record holds a pid exactly when its state says the process
    /// lives.
    pub open spec fn settled(&self) -> bool {
        forall|i: int|
            0 <= i < self.rows().len() ==> lifecycle_consistent(#[trigger] self.rows()[i])
    }

    /// Every record but possibly the one named holds a pid exactly when its
    /// state says the process lives.
    pub open spec fn settled_except(&self, name: Seq<char>) -> bool {
        forall|i: int|
            0 <= i < self.rows().len() && (#[trigger] self.rows()[i]).name@ != name
                ==> lifecycle_consistent(self.rows()[i])
    }

    /// No record's restart count has decreased: whenever a record of `pre`
    /// and a record of `post` carry the same name, the count in `post` is
    /// at least the count in `pre`.
    pub open spec fn restart_counts_nondecreasing(pre: ProcessRegistry, post: ProcessRegistry) -> bool {
        forall|i: int, j: int|
            0 <= i < pre.rows().len() && 0 <= j < post.rows().len() && (
            #[trigger] pre.rows()[i]).name@ == (#[trigger] post.rows()[j]).name@
                ==> pre.rows()[i].restart_count <= post.rows()[j].restart_count
    }

    /// An index holding this name is the index of the name.
    proof fn lemma_idx_at(&self, name: Seq<char>, i: int)
        requires
            self.wf(),
            0 <= i < self.rows().len(),
            self.rows()[i].name@ == name,
        ensures
            self.contains_name(name),
            self.idx_of(name) == i,
    {
        assert(self.contains_name(name));
        let j = self.idx_of(name);
        assert(0 <= j < self.rows().len() && self.rows()[j].name@ == name);
        if i != j {
            if i < j {
                assert(self.rows()[i].name@ != self.rows()[j].name@);
            } else {
                assert(self.rows()[j].name@ != self.rows()[i].name@);
            }
        }
    }

    /// An empty registry.
    pub fn new() -> (r: Self)
        ensures
            r.rows().len() == 0,
            r.wf(),
            r.settled(),
    {
        ProcessRegistry { processes: Vec::new() }
    }

    /// The index of the record with this name, if any.
    fn find_index(&self, name: &str) -> (r: Option<usize>)
        requires
            self.wf(),
        ensures
            (match r {
                Some(i) => {
                    &&& i < self.rows().len()
                    &&& self.rows()[i as int].name@ == name@
                    &&& self.contains_name(name@)
                    &&& self.idx_of(name@) == i
                },
                None => !self.contains_name(name@),
            }),
    {
        let mut i: usize = 0;
        while i < self.processes.len()
            invariant
                i <= self.rows().len(),
                forall|j: int| 0 <= j < i ==> (#[trigger] self.rows()[j]).name@ != name@,
            decreases self.rows().len() - i,
        {
            if str_eq(self.processes[i].name.as_str(), name) {
                proof {
                    self.lemma_idx_at(name@, i as int);
                }
                return Some(i);
            }
            i += 1;
        }
        None
    }

    /// Register a new record. Fails exactly when the name is taken; on
    /// success the record is appended unchanged.
    pub fn register(&mut self, info: ProcessInfo) -> (r: Result<(), ProcessManagerError>)
        requires
            old(self).wf(),
        ensures
            final(self).wf(),
            r is Ok <==> !old(self).contains_name(info.name@),
            (r is Ok ==> final(self).rows() == old(self).rows().push(info)),
            (r matches Err(e) ==> *final(self) == *old(self) && (e
                matches ProcessManagerError::AlreadyExists(n) && n@ == info.name@)),
            Self::restart_counts_nondecreasing(*old(self), *final(self)),
            (old(self).settled() && lifecycle_consistent(info) ==> final(self).settled()),
    {
        match self.find_index(info.name.as_str()) {
            Some(_) => Err(ProcessManagerError::AlreadyExists(info.name.clone())),
            None => {
                self.processes.push(info);
                Ok(())
            },
        }
    }

    /// Look a record up by name; the copy holds the same data.
    pub fn get(&self, name: &str) -> (r: Option<ProcessInfo>)
        requires
            self.wf(),
        ensures
            (match r {
                Some(p) => self.contains_name(name@) && same_record(
                    p,
                    self.record_of(name@),
                ),
                None => !self.contains_name(name@),
            }),
    {
        match self.find_index(name) {
            Some(i) => Some(self.processes[i].dup()),
            None => None,
        }
    }

    /// Set the state of the named record; every other field is unchanged.
    pub fn update_state(&mut self, name: &str, state: ProcessState) -> (r: Result<
        (),
        ProcessManagerError,
    >)
        requires
            old(self).wf(),
        ensures
            final(self).wf(),
            r is Ok <==> old(self).contains_name(name@),
            (r is Ok ==> final(self).rows() == old(self).rows().update(
                old(self).idx_of(name@),
                (ProcessInfo { state: state, ..old(self).record_of(name@) }),
            )),
            (r matches Err(e) ==> *final(self) == *old(self) && (e
                matches ProcessManagerError::NotFound(n) && n@ == name@)),
            Self::restart_counts_nondecreasing(*old(self), *final(self)),
            (old(self).settled_except(name@) ==> final(self).settled_except(name@)),
    {
        match self.find_index(name) {
            Some(i) => {
                let mut rec = self.processes.remove(i);
                rec.state = state;
                self.processes.insert(i, rec);
                proof {
                    assert(final(self).rows() =~= old(self).rows().update(
                        old(self).idx_of(name@),
                        (ProcessInfo { state: state, ..old(self).record_of(name@) }),
                    ));
                }
                Ok(())
            },
            None => Err(ProcessManagerError::NotFound(name.to_owned())),
        }
    }

    /// Set or clear the pid of the named record. Setting a pid also sets
    /// the start time and moves the record to Running; clearing it changes
    /// nothing else, the caller transitions the state itself.
    pub fn update_pid(&mut self, name: &str, pid: Option<u32>, now: i64) -> (r: Result<
        (),
        ProcessManagerError,
    >)
        requires
            old(self).wf(),
        ensures
            final(self).wf(),
            r is Ok <==> old(self).contains_name(name@),
            (r is Ok ==> final(self).rows() == old(self).rows().update(
                old(self).idx_of(name@),
                (match pid {
                    Some(p) => ProcessInfo {
                        pid: Some(p),
                        started_at: Some(now),
                        state: ProcessState::Running,
                        ..old(self).record_of(name@)
                    },
                    None => ProcessInfo { pid: None, ..old(self).record_of(name@) },
                }),
            )),
            (r matches Err(e) ==> *final(self) == *old(self) && (e
                matches ProcessManagerError::NotFound(n) && n@ == name@)),
            Self::restart_counts_nondecreasing(*old(self), *final(self)),
            (old(self).settled_except(name@) ==> final(self).settled_except(name@)),
            (pid is Some && old(self).settled_except(name@) ==> final(self).settled()),
    {
        match self.find_index(name) {
            Some(i) => {
                let mut rec = self.processes.remove(i);
                rec.pid = pid;
                if pid.is_some() {
                    rec.started_at = Some(now);
                    rec.state = ProcessState::Running;
                }
                self.processes.insert(i, rec);
                proof {
                    assert(final(self).rows() =~= old(self).rows().update(
                        old(self).idx_of(name@),
                        (match pid {
                            Some(p) => ProcessInfo {
                                pid: Some(p),
                                started_at: Some(now),
                                state: ProcessState::Running,
                                ..old(self).record_of(name@)
                            },
                            None => ProcessInfo { pid: None, ..old(self).record_of(name@) },
                        }),
                    ));
                }
                Ok(())
            },
            None => Err(ProcessManagerError::NotFound(name.to_owned())),
        }
    }

    /// Add one to the restart count of the named record, saturating at the
    /// counter's maximum, and return the new count.
    pub fn increment_restart_count(&mut self, name: &str) -> (r: Result<u32, ProcessManagerError>)
        requires
            old(self).wf(),
        ensures
            final(self).wf(),
            r is Ok <==> old(self).contains_name(name@),
            (r matches Ok(c) ==> {
                let p = old(self).record_of(name@);
                &&& c as int == (if p.restart_count < u32::MAX {
                    p.restart_count + 1
                } else {
                    u32::MAX as int
                })
                &&& final(self).rows() == old(self).rows().update(
                    old(self).idx_of(name@),
                    (ProcessInfo { restart_count: c, ..p }),
                )
            }),
            (r matches Err(e) ==> *final(self) == *old(self) && (e
                matches ProcessManagerError::NotFound(n) && n@ == name@)),
            Self::restart_counts_nondecreasing(*old(self), *final(self)),
            (old(self).settled_except(name@) ==> final(self).settled_except(name@)),
            (old(self).settled() ==> final(self).settled()),
    {
        match self.find_index(name) {
            Some(i) => {
                let mut rec = self.processes.remove(i);
                let c = if rec.restart_count < u32::MAX {
                    rec.restart_count + 1
                } else {
                    u32::MAX
                };
                rec.restart_count = c;
                self.processes.insert(i, rec);
                proof {
                    assert(final(self).rows() =~= old(self).rows().update(
                        old(self).idx_of(name@),
                        (ProcessInfo {
                            restart_count: c,
                            ..old(self).record_of(name@)
                        }),
                    ));
                }
                Ok(c)
            },
            None => Err(ProcessManagerError::NotFound(name.to_owned())),
        }
    }

    /// Remove the named record, returning it.
    pub fn remove(&mut self, name: &str) -> (r: Option<ProcessInfo>)
        requires
            old(self).wf(),
        ensures
            final(self).wf(),
            r is Some <==> old(self).contains_name(name@),
            (r matches Some(p) ==> p == old(self).record_of(name@) && final(self).rows() == old(
                self,
            ).rows().remove(old(self).idx_of(name@))),
            (r is None ==> *final(self) == *old(self)),
            Self::restart_counts_nondecreasing(*old(self), *final(self)),
            (old(self).settled() ==> final(self).settled()),
    {
        match self.find_index(name) {
            Some(i) => {
                let p = self.processes.remove(i);
                Some(p)
            },
            None => None,
        }
    }

    /// Number of records.
    pub(crate) fn row_count(&self) -> (r: usize)
        ensures
            r == self.rows().len(),
    {
        self.processes.len()
    }

    /// The pid of the record at an index.
    pub(crate) fn row_pid(&self, i: usize) -> (r: Option<u32>)
        requires
            i < self.rows().len(),
        ensures
            r == self.rows()[i as int].pid,
    {
        self.processes[i].pid
    }

    /// Store freshly sampled metrics on the record at an index.
    pub(crate) fn set_metrics(&mut self, i: usize, cpu: u64, mem: u64)
        requires
            old(self).wf(),
            i < old(self).rows().len(),
        ensures
            final(self).wf(),
            final(self).rows() == old(self).rows().update(
                i as int,
                (ProcessInfo {
                    cpu_usage: cpu,
                    memory_usage: mem,
                    ..old(self).rows()[i as int]
                }),
            ),
    {
        let mut rec = self.processes.remove(i);
        rec.cpu_usage = cpu;
        rec.memory_usage = mem;
        self.processes.insert(i, rec);
        proof {
            assert(final(self).rows() =~= old(self).rows().update(
                i as int,
                (ProcessInfo {
                    cpu_usage: cpu,
                    memory_usage: mem,
                    ..old(self).rows()[i as int]
                }),
            ));
        }
    }

    /// The record at an index lost its process: a Running record becomes
    /// Errored and loses its pid; any other record stands as it is.
    pub(crate) fn mark_vanished(&mut self, i: usize)
        requires
            old(self).wf(),
            i < old(self).rows().len(),
        ensures
            final(self).wf(),
            final(self).rows() == old(self).rows().update(
                i as int,
                (if old(self).rows()[i as int].state is Running {
                    ProcessInfo {
                        state: ProcessState::Errored,
                        pid: None,
                        ..old(self).rows()[i as int]
                    }
                } else {
                    old(self).rows()[i as int]
                }),
            ),
    {
        let is_running = match self.processes[i].state {
            ProcessState::Running => true,
            _ => false,
        };
        if is_running {
            let mut rec = self.processes.remove(i);
            rec.state = ProcessState::Errored;
            rec.pid = None;
            self.processes.insert(i, rec);
        }
        proof {
            assert(final(self).rows() =~= old(self).rows().update(
                i as int,
                (if old(self).rows()[i as int].state is Running {
                    ProcessInfo {
                        state: ProcessState::Errored,
                        pid: None,
                        ..old(self).rows()[i as int]
                    }
                } else {
                    old(self).rows()[i as int]
                }),
            ));
        }
    }

    /// Copies of all records, in registration order.
    pub fn list(&self) -> (r: Vec<ProcessInfo>)
        ensures
            r@.len() == self.rows().len(),
            forall|i: int|
                0 <= i < r@.len() ==> same_record(#[trigger] r@[i], self.rows()[i]),
    {
        let mut out: Vec<ProcessInfo> = Vec::new();
        let mut i: usize = 0;
        while i < self.processes.len()
            invariant
                i <= self.rows().len(),
                out@.len() == i,
                forall|j: int|
                    0 <= j < i ==> same_record(#[trigger] out@[j], self.rows()[j]),
            decreases self.rows().len() - i,
        {
            out.push(self.processes[i].dup());
            i += 1;
        }
        out
    }

    /// The names of records whose state is Errored and whose policy asks
    /// for automatic restart, in registration order.
    pub open spec fn spec_dead_names(rows: Seq<ProcessInfo>) -> Seq<Seq<char>>
        decreases rows.len(),
    {
        if rows.len() == 0 {
            Seq::empty()
        } else {
            let prefix = Self::spec_dead_names(rows.drop_last());
            if rows.last().state is Errored && rows.last().auto_restart {
                prefix.push(rows.last().name@)
            } else {
                prefix
            }
        }
    }

    /// Names of dead records that are due for an automatic restart.
    pub fn check_dead_processes(&self) -> (r: Vec<String>)
        ensures
            r@.len() == Self::spec_dead_names(self.rows()).len(),
            (forall|k: int|
                0 <= k < r@.len() ==> (#[trigger] r@[k])@ == Self::spec_dead_names(
                    self.rows(),
                )[k]),
    {
        let mut dead: Vec<String> = Vec::new();
        let mut i: usize = 0;
        while i < self.processes.len()
            invariant
                i <= self.rows().len(),
                dead@.len() == Self::spec_dead_names(self.rows().take(i as int)).len(),
                forall|k: int|
                    0 <= k < dead@.len() ==> (#[trigger] dead@[k])@ == Self::spec_dead_names(
                        self.rows().take(i as int),
                    )[k],
            decreases self.rows().len() - i,
        {
            let p = &self.processes[i];
            let is_dead = match p.state {
                ProcessState::Errored => p.auto_restart,
                _ => false,
            };
            if is_dead {
                dead.push(p.name.clone());
            }
            proof {
                assert(self.rows().take(i + 1).drop_last() =~= self.rows().take(i as int));
                assert(self.rows().take(i + 1).last() == self.rows()[i as int]);
            }
            i += 1;
        }
        proof {
            assert(self.rows().take(self.rows().len() as int) =~= self.rows());
        }
        dead
    }

    /// The records whose state is Running, in registration order.
    pub open spec fn spec_running(rows: Seq<ProcessInfo>) -> Seq<ProcessInfo>
        decreases rows.len(),
    {
        if rows.len() == 0 {
            Seq::empty()
        } else {
            let prefix = Self::spec_running(rows.drop_last());
            if rows.last().state is Running {
                prefix.push(rows.last())
            } else {
                prefix
            }
        }
    }

    /// Copies of all records that are currently Running.
    pub fn get_running_processes(&self) -> (r: Vec<ProcessInfo>)
        ensures
            r@.len() == Self::spec_running(self.rows()).len(),
            (forall|k: int|
                0 <= k < r@.len() ==> same_record(
                    #[trigger] r@[k],
                    Self::spec_running(self.rows())[k],
                )),
    {
        let mut running: Vec<ProcessInfo> = Vec::new();
        let mut i: usize = 0;
        while i < self.processes.len()
            invariant
                i <= self.rows().len(),
                running@.len() == Self::spec_running(self.rows().take(i as int)).len(),
                forall|k: int|
                    0 <= k < running@.len() ==> same_record(
                        #[trigger] running@[k],
                        Self::spec_running(self.rows().take(i as int))[k],
                    ),
            decreases self.rows().len() - i,
        {
            let p = &self.processes[i];
            let is_running = match p.state {
                ProcessState::Running => true,
                _ => false,
            };
            if is_running {
                running.push(p.dup());
            }
            proof {
                assert(self.rows().take(i + 1).drop_last() =~= self.rows().take(i as int));
                assert(self.rows().take(i + 1).last() == self.rows()[i as int]);
            }
            i += 1;
        }
        proof {
            assert(self.rows().take(self.rows().len() as int) =~= self.rows());
        }
        running
    }

    /// Set the health status of the named record and stamp the check time.
    pub fn update_health_status(&mut self, name: &str, status: HealthStatus, now: i64) -> (r:
        Result<(), ProcessManagerError>)
        requires
            old(self).wf(),
        ensures
            final(self).wf(),
            r is Ok <==> old(self).contains_name(name@),
            (r is Ok ==> final(self).rows() == old(self).rows().update(
                old(self).idx_of(name@),
                (ProcessInfo {
                    health_status: status,
                    last_health_check: Some(now),
                    ..old(self).record_of(name@)
                }),
            )),
            (r matches Err(e) ==> *final(self) == *old(self) && (e
                matches ProcessManagerError::NotFound(n) && n@ == name@)),
            Self::restart_counts_nondecreasing(*old(self), *final(self)),
            (old(self).settled() ==> final(self).settled()),
    {
        match self.find_index(name) {
            Some(i) => {
                let mut rec = self.processes.remove(i);
                rec.health_status = status;
                rec.last_health_check = Some(now);
                self.processes.insert(i, rec);
                proof {
                    assert(final(self).rows() =~= old(self).rows().update(
                        old(self).idx_of(name@),
                        (ProcessInfo {
                            health_status: status,
                            last_health_check: Some(now),
                            ..old(self).record_of(name@)
                        }),
                    ));
                }
                Ok(())
            },
            None => Err(ProcessManagerError::NotFound(name.to_owned())),
        }
    }

    /// Add one to the consecutive-failure count of the named record,
    /// saturating at the counter's maximum, and return the new count; an
    /// unknown name changes nothing and counts as zero.
    pub fn increment_health_failures(&mut self, name: &str) -> (r: u32)
        requires
            old(self).wf(),
        ensures
            final(self).wf(),
            (old(self).contains_name(name@) ==> {
                let p = old(self).record_of(name@);
                &&& r as int == (if p.health_failures < u32::MAX {
                    p.health_failures + 1
                } else {
                    u32::MAX as int
                })
                &&& final(self).rows() == old(self).rows().update(
                    old(self).idx_of(name@),
                    (ProcessInfo { health_failures: r, ..p }),
                )
            }),
            (!old(self).contains_name(name@) ==> *final(self) == *old(self) && r == 0),
            Self::restart_counts_nondecreasing(*old(self), *final(self)),
            (old(self).settled() ==> final(self).settled()),
    {
        match self.find_index(name) {
            Some(i) => {
                let mut rec = self.processes.remove(i);
                let c = if rec.health_failures < u32::MAX {
                    rec.health_failures + 1
                } else {
                    u32::MAX
                };
                rec.health_failures = c;
                self.processes.insert(i, rec);
                proof {
                    assert(final(self).rows() =~= old(self).rows().update(
                        old(self).idx_of(name@),
                        (ProcessInfo {
                            health_failures: c,
                            ..old(self).record_of(name@)
                        }),
                    ));
                }
                c
            },
            None => 0,
        }
    }

    /// Reset the consecutive-failure count of the named record to zero.
    pub fn reset_health_failures(&mut self, name: &str) -> (r: Result<(), ProcessManagerError>)
        requires
            old(self).wf(),
        ensures
            final(self).wf(),
            r is Ok <==> old(self).contains_name(name@),
            (r is Ok ==> final(self).rows() == old(self).rows().update(
                old(self).idx_of(name@),
                (ProcessInfo { health_failures: 0, ..old(self).record_of(name@) }),
            )),
            (r matches Err(e) ==> *final(self) == *old(self) && (e
                matches ProcessManagerError::NotFound(n) && n@ == name@)),
            Self::restart_counts_nondecreasing(*old(self), *final(self)),
            (old(self).settled() ==> final(self).settled()),
    {
        match self.find_index(name) {
            Some(i) => {
                let mut rec = self.processes.remove(i);
                rec.health_failures = 0;
                self.processes.insert(i, rec);
                proof {
                    assert(final(self).rows() =~= old(self).rows().update(
                        old(self).idx_of(name@),
                        (ProcessInfo { health_failures: 0, ..old(self).record_of(name@) }),
                    ));
                }
                Ok(())
            },
            None => Err(ProcessManagerError::NotFound(name.to_owned())),
        }
    }

    /// Switch automatic restart of the named record on or off.
    pub fn set_auto_restart(&mut self, name: &str, enabled: bool) -> (r: Result<
        (),
        ProcessManagerError,
    >)
        requires
            old(self).wf(),
        ensures
            final(self).wf(),
            r is Ok <==> old(self).contains_name(name@),
            (r is Ok ==> final(self).rows() == old(self).rows().update(
                old(self).idx_of(name@),
                (ProcessInfo { auto_restart: enabled, ..old(self).record_of(name@) }),
            )),
            (r matches Err(e) ==> *final(self) == *old(self) && (e
                matches ProcessManagerError::NotFound(n) && n@ == name@)),
            Self::restart_counts_nondecreasing(*old(self), *final(self)),
            (old(self).settled() ==> final(self).settled()),
    {
        match self.find_index(name) {
            Some(i) => {
                let mut rec = self.processes.remove(i);
                rec.auto_restart = enabled;
                self.processes.insert(i, rec);
                proof {
                    assert(final(self).rows() =~= old(self).rows().update(
                        old(self).idx_of(name@),
                        (ProcessInfo { auto_restart: enabled, ..old(self).record_of(name@) }),
                    ));
                }
                Ok(())
            },
            None => Err(ProcessManagerError::NotFound(name.to_owned())),
        }
    }

    /// Record the end of a spawn attempt: a pid moves the record to
    /// Running with a fresh start time; no pid moves it to Errored with the
    /// pid cleared. Either way the record is consistent again.
    pub fn complete_start(&mut self, name: &str, spawn_pid: Option<u32>, now: i64) -> (r: Result<
        (),
        ProcessManagerError,
    >)
        requires
            old(self).wf(),
        ensures
            final(self).wf(),
            r is Ok <==> old(self).contains_name(name@),
            (r is Ok ==> final(self).rows() == old(self).rows().update(
                old(self).idx_of(name@),
                (match spawn_pid {
                    Some(p) => ProcessInfo {
                        pid: Some(p),
                        started_at: Some(now),
                        state: ProcessState::Running,
                        ..old(self).record_of(name@)
                    },
                    None => ProcessInfo {
                        pid: None,
                        state: ProcessState::Errored,
                        ..old(self).record_of(name@)
                    },
                }),
            )),
            (r matches Err(e) ==> *final(self) == *old(self) && (e
                matches ProcessManagerError::NotFound(n) && n@ == name@)),
            Self::restart_counts_nondecreasing(*old(self), *final(self)),
            (old(self).settled_except(name@) && r is Ok ==> final(self).settled()),
            (old(self).settled_except(name@) ==> final(self).settled_except(name@)),
    {
        match self.find_index(name) {
            Some(i) => {
                let mut rec = self.processes.remove(i);
                match spawn_pid {
                    Some(p) => {
                        rec.pid = Some(p);
                        rec.started_at = Some(now);
                        rec.state = ProcessState::Running;
                    },
                    None => {
                        rec.pid = None;
                        rec.state = ProcessState::Errored;
                    },
                }
                self.processes.insert(i, rec);
                proof {
                    assert(final(self).rows() =~= old(self).rows().update(
                        old(self).idx_of(name@),
                        (match spawn_pid {
                            Some(p) => ProcessInfo {
                                pid: Some(p),
                                started_at: Some(now),
                                state: ProcessState::Running,
                                ..old(self).record_of(name@)
                            },
                            None => ProcessInfo {
                                pid: None,
                                state: ProcessState::Errored,
                                ..old(self).record_of(name@)
                            },
                        }),
                    ));
                }
                Ok(())
            },
            None => Err(ProcessManagerError::NotFound(name.to_owned())),
        }
    }

    /// Begin the stop protocol: move the named record to Stopping and hand
    /// the caller the pid to signal. Fails when the name is unknown or the
    /// record holds no pid.
    pub fn begin_stop(&mut self, name: &str) -> (r: Result<u32, ProcessManagerError>)
        requires
            old(self).wf(),
        ensures
            final(self).wf(),
            (r is Ok <==> (old(self).contains_name(name@) && old(self).record_of(name@).pid
                is Some)),
            (r matches Ok(p) ==> old(self).record_of(name@).pid == Some(p) && final(self).rows()
                == old(self).rows().update(
                old(self).idx_of(name@),
                (ProcessInfo { state: ProcessState::Stopping, ..old(self).record_of(name@) }),
            )),
            (r matches Err(e) ==> *final(self) == *old(self) && (match e {
                ProcessManagerError::NotFound(n) => n@ == name@ && !old(self).contains_name(
                    name@,
                ),
                ProcessManagerError::NotRunning(n) => n@ == name@ && old(self).contains_name(
                    name@,
                ) && old(self).record_of(name@).pid is None,
                _ => false,
            })),
            Self::restart_counts_nondecreasing(*old(self), *final(self)),
            (old(self).settled() ==> final(self).settled()),
    {
        match self.find_index(name) {
            Some(i) => {
                if self.processes[i].pid.is_none() {
                    return Err(ProcessManagerError::NotRunning(name.to_owned()));
                }
                let mut rec = self.processes.remove(i);
                let pid = match rec.pid {
                    Some(p) => p,
                    None => 0,
                };
                rec.state = ProcessState::Stopping;
                self.processes.insert(i, rec);
                proof {
                    assert(final(self).rows() =~= old(self).rows().update(
                        old(self).idx_of(name@),
                        (ProcessInfo {
                            state: ProcessState::Stopping,
                            ..old(self).record_of(name@)
                        }),
                    ));
                }
                Ok(pid)
            },
            None => Err(ProcessManagerError::NotFound(name.to_owned())),
        }
    }

    /// Finish the stop protocol: the named record becomes Stopped and its
    /// pid is cleared, so it is consistent again.
    pub fn finish_stop(&mut self, name: &str) -> (r: Result<(), ProcessManagerError>)
        requires
            old(self).wf(),
        ensures
            final(self).wf(),
            r is Ok <==> old(self).contains_name(name@),
            (r is Ok ==> final(self).rows() == old(self).rows().update(
                old(self).idx_of(name@),
                (ProcessInfo {
                    state: ProcessState::Stopped,
                    pid: None,
                    ..old(self).record_of(name@)
                }),
            )),
            (r matches Err(e) ==> *final(self) == *old(self) && (e
                matches ProcessManagerError::NotFound(n) && n@ == name@)),
            Self::restart_counts_nondecreasing(*old(self), *final(self)),
            (old(self).settled_except(name@) && r is Ok ==> final(self).settled()),
            (old(self).settled_except(name@) ==> final(self).settled_except(name@)),
    {
        match self.find_index(name) {
            Some(i) => {
                let mut rec = self.processes.remove(i);
                rec.state = ProcessState::Stopped;
                rec.pid = None;
                self.processes.insert(i, rec);
                proof {
                    assert(final(self).rows() =~= old(self).rows().update(
                        old(self).idx_of(name@),
                        (ProcessInfo {
                            state: ProcessState::Stopped,
                            pid: None,
                            ..old(self).record_of(name@)
                        }),
                    ));
                }
                Ok(())
            },
            None => Err(ProcessManagerError::NotFound(name.to_owned())),
        }
    }

    /// Begin an automatic restart: the named record is marked Restarting
    /// and its restart count grows by one (saturating). The caller spawns
    /// the child and then settles the record with `complete_start`.
    pub fn begin_restart(&mut self, name: &str) -> (r: Result<u32, ProcessManagerError>)
        requires
            old(self).wf(),
        ensures
            final(self).wf(),
            r is Ok <==> old(self).contains_name(name@),
            (r matches Ok(c) ==> {
                let p = old(self).record_of(name@);
                &&& c as int == (if p.restart_count < u32::MAX {
                    p.restart_count + 1
                } else {
                    u32::MAX as int
                })
                &&& final(self).rows() == old(self).rows().update(
                    old(self).idx_of(name@),
                    (ProcessInfo {
                        state: ProcessState::Restarting,
                        restart_count: c,
                        ..p
                    }),
                )
            }),
            (r matches Err(e) ==> *final(self) == *old(self) && (e
                matches ProcessManagerError::NotFound(n) && n@ == name@)),
            Self::restart_counts_nondecreasing(*old(self), *final(self)),
            (old(self).settled() ==> final(self).settled_except(name@)),
    {
        match self.find_index(name) {
            Some(i) => {
                let mut rec = self.processes.remove(i);
                let c = if rec.restart_count < u32::MAX {
                    rec.restart_count + 1
                } else {
                    u32::MAX
                };
                rec.restart_count = c;
                rec.state = ProcessState::Restarting;
                self.processes.insert(i, rec);
                proof {
                    assert(final(self).rows() =~= old(self).rows().update(
                        old(self).idx_of(name@),
                        (ProcessInfo {
                            state: ProcessState::Restarting,
                            restart_count: c,
                            ..old(self).record_of(name@)
                        }),
                    ));
                }
                Ok(c)
            },
            None => Err(ProcessManagerError::NotFound(name.to_owned())),
        }
    }

    /// One name-keyed upsert.
    pub open spec fn spec_upsert(rows: Seq<ProcessInfo>, rec: ProcessInfo) -> Seq<ProcessInfo> {
        if exists|i: int| 0 <= i < rows.len() && (#[trigger] rows[i]).name@ == rec.name@ {
            rows.update(
                choose|i: int| 0 <= i < rows.len() && (#[trigger] rows[i]).name@ == rec.name@,
                rec,
            )
        } else {
            rows.push(rec)
        }
    }

    /// The rows after upserting each record in turn.
    pub open spec fn spec_merged(rows: Seq<ProcessInfo>, recs: Seq<ProcessInfo>) -> Seq<
        ProcessInfo,
    >
        decreases recs.len(),
    {
        if recs.len() == 0 {
            rows
        } else {
            Self::spec_upsert(Self::spec_merged(rows, recs.drop_last()), recs.last())
        }
    }

    /// Merge loaded records into the registry: a record whose name is
    /// present replaces the record of that name, the others are appended in
    /// order.
    pub fn merge_records(&mut self, records: Vec<ProcessInfo>)
        requires
            old(self).wf(),
        ensures
            final(self).wf(),
            final(self).rows() == Self::spec_merged(old(self).rows(), records@),
    {
        let mut recs = records;
        let ghost all = recs@;
        while recs.len() > 0
            invariant
                recs@.len() <= all.len(),
                recs@ =~= all.skip(all.len() - recs@.len()),
                self.wf(),
                self.rows() == Self::spec_merged(
                    old(self).rows(),
                    all.take(all.len() - recs@.len()),
                ),
            decreases recs@.len(),
        {
            let ghost k = all.len() - recs@.len();
            let ghost pre = self.rows();
            let rec = recs.remove(0);
            proof {
                assert(rec == all[k as int]);
                assert(recs@ =~= all.skip(all.len() - recs@.len()));
            }
            let idx = self.find_index(rec.name.as_str());
            match idx {
                Some(i) => {
                    let _ = self.processes.remove(i);
                    self.processes.insert(i, rec);
                    proof {
                        let j = choose|j: int|
                            0 <= j < pre.len() && (#[trigger] pre[j]).name@ == all[k as int].name@;
                        if j != i as int {
                            if j < i as int {
                                assert(pre[j].name@ != pre[i as int].name@);
                            } else {
                                assert(pre[i as int].name@ != pre[j].name@);
                            }
                        }
                        assert(Self::spec_upsert(pre, all[k as int]) == pre.update(
                            i as int,
                            all[k as int],
                        ));
                        assert(self.rows() =~= pre.update(i as int, all[k as int]));
                        assert forall|a: int, b: int|
                            0 <= a < b < self.rows().len() implies (
                        #[trigger] self.rows()[a]).name@ != (#[trigger] self.rows()[b]).name@ by {
                            assert(pre[a].name@ != pre[b].name@);
                        }
                    }
                },
                None => {
                    self.processes.push(rec);
                    proof {
                        assert(Self::spec_upsert(pre, all[k as int]) == pre.push(all[k as int]));
                        assert forall|a: int, b: int|
                            0 <= a < b < self.rows().len() implies (
                        #[trigger] self.rows()[a]).name@ != (#[trigger] self.rows()[b]).name@ by {
                            if b < self.rows().len() - 1 {
                                assert(pre[a].name@ != pre[b].name@);
                            }
                        }
                    }
                },
            }
            proof {
                assert(all.take(k + 1).drop_last() =~= all.take(k as int));
                assert(all.take(k + 1).last() == all[k as int]);
                assert(self.rows() == Self::spec_merged(old(self).rows(), all.take(k + 1)));
            }
        }
        proof {
            assert(all.take(all.len() as int) =~= all);
        }
    }

}


/// Where a log stream goes: the special values `stdout` and `stderr` pick
/// the default file in the default directory, an absolute path is used as
/// it stands, and any other value falls back to the default.
pub open spec fn spec_resolve_log_path(c: Seq<char>, dir: Seq<char>, name: Seq<char>) -> Seq<
    char,
> {
    if c == "stdout"@ || c == "stderr"@ {
        dir + "/"@ + name
    } else if crate::strutil::seq_starts_with(vstd::utf8::encode_utf8(c), "/".spec_bytes()) {
        c
    } else {
        dir + "/"@ + name
    }
}

/// The seconds a lenient duration string denotes: a decimal count followed
/// by `s`, `m` or `h`; 30 for any other form or on overflow.
pub open spec fn spec_parse_duration_str(b: Seq<u8>) -> int {
    if seq_ends_with(b, "s".spec_bytes()) {
        let d = spec_trim_suffix(b, "s".spec_bytes());
        if d.len() > 0 && all_digits(d) && dec_value(d) <= u64::MAX {
            dec_value(d)
        } else {
            30
        }
    } else if seq_ends_with(b, "m".spec_bytes()) {
        let d = spec_trim_suffix(b, "m".spec_bytes());
        if d.len() > 0 && all_digits(d) && dec_value(d) * 60 <= u64::MAX {
            dec_value(d) * 60
        } else {
            30
        }
    } else if seq_ends_with(b, "h".spec_bytes()) {
        let d = spec_trim_suffix(b, "h".spec_bytes());
        if d.len() > 0 && all_digits(d) && dec_value(d) * 3600 <= u64::MAX {
            dec_value(d) * 3600
        } else {
            30
        }
    } else {
        30
    }
}

/// The health configuration `r` is the declared check `hc` with its
/// defaults filled in and its durations parsed.
pub open spec fn spec_converted_check(hc: HealthCheck, r: HealthCheckConfig) -> bool {
    &&& (match hc.check_type {
        ConfigHealthCheckType::Http => (match r.check_type {
            HealthCheckType::Http { url, expected_status } => {
                &&& expected_status is None
                &&& (match hc.url {
                    Some(u) => url == u,
                    None => url@ == "http://localhost:8080"@,
                })
            },
            _ => false,
        }),
        ConfigHealthCheckType::Tcp => (match r.check_type {
            HealthCheckType::Tcp { host, port } => {
                &&& (match hc.host {
                    Some(h) => host == h,
                    None => host@ == "127.0.0.1"@,
                })
                &&& port as int == (match hc.port {
                    Some(p) => p as int,
                    None => 8080,
                })
            },
            _ => false,
        }),
        ConfigHealthCheckType::Command => (match r.check_type {
            HealthCheckType::Command { cmd, args } => {
                &&& (match hc.command {
                    Some(c) => cmd == c,
                    None => cmd@ == Seq::<char>::empty(),
                })
                &&& args@ == Seq::<String>::empty()
            },
            _ => false,
        }),
    })
    &&& r.interval as int == spec_parse_duration_str(vstd::utf8::encode_utf8(hc.interval@))
    &&& r.timeout as int == spec_parse_duration_str(vstd::utf8::encode_utf8(hc.timeout@))
    &&& r.retries == hc.retries
    &&& r.start_period as int == (match hc.start_period {
        Some(sp) => spec_parse_duration_str(vstd::utf8::encode_utf8(sp@)),
        None => 10,
    })
}

impl ProcessInfo {
    /// Resolve a configured log destination against the default directory.
    pub fn resolve_log_path(config_path: &str, default_dir: &str, default_name: &str) -> (r:
        String)
        ensures
            r@ == spec_resolve_log_path(config_path@, default_dir@, default_name@),
    {
        if str_eq(config_path, "stdout") || str_eq(config_path, "stderr") {
            default_dir.to_owned().concat("/").concat(default_name)
        } else if crate::strutil::str_starts_with(config_path, "/") {
            config_path.to_owned()
        } else {
            default_dir.to_owned().concat("/").concat(default_name)
        }
    }

    /// Parse a lenient duration string, falling back to 30 seconds on any
    /// malformed value.
    pub fn parse_duration_str(s: &str) -> (r: u64)
        ensures
            r as int == spec_parse_duration_str(s.spec_bytes()),
    {
        let b = s.as_bytes();
        if crate::strutil::str_ends_with(s, "s") {
            let end = trim_suffix_len(b, "s".as_bytes());
            let d = crate::strutil::bytes_range(b, 0, end);
            match crate::strutil::parse_u64_bytes(d.as_slice()) {
                Some(v) => v,
                None => 30,
            }
        } else if crate::strutil::str_ends_with(s, "m") {
            let end = trim_suffix_len(b, "m".as_bytes());
            let d = crate::strutil::bytes_range(b, 0, end);
            match crate::strutil::parse_u64_bytes(d.as_slice()) {
                Some(v) => match v.checked_mul(60) {
                    Some(secs) => secs,
                    None => 30,
                },
                None => 30,
            }
        } else if crate::strutil::str_ends_with(s, "h") {
            let end = trim_suffix_len(b, "h".as_bytes());
            let d = crate::strutil::bytes_range(b, 0, end);
            match crate::strutil::parse_u64_bytes(d.as_slice()) {
                Some(v) => match v.checked_mul(3600) {
                    Some(secs) => secs,
                    None => 30,
                },
                None => 30,
            }
        } else {
            30
        }
    }

    /// Fill a declared health check's defaults and parse its durations.
    pub fn convert_healthcheck(hc: &HealthCheck) -> (r: HealthCheckConfig)
        ensures
            spec_converted_check(*hc, r),
    {
        let check_type = match hc.check_type {
            ConfigHealthCheckType::Http => HealthCheckType::Http {
                url: (match &hc.url {
                    Some(u) => u.clone(),
                    None => "http://localhost:8080".to_owned(),
                }),
                expected_status: None,
            },
            ConfigHealthCheckType::Tcp => HealthCheckType::Tcp {
                host: (match &hc.host {
                    Some(h) => h.clone(),
                    None => "127.0.0.1".to_owned(),
                }),
                port: (match hc.port {
                    Some(p) => p,
                    None => 8080,
                }),
            },
            ConfigHealthCheckType::Command => HealthCheckType::Command {
                cmd: (match &hc.command {
                    Some(c) => c.clone(),
                    None => String::new(),
                }),
                args: Vec::new(),
            },
        };
        HealthCheckConfig {
            check_type,
            interval: Self::parse_duration_str(hc.interval.as_str()),
            timeout: Self::parse_duration_str(hc.timeout.as_str()),
            retries: hc.retries,
            start_period: (match &hc.start_period {
                Some(sp) => Self::parse_duration_str(sp.as_str()),
                None => 10,
            }),
        }
    }

    /// Build a fresh record from an application descriptor. The record
    /// starts Stopped with no pid and no history; its log files are
    /// resolved against the given default log directory; its watch list is
    /// the working directory when one is set.
    pub fn from_app(app: &App, config_path: String, default_log_dir: String) -> (r: Self)
        ensures
            r.name == app.name,
            r.pid is None,
            r.state is Stopped,
            r.config_path == config_path,
            r.script == app.script,
            r.args@ == app.args@,
            r.cwd == app.cwd,
            r.env@ == app.env@,
            r.restart_count == 0,
            r.started_at is None,
            r.cpu_usage == 0,
            r.memory_usage == 0,
            r.stdout_log@ == spec_resolve_log_path(app.log.out@, default_log_dir@, "out.log"@),
            r.stderr_log@ == spec_resolve_log_path(
                app.log.error@,
                default_log_dir@,
                "error.log"@,
            ),
            r.auto_restart == (app.restart.policy is Always || app.restart.policy is OnFailure),
            r.max_memory == 0,
            (match (app.healthcheck, r.healthcheck) {
                (Some(hc), Some(c)) => spec_converted_check(hc, c),
                (None, None) => true,
                _ => false,
            }),
            r.health_status is Unknown,
            r.last_health_check is None,
            r.health_failures == 0,
            r.watch_dirs@ == (match app.cwd {
                Some(d) => seq![d],
                None => Seq::<String>::empty(),
            }),
            r.watch_patterns@ == Seq::<String>::empty(),
    {
        let stdout_log = Self::resolve_log_path(
            app.log.out.as_str(),
            default_log_dir.as_str(),
            "out.log",
        );
        let stderr_log = Self::resolve_log_path(
            app.log.error.as_str(),
            default_log_dir.as_str(),
            "error.log",
        );
        let healthcheck = match &app.healthcheck {
            Some(hc) => Some(Self::convert_healthcheck(hc)),
            None => None,
        };
        let mut watch_dirs: Vec<String> = Vec::new();
        match &app.cwd {
            Some(d) => {
                watch_dirs.push(d.clone());
                proof {
                    assert(watch_dirs@ =~= seq![app.cwd->0]);
                }
            },
            None => {},
        }
        let auto_restart = match app.restart.policy {
            RestartPolicy::Always => true,
            RestartPolicy::OnFailure => true,
            RestartPolicy::Never => false,
        };
        ProcessInfo {
            name: app.name.clone(),
            pid: None,
            state: ProcessState::Stopped,
            config_path,
            script: app.script.clone(),
            args: crate::strutil::clone_string_vec(&app.args),
            cwd: crate::strutil::clone_opt_string(&app.cwd),
            env: crate::strutil::clone_string_pairs(&app.env),
            restart_count: 0,
            started_at: None,
            cpu_usage: 0,
            memory_usage: 0,
            stdout_log,
            stderr_log,
            auto_restart,
            max_memory: 0,
            healthcheck,
            health_status: HealthStatus::Unknown,
            last_health_check: None,
            health_failures: 0,
            watch_dirs,
            watch_patterns: Vec::new(),
        }
    }
}


/// The lower-case name of a state.
pub open spec fn spec_state_label(st: ProcessState) -> Seq<char> {
    match st {
        ProcessState::Starting => "starting"@,
        ProcessState::Running => "running"@,
        ProcessState::Stopping => "stopping"@,
        ProcessState::Stopped => "stopped"@,
        ProcessState::Errored => "errored"@,
        ProcessState::Restarting => "restarting"@,
    }
}

/// The coloured dot shown for a state.
pub open spec fn spec_state_dot(st: ProcessState) -> Seq<char> {
    match st {
        ProcessState::Running => "🟢"@,
        ProcessState::Stopped => "⚪"@,
        ProcessState::Errored => "🔴"@,
        ProcessState::Starting => "🟡"@,
        ProcessState::Restarting => "🟡"@,
        ProcessState::Stopping => "🟠"@,
    }
}

/// How long a process has been up, as a coarse human-readable figure.
pub open spec fn spec_uptime(started: Option<i64>, now: int) -> Seq<char> {
    match started {
        None => "-"@,
        Some(t) => {
            let secs = now - t;
            if secs < 60 {
                crate::process_manager::health::spec_i64_digits(secs) + "s"@
            } else if secs < 3600 {
                dec_digits(secs / 60) + "m"@
            } else if secs < 86400 {
                dec_digits(secs / 3600) + "h"@
            } else {
                dec_digits(secs / 86400) + "d"@
            }
        },
    }
}

/// Memory in a human-readable unit, with one decimal cut off (not
/// rounded).
pub open spec fn spec_memory_display(bytes: int) -> Seq<char> {
    if bytes < 1024 {
        dec_digits(bytes) + "B"@
    } else if bytes < 1024 * 1024 {
        let t = bytes * 10 / 1024;
        dec_digits(t / 10) + "."@ + dec_digits(t % 10) + "KB"@
    } else if bytes < 1024 * 1024 * 1024 {
        let t = bytes * 10 / (1024int * 1024);
        dec_digits(t / 10) + "."@ + dec_digits(t % 10) + "MB"@
    } else {
        let t = bytes * 10 / (1024int * 1024 * 1024);
        dec_digits(t / 10) + "."@ + dec_digits(t % 10) + "GB"@
    }
}

/// CPU usage in percent with one decimal, from a figure in tenths of a
/// percent.
pub open spec fn spec_cpu_display(tenths: int) -> Seq<char> {
    dec_digits(tenths / 10) + "."@ + dec_digits(tenths % 10) + "%"@
}

/// An ASCII name longer than twenty bytes is cut to nineteen characters
/// with an ellipsis; other names stand as they are.
pub open spec fn spec_truncate_name(s: Seq<char>) -> Seq<char> {
    if vstd::utf8::encode_utf8(s).len() > 20 && vstd::utf8::is_ascii_chars(s) {
        s.take(19) + seq!['…']
    } else {
        s
    }
}

impl ProcessState {
    /// The coloured dot shown for the state.
    pub fn dot(&self) -> (r: String)
        ensures
            r@ == spec_state_dot(*self),
    {
        match self {
            ProcessState::Running => "🟢".to_owned(),
            ProcessState::Stopped => "⚪".to_owned(),
            ProcessState::Errored => "🔴".to_owned(),
            ProcessState::Starting => "🟡".to_owned(),
            ProcessState::Restarting => "🟡".to_owned(),
            ProcessState::Stopping => "🟠".to_owned(),
        }
    }
}

impl ProcessInfo {
    /// How long the process has been up, against the given clock reading.
    pub fn uptime(&self, now: i64) -> (r: String)
        requires
            (match self.started_at {
                Some(t) => i64::MIN <= now - t <= i64::MAX,
                None => true,
            }),
        ensures
            r@ == spec_uptime(self.started_at, now as int),
    {
        match self.started_at {
            None => "-".to_owned(),
            Some(t) => {
                let secs: i64 = now - t;
                if secs < 60 {
                    crate::strutil::i64_to_string(secs).concat("s")
                } else if secs < 3600 {
                    crate::strutil::u64_to_string((secs as u64) / 60).concat("m")
                } else if secs < 86400 {
                    crate::strutil::u64_to_string((secs as u64) / 3600).concat("h")
                } else {
                    crate::strutil::u64_to_string((secs as u64) / 86400).concat("d")
                }
            },
        }
    }

    /// The last sampled memory figure, in a human-readable unit.
    pub fn memory_display(&self) -> (r: String)
        ensures
            r@ == spec_memory_display(self.memory_usage as int),
    {
        let bytes = self.memory_usage;
        if bytes < 1024 {
            crate::strutil::u64_to_string(bytes).concat("B")
        } else if bytes < 1024 * 1024 {
            let t = bytes * 10 / 1024;
            crate::strutil::u64_to_string(t / 10).concat(".").concat(
                crate::strutil::u64_to_string(t % 10).as_str(),
            ).concat("KB")
        } else if bytes < 1024 * 1024 * 1024 {
            let t = bytes / (1024 * 1024) * 10 + bytes % (1024 * 1024) * 10 / (1024 * 1024);
            proof {
                assert(t == self.memory_usage * 10 / (1024int * 1024)) by (nonlinear_arith)
                    requires
                        t == self.memory_usage as int / (1024int * 1024) * 10 + self.memory_usage
                            as int % (1024int * 1024) * 10 / (1024int * 1024),
                        1024 * 1024 <= self.memory_usage < 1024 * 1024 * 1024,
                ;
            }
            crate::strutil::u64_to_string(t / 10).concat(".").concat(
                crate::strutil::u64_to_string(t % 10).as_str(),
            ).concat("MB")
        } else {
            let t = bytes / (1024 * 1024 * 1024) * 10 + bytes % (1024 * 1024 * 1024) * 10 / (1024
                * 1024 * 1024);
            proof {
                assert(t == self.memory_usage * 10 / (1024int * 1024 * 1024)) by (nonlinear_arith)
                    requires
                        t == self.memory_usage as int / (1024int * 1024 * 1024) * 10
                            + self.memory_usage as int % (1024int * 1024 * 1024) * 10 / (1024int * 1024
                            * 1024),
                        1024 * 1024 * 1024 <= self.memory_usage,
                ;
            }
            crate::strutil::u64_to_string(t / 10).concat(".").concat(
                crate::strutil::u64_to_string(t % 10).as_str(),
            ).concat("GB")
        }
    }
}

/// Cut a long ASCII name to nineteen characters plus an ellipsis.
pub fn truncate_name(name: &str) -> (r: String)
    ensures
        r@ == spec_truncate_name(name@),
{
    let b = name.as_bytes();
    if b.len() > 20 && name.is_ascii() {
        proof {
            vstd::string::is_ascii_spec_bytes(name);
            vstd::utf8::encode_utf8_valid_utf8(name@);
            crate::strutil::lemma_ascii_boundary(b@, 0);
            crate::strutil::lemma_ascii_boundary(b@, 19);
            vstd::utf8::is_ascii_chars_encode_utf8(name@.take(19));
            assert(vstd::utf8::encode_utf8(name@.take(19)) =~= b@.subrange(0, 19));
            vstd::utf8::encode_utf8_decode_utf8(name@.take(19));
        }
        let head = crate::strutil::utf8_sub(b, 0, 19);
        let r = head.concat("…");
        proof {
            reveal_strlit("…");
            assert(r@ =~= name@.take(19) + seq!['…']);
        }
        r
    } else {
        name.to_owned()
    }
}

/// One row of the process table.
pub open spec fn spec_row(p: ProcessInfo, idx: int, now: int) -> Seq<char> {
    crate::strutil::spec_pad(dec_digits(idx), 4) + " "@ + crate::strutil::spec_pad(
        spec_truncate_name(p.name@),
        20,
    ) + " "@ + spec_state_dot(p.state) + " "@ + crate::strutil::spec_pad(
        spec_state_label(p.state),
        7,
    ) + " "@ + crate::strutil::spec_pad(dec_digits(p.restart_count as int), 8) + " "@
        + crate::strutil::spec_pad(spec_cpu_display(p.cpu_usage as int), 8) + " "@
        + crate::strutil::spec_pad(spec_memory_display(p.memory_usage as int), 10) + " "@
        + crate::strutil::spec_pad(spec_uptime(p.started_at, now), 8) + "\n"@
}

/// The rows of the process table, in registration order.
pub open spec fn spec_table_rows(rows: Seq<ProcessInfo>, now: int) -> Seq<char>
    decreases rows.len(),
{
    if rows.len() == 0 {
        Seq::empty()
    } else {
        spec_table_rows(rows.drop_last(), now) + spec_row(
            rows.last(),
            rows.len() - 1,
            now,
        )
    }
}

/// The table's header line and separator.
pub open spec fn spec_table_header() -> Seq<char> {
    crate::strutil::spec_pad("ID"@, 4) + " "@ + crate::strutil::spec_pad("NAME"@, 20) + " "@
        + crate::strutil::spec_pad("STATUS"@, 10) + " "@ + crate::strutil::spec_pad("↺"@, 8)
        + " "@ + crate::strutil::spec_pad("CPU"@, 8) + " "@ + crate::strutil::spec_pad(
        "MEM"@,
        10,
    ) + " "@ + crate::strutil::spec_pad("UPTIME"@, 8) + "\n"@ + crate::strutil::spec_repeat(
        "-"@,
        76,
    ) + "\n"@
}

/// The whole table: a fixed line for an empty registry, else the header
/// and one row per record.
pub open spec fn spec_format_table(rows: Seq<ProcessInfo>, now: int) -> Seq<char> {
    if rows.len() == 0 {
        "No processes running"@
    } else {
        spec_table_header() + spec_table_rows(rows, now)
    }
}

/// Render one table row.
#[verifier::rlimit(50)]
fn render_row(p: &ProcessInfo, idx: u64, now: i64) -> (r: String)
    requires
        (match p.started_at {
            Some(t) => i64::MIN <= now - t <= i64::MAX,
            None => true,
        }),
    ensures
        r@ == spec_row(*p, idx as int, now as int),
{
    let row = crate::strutil::pad_str(crate::strutil::u64_to_string(idx), 4).concat(
        " ",
    ).concat(crate::strutil::pad_str(truncate_name(p.name.as_str()), 20).as_str()).concat(
        " ",
    ).concat(p.state.dot().as_str()).concat(" ").concat(
        crate::strutil::pad_str(p.state.label(), 7).as_str(),
    ).concat(" ").concat(
        crate::strutil::pad_str(
            crate::strutil::u64_to_string(p.restart_count as u64),
            8,
        ).as_str(),
    ).concat(" ").concat(
        crate::strutil::pad_str(
            crate::strutil::u64_to_string(p.cpu_usage / 10).concat(".").concat(
                crate::strutil::u64_to_string(p.cpu_usage % 10).as_str(),
            ).concat("%"),
            8,
        ).as_str(),
    ).concat(" ").concat(
        crate::strutil::pad_str(p.memory_display(), 10).as_str(),
    ).concat(" ").concat(
        crate::strutil::pad_str(p.uptime(now), 8).as_str(),
    ).concat("\n");
    proof {
        assert(row@ =~= spec_row(*p, idx as int, now as int));
    }
    row
}

impl ProcessRegistry {
    /// Render the registry as a table, one row per record, against the
    /// given clock reading. Column widths count UTF-8 bytes.
    #[verifier::rlimit(80)]
    pub fn format_table(&self, now: i64) -> (r: String)
        requires
            (forall|i: int|
                0 <= i < self.rows().len() ==> (match (#[trigger] self.rows()[i]).started_at {
                    Some(t) => i64::MIN <= now - t <= i64::MAX,
                    None => true,
                })),
        ensures
            r@ == spec_format_table(self.rows(), now as int),
    {
        if self.processes.len() == 0 {
            return "No processes running".to_owned();
        }
        let mut out = crate::strutil::pad_str("ID".to_owned(), 4).concat(" ").concat(
            crate::strutil::pad_str("NAME".to_owned(), 20).as_str(),
        ).concat(" ").concat(crate::strutil::pad_str("STATUS".to_owned(), 10).as_str()).concat(
            " ",
        ).concat(crate::strutil::pad_str("↺".to_owned(), 8).as_str()).concat(" ").concat(
            crate::strutil::pad_str("CPU".to_owned(), 8).as_str(),
        ).concat(" ").concat(crate::strutil::pad_str("MEM".to_owned(), 10).as_str()).concat(
            " ",
        ).concat(crate::strutil::pad_str("UPTIME".to_owned(), 8).as_str()).concat("\n").concat(
            crate::strutil::repeat_str("-", 76).as_str(),
        ).concat("\n");
        proof {
            assert(out@ =~= spec_table_header());
        }
        let mut i: usize = 0;
        while i < self.processes.len()
            invariant
                i <= self.rows().len(),
                out@ == spec_table_header() + spec_table_rows(self.rows().take(i as int), now as int),
                (forall|k: int|
                    0 <= k < self.rows().len() ==> (match (#[trigger] self.rows()[k]).started_at {
                        Some(t) => i64::MIN <= now - t <= i64::MAX,
                        None => true,
                    })),
            decreases self.rows().len() - i,
        {
            let p = &self.processes[i];
            let row = render_row(p, i as u64, now);
            out = out.concat(row.as_str());
            proof {
                assert(self.rows().take(i + 1).drop_last() =~= self.rows().take(i as int));
                assert(self.rows().take(i + 1).last() == self.rows()[i as int]);
            }
            i += 1;
        }
        proof {
            assert(self.rows().take(self.rows().len() as int) =~= self.rows());
        }
        out
    }
}

} // verus!
