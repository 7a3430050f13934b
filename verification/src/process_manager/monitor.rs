//! The monitor's decisions: when a health check is due, what a probe
//! result does to a record, and which records a pass must restart.
//!
//! The daemon's background thread drives these at a fixed cadence; the
//! sleeping, probing and spawning stay outside, and hand their outcomes in
//! as plain values.

use vstd::prelude::*;

use crate::process_manager::health::HealthStatus;
use crate::process_manager::registry::{ProcessInfo, ProcessRegistry, ProcessState};

verus! {

/// A health check is due when the record has one and either its interval
/// has passed since the last check, or it was never checked and its start
/// period has passed since the spawn.
pub open spec fn spec_health_check_due(p: ProcessInfo, now: i64) -> bool {
    match p.healthcheck {
        None => false,
        Some(hc) => match p.last_health_check {
            Some(last) => now - last >= hc.interval,
            None => match p.started_at {
                Some(st) => now - st >= hc.start_period,
                None => false,
            },
        },
    }
}

/// Decide whether the record's health check is due.
pub fn health_check_due(p: &ProcessInfo, now: i64) -> (r: bool)
    ensures
        r == spec_health_check_due(*p, now),
{
    match &p.healthcheck {
        None => false,
        Some(hc) => {
            match p.last_health_check {
                Some(last) => (now as i128) - (last as i128) >= (hc.interval as i128),
                None => {
                    match p.started_at {
                        Some(st) => (now as i128) - (st as i128) >= (hc.start_period as i128),
                        None => false,
                    }
                },
            }
        },
    }
}

/// Whether recording this probe result must restart the record: the result
/// is a failure and the consecutive-failure count reaches the configured
/// retries.
pub open spec fn spec_health_restart(pre: ProcessInfo, status: HealthStatus) -> bool {
    match status {
        HealthStatus::Unhealthy(_) => {
            let c: int = if pre.health_failures < u32::MAX {
                pre.health_failures + 1
            } else {
                pre.health_failures as int
            };
            match pre.healthcheck {
                Some(hc) => c >= hc.retries,
                None => false,
            }
        },
        _ => false,
    }
}

/// The record after one probe result is recorded: the status and check time
/// are stamped; a success clears the failure count; a failure raises it,
/// and on reaching the configured retries the record moves to Restarting
/// with the count cleared and the restart counter raised.
pub open spec fn spec_health_post(pre: ProcessInfo, status: HealthStatus, now: i64) -> ProcessInfo {
    let checked = ProcessInfo { health_status: status, last_health_check: Some(now), ..pre };
    match checked.health_status {
        HealthStatus::Healthy => ProcessInfo { health_failures: 0, ..checked },
        HealthStatus::Unknown => checked,
        HealthStatus::Unhealthy(_) => {
            if spec_health_restart(pre, checked.health_status) {
                ProcessInfo {
                    health_failures: 0,
                    state: ProcessState::Restarting,
                    restart_count: (if pre.restart_count < u32::MAX {
                        (pre.restart_count + 1) as u32
                    } else {
                        u32::MAX
                    }),
                    ..checked
                }
            } else {
                ProcessInfo {
                    health_failures: (if pre.health_failures < u32::MAX {
                        (pre.health_failures + 1) as u32
                    } else {
                        u32::MAX
                    }),
                    ..checked
                }
            }
        },
    }
}

/// Record one probe result on the named record and report whether the
/// caller must now respawn it. Consecutive failures never exceed the
/// configured retries: reaching them clears the count and marks the record
/// Restarting.
pub fn record_health_result(
    reg: &mut ProcessRegistry,
    name: &str,
    status: HealthStatus,
    now: i64,
) -> (r: bool)
    requires
        old(reg).wf(),
    ensures
        final(reg).wf(),
        (!old(reg).contains_name(name@) ==> *final(reg) == *old(reg) && !r),
        (old(reg).contains_name(name@) ==> {
            &&& r == spec_health_restart(old(reg).record_of(name@), status)
            &&& final(reg).rows() == old(reg).rows().update(
                old(reg).idx_of(name@),
                spec_health_post(old(reg).record_of(name@), status, now),
            )
        }),
        ProcessRegistry::restart_counts_nondecreasing(*old(reg), *final(reg)),
        (old(reg).settled() && !r ==> final(reg).settled()),
        (old(reg).settled() ==> final(reg).settled_except(name@)),
{
    let rec = match reg.get(name) {
        Some(rec) => rec,
        None => {
            return false;
        },
    };
    let is_healthy = match &status {
        HealthStatus::Healthy => true,
        _ => false,
    };
    let is_unknown = match &status {
        HealthStatus::Unknown => true,
        _ => false,
    };
    let _ = reg.update_health_status(name, status, now);
    if is_healthy {
        let _ = reg.reset_health_failures(name);
        proof {
            lemma_update_twice(old(reg).rows(), reg.rows(), old(reg).idx_of(name@));
        }
        false
    } else if is_unknown {
        false
    } else {
        let c = reg.increment_health_failures(name);
        let restart = match &rec.healthcheck {
            Some(hc) => c >= hc.retries,
            None => false,
        };
        if restart {
            let _ = reg.begin_restart(name);
            let _ = reg.reset_health_failures(name);
            proof {
                lemma_update_twice(old(reg).rows(), reg.rows(), old(reg).idx_of(name@));
            }
            true
        } else {
            proof {
                lemma_update_twice(old(reg).rows(), reg.rows(), old(reg).idx_of(name@));
            }
            false
        }
    }
}

/// Updating the same slot again keeps a single update of the original.
proof fn lemma_update_twice(base: Seq<ProcessInfo>, cur: Seq<ProcessInfo>, i: int)
    requires
        0 <= i < base.len(),
        cur.len() == base.len(),
        forall|k: int| 0 <= k < base.len() && k != i ==> #[trigger] cur[k] == base[k],
    ensures
        cur == base.update(i, cur[i]),
{
    assert(cur =~= base.update(i, cur[i]));
}

/// The names of records whose state is Running or Stopped: the ones that a
/// resurrection pass re-spawns.
pub open spec fn spec_resurrect_names(rows: Seq<ProcessInfo>) -> Seq<Seq<char>>
    decreases rows.len(),
{
    if rows.len() == 0 {
        Seq::empty()
    } else {
        let prefix = spec_resurrect_names(rows.drop_last());
        if rows.last().state is Running || rows.last().state is Stopped {
            prefix.push(rows.last().name@)
        } else {
            prefix
        }
    }
}

/// Names of the records that a resurrection pass re-spawns: those whose
/// persisted state was Running or Stopped.
pub fn resurrect_names(reg: &ProcessRegistry) -> (r: Vec<String>)
    ensures
        r@.len() == spec_resurrect_names(reg.rows()).len(),
        (forall|k: int|
            0 <= k < r@.len() ==> (#[trigger] r@[k])@ == spec_resurrect_names(reg.rows())[k]),
{
    let all = reg.list();
    let mut out: Vec<String> = Vec::new();
    let mut i: usize = 0;
    proof {
        assert(reg.rows().take(0) =~= Seq::<ProcessInfo>::empty());
    }
    while i < all.len()
        invariant
            all@.len() == reg.rows().len(),
            (forall|k: int|
                0 <= k < all@.len() ==> crate::process_manager::registry::same_record(
                    #[trigger] all@[k],
                    reg.rows()[k],
                )),
            i <= all@.len(),
            out@.len() == spec_resurrect_names(reg.rows().take(i as int)).len(),
            (forall|k: int|
                0 <= k < out@.len() ==> (#[trigger] out@[k])@ == spec_resurrect_names(
                    reg.rows().take(i as int),
                )[k]),
        decreases all@.len() - i,
    {
        let p = &all[i];
        let keep = match p.state {
            ProcessState::Running => true,
            ProcessState::Stopped => true,
            _ => false,
        };
        if keep {
            out.push(p.name.clone());
        }
        proof {
            assert(reg.rows().take(i + 1).drop_last() =~= reg.rows().take(i as int));
            assert(reg.rows().take(i + 1).last() == reg.rows()[i as int]);
        }
        i += 1;
    }
    proof {
        assert(reg.rows().take(reg.rows().len() as int) =~= reg.rows());
    }
    out
}

/// Of the polled watchers, the names whose file set changed: the records
/// the monitor restarts in its last step.
pub open spec fn spec_changed_names(polled: Seq<(String, Vec<String>)>) -> Seq<Seq<char>>
    decreases polled.len(),
{
    if polled.len() == 0 {
        Seq::empty()
    } else {
        let prefix = spec_changed_names(polled.drop_last());
        if polled.last().1@.len() > 0 {
            prefix.push(polled.last().0@)
        } else {
            prefix
        }
    }
}

/// Names whose watcher reported changed files.
pub fn watch_restart_names(polled: &Vec<(String, Vec<String>)>) -> (r: Vec<String>)
    ensures
        r@.len() == spec_changed_names(polled@).len(),
        (forall|k: int|
            0 <= k < r@.len() ==> (#[trigger] r@[k])@ == spec_changed_names(polled@)[k]),
{
    let mut out: Vec<String> = Vec::new();
    let mut i: usize = 0;
    while i < polled.len()
        invariant
            i <= polled@.len(),
            out@.len() == spec_changed_names(polled@.take(i as int)).len(),
            (forall|k: int|
                0 <= k < out@.len() ==> (#[trigger] out@[k])@ == spec_changed_names(
                    polled@.take(i as int),
                )[k]),
        decreases polled@.len() - i,
    {
        if polled[i].1.len() > 0 {
            out.push(polled[i].0.clone());
        }
        proof {
            assert(polled@.take(i + 1).drop_last() =~= polled@.take(i as int));
            assert(polled@.take(i + 1).last() == polled@[i as int]);
        }
        i += 1;
    }
    proof {
        assert(polled@.take(polled@.len() as int) =~= polled@);
    }
    out
}

} // verus!
