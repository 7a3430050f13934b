//! The system process table, and combined usage over a process subtree.
//!
//! The daemon samples the operating system's process list and hands it to
//! these functions as a plain table of pid, parent pid, CPU (tenths of a
//! percent) and memory (bytes). Descendant enumeration and the combined
//! usage of a subtree are verified against that table.

use vstd::prelude::*;

use crate::process_manager::registry::{ProcessInfo, ProcessRegistry, ProcessState};

verus! {

/// Failure of a process-table operation.
#[derive(Debug, Clone, Copy, PartialEq, Eq, Structural)]
pub enum ProcessError {
    /// The pid is not in the table.
    InvalidPid(u32),
}

impl ProcessError {
    /// A human-readable line for the error.
    pub fn message(&self) -> (r: String)
        ensures
            r@ == "provided pid was invalid"@,
    {
        "provided pid was invalid".to_owned()
    }
}

/// One process of the sampled system table.
#[derive(Debug, Clone, Copy)]
pub struct ProcessEntry {
    pub pid: u32,
    pub parent: Option<u32>,
    /// CPU usage, in tenths of a percent.
    pub cpu_usage: u64,
    /// Memory usage, in bytes.
    pub memory: u64,
}

/// A sample of the system's process list.
#[derive(Debug)]
pub struct ProcessTable {
    pub entries: Vec<ProcessEntry>,
}

/// The table holds an entry for this pid.
pub open spec fn has_pid(t: Seq<ProcessEntry>, p: u32) -> bool {
    exists|i: int| 0 <= i < t.len() && (#[trigger] t[i]).pid == p
}

/// Some entry of the table gives `p` the parent `q`.
pub open spec fn is_child_of(t: Seq<ProcessEntry>, q: u32, p: u32) -> bool {
    exists|i: int| 0 <= i < t.len() && (#[trigger] t[i]).pid == p && t[i].parent == Some(q)
}

/// Each step of the pid sequence goes from a parent to one of its
/// children.
pub open spec fn is_chain(t: Seq<ProcessEntry>, path: Seq<u32>) -> bool {
    forall|i: int| 0 < i < path.len() ==> is_child_of(t, path[i - 1], #[trigger] path[i])
}

/// `p` is the root itself or one of its transitive descendants: some
/// parent-child chain leads from the root to it.
pub open spec fn is_descendant(t: Seq<ProcessEntry>, root: u32, p: u32) -> bool {
    exists|path: Seq<u32>|
        #[trigger] is_chain(t, path) && path.len() > 0 && path[0] == root && path.last() == p
}

/// A child of a descendant is a descendant.
proof fn lemma_descendant_step(t: Seq<ProcessEntry>, root: u32, q: u32, p: u32)
    requires
        is_descendant(t, root, q),
        is_child_of(t, q, p),
    ensures
        is_descendant(t, root, p),
{
    let path = choose|path: Seq<u32>|
        #[trigger] is_chain(t, path) && path.len() > 0 && path[0] == root && path.last() == q;
    let path2 = path.push(p);
    assert forall|i: int| 0 < i < path2.len() implies is_child_of(
        t,
        path2[i - 1],
        #[trigger] path2[i],
    ) by {
        if i < path.len() {
            assert(is_child_of(t, path[i - 1], path[i]));
        } else {
            assert(path2[i - 1] == path.last());
        }
    }
    assert(is_chain(t, path2) && path2.len() > 0 && path2[0] == root && path2.last() == p);
}

/// The sequence `pids` is the descendant set of `root` in `t`: it starts at
/// the root, holds no duplicates, holds only descendants, and is closed
/// under the child relation.
pub open spec fn descendant_set(t: Seq<ProcessEntry>, root: u32, pids: Seq<u32>) -> bool {
    &&& pids.len() > 0
    &&& pids[0] == root
    &&& (forall|a: int, b: int|
        0 <= a < b < pids.len() ==> #[trigger] pids[a] != #[trigger] pids[b])
    &&& (forall|k: int| 0 <= k < pids.len() ==> is_descendant(t, root, #[trigger] pids[k]))
    &&& (forall|j: int|
        0 <= j < t.len() ==> (match (#[trigger] t[j]).parent {
            Some(q) => pids.contains(q) ==> pids.contains(t[j].pid),
            None => true,
        }))
}

/// How many entries are still unvisited.
spec fn count_unvisited(v: Seq<bool>) -> int
    decreases v.len(),
{
    if v.len() == 0 {
        0
    } else {
        count_unvisited(v.drop_last()) + (if v.last() {
            0int
        } else {
            1int
        })
    }
}

/// Marking one unvisited entry lowers the count by one.
proof fn lemma_count_mark(v: Seq<bool>, j: int)
    requires
        0 <= j < v.len(),
        !v[j],
    ensures
        count_unvisited(v.update(j, true)) == count_unvisited(v) - 1,
    decreases v.len(),
{
    let w = v.update(j, true);
    if j == v.len() - 1 {
        assert(w.drop_last() =~= v.drop_last());
    } else {
        assert(w.drop_last() =~= v.drop_last().update(j, true));
        lemma_count_mark(v.drop_last(), j);
    }
}

/// The count never goes below zero.
proof fn lemma_count_nonneg(v: Seq<bool>)
    ensures
        count_unvisited(v) >= 0,
    decreases v.len(),
{
    if v.len() > 0 {
        lemma_count_nonneg(v.drop_last());
    }
}

/// Whether a pid occurs in a vector.
fn contains_pid(v: &Vec<u32>, p: u32) -> (r: bool)
    ensures
        r == v@.contains(p),
{
    let mut i: usize = 0;
    while i < v.len()
        invariant
            i <= v@.len(),
            forall|j: int| 0 <= j < i ==> v@[j] != p,
        decreases v@.len() - i,
    {
        if v[i] == p {
            return true;
        }
        i += 1;
    }
    false
}

/// Enumerate the root and all its transitive descendants, breadth first,
/// without duplicates. Fails exactly when the root pid is not in the
/// table.
pub fn collect_descendants(table: &ProcessTable, root_pid: u32) -> (r: Result<
    Vec<u32>,
    ProcessError,
>)
    ensures
        r is Ok <==> has_pid(table.entries@, root_pid),
        (r matches Ok(v) ==> descendant_set(table.entries@, root_pid, v@)),
        (r matches Err(e) ==> e == ProcessError::InvalidPid(root_pid)),
{
    let t = &table.entries;
    let n = t.len();
    let mut root_found = false;
    let mut i: usize = 0;
    while i < n && !root_found
        invariant
            i <= n,
            n == t@.len(),
            !root_found ==> forall|j: int| 0 <= j < i ==> (#[trigger] t@[j]).pid != root_pid,
            root_found ==> has_pid(t@, root_pid),
        decreases n - i + (if root_found {
            0int
        } else {
            1int
        }),
    {
        if t[i].pid == root_pid {
            root_found = true;
        } else {
            i += 1;
        }
    }
    if !root_found {
        return Err(ProcessError::InvalidPid(root_pid));
    }
    let mut visited: Vec<bool> = Vec::new();
    while visited.len() < n
        invariant
            visited@.len() <= n,
            forall|j: int| 0 <= j < visited@.len() ==> !(#[trigger] visited@[j]),
        decreases n - visited@.len(),
    {
        visited.push(false);
    }
    let mut result: Vec<u32> = Vec::new();
    result.push(root_pid);
    proof {
        let path0 = seq![root_pid];
        assert(is_chain(t@, path0) && path0.len() > 0 && path0[0] == root_pid && path0.last()
            == root_pid);
        assert(is_descendant(t@, root_pid, root_pid));
    }
    let mut cursor: usize = 0;
    while cursor < result.len()
        invariant
            n == t@.len(),
            visited@.len() == n,
            cursor <= result@.len(),
            result@.len() > 0,
            result@[0] == root_pid,
            (forall|a: int, b: int|
                0 <= a < b < result@.len() ==> #[trigger] result@[a] != #[trigger] result@[b]),
            (forall|k: int|
                0 <= k < result@.len() ==> is_descendant(t@, root_pid, #[trigger] result@[k])),
            (forall|j: int|
                0 <= j < n && (#[trigger] visited@[j]) ==> result@.contains(t@[j].pid)),
            (forall|j: int|
                0 <= j < n && !(#[trigger] visited@[j]) ==> (match t@[j].parent {
                    Some(q) => !result@.take(cursor as int).contains(q),
                    None => true,
                })),
        decreases count_unvisited(visited@), result@.len() - cursor,
    {
        let cur = result[cursor];
        let ghost visited_at_start = visited@;
        let ghost result_at_start = result@;
        let mut j: usize = 0;
        while j < n
            invariant
                n == t@.len(),
                visited@.len() == n,
                cursor < result@.len(),
                result@[0] == root_pid,
                cur == result@[cursor as int],
                j <= n,
                result@.len() > 0,
                (forall|a: int, b: int|
                    0 <= a < b < result@.len() ==> #[trigger] result@[a] != #[trigger] result@[b]),
                (forall|k: int|
                    0 <= k < result@.len() ==> is_descendant(
                        t@,
                        root_pid,
                        #[trigger] result@[k],
                    )),
                (forall|k: int|
                    0 <= k < n && (#[trigger] visited@[k]) ==> result@.contains(t@[k].pid)),
                (forall|k: int|
                    0 <= k < n && !(#[trigger] visited@[k]) ==> (match t@[k].parent {
                        Some(q) => !result@.take(cursor as int).contains(q),
                        None => true,
                    })),
                (forall|k: int|
                    0 <= k < j && t@[k].parent == Some(cur) ==> (#[trigger] visited@[k])),
                count_unvisited(visited@) <= count_unvisited(visited_at_start),
                (count_unvisited(visited@) == count_unvisited(visited_at_start) ==> visited@
                    == visited_at_start && result@ == result_at_start),
            decreases n - j,
        {
            let is_child = match t[j].parent {
                Some(q) => q == cur,
                None => false,
            };
            if is_child && !visited[j] {
                let ghost vh = visited@;
                let ghost rh = result@;
                proof {
                    lemma_count_mark(visited@, j as int);
                }
                visited.set(j, true);
                let pid = t[j].pid;
                if !contains_pid(&result, pid) {
                    proof {
                        assert(is_child_of(t@, cur, pid));
                        lemma_descendant_step(t@, root_pid, cur, pid);
                    }
                    result.push(pid);
                    proof {
                        assert forall|k: int|
                            0 <= k < n && !(#[trigger] visited@[k]) implies (match t@[k].parent {
                            Some(q) => !result@.take(cursor as int).contains(q),
                            None => true,
                        }) by {
                            assert(!vh[k]);
                            assert(result@.take(cursor as int) =~= rh.take(cursor as int));
                        }
                        assert forall|k: int|
                            0 <= k < n && (#[trigger] visited@[k]) implies result@.contains(
                            t@[k].pid,
                        ) by {
                            if k == j {
                                assert(result@[result@.len() - 1] == pid);
                            } else {
                                assert(vh[k]);
                                let w = choose|w: int| 0 <= w < rh.len() && rh[w] == t@[k].pid;
                                assert(result@[w] == t@[k].pid);
                            }
                        }
                    }
                } else {
                    proof {
                        assert(result@.contains(pid));
                    }
                }
            }
            j += 1;
        }
        proof {
            lemma_count_nonneg(visited@);
            if visited@ == visited_at_start {
                assert(count_unvisited(visited@) == count_unvisited(visited_at_start));
            }
            // expanding `cur` closes all its children, so the frontier
            // invariant carries to cursor + 1
            assert forall|k: int|
                0 <= k < n && !(#[trigger] visited@[k]) implies (match t@[k].parent {
                Some(q) => !result@.take(cursor + 1).contains(q),
                None => true,
            }) by {
                match t@[k].parent {
                    Some(q) => {
                        if result@.take(cursor + 1).contains(q) {
                            let w = choose|w: int|
                                0 <= w < result@.take(cursor + 1).len() && (#[trigger] result@.take(
                                    cursor + 1,
                                )[w]) == q;
                            if w < cursor {
                                assert(result@.take(cursor as int).contains(q));
                            } else {
                                assert(q == cur);
                            }
                        }
                    },
                    None => {},
                }
            }
        }
        cursor += 1;
    }
    proof {
        assert forall|j: int|
            0 <= j < t@.len() implies (match (#[trigger] t@[j]).parent {
            Some(q) => result@.contains(q) ==> result@.contains(t@[j].pid),
            None => true,
        }) by {
            match t@[j].parent {
                Some(q) => {
                    if result@.contains(q) && !visited@[j] {
                        assert(result@.take(cursor as int) =~= result@);
                    }
                },
                None => {},
            }
        }
    }
    Ok(result)
}


/// The first table entry for a pid, if any.
pub open spec fn find_entry(t: Seq<ProcessEntry>, p: u32) -> Option<ProcessEntry>
    decreases t.len(),
{
    if t.len() == 0 {
        None
    } else if t[0].pid == p {
        Some(t[0])
    } else {
        find_entry(t.drop_first(), p)
    }
}

/// CPU usage of the first entry for a pid, zero when absent.
pub open spec fn entry_cpu(t: Seq<ProcessEntry>, p: u32) -> int {
    match find_entry(t, p) {
        Some(e) => e.cpu_usage as int,
        None => 0,
    }
}

/// Memory usage of the first entry for a pid, zero when absent.
pub open spec fn entry_mem(t: Seq<ProcessEntry>, p: u32) -> int {
    match find_entry(t, p) {
        Some(e) => e.memory as int,
        None => 0,
    }
}

/// Sum of the CPU figures of the given pids.
pub open spec fn total_cpu(t: Seq<ProcessEntry>, pids: Seq<u32>) -> int
    decreases pids.len(),
{
    if pids.len() == 0 {
        0
    } else {
        total_cpu(t, pids.drop_last()) + entry_cpu(t, pids.last())
    }
}

/// Sum of the memory figures of the given pids.
pub open spec fn total_mem(t: Seq<ProcessEntry>, pids: Seq<u32>) -> int
    decreases pids.len(),
{
    if pids.len() == 0 {
        0
    } else {
        total_mem(t, pids.drop_last()) + entry_mem(t, pids.last())
    }
}

/// A sum clamped to what a 64-bit counter can hold.
pub open spec fn sat64(x: int) -> int {
    if x > u64::MAX {
        u64::MAX as int
    } else {
        x
    }
}

proof fn lemma_find_entry_at(t: Seq<ProcessEntry>, p: u32, i: int)
    requires
        0 <= i < t.len(),
        t[i].pid == p,
        forall|k: int| 0 <= k < i ==> (#[trigger] t[k]).pid != p,
    ensures
        find_entry(t, p) == Some(t[i]),
    decreases i,
{
    if t[0].pid == p {
        assert(i == 0);
    } else {
        let rest = t.drop_first();
        assert(rest[i - 1] == t[i]);
        assert forall|k: int| 0 <= k < i - 1 implies (#[trigger] rest[k]).pid != p by {
            assert(rest[k] == t[k + 1]);
        }
        lemma_find_entry_at(rest, p, i - 1);
    }
}

proof fn lemma_find_entry_absent(t: Seq<ProcessEntry>, p: u32)
    requires
        forall|k: int| 0 <= k < t.len() ==> (#[trigger] t[k]).pid != p,
    ensures
        find_entry(t, p) is None,
    decreases t.len(),
{
    if t.len() > 0 {
        let rest = t.drop_first();
        assert forall|k: int| 0 <= k < rest.len() implies (#[trigger] rest[k]).pid != p by {
            assert(rest[k] == t[k + 1]);
        }
        lemma_find_entry_absent(rest, p);
    }
}

/// CPU and memory of the first entry for a pid, zero when absent.
fn lookup_usage(table: &ProcessTable, p: u32) -> (r: (u64, u64))
    ensures
        r.0 as int == entry_cpu(table.entries@, p),
        r.1 as int == entry_mem(table.entries@, p),
{
    let t = &table.entries;
    let mut i: usize = 0;
    while i < t.len()
        invariant
            i <= t@.len(),
            forall|k: int| 0 <= k < i ==> (#[trigger] t@[k]).pid != p,
        decreases t@.len() - i,
    {
        if t[i].pid == p {
            proof {
                lemma_find_entry_at(t@, p, i as int);
            }
            return (t[i].cpu_usage, t[i].memory);
        }
        i += 1;
    }
    proof {
        lemma_find_entry_absent(t@, p);
    }
    (0, 0)
}

/// Combined CPU (tenths of a percent) and memory (bytes) over the root and
/// all its transitive descendants, clamped to 64 bits. Fails exactly when
/// the root pid is not in the table.
pub fn combined_usage(table: &ProcessTable, root_pid: u32) -> (r: Result<(u64, u64), ProcessError>)
    ensures
        r is Ok <==> has_pid(table.entries@, root_pid),
        (r matches Ok(u) ==> exists|pids: Seq<u32>|
            #[trigger] descendant_set(table.entries@, root_pid, pids) && u.0 as int == sat64(
                total_cpu(table.entries@, pids),
            ) && u.1 as int == sat64(total_mem(table.entries@, pids))),
        (r matches Err(e) ==> e == ProcessError::InvalidPid(root_pid)),
{
    let pids = match collect_descendants(table, root_pid) {
        Ok(v) => v,
        Err(e) => {
            return Err(e);
        },
    };
    let mut cpu: u64 = 0;
    let mut mem: u64 = 0;
    let mut i: usize = 0;
    proof {
        lemma_totals_nonneg(table.entries@, pids@.take(0));
    }
    while i < pids.len()
        invariant
            i <= pids@.len(),
            cpu as int == sat64(total_cpu(table.entries@, pids@.take(i as int))),
            mem as int == sat64(total_mem(table.entries@, pids@.take(i as int))),
        decreases pids@.len() - i,
    {
        let (c, m) = lookup_usage(table, pids[i]);
        proof {
            assert(pids@.take(i + 1).drop_last() =~= pids@.take(i as int));
            assert(pids@.take(i + 1).last() == pids@[i as int]);
            lemma_totals_nonneg(table.entries@, pids@.take(i as int));
        }
        cpu = match cpu.checked_add(c) {
            Some(x) => x,
            None => u64::MAX,
        };
        mem = match mem.checked_add(m) {
            Some(x) => x,
            None => u64::MAX,
        };
        i += 1;
    }
    proof {
        assert(pids@.take(pids@.len() as int) =~= pids@);
    }
    Ok((cpu, mem))
}

/// Totals of non-negative figures are non-negative.
proof fn lemma_totals_nonneg(t: Seq<ProcessEntry>, pids: Seq<u32>)
    ensures
        total_cpu(t, pids) >= 0,
        total_mem(t, pids) >= 0,
    decreases pids.len(),
{
    if pids.len() > 0 {
        lemma_totals_nonneg(t, pids.drop_last());
    }
}

/// How one record looks after a metrics pass: a record without a pid is
/// untouched; one whose pid is in the table gets the combined usage of its
/// process subtree; one whose process vanished while Running moves to
/// Errored with the pid cleared, and is otherwise untouched.
pub open spec fn refreshed_record(t: Seq<ProcessEntry>, pre: ProcessInfo, post: ProcessInfo) -> bool {
    match pre.pid {
        None => post == pre,
        Some(pid) => {
            if has_pid(t, pid) {
                exists|pids: Seq<u32>|
                    #[trigger] descendant_set(t, pid, pids) && post.cpu_usage as int == sat64(
                        total_cpu(t, pids),
                    ) && post.memory_usage as int == sat64(total_mem(t, pids)) && post == (
                    ProcessInfo {
                        cpu_usage: post.cpu_usage,
                        memory_usage: post.memory_usage,
                        ..pre
                    })
            } else {
                if pre.state is Running {
                    post == (ProcessInfo { state: ProcessState::Errored, pid: None, ..pre })
                } else {
                    post == pre
                }
            }
        },
    }
}

impl ProcessRegistry {
    /// Refresh every record's metrics from a fresh process-table sample.
    /// A Running record whose process vanished moves to Errored and loses
    /// its pid.
    pub fn refresh_metrics(&mut self, table: &ProcessTable)
        requires
            old(self).wf(),
        ensures
            final(self).wf(),
            final(self).rows().len() == old(self).rows().len(),
            (forall|i: int|
                0 <= i < old(self).rows().len() ==> refreshed_record(
                    table.entries@,
                    old(self).rows()[i],
                    #[trigger] final(self).rows()[i],
                )),
            Self::restart_counts_nondecreasing(*old(self), *final(self)),
            (old(self).settled() ==> final(self).settled()),
    {
        let n = self.row_count();
        let mut i: usize = 0;
        while i < n
            invariant
                n == old(self).rows().len(),
                i <= n,
                self.rows().len() == n,
                (forall|k: int|
                    0 <= k < i ==> refreshed_record(
                        table.entries@,
                        old(self).rows()[k],
                        #[trigger] self.rows()[k],
                    )),
                (forall|k: int| i <= k < n ==> #[trigger] self.rows()[k] == old(self).rows()[k]),
                (forall|k: int|
                    0 <= k < n ==> (#[trigger] self.rows()[k]).name == old(self).rows()[k].name),
                self.wf(),
                (forall|k: int|
                    0 <= k < n ==> (#[trigger] self.rows()[k]).restart_count == old(
                        self,
                    ).rows()[k].restart_count),
                (old(self).settled() ==> self.settled()),
            decreases n - i,
        {
            let pid_opt = self.row_pid(i);
            match pid_opt {
                None => {},
                Some(pid) => {
                    match combined_usage(table, pid) {
                        Ok(u) => {
                            self.set_metrics(i, u.0, u.1);
                        },
                        Err(_) => {
                            self.mark_vanished(i);
                        },
                    }
                },
            }
            i += 1;
        }
    }
}

} // verus!
