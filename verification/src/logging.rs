//! Log management: tail selection, size-based rotation planning, and the
//! streamer's reseek rule.
//!
//! The daemon reads file sizes and contents and performs the renames; the
//! decisions — which lines a tail keeps, which renames a rotation performs,
//! where a streamer resumes — are verified here.

use vstd::prelude::*;

use crate::strutil::{dec_digits, last_index_of, rfind_byte, u64_to_string};

verus! {

/// When and how log files rotate.
#[derive(Debug)]
pub struct LogRotationConfig {
    /// Size in bytes at which a file rotates.
    pub max_size: u64,
    /// How many rotated siblings to keep.
    pub max_files: u32,
    /// Whether rotated files are compressed (reserved).
    pub compress: bool,
}

impl Default for LogRotationConfig {
    /// Rotate at 10 MiB, keep five files, no compression.
    fn default() -> (r: Self)
        ensures
            r.max_size == 10485760,
            r.max_files == 5,
            !r.compress,
    {
        LogRotationConfig { max_size: 10 * 1024 * 1024, max_files: 5, compress: false }
    }
}

/// Manages the two log files of one process.
#[derive(Debug)]
pub struct LogManager {
    stdout_path: String,
    stderr_path: String,
    rotation_config: LogRotationConfig,
}

/// The renames and file operations of one rotation, oldest first: each
/// listed rename is performed when its source exists, then the base file is
/// recreated empty, and the file beyond the kept range is deleted.
#[derive(Debug)]
pub struct RotationPlan {
    pub renames: Vec<(String, String)>,
    pub fresh: String,
    pub delete: String,
}

/// A rotated sibling's name: the base path, a dot, and its number.
pub open spec fn rotated_name(p: Seq<char>, i: int) -> Seq<char> {
    p + "."@ + dec_digits(i)
}

/// The renames of one rotation of `p` keeping `m` files: `.i` moves to
/// `.i+1` from the oldest kept down to `.1`, then the base file moves to
/// `.1`.
pub open spec fn spec_rotation_renames(p: Seq<char>, m: int) -> Seq<(Seq<char>, Seq<char>)> {
    let shifts = if m >= 1 {
        m - 1
    } else {
        0
    };
    Seq::new(
        (shifts + 1) as nat,
        |k: int|
            if k < shifts {
                (rotated_name(p, m - 1 - k), rotated_name(p, m - k))
            } else {
                (p, rotated_name(p, 1))
            },
    )
}

/// The last `n` lines of a file's contents.
pub open spec fn spec_tail(all: Seq<String>, n: int) -> Seq<String> {
    if n >= all.len() {
        all
    } else {
        all.skip(all.len() - n)
    }
}

/// Lines joined with a newline after each.
pub open spec fn spec_joined(lines: Seq<String>) -> Seq<char>
    decreases lines.len(),
{
    if lines.len() == 0 {
        Seq::empty()
    } else {
        spec_joined(lines.drop_last()) + lines.last()@ + "\n"@
    }
}

/// The last `n` lines, as copies.
pub fn tail_lines(all: &Vec<String>, n: usize) -> (r: Vec<String>)
    ensures
        r@.len() == spec_tail(all@, n as int).len(),
        (forall|k: int| 0 <= k < r@.len() ==> #[trigger] r@[k] == spec_tail(all@, n as int)[k]),
{
    let start = if n >= all.len() {
        0
    } else {
        all.len() - n
    };
    let mut out: Vec<String> = Vec::new();
    let mut i = start;
    while i < all.len()
        invariant
            start <= i <= all@.len(),
            out@.len() == i - start,
            forall|k: int| 0 <= k < out@.len() ==> #[trigger] out@[k] == all@[start + k],
        decreases all@.len() - i,
    {
        out.push(all[i].clone());
        i += 1;
    }
    out
}

/// Append each line and a newline.
fn push_lines(out: String, lines: &Vec<String>) -> (r: String)
    ensures
        r@ == out@ + spec_joined(lines@),
{
    let ghost base = out@;
    let mut acc = out;
    proof {
        assert(acc@ =~= base + spec_joined(lines@.take(0)));
    }
    let mut i: usize = 0;
    while i < lines.len()
        invariant
            i <= lines@.len(),
            acc@ == base + spec_joined(lines@.take(i as int)),
        decreases lines@.len() - i,
    {
        acc = acc.concat(lines[i].as_str()).concat("\n");
        proof {
            assert(lines@.take(i + 1).drop_last() =~= lines@.take(i as int));
            assert(lines@.take(i + 1).last() == lines@[i as int]);
        }
        i += 1;
    }
    proof {
        assert(lines@.take(lines@.len() as int) =~= lines@);
    }
    acc
}

impl LogManager {
    /// The path of the standard-output log.
    pub closed spec fn out_path(&self) -> Seq<char> {
        self.stdout_path@
    }

    /// The path of the standard-error log.
    pub closed spec fn err_path(&self) -> Seq<char> {
        self.stderr_path@
    }

    /// The rotation settings.
    pub closed spec fn rotation(&self) -> LogRotationConfig {
        self.rotation_config
    }

    /// A manager over the two files with default rotation settings.
    pub fn new(stdout_path: String, stderr_path: String) -> (r: Self)
        ensures
            r.out_path() == stdout_path@,
            r.err_path() == stderr_path@,
            r.rotation().max_size == 10485760,
            r.rotation().max_files == 5,
            !r.rotation().compress,
    {
        LogManager { stdout_path, stderr_path, rotation_config: LogRotationConfig::default() }
    }

    /// The same manager with the given rotation settings.
    pub fn with_rotation(self, config: LogRotationConfig) -> (r: Self)
        ensures
            r.out_path() == self.out_path(),
            r.err_path() == self.err_path(),
            r.rotation() == config,
    {
        LogManager {
            stdout_path: self.stdout_path,
            stderr_path: self.stderr_path,
            rotation_config: config,
        }
    }

    /// The standard-output log path, for the caller to read.
    pub fn stdout_path(&self) -> (r: &String)
        ensures
            r@ == self.out_path(),
    {
        &self.stdout_path
    }

    /// The standard-error log path, for the caller to read.
    pub fn stderr_path(&self) -> (r: &String)
        ensures
            r@ == self.err_path(),
    {
        &self.stderr_path
    }

    /// The last `lines` lines of the standard-output log, whose contents
    /// the caller has read.
    pub fn tail_stdout(&self, contents: &Vec<String>, lines: usize) -> (r: Vec<String>)
        ensures
            r@.len() == spec_tail(contents@, lines as int).len(),
            (forall|k: int|
                0 <= k < r@.len() ==> #[trigger] r@[k] == spec_tail(contents@, lines as int)[k]),
    {
        tail_lines(contents, lines)
    }

    /// The last `lines` lines of the standard-error log, whose contents the
    /// caller has read.
    pub fn tail_stderr(&self, contents: &Vec<String>, lines: usize) -> (r: Vec<String>)
        ensures
            r@.len() == spec_tail(contents@, lines as int).len(),
            (forall|k: int|
                0 <= k < r@.len() ==> #[trigger] r@[k] == spec_tail(contents@, lines as int)[k]),
    {
        tail_lines(contents, lines)
    }

    /// Both tails under labelled sections.
    pub fn get_combined_logs(
        &self,
        stdout_contents: &Vec<String>,
        stderr_contents: &Vec<String>,
        lines: usize,
    ) -> (r: String)
        ensures
            r@ == "=== stdout ===\n"@ + spec_joined(spec_tail(stdout_contents@, lines as int))
                + "\n=== stderr ===\n"@ + spec_joined(spec_tail(stderr_contents@, lines as int)),
    {
        let out_tail = tail_lines(stdout_contents, lines);
        let err_tail = tail_lines(stderr_contents, lines);
        proof {
            assert(out_tail@ =~= spec_tail(stdout_contents@, lines as int));
            assert(err_tail@ =~= spec_tail(stderr_contents@, lines as int));
        }
        let s = push_lines("=== stdout ===\n".to_owned(), &out_tail);
        let s = s.concat("\n=== stderr ===\n");
        push_lines(s, &err_tail)
    }

    /// The rotation of one file, planned from its current size; nothing
    /// when the file is missing or still under the limit.
    fn plan_for(&self, path: &String, size: Option<u64>) -> (r: Option<RotationPlan>)
        ensures
            (match size {
                Some(s) => {
                    if s >= self.rotation().max_size {
                        match r {
                            Some(plan) => {
                                let m = self.rotation().max_files as int;
                                &&& plan.renames@.len() == spec_rotation_renames(
                                    path@,
                                    m,
                                ).len()
                                &&& (forall|k: int|
                                    0 <= k < plan.renames@.len() ==> ((
                                    #[trigger] plan.renames@[k]).0@, plan.renames@[k].1@)
                                        == spec_rotation_renames(path@, m)[k])
                                &&& plan.fresh@ == path@
                                &&& plan.delete@ == rotated_name(path@, m + 1)
                            },
                            None => false,
                        }
                    } else {
                        r is None
                    }
                },
                None => r is None,
            }),
    {
        let s = match size {
            Some(s) => s,
            None => {
                return None;
            },
        };
        if s < self.rotation_config.max_size {
            return None;
        }
        let m = self.rotation_config.max_files;
        let mut renames: Vec<(String, String)> = Vec::new();
        let mut i = m;
        while i > 1
            invariant
                i <= m || (m == 0 && i <= 1),
                i >= 1 || m == 0,
                m >= 1 ==> renames@.len() == m - i,
                m == 0 ==> renames@.len() == 0 && i == 0,
                (forall|k: int|
                    0 <= k < renames@.len() ==> ((#[trigger] renames@[k]).0@,
                    renames@[k].1@) == (
                        rotated_name(path@, m - 1 - k),
                        rotated_name(path@, m - k),
                    )),
            decreases i,
        {
            let from = rotated(path, (i - 1) as u64);
            let to = rotated(path, i as u64);
            renames.push((from, to));
            i -= 1;
        }
        renames.push((path.clone(), rotated(path, 1)));
        proof {
            let m_int = self.rotation().max_files as int;
            assert forall|k: int| 0 <= k < renames@.len() implies ((
            #[trigger] renames@[k]).0@, renames@[k].1@) == spec_rotation_renames(
                path@,
                m_int,
            )[k] by {
                let shifts = if m_int >= 1 {
                    m_int - 1
                } else {
                    0
                };
                if k < shifts {
                } else {
                    assert(renames@[k] == renames@.last());
                }
            }
        }
        Some(
            RotationPlan {
                renames,
                fresh: path.clone(),
                delete: rotated(path, (m as u64) + 1),
            },
        )
    }

    /// Plan the rotation of both log files from their current sizes;
    /// `None` sizes stand for missing files. A file rotates exactly when it
    /// exists and has reached the configured size.
    pub fn rotate_if_needed(&self, stdout_size: Option<u64>, stderr_size: Option<u64>) -> (r: (
        Option<RotationPlan>,
        Option<RotationPlan>,
    ))
        ensures
            plan_matches(*self, self.out_path(), stdout_size, r.0),
            plan_matches(*self, self.err_path(), stderr_size, r.1),
    {
        let out_plan = self.plan_for(&self.stdout_path, stdout_size);
        let err_plan = self.plan_for(&self.stderr_path, stderr_size);
        (out_plan, err_plan)
    }

    /// The directory holding the standard-output log: the path up to its
    /// last slash, or nothing for a bare file name.
    pub fn log_dir(&self) -> (r: Option<String>)
        ensures
            (match r {
                Some(d) => last_index_of(vstd::utf8::encode_utf8(self.out_path()), 47) >= 0
                    && vstd::utf8::encode_utf8(d@) == vstd::utf8::encode_utf8(
                    self.out_path(),
                ).take(last_index_of(vstd::utf8::encode_utf8(self.out_path()), 47)),
                None => last_index_of(vstd::utf8::encode_utf8(self.out_path()), 47) < 0,
            }),
    {
        let b = self.stdout_path.as_str().as_bytes();
        let cut = rfind_byte(b, 47);
        if cut == 0 {
            return None;
        }
        proof {
            vstd::utf8::encode_utf8_valid_utf8(self.out_path());
            crate::strutil::lemma_ascii_boundary(b@, 0);
            crate::strutil::lemma_ascii_boundary(b@, cut - 1);
        }
        Some(crate::strutil::utf8_sub(b, 0, cut - 1))
    }
}

/// Whether a plan is the right answer for a file of the given size.
pub open spec fn plan_matches(
    mgr: LogManager,
    path: Seq<char>,
    size: Option<u64>,
    r: Option<RotationPlan>,
) -> bool {
    match size {
        Some(s) => {
            if s >= mgr.rotation().max_size {
                match r {
                    Some(plan) => {
                        let m = mgr.rotation().max_files as int;
                        &&& plan.renames@.len() == spec_rotation_renames(path, m).len()
                        &&& (forall|k: int|
                            0 <= k < plan.renames@.len() ==> ((#[trigger] plan.renames@[k]).0@,
                            plan.renames@[k].1@) == spec_rotation_renames(path, m)[k])
                        &&& plan.fresh@ == path
                        &&& plan.delete@ == rotated_name(path, m + 1)
                    },
                    None => false,
                }
            } else {
                r is None
            }
        },
        None => r is None,
    }
}

/// A rotated sibling's path.
fn rotated(path: &String, i: u64) -> (r: String)
    ensures
        r@ == rotated_name(path@, i as int),
{
    path.clone().concat(".").concat(u64_to_string(i).as_str())
}

/// Where a log streamer resumes reading: at its recorded position, or at
/// the start again when the file shrank beneath it (a rotation happened).
pub fn next_read_position(position: u64, file_len: u64) -> (r: u64)
    ensures
        r == (if file_len < position {
            0u64
        } else {
            position
        }),
{
    if file_len < position {
        0
    } else {
        position
    }
}

} // verus!
