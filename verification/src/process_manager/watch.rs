//! File watching: pattern matching and snapshot diffing.
//!
//! The daemon scans the watched directories (skipping the ignored ones,
//! which [`FileWatcher::is_ignored_dir`] decides) and hands the watcher the
//! files it saw with their modification times. The watcher keeps the files
//! matching its patterns as its snapshot and reports, on the next scan,
//! which paths are new, gone, or carry a different time.

use vstd::prelude::*;
use vstd::string::StringSliceAdditionalSpecFns;
use vstd::utf8::encode_utf8;

use crate::strutil::{
    last_index_of, rfind_byte, seq_contains_sub, seq_starts_with, slice_starts_with,
    spec_trim_prefix, spec_trim_suffix, str_eq, trim_prefix_len,
};

verus! {

/// One watched file, with its modification time (unix seconds).
#[derive(Debug)]
pub struct FileStamp {
    pub path: String,
    pub mtime: i64,
}

/// Watch configuration of one application. The delay is in milliseconds.
#[derive(Debug)]
pub struct WatchConfig {
    pub enabled: bool,
    pub directories: Vec<String>,
    pub patterns: Vec<String>,
    pub ignore: Vec<String>,
    pub delay: u64,
}

impl Default for WatchConfig {
    /// Watching disabled, the current directory, every file, the usual
    /// dependency directories ignored, a one-second delay.
    fn default() -> (r: Self)
        ensures
            !r.enabled,
            r.directories@.len() == 1 && r.directories@[0]@ == "."@,
            r.patterns@.len() == 0,
            r.ignore@.len() == 2 && r.ignore@[0]@ == "node_modules"@ && r.ignore@[1]@ == ".git"@,
            r.delay == 1000,
    {
        let mut directories: Vec<String> = Vec::new();
        directories.push(".".to_owned());
        let mut ignore: Vec<String> = Vec::new();
        ignore.push("node_modules".to_owned());
        ignore.push(".git".to_owned());
        WatchConfig { enabled: false, directories, patterns: Vec::new(), ignore, delay: 1000 }
    }
}

/// The file-name part of a path: everything after the last slash.
pub open spec fn file_name_of(b: Seq<u8>) -> Seq<u8> {
    b.skip(last_index_of(b, 47) + 1)
}

/// The extension of a file name: everything after the last dot, when that
/// dot is not the name's first byte; empty otherwise.
pub open spec fn ext_of(name: Seq<u8>) -> Seq<u8> {
    let d = last_index_of(name, 46);
    if d > 0 {
        name.skip(d + 1)
    } else {
        Seq::empty()
    }
}

/// Whether one pattern hits a file name: `*.ext` compares the extension,
/// any other pattern matches the name exactly or, stripped of leading and
/// trailing stars, as a substring of the name.
pub open spec fn spec_pattern_hit(name: Seq<u8>, p: Seq<u8>) -> bool {
    if seq_starts_with(p, "*.".spec_bytes()) {
        ext_of(name) == p.skip("*.".spec_bytes().len() as int)
    } else {
        name == p || seq_contains_sub(
            name,
            spec_trim_suffix(spec_trim_prefix(p, "*".spec_bytes()), "*".spec_bytes()),
        )
    }
}

/// Whether a path matches the pattern list: an empty list matches every
/// file, otherwise some pattern must hit the path's file name.
pub open spec fn spec_matches_path(patterns: Seq<String>, b: Seq<u8>) -> bool {
    patterns.len() == 0 || exists|k: int|
        0 <= k < patterns.len() && spec_pattern_hit(
            file_name_of(b),
            encode_utf8((#[trigger] patterns[k])@),
        )
}

/// The files of a scan that match the pattern list, in scan order.
pub open spec fn spec_filter_scan(patterns: Seq<String>, scan: Seq<FileStamp>) -> Seq<FileStamp>
    decreases scan.len(),
{
    if scan.len() == 0 {
        Seq::empty()
    } else {
        let prefix = spec_filter_scan(patterns, scan.drop_last());
        if spec_matches_path(patterns, encode_utf8(scan.last().path@)) {
            prefix.push(scan.last())
        } else {
            prefix
        }
    }
}

/// The recorded time of a path in a snapshot: the first entry's, if any.
pub open spec fn lookup_stamp(snap: Seq<FileStamp>, path: Seq<char>) -> Option<i64>
    decreases snap.len(),
{
    if snap.len() == 0 {
        None
    } else if snap[0].path@ == path {
        Some(snap[0].mtime)
    } else {
        lookup_stamp(snap.drop_first(), path)
    }
}

/// The changed paths between two snapshots: the paths of the fresh scan
/// that are new or carry a different time, followed by the old paths that
/// are gone.
pub open spec fn spec_changes(old_snap: Seq<FileStamp>, new_snap: Seq<FileStamp>) -> Seq<
    Seq<char>,
> {
    spec_fresh_changes(old_snap, new_snap) + spec_removed(old_snap, new_snap)
}

/// Paths of the fresh scan that the old snapshot lacks or times
/// differently.
pub open spec fn spec_fresh_changes(old_snap: Seq<FileStamp>, new_snap: Seq<FileStamp>) -> Seq<
    Seq<char>,
>
    decreases new_snap.len(),
{
    if new_snap.len() == 0 {
        Seq::empty()
    } else {
        let prefix = spec_fresh_changes(old_snap, new_snap.drop_last());
        let f = new_snap.last();
        match lookup_stamp(old_snap, f.path@) {
            Some(t) => if t != f.mtime {
                prefix.push(f.path@)
            } else {
                prefix
            },
            None => prefix.push(f.path@),
        }
    }
}

/// Paths of the old snapshot that the fresh scan no longer holds.
pub open spec fn spec_removed(old_snap: Seq<FileStamp>, new_snap: Seq<FileStamp>) -> Seq<
    Seq<char>,
>
    decreases old_snap.len(),
{
    if old_snap.len() == 0 {
        Seq::empty()
    } else {
        let prefix = spec_removed(old_snap.drop_last(), new_snap);
        if lookup_stamp(new_snap, old_snap.last().path@) is None {
            prefix.push(old_snap.last().path@)
        } else {
            prefix
        }
    }
}

/// Watches directories for changed files matching a pattern list.
#[derive(Debug)]
pub struct FileWatcher {
    file_times: Vec<FileStamp>,
    watch_dirs: Vec<String>,
    patterns: Vec<String>,
    ignore_dirs: Vec<String>,
}

impl FileWatcher {
    /// The recorded snapshot.
    pub closed spec fn snapshot(&self) -> Seq<FileStamp> {
        self.file_times@
    }

    /// The watched directories.
    pub closed spec fn dirs(&self) -> Seq<String> {
        self.watch_dirs@
    }

    /// The watch patterns.
    pub closed spec fn pats(&self) -> Seq<String> {
        self.patterns@
    }

    /// The ignored directory names.
    pub closed spec fn ignores(&self) -> Seq<String> {
        self.ignore_dirs@
    }

    /// A fresh watcher over the given directories and patterns, with an
    /// empty snapshot and the usual dependency directories ignored.
    pub fn new(watch_dirs: Vec<String>, patterns: Vec<String>) -> (r: Self)
        ensures
            r.snapshot().len() == 0,
            r.dirs() == watch_dirs@,
            r.pats() == patterns@,
            r.ignores().len() == 6,
            r.ignores()[0]@ == "node_modules"@,
            r.ignores()[1]@ == ".git"@,
            r.ignores()[2]@ == "target"@,
            r.ignores()[3]@ == "__pycache__"@,
            r.ignores()[4]@ == ".venv"@,
            r.ignores()[5]@ == "venv"@,
    {
        let mut ignore_dirs: Vec<String> = Vec::new();
        ignore_dirs.push("node_modules".to_owned());
        ignore_dirs.push(".git".to_owned());
        ignore_dirs.push("target".to_owned());
        ignore_dirs.push("__pycache__".to_owned());
        ignore_dirs.push(".venv".to_owned());
        ignore_dirs.push("venv".to_owned());
        FileWatcher { file_times: Vec::new(), watch_dirs, patterns, ignore_dirs }
    }

    /// Add a directory name to ignore.
    pub fn ignore(&mut self, dir: String)
        ensures
            final(self).ignores() == old(self).ignores().push(dir),
            final(self).snapshot() == old(self).snapshot(),
            final(self).dirs() == old(self).dirs(),
            final(self).pats() == old(self).pats(),
    {
        self.ignore_dirs.push(dir);
    }

    /// The directories to scan.
    pub fn watch_dirs(&self) -> (r: &Vec<String>)
        ensures
            r@ == self.dirs(),
    {
        &self.watch_dirs
    }

    /// Whether a directory name is on the ignore list, so a scan must not
    /// descend into it.
    pub fn is_ignored_dir(&self, name: &str) -> (r: bool)
        ensures
            r == exists|k: int|
                0 <= k < self.ignores().len() && (#[trigger] self.ignores()[k])@ == name@,
    {
        let mut i: usize = 0;
        while i < self.ignore_dirs.len()
            invariant
                i <= self.ignores().len(),
                forall|k: int| 0 <= k < i ==> (#[trigger] self.ignores()[k])@ != name@,
            decreases self.ignores().len() - i,
        {
            if str_eq(self.ignore_dirs[i].as_str(), name) {
                return true;
            }
            i += 1;
        }
        false
    }

    /// Whether a path's file name matches the watcher's patterns.
    pub fn matches_pattern(&self, path: &str) -> (r: bool)
        ensures
            r == spec_matches_path(self.pats(), path.spec_bytes()),
    {
        if self.patterns.len() == 0 {
            return true;
        }
        let b = path.as_bytes();
        let name_from = rfind_byte(b, 47);
        let name = crate::strutil::bytes_range(b, name_from, b.len());
        proof {
            assert(name@ =~= file_name_of(path.spec_bytes()));
        }
        // extension of the file name
        let dot = rfind_byte(name.as_slice(), 46);
        let ext: Vec<u8> = if dot > 1 {
            crate::strutil::bytes_range(name.as_slice(), dot, name.len())
        } else {
            Vec::new()
        };
        proof {
            assert(ext@ =~= ext_of(name@));
        }
        let mut k: usize = 0;
        while k < self.patterns.len()
            invariant
                k <= self.pats().len(),
                name@ == file_name_of(path.spec_bytes()),
                ext@ == ext_of(name@),
                forall|k2: int|
                    0 <= k2 < k ==> !spec_pattern_hit(
                        file_name_of(path.spec_bytes()),
                        encode_utf8((#[trigger] self.pats()[k2])@),
                    ),
            decreases self.pats().len() - k,
        {
            let p = &self.patterns[k];
            let pb = p.as_str().as_bytes();
            let star_dot = "*.".as_bytes();
            if slice_starts_with(pb, star_dot) {
                if crate::strutil::bytes_eq(
                    ext.as_slice(),
                    crate::strutil::bytes_range(pb, star_dot.len(), pb.len()).as_slice(),
                ) {
                    proof {
                        assert(pb@.skip(star_dot@.len() as int) =~= pb@.subrange(
                            star_dot@.len() as int,
                            pb@.len() as int,
                        ));
                    }
                    return true;
                }
                proof {
                    assert(pb@.skip(star_dot@.len() as int) =~= pb@.subrange(
                        star_dot@.len() as int,
                        pb@.len() as int,
                    ));
                }
            } else {
                if crate::strutil::bytes_eq(name.as_slice(), pb) {
                    return true;
                }
                let star = "*".as_bytes();
                let a = trim_prefix_len(pb, star);
                let trimmed_pre = crate::strutil::bytes_range(pb, a, pb.len());
                let e = crate::strutil::trim_suffix_len(trimmed_pre.as_slice(), star);
                let needle = crate::strutil::bytes_range(trimmed_pre.as_slice(), 0, e);
                proof {
                    assert(needle@ == spec_trim_suffix(
                        spec_trim_prefix(pb@, star@),
                        star@,
                    ));
                }
                if crate::strutil::bytes_contains_sub(name.as_slice(), needle.as_slice()) {
                    return true;
                }
            }
            k += 1;
        }
        false
    }

    /// Record an initial snapshot: the scanned files that match the
    /// patterns.
    pub fn init(&mut self, scan: Vec<FileStamp>)
        ensures
            final(self).snapshot() == spec_filter_scan(old(self).pats(), scan@),
            final(self).dirs() == old(self).dirs(),
            final(self).pats() == old(self).pats(),
            final(self).ignores() == old(self).ignores(),
    {
        let filtered = self.filter_scan(scan);
        self.file_times = filtered;
    }

    /// Keep the scanned files that match the patterns, in scan order.
    fn filter_scan(&self, scan: Vec<FileStamp>) -> (r: Vec<FileStamp>)
        ensures
            r@ == spec_filter_scan(self.pats(), scan@),
    {
        let ghost all = scan@;
        let mut rest = scan;
        let mut out: Vec<FileStamp> = Vec::new();
        proof {
            assert(all.take(0) =~= Seq::<FileStamp>::empty());
        }
        while rest.len() > 0
            invariant
                rest@.len() <= all.len(),
                rest@ =~= all.skip(all.len() - rest@.len()),
                out@ == spec_filter_scan(self.pats(), all.take(all.len() - rest@.len())),
            decreases rest@.len(),
        {
            let ghost k = all.len() - rest@.len();
            let f = rest.remove(0);
            proof {
                assert(f == all[k as int]);
                assert(rest@ =~= all.skip(all.len() - rest@.len()));
            }
            if self.matches_pattern(f.path.as_str()) {
                out.push(f);
            }
            proof {
                assert(all.take(k + 1).drop_last() =~= all.take(k as int));
                assert(all.take(k + 1).last() == all[k as int]);
            }
        }
        proof {
            assert(all.take(all.len() as int) =~= all);
        }
        out
    }

    /// Compare a fresh scan against the snapshot: report every matching
    /// path that is new, gone, or carries a different time, and make the
    /// filtered scan the new snapshot.
    pub fn check_changes(&mut self, scan: Vec<FileStamp>) -> (r: Vec<String>)
        ensures
            ({
                let filtered = spec_filter_scan(old(self).pats(), scan@);
                let changes = spec_changes(old(self).snapshot(), filtered);
                &&& final(self).snapshot() == filtered
                &&& r@.len() == changes.len()
                &&& (forall|k: int| 0 <= k < r@.len() ==> (#[trigger] r@[k])@ == changes[k])
            }),
            final(self).dirs() == old(self).dirs(),
            final(self).pats() == old(self).pats(),
            final(self).ignores() == old(self).ignores(),
    {
        let fresh = self.filter_scan(scan);
        let mut changed: Vec<String> = Vec::new();
        // fresh files that are new or modified
        let mut i: usize = 0;
        while i < fresh.len()
            invariant
                i <= fresh@.len(),
                changed@.len() == spec_fresh_changes(self.snapshot(), fresh@.take(i as int)).len(),
                (forall|k: int|
                    0 <= k < changed@.len() ==> (#[trigger] changed@[k])@ == spec_fresh_changes(
                        self.snapshot(),
                        fresh@.take(i as int),
                    )[k]),
            decreases fresh@.len() - i,
        {
            let f = &fresh[i];
            let recorded = self.lookup(f.path.as_str());
            let is_change = match recorded {
                Some(t) => t != f.mtime,
                None => true,
            };
            if is_change {
                changed.push(f.path.clone());
            }
            proof {
                assert(fresh@.take(i + 1).drop_last() =~= fresh@.take(i as int));
                assert(fresh@.take(i + 1).last() == fresh@[i as int]);
            }
            i += 1;
        }
        proof {
            assert(fresh@.take(fresh@.len() as int) =~= fresh@);
        }
        // old files that are gone
        let ghost base = changed@;
        let mut j: usize = 0;
        while j < self.file_times.len()
            invariant
                j <= self.snapshot().len(),
                changed@.len() == base.len() + spec_removed(
                    self.snapshot().take(j as int),
                    fresh@,
                ).len(),
                (forall|k: int| 0 <= k < base.len() ==> #[trigger] changed@[k] == base[k]),
                (forall|k: int|
                    base.len() <= k < changed@.len() ==> (#[trigger] changed@[k])@ == spec_removed(
                        self.snapshot().take(j as int),
                        fresh@,
                    )[k - base.len()]),
            decreases self.snapshot().len() - j,
        {
            let path = &self.file_times[j].path;
            let gone = match lookup_in(&fresh, path.as_str()) {
                Some(_) => false,
                None => true,
            };
            if gone {
                changed.push(path.clone());
            }
            proof {
                assert(self.snapshot().take(j + 1).drop_last() =~= self.snapshot().take(j as int));
                assert(self.snapshot().take(j + 1).last() == self.snapshot()[j as int]);
            }
            j += 1;
        }
        proof {
            assert(self.snapshot().take(self.snapshot().len() as int) =~= self.snapshot());
        }
        self.file_times = fresh;
        changed
    }

    /// The recorded time of a path in the snapshot.
    fn lookup(&self, path: &str) -> (r: Option<i64>)
        ensures
            r == lookup_stamp(self.snapshot(), path@),
    {
        lookup_in(&self.file_times, path)
    }
}

/// The first recorded time of a path in a stamp list.
fn lookup_in(snap: &Vec<FileStamp>, path: &str) -> (r: Option<i64>)
    ensures
        r == lookup_stamp(snap@, path@),
{
    proof {
        assert(snap@.skip(0) =~= snap@);
    }
    let mut i: usize = 0;
    while i < snap.len()
        invariant
            i <= snap@.len(),
            forall|k: int| 0 <= k < i ==> (#[trigger] snap@[k]).path@ != path@,
            lookup_stamp(snap@, path@) == lookup_stamp(snap@.skip(i as int), path@),
        decreases snap@.len() - i,
    {
        if str_eq(snap[i].path.as_str(), path) {
            proof {
                assert(snap@.skip(i as int)[0] == snap@[i as int]);
            }
            return Some(snap[i].mtime);
        }
        proof {
            assert(snap@.skip(i as int)[0] == snap@[i as int]);
            assert(snap@.skip(i as int).drop_first() =~= snap@.skip(i + 1));
        }
        i += 1;
    }
    proof {
        assert(snap@.skip(i as int).len() == 0);
    }
    None
}

} // verus!
