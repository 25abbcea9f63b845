//! The scan engine: its configuration, the inclusion rules applied to every
//! entry, and the decisions of the three kinds of scan (file list, tree and
//! statistics) over the entries that a directory walk produced.
use vstd::prelude::*;
use std::sync::Arc;
use std::sync::atomic::AtomicBool;
use crate::mounts::{mount_allows, MountInfo, MountModel};
use crate::order::{sort_paths, sorted_by, PathOrder};
use crate::paths::{file_name, has_hidden_component, is_hidden_path, path_file_name};
use crate::stats::{bucket_of, DirectoryStats};
use crate::text::push_text;
use crate::{ScanError, TreeNode};

verus! {

broadcast use vstd::seq_lib::group_to_multiset_ensures;

/// One entry found by a directory walk, as plain values.
#[derive(Debug, Clone)]
pub struct WalkEntry {
    pub path: String,
    /// Levels below the scan root (the root itself is at depth 0).
    pub depth: usize,
    pub is_file: bool,
    pub is_dir: bool,
    /// The device holding the entry, when it was read.
    pub device_id: Option<u64>,
    /// The size in bytes, when the metadata could be read.
    pub size: Option<u64>,
}

/// Receives progress while a scan runs: `done` of `total` steps, and a
/// status line.
pub trait ProgressSink {
    fn report(&self, done: usize, total: usize, status: String);
}

/// A progress receiver that ignores every report.
pub struct NoProgress;

impl ProgressSink for NoProgress {
    fn report(&self, done: usize, total: usize, status: String) {
    }
}

/// Core directory scanner with configurable options.
#[derive(Clone, Debug)]
pub struct DirectoryScanner {
    pub include_dotfiles: bool,
    pub max_depth: Option<usize>,
    pub follow_symlinks: bool,
    pub calculate_sha256: bool,
    pub calculate_sha512: bool,
    pub calculate_md5: bool,
    pub calculate_format: bool,
    pub calculate_mime: bool,
    pub cancellation_flag: Option<Arc<AtomicBool>>,
    /// Skip known virtual/pseudo filesystems (proc, sysfs, devfs, etc.)
    pub skip_virtual_filesystems: bool,
    /// Stay on the same filesystem (don't cross mount boundaries)
    pub stay_on_filesystem: bool,
}

/// The configuration that a new scanner starts with.
pub open spec fn default_scanner(s: DirectoryScanner) -> bool {
    &&& !s.include_dotfiles
    &&& s.max_depth is None
    &&& !s.follow_symlinks
    &&& s.calculate_sha256
    &&& !s.calculate_sha512
    &&& !s.calculate_md5
    &&& !s.calculate_format
    &&& !s.calculate_mime
    &&& s.cancellation_flag is None
    &&& s.skip_virtual_filesystems
    &&& !s.stay_on_filesystem
}

impl Default for DirectoryScanner {
    fn default() -> (r: Self)
        ensures
            default_scanner(r),
    {
        DirectoryScanner {
            include_dotfiles: false,
            max_depth: None,
            follow_symlinks: false,
            calculate_sha256: true,
            calculate_sha512: false,
            calculate_md5: false,
            calculate_format: false,
            calculate_mime: false,
            cancellation_flag: None,
            skip_virtual_filesystems: true,
            stay_on_filesystem: false,
        }
    }
}

/// The mount rules an optional table imposes (what it has skipped so far
/// plays no part).
pub open spec fn mount_rules(m: Option<MountInfo>) -> Option<MountModel> {
    match m {
        Some(t) => Some(MountModel { skipped_paths: Set::empty(), ..t@ }),
        None => None,
    }
}

pub open spec fn table_ok(m: Option<MountInfo>) -> bool {
    m matches Some(t) ==> t.wf()
}

/// An entry `depth` levels below the root is within the depth limit. The
/// limit counts the directory levels below the root whose entries are read:
/// with a limit of `d`, the entries of directories at most `d` levels below
/// the root are found, that is entries at most `d + 1` levels below it.
pub open spec fn within_depth(max_depth: Option<usize>, depth: usize) -> bool {
    match max_depth {
        Some(d) => depth <= d + 1,
        None => true,
    }
}

/// The inclusion rules: the dotfile rule, then the virtual-filesystem and
/// device rules of the mount table when there is one.
pub open spec fn keeps(
    s: DirectoryScanner,
    rules: Option<MountModel>,
    path: Seq<char>,
    device_id: Option<u64>,
) -> bool {
    &&& (s.include_dotfiles || !has_hidden_component(path))
    &&& match rules {
        Some(m) => mount_allows(
            m,
            path,
            device_id,
            s.skip_virtual_filesystems,
            s.stay_on_filesystem,
        ),
        None => true,
    }
}

/// A walk entry that the scan counts: within the depth limit and kept by the
/// inclusion rules.
pub open spec fn counted(s: DirectoryScanner, rules: Option<MountModel>, e: WalkEntry) -> bool {
    within_depth(s.max_depth, e.depth) && keeps(s, rules, e.path@, e.device_id)
}

/// The paths of the counted files among `es`, in walk order.
pub open spec fn selected_files(s: DirectoryScanner, rules: Option<MountModel>, es: Seq<WalkEntry>) -> Seq<String>
    decreases es.len(),
{
    if es.len() == 0 {
        seq![]
    } else if es.last().is_file && counted(s, rules, es.last()) {
        selected_files(s, rules, es.drop_last()).push(es.last().path)
    } else {
        selected_files(s, rules, es.drop_last())
    }
}

/// The paths of the entries of a directory listing that the rules keep, in
/// listing order.
pub open spec fn kept_children(s: DirectoryScanner, rules: Option<MountModel>, es: Seq<WalkEntry>) -> Seq<String>
    decreases es.len(),
{
    if es.len() == 0 {
        seq![]
    } else if keeps(s, rules, es.last().path@, es.last().device_id) {
        kept_children(s, rules, es.drop_last()).push(es.last().path)
    } else {
        kept_children(s, rules, es.drop_last())
    }
}

/// How a statistics scan counts one entry: directories first, then files.
pub open spec fn is_counted_dir(s: DirectoryScanner, rules: Option<MountModel>, e: WalkEntry) -> bool {
    counted(s, rules, e) && e.is_dir
}

/// A file is counted only when its size is known, so that every counted file
/// has a size and a histogram bucket.
pub open spec fn is_counted_file(s: DirectoryScanner, rules: Option<MountModel>, e: WalkEntry) -> bool {
    counted(s, rules, e) && !e.is_dir && e.is_file && e.size is Some
}

/// Number of entries of `es` that satisfy `p`.
pub open spec fn count_where(es: Seq<WalkEntry>, p: spec_fn(WalkEntry) -> bool) -> nat
    decreases es.len(),
{
    if es.len() == 0 {
        0
    } else {
        count_where(es.drop_last(), p) + if p(es.last()) {
            1nat
        } else {
            0nat
        }
    }
}

/// Total size of the entries of `es` that satisfy `p` and have a known size.
pub open spec fn size_where(es: Seq<WalkEntry>, p: spec_fn(WalkEntry) -> bool) -> nat
    decreases es.len(),
{
    if es.len() == 0 {
        0
    } else {
        size_where(es.drop_last(), p) + if p(es.last()) && es.last().size is Some {
            es.last().size->0 as nat
        } else {
            0nat
        }
    }
}

/// A counted file whose size is known and falls in bucket `k`.
pub open spec fn in_bucket(s: DirectoryScanner, rules: Option<MountModel>, k: int) -> spec_fn(WalkEntry) -> bool {
    |e: WalkEntry| is_counted_file(s, rules, e) && e.size is Some && bucket_of(e.size->0) == k
}

pub open spec fn counted_dir_fn(s: DirectoryScanner, rules: Option<MountModel>) -> spec_fn(WalkEntry) -> bool {
    |e: WalkEntry| is_counted_dir(s, rules, e)
}

pub open spec fn counted_file_fn(s: DirectoryScanner, rules: Option<MountModel>) -> spec_fn(WalkEntry) -> bool {
    |e: WalkEntry| is_counted_file(s, rules, e)
}

/// Whether a completed-file count is one at which progress is reported:
/// every tenth file, and the last one.
pub open spec fn progress_point(current: usize, total: usize) -> bool {
    current % 10 == 0 || current == total
}

/// Whether progress is due after `current` of `total` files.
pub fn progress_due(current: usize, total: usize) -> (r: bool)
    ensures
        r == progress_point(current, total),
{
    current % 10 == 0 || current == total
}

/// Checks what validation of a scan root found: it must be readable, exist
/// and be a directory. `access_denied` says that reading what is at the path
/// was refused.
pub fn validate_path(access_denied: bool, exists: bool, is_dir: bool) -> (r: Result<(), ScanError>)
    ensures
        access_denied ==> r matches Err(ScanError::PermissionDenied),
        !access_denied && !exists ==> r matches Err(ScanError::PathNotFound),
        !access_denied && exists && !is_dir ==> r matches Err(ScanError::NotADirectory),
        !access_denied && exists && is_dir ==> r is Ok,
{
    if access_denied {
        return Err(ScanError::PermissionDenied);
    }
    if !exists {
        return Err(ScanError::PathNotFound);
    }
    if !is_dir {
        return Err(ScanError::NotADirectory);
    }
    Ok(())
}

/// The name shown for a tree node: its file name, or the whole path when it
/// has none.
pub open spec fn node_name(path: Seq<char>) -> Seq<char> {
    match file_name(path) {
        Some(n) => n,
        None => path,
    }
}

impl TreeNode {
    /// A node for `path` with the given children.
    pub fn from_parts(path: String, is_directory: bool, children: Vec<TreeNode>) -> (r: TreeNode)
        ensures
            r.name@ == node_name(path@),
            r.path == path,
            r.is_directory == is_directory,
            r.children == children,
    {
        let name = match path_file_name(path.as_str()) {
            Some(n) => n,
            None => path.clone(),
        };
        TreeNode { name, path, is_directory, children }
    }
}

impl DirectoryScanner {
    pub fn new() -> (r: Self)
        ensures
            default_scanner(r),
    {
        Self::default()
    }

    pub fn include_dotfiles(self, enabled: bool) -> (r: Self)
        ensures
            r == (DirectoryScanner { include_dotfiles: enabled, ..self }),
    {
        DirectoryScanner { include_dotfiles: enabled, ..self }
    }

    /// Limits the scan to `depth` directory levels below the root: entries
    /// of directories at most `depth` levels down are read, so a limit of 2
    /// finds `root/a/b/file.txt` and a limit of 1 does not.
    pub fn max_depth(self, depth: usize) -> (r: Self)
        ensures
            r == (DirectoryScanner { max_depth: Some(depth), ..self }),
    {
        DirectoryScanner { max_depth: Some(depth), ..self }
    }

    pub fn follow_symlinks(self, follow: bool) -> (r: Self)
        ensures
            r == (DirectoryScanner { follow_symlinks: follow, ..self }),
    {
        DirectoryScanner { follow_symlinks: follow, ..self }
    }

    pub fn calculate_sha256(self, calculate: bool) -> (r: Self)
        ensures
            r == (DirectoryScanner { calculate_sha256: calculate, ..self }),
    {
        DirectoryScanner { calculate_sha256: calculate, ..self }
    }

    pub fn calculate_sha512(self, calculate: bool) -> (r: Self)
        ensures
            r == (DirectoryScanner { calculate_sha512: calculate, ..self }),
    {
        DirectoryScanner { calculate_sha512: calculate, ..self }
    }

    pub fn calculate_md5(self, calculate: bool) -> (r: Self)
        ensures
            r == (DirectoryScanner { calculate_md5: calculate, ..self }),
    {
        DirectoryScanner { calculate_md5: calculate, ..self }
    }

    pub fn calculate_format(self, calculate: bool) -> (r: Self)
        ensures
            r == (DirectoryScanner { calculate_format: calculate, ..self }),
    {
        DirectoryScanner { calculate_format: calculate, ..self }
    }

    pub fn calculate_mime(self, calculate: bool) -> (r: Self)
        ensures
            r == (DirectoryScanner { calculate_mime: calculate, ..self }),
    {
        DirectoryScanner { calculate_mime: calculate, ..self }
    }

    pub fn cancellation_flag(self, flag: Arc<AtomicBool>) -> (r: Self)
        ensures
            r == (DirectoryScanner { cancellation_flag: Some(flag), ..self }),
    {
        DirectoryScanner { cancellation_flag: Some(flag), ..self }
    }

    pub fn skip_virtual_filesystems(self, skip: bool) -> (r: Self)
        ensures
            r == (DirectoryScanner { skip_virtual_filesystems: skip, ..self }),
    {
        DirectoryScanner { skip_virtual_filesystems: skip, ..self }
    }

    pub fn stay_on_filesystem(self, stay: bool) -> (r: Self)
        ensures
            r == (DirectoryScanner { stay_on_filesystem: stay, ..self }),
    {
        DirectoryScanner { stay_on_filesystem: stay, ..self }
    }

    /// Whether a mount table is needed: either mount rule is on.
    pub fn needs_mount_table(&self) -> (r: bool)
        ensures
            r == (self.skip_virtual_filesystems || self.stay_on_filesystem),
    {
        self.skip_virtual_filesystems || self.stay_on_filesystem
    }

    /// Whether the shared cancellation flag is set; never without a flag.
    pub fn is_cancelled(&self) -> (r: bool)
        ensures
            self.cancellation_flag is None ==> !r,
    {
        match &self.cancellation_flag {
            Some(flag) => flag.load(std::sync::atomic::Ordering::Relaxed),
            None => false,
        }
    }

    /// Whether the inclusion rules keep `path`; a mount point that excludes
    /// it is recorded in the table.
    pub fn should_include_entry(
        &self,
        path: &str,
        device_id: Option<u64>,
        mount_info: &mut Option<MountInfo>,
    ) -> (r: bool)
        requires
            table_ok(*old(mount_info)),
        ensures
            r == keeps(*self, mount_rules(*old(mount_info)), path@, device_id),
            table_ok(*final(mount_info)),
            mount_rules(*final(mount_info)) == mount_rules(*old(mount_info)),
    {
        if !self.include_dotfiles && is_hidden_path(path) {
            return false;
        }
        match mount_info {
            Some(info) => {
                let ghost pre = info@;
                assert(mount_rules(*old(mount_info)) == Some(MountModel { skipped_paths: Set::empty(), ..pre }));
                let ok = info.should_include_path(
                    path,
                    device_id,
                    self.skip_virtual_filesystems,
                    self.stay_on_filesystem,
                );
                assert(mount_rules(Some(*info)) =~= mount_rules(*old(mount_info)));
                proof {
                    lemma_allows_ignores_skipped(
                        pre,
                        path@,
                        device_id,
                        self.skip_virtual_filesystems,
                        self.stay_on_filesystem,
                    );
                }
                ok
            },
            None => true,
        }
    }

    /// The files of a walk that a detailed scan hashes: counted files, with
    /// fewer path components first and then in component order. Fails with
    /// `Cancelled` when the shared flag is seen set.
    pub fn select_files(&self, entries: &Vec<WalkEntry>, mount_info: &mut Option<MountInfo>) -> (r:
        Result<Vec<String>, ScanError>)
        requires
            table_ok(*old(mount_info)),
        ensures
            table_ok(*final(mount_info)),
            mount_rules(*final(mount_info)) == mount_rules(*old(mount_info)),
            match r {
                Ok(v) => v@.to_multiset() == selected_files(
                    *self,
                    mount_rules(*old(mount_info)),
                    entries@,
                ).to_multiset() && sorted_by(v@, PathOrder::DepthThenComponents),
                Err(e) => e is Cancelled && self.cancellation_flag is Some,
            },
            self.cancellation_flag is None ==> r is Ok,
    {
        let ghost rules = mount_rules(*mount_info);
        let mut files: Vec<String> = Vec::new();
        let mut i: usize = 0;
        while i < entries.len()
            invariant
                i <= entries.len(),
                table_ok(*mount_info),
                mount_rules(*mount_info) == rules,
                rules == mount_rules(*old(mount_info)),
                files@ == selected_files(*self, rules, entries@.subrange(0, i as int)),
            decreases entries.len() - i,
        {
            assert(entries@.subrange(0, i + 1).drop_last() =~= entries@.subrange(0, i as int));
            if self.is_cancelled() {
                return Err(ScanError::Cancelled);
            }
            let e = &entries[i];
            if e.is_file && within_depth_exec(self.max_depth, e.depth) {
                if self.should_include_entry(e.path.as_str(), e.device_id, mount_info) {
                    files.push(e.path.clone());
                }
            }
            i = i + 1;
        }
        assert(entries@.subrange(0, entries.len() as int) =~= entries@);
        if self.is_cancelled() {
            return Err(ScanError::Cancelled);
        }
        sort_paths(&mut files, PathOrder::DepthThenComponents);
        Ok(files)
    }

    /// Whether a scan reads the entries of a node at `depth`: it must be a
    /// directory at most as deep as the depth limit.
    pub fn descends_into(&self, is_dir: bool, depth: usize) -> (r: bool)
        ensures
            r == (is_dir && match self.max_depth {
                Some(d) => depth <= d,
                None => true,
            }),
    {
        is_dir && match self.max_depth {
            Some(d) => depth <= d,
            None => true,
        }
    }

    /// The children of a directory that a tree scan visits: the listed
    /// entries that the rules keep, in case-insensitive name order. Fails with
    /// `Cancelled` when the shared flag is seen set.
    pub fn plan_children(&self, listing: &Vec<WalkEntry>, mount_info: &mut Option<MountInfo>) -> (r:
        Result<Vec<String>, ScanError>)
        requires
            table_ok(*old(mount_info)),
        ensures
            table_ok(*final(mount_info)),
            mount_rules(*final(mount_info)) == mount_rules(*old(mount_info)),
            match r {
                Ok(v) => v@.to_multiset() == kept_children(
                    *self,
                    mount_rules(*old(mount_info)),
                    listing@,
                ).to_multiset() && sorted_by(v@, PathOrder::FoldedName),
                Err(e) => e is Cancelled && self.cancellation_flag is Some,
            },
            self.cancellation_flag is None ==> r is Ok,
    {
        let ghost rules = mount_rules(*mount_info);
        let mut kids: Vec<String> = Vec::new();
        let mut i: usize = 0;
        while i < listing.len()
            invariant
                i <= listing.len(),
                table_ok(*mount_info),
                mount_rules(*mount_info) == rules,
                rules == mount_rules(*old(mount_info)),
                kids@ == kept_children(*self, rules, listing@.subrange(0, i as int)),
            decreases listing.len() - i,
        {
            assert(listing@.subrange(0, i + 1).drop_last() =~= listing@.subrange(0, i as int));
            if self.is_cancelled() {
                return Err(ScanError::Cancelled);
            }
            let e = &listing[i];
            if self.should_include_entry(e.path.as_str(), e.device_id, mount_info) {
                kids.push(e.path.clone());
            }
            i = i + 1;
        }
        assert(listing@.subrange(0, listing.len() as int) =~= listing@);
        sort_paths(&mut kids, PathOrder::FoldedName);
        Ok(kids)
    }

    /// Folds the entries of a walk into statistics: counted directories and
    /// files (a file whose size could not be read is not counted), the total
    /// size of counted files and their size histogram.
    /// Reports progress for each entry visited and once more at the end; fails
    /// with `Cancelled` when the shared flag is seen set.
    pub fn scan_stats_entries<P: ProgressSink>(
        &self,
        entries: &Vec<WalkEntry>,
        mount_info: &mut Option<MountInfo>,
        progress: &P,
    ) -> (r: Result<DirectoryStats, ScanError>)
        requires
            table_ok(*old(mount_info)),
        ensures
            table_ok(*final(mount_info)),
            mount_rules(*final(mount_info)) == mount_rules(*old(mount_info)),
            match r {
                Ok(st) => {
                    let rules = mount_rules(*old(mount_info));
                    &&& st.directory_count == count_where(entries@, counted_dir_fn(*self, rules))
                    &&& st.file_count == count_where(entries@, counted_file_fn(*self, rules))
                    &&& st.total_size as int == vstd::math::min(
                        size_where(entries@, counted_file_fn(*self, rules)) as int,
                        u64::MAX as int,
                    )
                    &&& forall|k: int|
                        0 <= k < 13 ==> #[trigger] st.size_distribution.counts()[k]
                            == count_where(entries@, in_bucket(*self, rules, k))
                },
                Err(e) => e is Cancelled && self.cancellation_flag is Some,
            },
            self.cancellation_flag is None ==> r is Ok,
    {
        let ghost rules = mount_rules(*mount_info);
        let mut stats = DirectoryStats::new();
        let total = entries.len();
        let mut i: usize = 0;
        while i < total
            invariant
                total == entries.len(),
                i <= total,
                table_ok(*mount_info),
                mount_rules(*mount_info) == rules,
                rules == mount_rules(*old(mount_info)),
                stats.file_count + stats.directory_count <= i,
                stats.size_distribution.total() == stats.file_count,
                stats.directory_count == count_where(
                    entries@.subrange(0, i as int),
                    counted_dir_fn(*self, rules),
                ),
                stats.file_count == count_where(
                    entries@.subrange(0, i as int),
                    counted_file_fn(*self, rules),
                ),
                stats.total_size as int == vstd::math::min(
                    size_where(entries@.subrange(0, i as int), counted_file_fn(*self, rules)) as int,
                    u64::MAX as int,
                ),
                forall|k: int|
                    0 <= k < 13 ==> #[trigger] stats.size_distribution.counts()[k] == count_where(
                        entries@.subrange(0, i as int),
                        in_bucket(*self, rules, k),
                    ),
            decreases total - i,
        {
            let ghost pre = entries@.subrange(0, i as int);
            let ghost cur = entries@.subrange(0, i + 1);
            assert(cur.drop_last() =~= pre);
            assert(cur.last() == entries@[i as int]);
            if self.is_cancelled() {
                return Err(ScanError::Cancelled);
            }
            let e = &entries[i];
            let mut status = String::from_str("Analyzing: ");
            push_text(&mut status, e.path.as_str());
            progress.report(i + 1, total, status);
            let keep = within_depth_exec(self.max_depth, e.depth) && self.should_include_entry(
                e.path.as_str(),
                e.device_id,
                mount_info,
            );
            if keep {
                if e.is_dir {
                    stats.directory_count = stats.directory_count + 1;
                } else if e.is_file {
                    if let Some(size) = e.size {
                        stats.file_count = stats.file_count + 1;
                        stats.total_size = stats.total_size.saturating_add(size);
                        proof {
                            assert(stats.size_distribution.counts()[bucket_of(size)]
                                <= stats.size_distribution.total());
                        }
                        stats.size_distribution.add_file(size);
                    }
                }
            }
            i = i + 1;
        }
        assert(entries@.subrange(0, total as int) =~= entries@);
        progress.report(1, 1, String::from_str("Analysis completed"));
        Ok(stats)
    }
}

proof fn lemma_allows_ignores_skipped(
    m: MountModel,
    p: Seq<char>,
    device_id: Option<u64>,
    skip_virtual: bool,
    stay_on_fs: bool,
)
    ensures
        mount_allows(m, p, device_id, skip_virtual, stay_on_fs) == mount_allows(
            MountModel { skipped_paths: Set::empty(), ..m },
            p,
            device_id,
            skip_virtual,
            stay_on_fs,
        ),
{
    let m2 = MountModel { skipped_paths: Set::empty(), ..m };
    assert(m2.virtual_mount_points == m.virtual_mount_points);
    assert(m2.fallback_skip_paths == m.fallback_skip_paths);
    assert(crate::mounts::under_virtual_mount(m, p) == crate::mounts::under_virtual_mount(m2, p));
    assert(crate::mounts::under_fallback(m, p) == crate::mounts::under_fallback(m2, p));
}

fn within_depth_exec(max_depth: Option<usize>, depth: usize) -> (r: bool)
    ensures
        r == within_depth(max_depth, depth),
{
    match max_depth {
        Some(d) => depth == 0 || depth - 1 <= d,
        None => true,
    }
}

/// An entry the statistics count at all: a counted directory, or a counted
/// file whose size is known.
pub open spec fn counted_item_fn(s: DirectoryScanner, rules: Option<MountModel>) -> spec_fn(WalkEntry) -> bool {
    |e: WalkEntry| counted(s, rules, e) && (e.is_dir || (e.is_file && e.size is Some))
}


/// Files plus directories of a statistics scan are exactly the counted
/// entries that are files or directories.
pub proof fn lemma_items_are_counted_entries(s: DirectoryScanner, rules: Option<MountModel>, es: Seq<WalkEntry>)
    ensures
        count_where(es, counted_file_fn(s, rules)) + count_where(es, counted_dir_fn(s, rules))
            == count_where(es, counted_item_fn(s, rules)),
    decreases es.len(),
{
    if es.len() > 0 {
        lemma_items_are_counted_entries(s, rules, es.drop_last());
    }
}

/// Every counted file falls in exactly one bucket: the buckets together hold
/// as many files as are counted.
pub proof fn lemma_histogram_covers_counted_files(s: DirectoryScanner, rules: Option<MountModel>, es: Seq<WalkEntry>)
    ensures
        count_where(es, in_bucket(s, rules, 0)) + count_where(es, in_bucket(s, rules, 1))
            + count_where(es, in_bucket(s, rules, 2)) + count_where(es, in_bucket(s, rules, 3))
            + count_where(es, in_bucket(s, rules, 4)) + count_where(es, in_bucket(s, rules, 5))
            + count_where(es, in_bucket(s, rules, 6)) + count_where(es, in_bucket(s, rules, 7))
            + count_where(es, in_bucket(s, rules, 8)) + count_where(es, in_bucket(s, rules, 9))
            + count_where(es, in_bucket(s, rules, 10)) + count_where(es, in_bucket(s, rules, 11))
            + count_where(es, in_bucket(s, rules, 12)) == count_where(es, counted_file_fn(s, rules)),
    decreases es.len(),
{
    if es.len() > 0 {
        lemma_histogram_covers_counted_files(s, rules, es.drop_last());
        let e = es.last();
        if is_counted_file(s, rules, e) {
            let b = bucket_of(e.size->0);
            assert(0 <= b < 13);
        }
    }
}

/// A statistics scan counts exactly the files that a detailed scan with the
/// same configuration selects, when no entry is both a file and a directory
/// and the size of every file could be read.
pub proof fn lemma_stats_match_selection(s: DirectoryScanner, rules: Option<MountModel>, es: Seq<WalkEntry>)
    requires
        forall|i: int| 0 <= i < es.len() ==> !(#[trigger] es[i].is_file && es[i].is_dir),
        forall|i: int| 0 <= i < es.len() ==> (#[trigger] es[i].is_file ==> es[i].size is Some),
    ensures
        count_where(es, counted_file_fn(s, rules)) == selected_files(s, rules, es).len(),
    decreases es.len(),
{
    if es.len() > 0 {
        assert forall|i: int| 0 <= i < es.drop_last().len() implies !(#[trigger] es.drop_last()[i].is_file
            && es.drop_last()[i].is_dir) by {
            assert(es.drop_last()[i] == es[i]);
        }
        lemma_stats_match_selection(s, rules, es.drop_last());
        assert(!(es[es.len() - 1].is_file && es[es.len() - 1].is_dir));
    }
}

/// Every path that a detailed scan selects is that of a walk entry that is a
/// file within the depth limit and kept by the inclusion rules.
pub proof fn lemma_selected_are_counted_files(s: DirectoryScanner, rules: Option<MountModel>, es: Seq<WalkEntry>)
    ensures
        forall|j: int|
            0 <= j < selected_files(s, rules, es).len() ==> exists|i: int|
                0 <= i < es.len() && es[i].path == #[trigger] selected_files(s, rules, es)[j]
                    && es[i].is_file && within_depth(s.max_depth, es[i].depth) && keeps(
                    s,
                    rules,
                    es[i].path@,
                    es[i].device_id,
                ),
    decreases es.len(),
{
    if es.len() > 0 {
        let pre = es.drop_last();
        lemma_selected_are_counted_files(s, rules, pre);
        let sel = selected_files(s, rules, es);
        assert forall|j: int| 0 <= j < sel.len() implies exists|i: int|
            0 <= i < es.len() && es[i].path == #[trigger] sel[j] && es[i].is_file && within_depth(
                s.max_depth,
                es[i].depth,
            ) && keeps(s, rules, es[i].path@, es[i].device_id) by {
            if j < selected_files(s, rules, pre).len() {
                let i = choose|i: int|
                    0 <= i < pre.len() && pre[i].path == #[trigger] selected_files(s, rules, pre)[j]
                        && pre[i].is_file && within_depth(s.max_depth, pre[i].depth) && keeps(
                        s,
                        rules,
                        pre[i].path@,
                        pre[i].device_id,
                    );
                assert(es[i] == pre[i]);
            } else {
                assert(es[es.len() - 1] == es.last());
            }
        }
    }
}

/// Selecting files is a function of the walk, the configuration and the
/// mount rules: two scans of an unchanged tree select the same paths, each as
/// often.
pub proof fn lemma_selection_repeatable(
    s: DirectoryScanner,
    rules: Option<MountModel>,
    es: Seq<WalkEntry>,
    first: Seq<String>,
    second: Seq<String>,
)
    requires
        first.to_multiset() == selected_files(s, rules, es).to_multiset(),
        second.to_multiset() == selected_files(s, rules, es).to_multiset(),
    ensures
        first.to_multiset() == second.to_multiset(),
        first.len() == second.len(),
{
    vstd::seq_lib::to_multiset_len(first);
    vstd::seq_lib::to_multiset_len(second);
}

/// When the walk reaches no path twice, a detailed scan selects no path
/// twice: no two records of the scan share a full path.
pub proof fn lemma_selected_files_distinct(
    s: DirectoryScanner,
    rules: Option<MountModel>,
    es: Seq<WalkEntry>,
    files: Seq<String>,
)
    requires
        forall|i: int, j: int| 0 <= i < j < es.len() ==> (#[trigger] es[i]).path@ != (#[trigger] es[j]).path@,
        files.to_multiset() == selected_files(s, rules, es).to_multiset(),
    ensures
        crate::mounts::distinct_texts(files),
{
    lemma_selection_distinct(s, rules, es);
    crate::mounts::lemma_same_multiset_distinct(selected_files(s, rules, es), files);
}

proof fn lemma_selection_distinct(s: DirectoryScanner, rules: Option<MountModel>, es: Seq<WalkEntry>)
    requires
        forall|i: int, j: int| 0 <= i < j < es.len() ==> (#[trigger] es[i]).path@ != (#[trigger] es[j]).path@,
    ensures
        crate::mounts::distinct_texts(selected_files(s, rules, es)),
    decreases es.len(),
{
    if es.len() > 0 {
        let pre = es.drop_last();
        assert forall|i: int, j: int| 0 <= i < j < pre.len() implies (#[trigger] pre[i]).path@
            != (#[trigger] pre[j]).path@ by {
            assert(pre[i] == es[i] && pre[j] == es[j]);
        }
        lemma_selection_distinct(s, rules, pre);
        lemma_selected_are_counted_files(s, rules, pre);
        let sp = selected_files(s, rules, pre);
        let sel = selected_files(s, rules, es);
        if es.last().is_file && counted(s, rules, es.last()) {
            assert(sel == sp.push(es.last().path));
            assert forall|i: int, j: int| 0 <= i < j < sel.len() implies (#[trigger] sel[i])@
                != (#[trigger] sel[j])@ by {
                if j < sp.len() {
                    assert(sel[i] == sp[i] && sel[j] == sp[j]);
                } else {
                    assert(sel[i] == sp[i]);
                    let k = choose|k: int|
                        0 <= k < pre.len() && pre[k].path == #[trigger] sp[i] && pre[k].is_file
                            && within_depth(s.max_depth, pre[k].depth) && keeps(
                            s,
                            rules,
                            pre[k].path@,
                            pre[k].device_id,
                        );
                    assert(pre[k] == es[k]);
                    assert(es[k].path@ != es[es.len() - 1].path@);
                }
            }
        }
    }
}

} // verus!
