//! The mount table of a scan: which mount points hold virtual filesystems,
//! which device the scan started on, and which virtual paths were skipped.
use vstd::prelude::*;
use crate::order::{sort_paths, sorted_by, PathOrder};
use crate::paths::{path_starts_with, starts_with_path};
use crate::text::{chars_of, is_blank, same_chars, split_pieces, split_text, char_views};
use crate::paths::string_of;
use crate::filesystem::{find_chars, first_occurrence};
use crate::text::{is_blank as blank};

verus! {

broadcast use vstd::seq_lib::group_to_multiset_ensures;

/// The filesystem types that expose kernel or in-memory state rather than
/// stored files.
pub open spec fn virtual_fs_type_names() -> Seq<Seq<char>> {
    seq![
        "proc"@, "sysfs"@, "devfs"@, "devtmpfs"@, "tmpfs"@, "cgroup"@, "cgroup2"@,
        "debugfs"@, "securityfs"@, "fusectl"@, "configfs"@, "pstore"@, "efivarfs"@,
        "bpf"@, "tracefs"@, "hugetlbfs"@, "mqueue"@, "devpts"@, "autofs"@,
        "binfmt_misc"@, "rpc_pipefs"@, "nfsd"@, "fuse.gvfsd-fuse"@, "fuse.portal"@,
    ]
}

pub open spec fn str_views(v: Seq<&str>) -> Seq<Seq<char>> {
    Seq::new(v.len(), |i: int| v[i]@)
}

fn virtual_fs_types() -> (r: Vec<&'static str>)
    ensures
        str_views(r@) == virtual_fs_type_names(),
{
    let r = vec![
        "proc", "sysfs", "devfs", "devtmpfs", "tmpfs", "cgroup", "cgroup2",
        "debugfs", "securityfs", "fusectl", "configfs", "pstore", "efivarfs",
        "bpf", "tracefs", "hugetlbfs", "mqueue", "devpts", "autofs",
        "binfmt_misc", "rpc_pipefs", "nfsd", "fuse.gvfsd-fuse", "fuse.portal",
    ];
    assert(str_views(r@) =~= virtual_fs_type_names());
    r
}

/// Whether `t` names a virtual filesystem type.
pub fn is_virtual_fs_type(t: &Vec<char>) -> (r: bool)
    ensures
        r == virtual_fs_type_names().contains(t@),
{
    let names = virtual_fs_types();
    let mut i: usize = 0;
    while i < names.len()
        invariant
            str_views(names@) == virtual_fs_type_names(),
            i <= names.len(),
            forall|k: int| 0 <= k < i ==> virtual_fs_type_names()[k] != t@,
        decreases names.len() - i,
    {
        let cs = chars_of(names[i]);
        if same_chars(&cs, t) {
            assert(virtual_fs_type_names()[i as int] == t@);
            return true;
        }
        i = i + 1;
    }
    false
}

/// The lines of a mount table, each cut into its whitespace-separated fields.
pub open spec fn table_rows(text: Seq<char>) -> Seq<Seq<Seq<char>>> {
    split_text(text, false).map_values(|l: Seq<char>| split_text(l, true))
}

/// A mount-table row of at least three fields whose third names a virtual type.
pub open spec fn is_virtual_row(row: Seq<Seq<char>>) -> bool {
    row.len() >= 3 && virtual_fs_type_names().contains(row[2])
}

/// The mount points (second field) of the virtual rows of a mount table in the
/// format of `/proc/mounts`.
pub open spec fn virtual_mounts_of(text: Seq<char>) -> Set<Seq<char>> {
    Set::new(
        |mp: Seq<char>|
            exists|i: int|
                0 <= i < table_rows(text).len() && is_virtual_row(#[trigger] table_rows(text)[i])
                    && table_rows(text)[i][1] == mp,
    )
}

/// The texts of a list of strings, as a set.
pub open spec fn text_set(v: Seq<String>) -> Set<Seq<char>> {
    Set::new(|t: Seq<char>| exists|i: int| 0 <= i < v.len() && (#[trigger] v[i])@ == t)
}

/// No two strings of `v` hold the same text.
pub open spec fn distinct_texts(v: Seq<String>) -> bool {
    forall|i: int, j: int| 0 <= i < j < v.len() ==> (#[trigger] v[i])@ != (#[trigger] v[j])@
}

fn contains_text(v: &Vec<String>, t: &String) -> (r: bool)
    ensures
        r == text_set(v@).contains(t@),
{
    let mut i: usize = 0;
    while i < v.len()
        invariant
            i <= v.len(),
            forall|k: int| 0 <= k < i ==> v@[k]@ != t@,
        decreases v.len() - i,
    {
        if v[i] == *t {
            assert(v@[i as int]@ == t@);
            return true;
        }
        i = i + 1;
    }
    false
}

fn insert_text(v: &mut Vec<String>, t: String)
    requires
        distinct_texts(old(v)@),
    ensures
        distinct_texts(final(v)@),
        text_set(final(v)@) == text_set(old(v)@).insert(t@),
{
    if !contains_text(v, &t) {
        let ghost before = v@;
        v.push(t);
        assert forall|x: Seq<char>| text_set(v@).contains(x) == text_set(before).insert(t@).contains(x) by {
            if text_set(v@).contains(x) {
                let i = choose|i: int| 0 <= i < v@.len() && (#[trigger] v@[i])@ == x;
                if i < before.len() {
                    assert(before[i]@ == x);
                }
            }
            if text_set(before).contains(x) {
                let i = choose|i: int| 0 <= i < before.len() && (#[trigger] before[i])@ == x;
                assert(v@[i]@ == x);
            }
            if x == t@ {
                assert(v@[before.len() as int]@ == x);
            }
        }
        assert(text_set(v@) =~= text_set(before).insert(t@));
    } else {
        assert(text_set(v@) =~= text_set(v@).insert(t@));
    }
}

/// The distinct mount points of virtual filesystems listed in `table`, a mount
/// table in the format of `/proc/mounts`.
pub fn parse_mount_table(table: &str) -> (r: Vec<String>)
    ensures
        text_set(r@) == virtual_mounts_of(table@),
        distinct_texts(r@),
{
    let cs = chars_of(table);
    let lines = split_pieces(&cs, false);
    let ghost rows = table_rows(table@);
    let mut out: Vec<String> = Vec::new();
    let mut i: usize = 0;
    assert(text_set(out@) =~= Set::empty());
    while i < lines.len()
        invariant
            char_views(lines@) == split_text(table@, false),
            rows == table_rows(table@),
            rows.len() == lines.len(),
            i <= lines.len(),
            distinct_texts(out@),
            text_set(out@) == Set::new(
                |mp: Seq<char>|
                    exists|k: int|
                        0 <= k < i && is_virtual_row(#[trigger] rows[k]) && rows[k][1] == mp,
            ),
        decreases lines.len() - i,
    {
        let ghost before = text_set(out@);
        let fields = split_pieces(&lines[i], true);
        assert(char_views(fields@) == rows[i as int]);
        let mut added = false;
        if fields.len() >= 3 && is_virtual_fs_type(&fields[2]) {
            let mp = string_of(&fields[1]);
            insert_text(&mut out, mp);
            added = true;
        }
        let ghost next = Set::new(
            |mp: Seq<char>|
                exists|k: int|
                    0 <= k < i + 1 && is_virtual_row(#[trigger] rows[k]) && rows[k][1] == mp,
        );
        assert forall|x: Seq<char>| text_set(out@).contains(x) == next.contains(x) by {
            if next.contains(x) {
                let k = choose|k: int|
                    0 <= k < i + 1 && is_virtual_row(#[trigger] rows[k]) && rows[k][1] == x;
                if k < i {
                    assert(before.contains(x));
                }
            }
            if before.contains(x) {
                let k = choose|k: int|
                    0 <= k < i && is_virtual_row(#[trigger] rows[k]) && rows[k][1] == x;
                assert(next.contains(x));
            }
        }
        assert(text_set(out@) =~= next);
        i = i + 1;
    }
    assert(text_set(out@) =~= virtual_mounts_of(table@));
    out
}

/// What a mount table holds, as the exclusion rules read it.
pub struct MountModel {
    pub start_device_id: u64,
    pub virtual_mount_points: Set<Seq<char>>,
    pub fallback_skip_paths: Seq<Seq<char>>,
    pub skipped_paths: Set<Seq<char>>,
}

/// Information about mount points used to leave virtual filesystems and
/// other devices out of a scan.
#[derive(Clone, Debug)]
pub struct MountInfo {
    /// Device of the scan root; zero when it could not be read.
    start_device_id: u64,
    /// Mount points of virtual filesystems.
    virtual_mount_points: Vec<String>,
    /// Paths always treated as virtual, matched component by component.
    fallback_skip_paths: Vec<String>,
    /// Mount points and fallback paths that excluded something so far.
    skipped_paths: Vec<String>,
}

impl View for MountInfo {
    type V = MountModel;

    closed spec fn view(&self) -> MountModel {
        MountModel {
            start_device_id: self.start_device_id,
            virtual_mount_points: text_set(self.virtual_mount_points@),
            fallback_skip_paths: Seq::new(
                self.fallback_skip_paths@.len(),
                |i: int| self.fallback_skip_paths@[i]@,
            ),
            skipped_paths: text_set(self.skipped_paths@),
        }
    }
}

/// The device rule: staying on one filesystem, with both devices known, and
/// the candidate on another device.
pub open spec fn device_excludes(m: MountModel, device_id: Option<u64>, stay_on_fs: bool) -> bool {
    stay_on_fs && m.start_device_id != 0 && device_id is Some && device_id->0 != m.start_device_id
}

/// `p` lies under a virtual mount point.
pub open spec fn under_virtual_mount(m: MountModel, p: Seq<char>) -> bool {
    exists|mp: Seq<char>| m.virtual_mount_points.contains(mp) && path_starts_with(p, mp)
}

/// `p` lies under a fallback path (component by component).
pub open spec fn under_fallback(m: MountModel, p: Seq<char>) -> bool {
    exists|j: int|
        0 <= j < m.fallback_skip_paths.len() && path_starts_with(p, #[trigger] m.fallback_skip_paths[j])
}

/// Whether the mount rules keep `p`.
pub open spec fn mount_allows(
    m: MountModel,
    p: Seq<char>,
    device_id: Option<u64>,
    skip_virtual: bool,
    stay_on_fs: bool,
) -> bool {
    !device_excludes(m, device_id, stay_on_fs) && !(skip_virtual && (under_virtual_mount(m, p)
        || under_fallback(m, p)))
}

impl MountInfo {
    pub closed spec fn wf(&self) -> bool {
        distinct_texts(self.skipped_paths@) && distinct_texts(self.virtual_mount_points@)
    }

    /// Builds the table from the scan root's device (if it could be read), the
    /// text of the system mount table, and the fallback paths of the platform.
    pub fn new(start_device_id: Option<u64>, mount_table: &str, fallback_skip_paths: Vec<String>) -> (r:
        Result<MountInfo, crate::ScanError>)
        ensures
            r matches Ok(m) && m.wf() && m@ == (MountModel {
                start_device_id: match start_device_id {
                    Some(d) => d,
                    None => 0,
                },
                virtual_mount_points: virtual_mounts_of(mount_table@),
                fallback_skip_paths: Seq::new(
                    fallback_skip_paths@.len(),
                    |i: int| fallback_skip_paths@[i]@,
                ),
                skipped_paths: Set::empty(),
            }),
    {
        let dev = match start_device_id {
            Some(d) => d,
            None => 0,
        };
        let m = MountInfo {
            start_device_id: dev,
            virtual_mount_points: parse_mount_table(mount_table),
            fallback_skip_paths,
            skipped_paths: Vec::new(),
        };
        assert(text_set(m.skipped_paths@) =~= Set::empty());
        assert(m@.fallback_skip_paths =~= Seq::new(
            fallback_skip_paths@.len(),
            |i: int| fallback_skip_paths@[i]@,
        ));
        Ok(m)
    }

    /// Whether `path` passes the mount rules; a virtual mount point or fallback
    /// path that excludes it is recorded as skipped.
    pub fn should_include_path(
        &mut self,
        path: &str,
        device_id: Option<u64>,
        skip_virtual: bool,
        stay_on_fs: bool,
    ) -> (r: bool)
        requires
            old(self).wf(),
        ensures
            final(self).wf(),
            r == mount_allows(old(self)@, path@, device_id, skip_virtual, stay_on_fs),
            final(self)@.start_device_id == old(self)@.start_device_id,
            final(self)@.virtual_mount_points == old(self)@.virtual_mount_points,
            final(self)@.fallback_skip_paths == old(self)@.fallback_skip_paths,
            r || device_excludes(old(self)@, device_id, stay_on_fs) ==> final(self)@.skipped_paths
                == old(self)@.skipped_paths,
            !r && !device_excludes(old(self)@, device_id, stay_on_fs) ==> exists|x: Seq<char>|
                final(self)@.skipped_paths == #[trigger] old(self)@.skipped_paths.insert(x) && ((
                old(self)@.virtual_mount_points.contains(x) && path_starts_with(path@, x))
                || (old(self)@.fallback_skip_paths.contains(x) && path_starts_with(path@, x))),
    {
        if stay_on_fs && self.start_device_id != 0 {
            if let Some(d) = device_id {
                if d != self.start_device_id {
                    return false;
                }
            }
        }
        if skip_virtual {
            let mut i: usize = 0;
            while i < self.virtual_mount_points.len()
                invariant
                    self.wf(),
                    self@ == old(self)@,
                    skip_virtual,
                    !device_excludes(self@, device_id, stay_on_fs),
                    i <= self.virtual_mount_points.len(),
                    forall|k: int|
                        0 <= k < i ==> !path_starts_with(
                            path@,
                            (#[trigger] self.virtual_mount_points@[k])@,
                        ),
                decreases self.virtual_mount_points.len() - i,
            {
                if starts_with_path(path, self.virtual_mount_points[i].as_str()) {
                    let mp = self.virtual_mount_points[i].clone();
                    let ghost x = mp@;
                    assert(text_set(self.virtual_mount_points@).contains(x));
                    assert(old(self)@.virtual_mount_points.contains(x) && path_starts_with(path@, x));
                    assert(under_virtual_mount(old(self)@, path@));
                    insert_text(&mut self.skipped_paths, mp);
                    assert(self@.skipped_paths == old(self)@.skipped_paths.insert(x));
                    return false;
                }
                i = i + 1;
            }
            assert(!under_virtual_mount(self@, path@)) by {
                if under_virtual_mount(self@, path@) {
                    let mp = choose|mp: Seq<char>|
                        self@.virtual_mount_points.contains(mp) && path_starts_with(path@, mp);
                    let k = choose|k: int|
                        0 <= k < self.virtual_mount_points@.len()
                            && (#[trigger] self.virtual_mount_points@[k])@ == mp;
                }
            }
            let mut j: usize = 0;
            while j < self.fallback_skip_paths.len()
                invariant
                    self.wf(),
                    self@ == old(self)@,
                    skip_virtual,
                    !device_excludes(self@, device_id, stay_on_fs),
                    !under_virtual_mount(self@, path@),
                    j <= self.fallback_skip_paths.len(),
                    forall|k: int|
                        0 <= k < j ==> !path_starts_with(path@, (#[trigger] self.fallback_skip_paths@[k])@),
                decreases self.fallback_skip_paths.len() - j,
            {
                if starts_with_path(path, self.fallback_skip_paths[j].as_str()) {
                    let fb = self.fallback_skip_paths[j].clone();
                    let ghost x = fb@;
                    assert(old(self)@.fallback_skip_paths[j as int] == x);
                    assert(old(self)@.fallback_skip_paths.contains(x));
                    assert(under_fallback(old(self)@, path@));
                    insert_text(&mut self.skipped_paths, fb);
                    assert(self@.skipped_paths == old(self)@.skipped_paths.insert(x));
                    return false;
                }
                j = j + 1;
            }
            assert(!under_fallback(self@, path@)) by {
                if under_fallback(self@, path@) {
                    let k = choose|k: int|
                        0 <= k < self@.fallback_skip_paths.len() && path_starts_with(
                            path@,
                            #[trigger] self@.fallback_skip_paths[k],
                        );
                    assert(self.fallback_skip_paths@[k]@ == self@.fallback_skip_paths[k]);
                }
            }
        }
        true
    }

    /// The virtual paths skipped so far, in component order.
    pub fn get_skipped_paths(&self) -> (r: Vec<String>)
        requires
            self.wf(),
        ensures
            text_set(r@) == self@.skipped_paths,
            sorted_by(r@, PathOrder::Components),
    {
        let mut v = self.skipped_paths.clone();
        let ghost before = v@;
        sort_paths(&mut v, PathOrder::Components);
        proof {
            lemma_same_multiset_same_texts(before, v@);
        }
        v
    }

    /// The virtual mount points under `scan_path`, and the fallback paths under
    /// it that `present` marks as existing (an entry past its end counts as
    /// absent), in component order and without repeats.
    pub fn get_virtual_mounts_under(&self, scan_path: &str, present: &Vec<bool>) -> (r: Vec<String>)
        requires
            self.wf(),
        ensures
            text_set(r@) == Set::new(
                |p: Seq<char>|
                    (self@.virtual_mount_points.contains(p) && path_starts_with(p, scan_path@))
                        || (exists|j: int|
                        0 <= j < self@.fallback_skip_paths.len() && j < present@.len()
                            && present@[j] && #[trigger] self@.fallback_skip_paths[j] == p
                            && path_starts_with(p, scan_path@)),
            ),
            distinct_texts(r@),
            sorted_by(r@, PathOrder::Components),
    {
        let ghost target = Set::new(
            |p: Seq<char>|
                (self@.virtual_mount_points.contains(p) && path_starts_with(p, scan_path@)) || (
                exists|j: int|
                    0 <= j < self@.fallback_skip_paths.len() && j < present@.len() && present@[j]
                        && #[trigger] self@.fallback_skip_paths[j] == p && path_starts_with(
                        p,
                        scan_path@,
                    )),
        );
        let mut out: Vec<String> = Vec::new();
        let mut i: usize = 0;
        assert(text_set(out@) =~= Set::empty());
        while i < self.virtual_mount_points.len()
            invariant
                self.wf(),
                i <= self.virtual_mount_points.len(),
                distinct_texts(out@),
                text_set(out@) == Set::new(
                    |p: Seq<char>|
                        exists|k: int|
                            0 <= k < i && (#[trigger] self.virtual_mount_points@[k])@ == p
                                && path_starts_with(p, scan_path@),
                ),
            decreases self.virtual_mount_points.len() - i,
        {
            let ghost before = text_set(out@);
            if starts_with_path(self.virtual_mount_points[i].as_str(), scan_path) {
                insert_text(&mut out, self.virtual_mount_points[i].clone());
            }
            let ghost next = Set::new(
                |p: Seq<char>|
                    exists|k: int|
                        0 <= k < i + 1 && (#[trigger] self.virtual_mount_points@[k])@ == p
                            && path_starts_with(p, scan_path@),
            );
            assert forall|x: Seq<char>| text_set(out@).contains(x) == next.contains(x) by {
                if next.contains(x) {
                    let k = choose|k: int|
                        0 <= k < i + 1 && (#[trigger] self.virtual_mount_points@[k])@ == x
                            && path_starts_with(x, scan_path@);
                    if k < i {
                        assert(before.contains(x));
                    }
                }
                if before.contains(x) {
                    let k = choose|k: int|
                        0 <= k < i && (#[trigger] self.virtual_mount_points@[k])@ == x
                            && path_starts_with(x, scan_path@);
                    assert(next.contains(x));
                }
            }
            assert(text_set(out@) =~= next);
            i = i + 1;
        }
        let ghost from_mounts = text_set(out@);
        let mut j: usize = 0;
        while j < self.fallback_skip_paths.len()
            invariant
                self.wf(),
                j <= self.fallback_skip_paths.len(),
                distinct_texts(out@),
                text_set(out@) == from_mounts.union(
                    Set::new(
                        |p: Seq<char>|
                            exists|k: int|
                                0 <= k < j && k < present@.len() && present@[k]
                                    && (#[trigger] self.fallback_skip_paths@[k])@ == p
                                    && path_starts_with(p, scan_path@),
                    ),
                ),
            decreases self.fallback_skip_paths.len() - j,
        {
            let ghost before = text_set(out@);
            let keep = j < present.len() && present[j];
            if keep && starts_with_path(self.fallback_skip_paths[j].as_str(), scan_path) {
                insert_text(&mut out, self.fallback_skip_paths[j].clone());
            }
            let ghost next = from_mounts.union(
                Set::new(
                    |p: Seq<char>|
                        exists|k: int|
                            0 <= k < j + 1 && k < present@.len() && present@[k]
                                && (#[trigger] self.fallback_skip_paths@[k])@ == p
                                && path_starts_with(p, scan_path@),
                ),
            );
            assert forall|x: Seq<char>| text_set(out@).contains(x) == next.contains(x) by {
                if next.contains(x) && !from_mounts.contains(x) {
                    let k = choose|k: int|
                        0 <= k < j + 1 && k < present@.len() && present@[k]
                            && (#[trigger] self.fallback_skip_paths@[k])@ == x
                            && path_starts_with(x, scan_path@);
                    if k < j {
                        assert(before.contains(x));
                    }
                }
                if before.contains(x) && !from_mounts.contains(x) {
                    let k = choose|k: int|
                        0 <= k < j && k < present@.len() && present@[k]
                            && (#[trigger] self.fallback_skip_paths@[k])@ == x
                            && path_starts_with(x, scan_path@);
                    assert(next.contains(x));
                }
            }
            assert(text_set(out@) =~= next);
            j = j + 1;
        }
        assert forall|x: Seq<char>| text_set(out@).contains(x) == target.contains(x) by {
            if from_mounts.contains(x) {
                let k = choose|k: int|
                    0 <= k < self.virtual_mount_points@.len()
                        && (#[trigger] self.virtual_mount_points@[k])@ == x
                        && path_starts_with(x, scan_path@);
                assert(self@.virtual_mount_points.contains(x));
            }
            if self@.virtual_mount_points.contains(x) && path_starts_with(x, scan_path@) {
                let k = choose|k: int|
                    0 <= k < self.virtual_mount_points@.len()
                        && (#[trigger] self.virtual_mount_points@[k])@ == x;
                assert(from_mounts.contains(x));
            }
            if exists|k: int|
                0 <= k < self@.fallback_skip_paths.len() && k < present@.len() && present@[k]
                    && #[trigger] self@.fallback_skip_paths[k] == x && path_starts_with(
                    x,
                    scan_path@,
                ) {
                let k = choose|k: int|
                    0 <= k < self@.fallback_skip_paths.len() && k < present@.len() && present@[k]
                        && #[trigger] self@.fallback_skip_paths[k] == x && path_starts_with(
                        x,
                        scan_path@,
                    );
                assert(self.fallback_skip_paths@[k]@ == x);
            }
            if text_set(out@).contains(x) && !from_mounts.contains(x) {
                let k = choose|k: int|
                    0 <= k < self.fallback_skip_paths.len() && k < present@.len() && present@[k]
                        && (#[trigger] self.fallback_skip_paths@[k])@ == x
                        && path_starts_with(x, scan_path@);
                assert(self@.fallback_skip_paths[k] == x);
            }
        }
        assert(text_set(out@) =~= target);
        let ghost unsorted = out@;
        sort_paths(&mut out, PathOrder::Components);
        proof {
            lemma_same_multiset_same_texts(unsorted, out@);
            lemma_same_multiset_distinct(unsorted, out@);
        }
        out
    }
}

/// Two lists with the same items hold the same texts.
pub proof fn lemma_same_multiset_same_texts(a: Seq<String>, b: Seq<String>)
    requires
        a.to_multiset() == b.to_multiset(),
    ensures
        text_set(a) == text_set(b),
{
    assert forall|t: Seq<char>| text_set(a).contains(t) implies text_set(b).contains(t) by {
        let i = choose|i: int| 0 <= i < a.len() && (#[trigger] a[i])@ == t;
        assert(a.contains(a[i]));
        assert(a.to_multiset().count(a[i]) > 0);
        assert(b.to_multiset().count(a[i]) > 0);
        assert(b.contains(a[i]));
        let j = choose|j: int| 0 <= j < b.len() && b[j] == a[i];
        assert(b[j]@ == t);
    }
    assert forall|t: Seq<char>| text_set(b).contains(t) implies text_set(a).contains(t) by {
        let i = choose|i: int| 0 <= i < b.len() && (#[trigger] b[i])@ == t;
        assert(b.contains(b[i]));
        assert(b.to_multiset().count(b[i]) > 0);
        assert(a.to_multiset().count(b[i]) > 0);
        assert(a.contains(b[i]));
        let j = choose|j: int| 0 <= j < a.len() && a[j] == b[i];
        assert(a[j]@ == t);
    }
    assert(text_set(a) =~= text_set(b));
}

/// Rearranging a list keeps its texts distinct.
pub proof fn lemma_same_multiset_distinct(a: Seq<String>, b: Seq<String>)
    requires
        a.to_multiset() == b.to_multiset(),
        distinct_texts(a),
    ensures
        distinct_texts(b),
{
    assert forall|i: int, j: int| 0 <= i < j < b.len() implies (#[trigger] b[i])@ != (#[trigger] b[j])@ by {
        if b[i]@ == b[j]@ {
            if b[i] == b[j] {
                // the same string twice in b, so twice in a
                let m = b.to_multiset();
                assert(b.remove(j).contains(b[i])) by {
                    if i < j {
                        assert(b.remove(j)[i] == b[i]);
                    }
                }
                vstd::seq_lib::to_multiset_remove(b, j);
                assert(b.remove(j).to_multiset().count(b[i]) > 0);
                assert(m.count(b[i]) >= 2);
                lemma_distinct_count_at_most_one(a, b[i]);
            } else {
                assert(b.contains(b[i]) && b.contains(b[j]));
                assert(b.to_multiset().count(b[i]) > 0 && b.to_multiset().count(b[j]) > 0);
                assert(a.to_multiset().count(b[i]) > 0 && a.to_multiset().count(b[j]) > 0);
                assert(a.contains(b[i]));
                assert(a.contains(b[j]));
                let p = choose|p: int| 0 <= p < a.len() && a[p] == b[i];
                let q = choose|q: int| 0 <= q < a.len() && a[q] == b[j];
                assert(p != q);
                if p < q {
                    assert(a[p]@ != a[q]@);
                } else {
                    assert(a[q]@ != a[p]@);
                }
            }
        }
    }
}

proof fn lemma_distinct_count_at_most_one(a: Seq<String>, x: String)
    requires
        distinct_texts(a),
    ensures
        a.to_multiset().count(x) <= 1,
{
    if a.to_multiset().count(x) < 2 {
        return;
    }
    assert(a.contains(x));
    let p = choose|p: int| 0 <= p < a.len() && a[p] == x;
    vstd::seq_lib::to_multiset_remove(a, p);
    assert(a.remove(p).to_multiset().count(x) >= 1);
    assert(a.remove(p).contains(x));
    let q = choose|q: int| 0 <= q < a.remove(p).len() && a.remove(p)[q] == x;
    if q < p {
        assert(a[q] == x);
        assert(a[q]@ != a[p]@);
    } else {
        assert(a[q + 1] == x);
        assert(a[p]@ != a[q + 1]@);
    }
}

/// The texts of a list of strings, in order.
pub open spec fn string_views(v: Seq<String>) -> Seq<Seq<char>> {
    Seq::new(v.len(), |i: int| v[i]@)
}

/// Paths always treated as virtual on Linux.
pub fn linux_fallback_paths() -> (r: Vec<String>)
    ensures
        string_views(r@) == seq!["/proc"@, "/sys"@, "/dev"@, "/run"@, "/snap"@, "/tmp"@],
{
    let mut v: Vec<String> = Vec::new();
    v.push(String::from_str("/proc"));
    v.push(String::from_str("/sys"));
    v.push(String::from_str("/dev"));
    v.push(String::from_str("/run"));
    v.push(String::from_str("/snap"));
    v.push(String::from_str("/tmp"));
    assert(string_views(v@) =~= seq!["/proc"@, "/sys"@, "/dev"@, "/run"@, "/snap"@, "/tmp"@]);
    v
}

/// Paths always treated as virtual on macOS.
pub fn macos_fallback_paths() -> (r: Vec<String>)
    ensures
        string_views(r@) == seq![
            "/dev"@,
            "/System/Volumes/Data/.Spotlight-V100"@,
            "/System/Volumes/Data/.fseventsd"@,
            "/private/var/vm"@,
            "/cores"@,
        ],
{
    let mut v: Vec<String> = Vec::new();
    v.push(String::from_str("/dev"));
    v.push(String::from_str("/System/Volumes/Data/.Spotlight-V100"));
    v.push(String::from_str("/System/Volumes/Data/.fseventsd"));
    v.push(String::from_str("/private/var/vm"));
    v.push(String::from_str("/cores"));
    assert(string_views(v@) =~= seq![
        "/dev"@,
        "/System/Volumes/Data/.Spotlight-V100"@,
        "/System/Volumes/Data/.fseventsd"@,
        "/private/var/vm"@,
        "/cores"@,
    ]);
    v
}

/// `s` without the blanks at its start.
pub open spec fn trim_start(s: Seq<char>) -> Seq<char>
    decreases s.len(),
{
    if s.len() > 0 && blank(s[0]) {
        trim_start(s.drop_first())
    } else {
        s
    }
}

/// `s` without the blanks at its end.
pub open spec fn trim_end(s: Seq<char>) -> Seq<char>
    decreases s.len(),
{
    if s.len() > 0 && blank(s.last()) {
        trim_end(s.drop_last())
    } else {
        s
    }
}

/// The text of `s` up to its first comma (all of it when there is none).
pub open spec fn before_comma(s: Seq<char>) -> Seq<char> {
    match first_occurrence(s, ","@) {
        Some(k) => s.subrange(0, k),
        None => s,
    }
}

/// The mount point and filesystem type of a line printed by the macOS
/// `mount` command: `device on /mount/point (type, option, ...)`.
pub open spec fn mount_line_entry(line: Seq<char>) -> Option<(Seq<char>, Seq<char>)> {
    match first_occurrence(line, " on "@) {
        None => None,
        Some(o) => {
            let after = line.subrange(o + " on "@.len(), line.len() as int);
            match first_occurrence(after, " ("@) {
                None => None,
                Some(p) => Some(
                    (
                        after.subrange(0, p),
                        trim_end(
                            trim_start(
                                before_comma(after.subrange(p + " ("@.len(), after.len() as int)),
                            ),
                        ),
                    ),
                ),
            }
        },
    }
}

/// A parsed `mount` line for the mount point `mp` of a `devfs` or `autofs`
/// filesystem.
pub open spec fn is_virtual_entry(e: Option<(Seq<char>, Seq<char>)>, mp: Seq<char>) -> bool {
    match e {
        Some(p) => p.0 == mp && (p.1 == "devfs"@ || p.1 == "autofs"@),
        None => false,
    }
}

/// The mount points of `devfs` and `autofs` filesystems in the output of
/// the macOS `mount` command.
pub open spec fn command_virtual_mounts_of(text: Seq<char>) -> Set<Seq<char>> {
    Set::new(
        |mp: Seq<char>|
            exists|i: int|
                0 <= i < split_text(text, false).len() && is_virtual_entry(
                    #[trigger] mount_line_entry(split_text(text, false)[i]),
                    mp,
                ),
    )
}

fn slice_of(v: &Vec<char>, from: usize, to: usize) -> (r: Vec<char>)
    requires
        from <= to <= v@.len(),
    ensures
        r@ == v@.subrange(from as int, to as int),
{
    let mut out: Vec<char> = Vec::new();
    let mut i: usize = from;
    while i < to
        invariant
            from <= i <= to,
            to <= v@.len(),
            out@ == v@.subrange(from as int, i as int),
        decreases to - i,
    {
        out.push(v[i]);
        i = i + 1;
        assert(out@ =~= v@.subrange(from as int, i as int));
    }
    out
}

fn trimmed(v: &Vec<char>) -> (r: Vec<char>)
    ensures
        r@ == trim_end(trim_start(v@)),
{
    let n = v.len();
    let mut a: usize = 0;
    assert(v@.subrange(0, n as int) =~= v@);
    while a < n && (v[a] == ' ' || v[a] == '\t' || v[a] == '\n' || v[a] == '\r' || v[a] == '\x0C')
        invariant
            n == v@.len(),
            a <= n,
            trim_start(v@) == trim_start(v@.subrange(a as int, n as int)),
        decreases n - a,
    {
        assert(v@.subrange(a as int, n as int).drop_first() =~= v@.subrange(a + 1, n as int));
        a = a + 1;
    }
    let ghost front = v@.subrange(a as int, n as int);
    assert(trim_start(front) == front);
    let mut b: usize = n;
    while b > a && (v[b - 1] == ' ' || v[b - 1] == '\t' || v[b - 1] == '\n' || v[b - 1] == '\r'
        || v[b - 1] == '\x0C')
        invariant
            n == v@.len(),
            a <= b <= n,
            front == v@.subrange(a as int, n as int),
            trim_end(front) == trim_end(v@.subrange(a as int, b as int)),
        decreases b,
    {
        assert(v@.subrange(a as int, b as int).drop_last() =~= v@.subrange(a as int, b - 1));
        b = b - 1;
    }
    assert(v@.subrange(0, n as int) =~= v@);
    assert(a == 0 ==> v@.subrange(a as int, n as int) =~= v@);
    slice_of(v, a, b)
}

fn mount_line_parts(line: &Vec<char>) -> (r: Option<(Vec<char>, Vec<char>)>)
    ensures
        match r {
            Some(p) => mount_line_entry(line@) == Some((p.0@, p.1@)),
            None => mount_line_entry(line@) is None,
        },
{
    let on = chars_of(" on ");
    let o = match find_chars(line, &on) {
        Some(o) => o,
        None => return None,
    };
    let len = line.len();
    assert(crate::filesystem::occurs_at(line@, on@, o as int));
    let after = slice_of(line, o + on.len(), len);
    let open = chars_of(" (");
    let p = match find_chars(&after, &open) {
        Some(p) => p,
        None => return None,
    };
    let alen = after.len();
    assert(crate::filesystem::occurs_at(after@, open@, p as int));
    let mount_point = slice_of(&after, 0, p);
    let info = slice_of(&after, p + open.len(), alen);
    let comma = chars_of(",");
    let first = match find_chars(&info, &comma) {
        Some(k) => {
            assert(crate::filesystem::occurs_at(info@, comma@, k as int));
            slice_of(&info, 0, k)
        },
        None => {
            assert(info@.subrange(0, info@.len() as int) =~= info@);
            slice_of(&info, 0, info.len())
        },
    };
    let ty = trimmed(&first);
    Some((mount_point, ty))
}

/// The distinct mount points of `devfs` and `autofs` filesystems listed in
/// `output`, what the macOS `mount` command printed.
pub fn parse_mount_command_output(output: &str) -> (r: Vec<String>)
    ensures
        text_set(r@) == command_virtual_mounts_of(output@),
        distinct_texts(r@),
{
    let lines = split_pieces(&chars_of(output), false);
    let ghost ls = split_text(output@, false);
    let mut out: Vec<String> = Vec::new();
    let mut i: usize = 0;
    assert(text_set(out@) =~= Set::empty());
    while i < lines.len()
        invariant
            char_views(lines@) == ls,
            ls == split_text(output@, false),
            i <= lines.len(),
            distinct_texts(out@),
            text_set(out@) == Set::new(
                |mp: Seq<char>|
                    exists|k: int|
                        0 <= k < i && is_virtual_entry(#[trigger] mount_line_entry(ls[k]), mp),
            ),
        decreases lines.len() - i,
    {
        let ghost before = text_set(out@);
        assert(lines@[i as int]@ == ls[i as int]);
        match mount_line_parts(&lines[i]) {
            Some((mp, ty)) => {
                let dev = chars_of("devfs");
                let auto = chars_of("autofs");
                if same_chars(&ty, &dev) || same_chars(&ty, &auto) {
                    insert_text(&mut out, string_of(&mp));
                }
            },
            None => {},
        }
        let ghost next = Set::new(
            |mp: Seq<char>|
                exists|k: int|
                    0 <= k < i + 1 && is_virtual_entry(#[trigger] mount_line_entry(ls[k]), mp),
        );
        assert forall|x: Seq<char>| text_set(out@).contains(x) == next.contains(x) by {
            if next.contains(x) {
                let k = choose|k: int|
                    0 <= k < i + 1 && is_virtual_entry(#[trigger] mount_line_entry(ls[k]), x);
                if k < i {
                    assert(before.contains(x));
                }
            }
            if before.contains(x) {
                let k = choose|k: int|
                    0 <= k < i && is_virtual_entry(#[trigger] mount_line_entry(ls[k]), x);
                assert(next.contains(x));
            }
        }
        assert(text_set(out@) =~= next);
        i = i + 1;
    }
    assert(text_set(out@) =~= command_virtual_mounts_of(output@));
    out
}

impl MountInfo {
    /// Builds the table from the scan root's device, a list of virtual mount
    /// points (repeats are ignored) and the fallback paths of the platform.
    pub fn with_mount_points(
        start_device_id: Option<u64>,
        mount_points: Vec<String>,
        fallback_skip_paths: Vec<String>,
    ) -> (r: MountInfo)
        ensures
            r.wf(),
            r@ == (MountModel {
                start_device_id: match start_device_id {
                    Some(d) => d,
                    None => 0,
                },
                virtual_mount_points: text_set(mount_points@),
                fallback_skip_paths: Seq::new(
                    fallback_skip_paths@.len(),
                    |i: int| fallback_skip_paths@[i]@,
                ),
                skipped_paths: Set::empty(),
            }),
    {
        let mut points: Vec<String> = Vec::new();
        let mut i: usize = 0;
        assert(text_set(points@) =~= Set::empty());
        while i < mount_points.len()
            invariant
                i <= mount_points@.len(),
                distinct_texts(points@),
                text_set(points@) == text_set(mount_points@.subrange(0, i as int)),
            decreases mount_points@.len() - i,
        {
            let ghost before = text_set(points@);
            insert_text(&mut points, mount_points[i].clone());
            assert forall|x: Seq<char>| text_set(mount_points@.subrange(0, i + 1)).contains(x)
                == before.insert(mount_points@[i as int]@).contains(x) by {
                let pre = mount_points@.subrange(0, i as int);
                let cur = mount_points@.subrange(0, i + 1);
                if text_set(cur).contains(x) {
                    let k = choose|k: int| 0 <= k < cur.len() && (#[trigger] cur[k])@ == x;
                    if k < i {
                        assert(pre[k] == cur[k]);
                    }
                }
                if before.contains(x) {
                    let k = choose|k: int| 0 <= k < pre.len() && (#[trigger] pre[k])@ == x;
                    assert(cur[k] == pre[k]);
                }
                if x == mount_points@[i as int]@ {
                    assert(cur[i as int] == mount_points@[i as int]);
                }
            }
            assert(text_set(points@) =~= text_set(mount_points@.subrange(0, i + 1)));
            i = i + 1;
        }
        assert(mount_points@.subrange(0, mount_points@.len() as int) =~= mount_points@);
        let m = MountInfo {
            start_device_id: match start_device_id {
                Some(d) => d,
                None => 0,
            },
            virtual_mount_points: points,
            fallback_skip_paths,
            skipped_paths: Vec::new(),
        };
        assert(text_set(m.skipped_paths@) =~= Set::empty());
        assert(m@.fallback_skip_paths =~= Seq::new(
            fallback_skip_paths@.len(),
            |i: int| fallback_skip_paths@[i]@,
        ));
        m
    }
}

} // verus!
