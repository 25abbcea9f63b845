//! Filesystem type detection: which volume holds a path, of what type, and
//! whether it is remote, read from the text that the platform reports.
use vstd::prelude::*;
use crate::mounts::table_rows;
use crate::paths::string_of;
use crate::text::{char_views, chars_of, same_chars, split_pieces, split_text, upper_of, uppercase, push_char, push_text};

verus! {

/// Detected filesystem types.
#[derive(Debug, Clone, PartialEq, Eq)]
pub enum FilesystemType {
    /// Windows NTFS
    Ntfs,
    /// Windows FAT32
    Fat32,
    /// Windows exFAT
    ExFat,
    /// Windows ReFS
    Refs,
    /// Linux ext2/ext3/ext4
    Ext,
    /// Linux Btrfs
    Btrfs,
    /// Linux XFS
    Xfs,
    /// Linux ZFS
    Zfs,
    /// macOS APFS
    Apfs,
    /// macOS HFS+
    HfsPlus,
    /// Network filesystem (SMB/CIFS, NFS, etc.)
    Network,
    /// Unknown or unsupported filesystem
    Unknown(String),
}

pub open spec fn fs_name(t: FilesystemType) -> Seq<char> {
    match t {
        FilesystemType::Ntfs => "NTFS"@,
        FilesystemType::Fat32 => "FAT32"@,
        FilesystemType::ExFat => "exFAT"@,
        FilesystemType::Refs => "ReFS"@,
        FilesystemType::Ext => "ext2/3/4"@,
        FilesystemType::Btrfs => "Btrfs"@,
        FilesystemType::Xfs => "XFS"@,
        FilesystemType::Zfs => "ZFS"@,
        FilesystemType::Apfs => "APFS"@,
        FilesystemType::HfsPlus => "HFS+"@,
        FilesystemType::Network => "Network"@,
        FilesystemType::Unknown(s) => s@,
    }
}

impl FilesystemType {
    /// Whether the type allows scanning through a master file table.
    pub fn supports_mft(&self) -> (r: bool)
        ensures
            r == (*self is Ntfs),
    {
        match self {
            FilesystemType::Ntfs => true,
            _ => false,
        }
    }

    /// A human-readable name for the filesystem.
    pub fn name(&self) -> (r: &str)
        ensures
            r@ == fs_name(*self),
    {
        match self {
            FilesystemType::Ntfs => "NTFS",
            FilesystemType::Fat32 => "FAT32",
            FilesystemType::ExFat => "exFAT",
            FilesystemType::Refs => "ReFS",
            FilesystemType::Ext => "ext2/3/4",
            FilesystemType::Btrfs => "Btrfs",
            FilesystemType::Xfs => "XFS",
            FilesystemType::Zfs => "ZFS",
            FilesystemType::Apfs => "APFS",
            FilesystemType::HfsPlus => "HFS+",
            FilesystemType::Network => "Network",
            FilesystemType::Unknown(s) => s.as_str(),
        }
    }

    /// The name as an owned string.
    pub fn to_string(&self) -> (r: String)
        ensures
            r@ == fs_name(*self),
    {
        String::from_str(self.name())
    }
}

/// Information about a volume/mount point.
#[derive(Debug, Clone)]
pub struct VolumeInfo {
    /// The filesystem type
    pub filesystem_type: FilesystemType,
    /// The volume/mount root path ("/" on Unix)
    pub mount_point: String,
    /// Volume label if available
    pub label: Option<String>,
    /// Whether this appears to be a network/remote filesystem
    pub is_remote: bool,
}

/// Whether `t` is one of the texts of `names`.
pub open spec fn is_one_of(t: Seq<char>, names: Seq<Seq<char>>) -> bool {
    exists|i: int| 0 <= i < names.len() && names[i] == t
}

pub open spec fn remote_types() -> Seq<Seq<char>> {
    seq!["nfs"@, "nfs4"@, "cifs"@, "smb"@, "smbfs"@, "fuse.sshfs"@]
}

pub open spec fn network_types() -> Seq<Seq<char>> {
    seq!["nfs"@, "nfs4"@, "cifs"@, "smb"@, "smbfs"@]
}

pub open spec fn ntfs_types() -> Seq<Seq<char>> {
    seq!["ntfs"@, "ntfs3"@, "ntfs-3g"@, "fuseblk"@]
}

pub open spec fn fat_types() -> Seq<Seq<char>> {
    seq!["vfat"@, "fat32"@]
}

pub open spec fn ext_types() -> Seq<Seq<char>> {
    seq!["ext2"@, "ext3"@, "ext4"@]
}

/// `s` begins with `p`.
pub open spec fn text_starts_with(s: Seq<char>, p: Seq<char>) -> bool {
    p.len() <= s.len() && s.subrange(0, p.len() as int) == p
}

/// A Linux filesystem type as this crate names it; an NTFS-like type counts as
/// NTFS only on a block device.
pub open spec fn linux_type_of(fs_type: Seq<char>, device: Seq<char>) -> FilesystemType {
    if is_one_of(fs_type, ntfs_types()) {
        if text_starts_with(device, "/dev/"@) {
            FilesystemType::Ntfs
        } else {
            FilesystemType::Unknown(string_with(fs_type))
        }
    } else if is_one_of(fs_type, fat_types()) {
        FilesystemType::Fat32
    } else if fs_type == "exfat"@ {
        FilesystemType::ExFat
    } else if is_one_of(fs_type, ext_types()) {
        FilesystemType::Ext
    } else if fs_type == "btrfs"@ {
        FilesystemType::Btrfs
    } else if fs_type == "xfs"@ {
        FilesystemType::Xfs
    } else if fs_type == "zfs"@ {
        FilesystemType::Zfs
    } else if is_one_of(fs_type, network_types()) {
        FilesystemType::Network
    } else {
        FilesystemType::Unknown(string_with(fs_type))
    }
}

/// Some string whose text is `t`.
pub open spec fn string_with(t: Seq<char>) -> String {
    choose|s: String| s@ == t
}

/// Two filesystem types that are the same up to the text of an unknown name.
pub open spec fn same_type(a: FilesystemType, b: FilesystemType) -> bool {
    match (a, b) {
        (FilesystemType::Unknown(x), FilesystemType::Unknown(y)) => x@ == y@,
        _ => a == b && !(a is Unknown),
    }
}

/// A mount-table row matches `path` when its mount point begins the path's
/// text or is the root.
pub open spec fn row_matches(row: Seq<Seq<char>>, path: Seq<char>) -> bool {
    row.len() >= 3 && (text_starts_with(path, row[1]) || row[1] == "/"@)
}

/// The row chosen among the first `i` rows: the first of those matching
/// with the longest mount point.
pub open spec fn best_row(rows: Seq<Seq<Seq<char>>>, path: Seq<char>, i: int) -> Option<int>
    decreases i,
{
    if i <= 0 || i > rows.len() {
        None
    } else {
        let prev = best_row(rows, path, i - 1);
        let prev_len: int = match prev {
            Some(k) => rows[k][1].len() as int,
            None => 0,
        };
        if row_matches(rows[i - 1], path) && rows[i - 1][1].len() > prev_len {
            Some(i - 1)
        } else {
            prev
        }
    }
}

fn text_is(a: &Vec<char>, lit: &str) -> (r: bool)
    ensures
        r == (a@ == lit@),
{
    same_chars(a, &chars_of(lit))
}

fn starts_with_chars(s: &Vec<char>, p: &Vec<char>) -> (r: bool)
    ensures
        r == text_starts_with(s@, p@),
{
    if p.len() > s.len() {
        return false;
    }
    let mut i: usize = 0;
    while i < p.len()
        invariant
            p.len() <= s.len(),
            i <= p.len(),
            forall|k: int| 0 <= k < i ==> s@[k] == p@[k],
        decreases p.len() - i,
    {
        if s[i] != p[i] {
            assert(s@.subrange(0, p@.len() as int)[i as int] != p@[i as int]);
            return false;
        }
        i = i + 1;
    }
    assert(s@.subrange(0, p@.len() as int) =~= p@);
    true
}

fn one_of_list(t: &Vec<char>, names: Vec<&'static str>) -> (r: bool)
    ensures
        r == is_one_of(t@, Seq::new(names@.len(), |i: int| names@[i]@)),
{
    let ghost ns = Seq::new(names@.len(), |i: int| names@[i]@);
    let mut i: usize = 0;
    while i < names.len()
        invariant
            ns == Seq::new(names@.len(), |i: int| names@[i]@),
            i <= names@.len(),
            forall|k: int| 0 <= k < i ==> ns[k] != t@,
        decreases names@.len() - i,
    {
        if text_is(t, names[i]) {
            assert(ns[i as int] == t@);
            return true;
        }
        i = i + 1;
    }
    false
}

/// Names a Linux filesystem type, given the device it is mounted from.
pub fn linux_filesystem_type(fs_type: &Vec<char>, device: &Vec<char>) -> (r: FilesystemType)
    ensures
        same_type(r, linux_type_of(fs_type@, device@)),
{
    let v = vec!["ntfs", "ntfs3", "ntfs-3g", "fuseblk"];
    assert(Seq::new(v@.len(), |i: int| v@[i]@) =~= ntfs_types());
    if one_of_list(fs_type, v) {
        if starts_with_chars(device, &chars_of("/dev/")) {
            return FilesystemType::Ntfs;
        }
        return FilesystemType::Unknown(string_of(fs_type));
    }
    let v = vec!["vfat", "fat32"];
    assert(Seq::new(v@.len(), |i: int| v@[i]@) =~= fat_types());
    if one_of_list(fs_type, v) {
        return FilesystemType::Fat32;
    }
    if text_is(fs_type, "exfat") {
        return FilesystemType::ExFat;
    }
    let v = vec!["ext2", "ext3", "ext4"];
    assert(Seq::new(v@.len(), |i: int| v@[i]@) =~= ext_types());
    if one_of_list(fs_type, v) {
        return FilesystemType::Ext;
    }
    if text_is(fs_type, "btrfs") {
        return FilesystemType::Btrfs;
    }
    if text_is(fs_type, "xfs") {
        return FilesystemType::Xfs;
    }
    if text_is(fs_type, "zfs") {
        return FilesystemType::Zfs;
    }
    let v = vec!["nfs", "nfs4", "cifs", "smb", "smbfs"];
    assert(Seq::new(v@.len(), |i: int| v@[i]@) =~= network_types());
    if one_of_list(fs_type, v) {
        return FilesystemType::Network;
    }
    FilesystemType::Unknown(string_of(fs_type))
}

/// Whether a mount looks remote: a network type, or a device named with a
/// host (`host:share`).
pub open spec fn is_remote_mount(fs_type: Seq<char>, device: Seq<char>) -> bool {
    is_one_of(fs_type, remote_types()) || device.contains(':')
}

fn has_colon(s: &Vec<char>) -> (r: bool)
    ensures
        r == s@.contains(':'),
{
    let mut i: usize = 0;
    while i < s.len()
        invariant
            i <= s@.len(),
            forall|k: int| 0 <= k < i ==> s@[k] != ':',
        decreases s@.len() - i,
    {
        if s[i] == ':' {
            return true;
        }
        i = i + 1;
    }
    false
}

/// The volume holding `path` (an absolute path with links resolved) according
/// to `mount_table`, a table in the format of `/proc/mounts`: the first row
/// with the longest mount point that begins the path's text (or is `/`).
pub fn detect_filesystem(path: &str, mount_table: &str) -> (r: Option<VolumeInfo>)
    ensures
        match best_row(table_rows(mount_table@), path@, table_rows(mount_table@).len() as int) {
            None => r is None,
            Some(k) => {
                let row = table_rows(mount_table@)[k];
                &&& r matches Some(v)
                &&& v.mount_point@ == row[1]
                &&& same_type(v.filesystem_type, linux_type_of(row[2], row[0]))
                &&& v.label is None
                &&& v.is_remote == is_remote_mount(row[2], row[0])
            },
        },
{
    let pc = chars_of(path);
    let lines = split_pieces(&chars_of(mount_table), false);
    let ghost rows = table_rows(mount_table@);
    let mut best: Option<Vec<Vec<char>>> = None;
    let mut best_len: usize = 0;
    let mut i: usize = 0;
    while i < lines.len()
        invariant
            char_views(lines@) == split_text(mount_table@, false),
            rows == table_rows(mount_table@),
            rows.len() == lines.len(),
            pc@ == path@,
            i <= lines.len(),
            match best_row(rows, path@, i as int) {
                None => best is None && best_len == 0,
                Some(k) => best matches Some(f) && char_views(f@) == rows[k] && best_len
                    == rows[k][1].len() && rows[k].len() >= 3,
            },
        decreases lines.len() - i,
    {
        let fields = split_pieces(&lines[i], true);
        assert(char_views(fields@) == rows[i as int]);
        if fields.len() >= 3 {
            let mp = &fields[1];
            assert(mp@ == rows[i as int][1]);
            let matches = starts_with_chars(&pc, mp) || text_is(mp, "/");
            if matches && mp.len() > best_len {
                best_len = mp.len();
                best = Some(fields);
            }
        }
        i = i + 1;
    }
    match best {
        None => None,
        Some(f) => {
            let ghost k = best_row(rows, path@, rows.len() as int)->0;
            assert(f@[0]@ == rows[k][0] && f@[1]@ == rows[k][1] && f@[2]@ == rows[k][2]);
            let filesystem_type = linux_filesystem_type(&f[2], &f[0]);
            let v = vec!["nfs", "nfs4", "cifs", "smb", "smbfs", "fuse.sshfs"];
            assert(Seq::new(v@.len(), |i: int| v@[i]@) =~= remote_types());
            let is_remote = one_of_list(&f[2], v) || has_colon(&f[0]);
            Some(VolumeInfo { filesystem_type, mount_point: string_of(&f[1]), label: None, is_remote })
        },
    }
}

/// `n` occurs in `h` at position `i`.
pub open spec fn occurs_at(h: Seq<char>, n: Seq<char>, i: int) -> bool {
    0 <= i && i + n.len() <= h.len() && h.subrange(i, i + n.len()) == n
}

/// The first position at which `n` occurs in `h`.
pub open spec fn first_occurrence(h: Seq<char>, n: Seq<char>) -> Option<int> {
    if exists|i: int| occurs_at(h, n, i) && forall|j: int| 0 <= j < i ==> !occurs_at(h, n, j) {
        Some(choose|i: int| occurs_at(h, n, i) && forall|j: int| 0 <= j < i ==> !occurs_at(h, n, j))
    } else {
        None
    }
}

/// Finds the first occurrence of `n` in `h`.
pub fn find_chars(h: &Vec<char>, n: &Vec<char>) -> (r: Option<usize>)
    ensures
        match r {
            Some(i) => first_occurrence(h@, n@) == Some(i as int),
            None => first_occurrence(h@, n@) is None,
        },
{
    if n.len() > h.len() {
        assert(forall|i: int| !occurs_at(h@, n@, i));
        return None;
    }
    if n.len() == 0 {
        assert(h@.subrange(0, 0) =~= n@);
        assert(occurs_at(h@, n@, 0));
        return Some(0);
    }
    let hl = h.len();
    let last = h.len() - n.len();
    let mut i: usize = 0;
    while i <= last
        invariant
            hl == h@.len(),
            last == h@.len() - n@.len(),
            n@.len() > 0,
            i <= last + 1,
            forall|j: int| 0 <= j < i ==> !occurs_at(h@, n@, j),
        decreases last + 1 - i,
    {
        let mut k: usize = 0;
        let mut same = true;
        while k < n.len()
            invariant
                hl == h@.len(),
                i <= last,
                last == h@.len() - n@.len(),
                n@.len() > 0,
                k <= n@.len(),
                same == forall|m: int| 0 <= m < k ==> h@[i + m] == n@[m],
            decreases n@.len() - k,
        {
            if h[i + k] != n[k] {
                same = false;
            }
            k = k + 1;
        }
        if same {
            assert(h@.subrange(i as int, i + n@.len()) =~= n@);
            assert(occurs_at(h@, n@, i as int));
            let ghost c = choose|c: int| occurs_at(h@, n@, c) && forall|j: int| 0 <= j < c ==> !occurs_at(h@, n@, j);
            assert(c == i) by {
                if c < i {
                } else if c > i {
                    assert(!occurs_at(h@, n@, i as int));
                }
            }
            return Some(i);
        }
        assert(!occurs_at(h@, n@, i as int)) by {
            if occurs_at(h@, n@, i as int) {
                let m = choose|m: int| 0 <= m < n@.len() && h@[i + m] != n@[m];
                assert(h@.subrange(i as int, i + n@.len())[m] == h@[i + m]);
            }
        }
        i = i + 1;
    }
    assert(forall|j: int| !occurs_at(h@, n@, j)) by {
        assert forall|j: int| !occurs_at(h@, n@, j) by {
            if 0 <= j && j + n@.len() <= h@.len() {
                assert(j < i);
            }
        }
    }
    None
}

/// The text of the first `<string>` element after `<key>key</key>` in a
/// property list, when there is one.
pub open spec fn plist_value(plist: Seq<char>, key: Seq<char>) -> Option<Seq<char>> {
    let tag = "<key>"@ + key + "</key>"@;
    match first_occurrence(plist, tag) {
        None => None,
        Some(kp) => {
            let after = plist.subrange(kp + tag.len(), plist.len() as int);
            match first_occurrence(after, "<string>"@) {
                None => None,
                Some(ss) => {
                    let rest = after.subrange(ss + "<string>"@.len(), after.len() as int);
                    match first_occurrence(rest, "</string>"@) {
                        None => None,
                        Some(se) => Some(rest.subrange(0, se)),
                    }
                },
            }
        },
    }
}

fn tail(v: &Vec<char>, from: usize) -> (r: Vec<char>)
    requires
        from <= v@.len(),
    ensures
        r@ == v@.subrange(from as int, v@.len() as int),
{
    let mut out: Vec<char> = Vec::new();
    let mut i: usize = from;
    while i < v.len()
        invariant
            from <= i <= v@.len(),
            out@ == v@.subrange(from as int, i as int),
        decreases v@.len() - i,
    {
        out.push(v[i]);
        i = i + 1;
        assert(out@ =~= v@.subrange(from as int, i as int));
    }
    out
}

fn head(v: &Vec<char>, n: usize) -> (r: Vec<char>)
    requires
        n <= v@.len(),
    ensures
        r@ == v@.subrange(0, n as int),
{
    let mut out: Vec<char> = Vec::new();
    let mut m: usize = 0;
    while m < n
        invariant
            n <= v@.len(),
            m <= n,
            out@ == v@.subrange(0, m as int),
        decreases n - m,
    {
        out.push(v[m]);
        m = m + 1;
        assert(out@ =~= v@.subrange(0, m as int));
    }
    out
}

fn key_tag(key: &str) -> (r: Vec<char>)
    ensures
        r@ == "<key>"@ + key@ + "</key>"@,
{
    let mut tag = chars_of("<key>");
    let kc = chars_of(key);
    let mut i: usize = 0;
    let ghost t0 = tag@;
    while i < kc.len()
        invariant
            i <= kc@.len(),
            tag@ == t0 + kc@.subrange(0, i as int),
        decreases kc@.len() - i,
    {
        tag.push(kc[i]);
        i = i + 1;
        assert(tag@ =~= t0 + kc@.subrange(0, i as int));
    }
    let close = chars_of("</key>");
    let mut j: usize = 0;
    let ghost t1 = tag@;
    while j < close.len()
        invariant
            j <= close@.len(),
            tag@ == t1 + close@.subrange(0, j as int),
        decreases close@.len() - j,
    {
        tag.push(close[j]);
        j = j + 1;
        assert(tag@ =~= t1 + close@.subrange(0, j as int));
    }
    assert(kc@.subrange(0, kc@.len() as int) =~= kc@);
    assert(close@.subrange(0, close@.len() as int) =~= close@);
    assert(tag@ =~= "<key>"@ + key@ + "</key>"@);
    tag
}

/// Reads the string value stored under `key` in a property list.
pub fn extract_plist_string(plist: &str, key: &str) -> (r: Option<String>)
    ensures
        match r {
            Some(s) => plist_value(plist@, key@) == Some(s@),
            None => plist_value(plist@, key@) is None,
        },
{
    let p = chars_of(plist);
    let tag = key_tag(key);
    let kp = match find_chars(&p, &tag) {
        Some(k) => k,
        None => return None,
    };
    assert(occurs_at(p@, tag@, kp as int));
    let plen = p.len();
    assert(kp + tag@.len() <= plen);
    let after = tail(&p, kp + tag.len());
    let open_s = chars_of("<string>");
    let ss = match find_chars(&after, &open_s) {
        Some(k) => k,
        None => return None,
    };
    assert(occurs_at(after@, open_s@, ss as int));
    let alen = after.len();
    assert(ss + open_s@.len() <= alen);
    let rest = tail(&after, ss + open_s.len());
    let close_s = chars_of("</string>");
    let se = match find_chars(&rest, &close_s) {
        Some(k) => k,
        None => return None,
    };
    assert(occurs_at(rest@, close_s@, se as int));
    let value = head(&rest, se);
    Some(string_of(&value))
}

/// A macOS filesystem type as this crate names it.
pub open spec fn macos_type_of(fs_type: Option<Seq<char>>) -> FilesystemType {
    match fs_type {
        Some(t) => if t == "apfs"@ {
            FilesystemType::Apfs
        } else if t == "hfs"@ {
            FilesystemType::HfsPlus
        } else if t == "ntfs"@ {
            FilesystemType::Ntfs
        } else if t == "msdos"@ {
            FilesystemType::Fat32
        } else if t == "exfat"@ {
            FilesystemType::ExFat
        } else if t == "nfs"@ || t == "smbfs"@ || t == "afpfs"@ {
            FilesystemType::Network
        } else {
            FilesystemType::Unknown(string_with(t))
        },
        None => FilesystemType::Unknown(string_with("unknown"@)),
    }
}

/// Names a macOS filesystem type reported by `diskutil`.
pub fn macos_filesystem_type(fs_type: &Option<String>) -> (r: FilesystemType)
    ensures
        same_type(r, macos_type_of(match fs_type {
            Some(s) => Some(s@),
            None => None,
        })),
{
    match fs_type {
        Some(s) => {
            let t = chars_of(s.as_str());
            if text_is(&t, "apfs") {
                FilesystemType::Apfs
            } else if text_is(&t, "hfs") {
                FilesystemType::HfsPlus
            } else if text_is(&t, "ntfs") {
                FilesystemType::Ntfs
            } else if text_is(&t, "msdos") {
                FilesystemType::Fat32
            } else if text_is(&t, "exfat") {
                FilesystemType::ExFat
            } else if text_is(&t, "nfs") || text_is(&t, "smbfs") || text_is(&t, "afpfs") {
                FilesystemType::Network
            } else {
                FilesystemType::Unknown(s.clone())
            }
        },
        None => FilesystemType::Unknown(String::from_str("unknown")),
    }
}

/// The volume described by the property list that `diskutil info -plist`
/// printed for `path`: its type, mount point (the path itself when none is
/// given) and name; it is remote when of a network type.
pub fn volume_from_plist(plist: &str, path: &str) -> (r: VolumeInfo)
    ensures
        same_type(r.filesystem_type, macos_type_of(plist_value(plist@, "FilesystemType"@))),
        r.mount_point@ == match plist_value(plist@, "MountPoint"@) {
            Some(m) => m,
            None => path@,
        },
        match r.label {
            Some(l) => plist_value(plist@, "VolumeName"@) == Some(l@),
            None => plist_value(plist@, "VolumeName"@) is None,
        },
        r.is_remote == (r.filesystem_type is Network),
{
    let fs_type = extract_plist_string(plist, "FilesystemType");
    let mount_point = match extract_plist_string(plist, "MountPoint") {
        Some(m) => m,
        None => String::from_str(path),
    };
    let label = extract_plist_string(plist, "VolumeName");
    let filesystem_type = macos_filesystem_type(&fs_type);
    let is_remote = match filesystem_type {
        FilesystemType::Network => true,
        _ => false,
    };
    VolumeInfo { filesystem_type, mount_point, label, is_remote }
}

/// The type that `df -T` reports, as this crate names it on macOS.
pub open spec fn df_type_of(t: Seq<char>) -> FilesystemType {
    if t == "apfs"@ {
        FilesystemType::Apfs
    } else if t == "hfs"@ {
        FilesystemType::HfsPlus
    } else if t == "ntfs"@ {
        FilesystemType::Ntfs
    } else if t == "msdos"@ {
        FilesystemType::Fat32
    } else if t == "exfat"@ {
        FilesystemType::ExFat
    } else {
        FilesystemType::Unknown(string_with(t))
    }
}

/// The volume that `df -T <path>` describes in `output`: on its second line,
/// the second field is the type and the last field the mount point. None when
/// the output has no such line.
pub fn volume_from_df(output: &str) -> (r: Option<VolumeInfo>)
    ensures
        ({
            let lines = split_text(output@, false);
            if lines.len() < 2 || split_text(lines[1], true).len() < 2 {
                r is None
            } else {
                let fields = split_text(lines[1], true);
                &&& r matches Some(v)
                &&& same_type(v.filesystem_type, df_type_of(fields[1]))
                &&& v.mount_point@ == fields.last()
                &&& v.label is None
                &&& !v.is_remote
            }
        }),
{
    let lines = split_pieces(&chars_of(output), false);
    if lines.len() < 2 {
        return None;
    }
    let fields = split_pieces(&lines[1], true);
    assert(char_views(fields@) == split_text(split_text(output@, false)[1], true));
    if fields.len() < 2 {
        return None;
    }
    let t = &fields[1];
    let filesystem_type = if text_is(t, "apfs") {
        FilesystemType::Apfs
    } else if text_is(t, "hfs") {
        FilesystemType::HfsPlus
    } else if text_is(t, "ntfs") {
        FilesystemType::Ntfs
    } else if text_is(t, "msdos") {
        FilesystemType::Fat32
    } else if text_is(t, "exfat") {
        FilesystemType::ExFat
    } else {
        FilesystemType::Unknown(string_of(t))
    };
    let last = fields.len() - 1;
    assert(fields@[last as int]@ == char_views(fields@).last());
    Some(VolumeInfo {
        filesystem_type,
        mount_point: string_of(&fields[last]),
        label: None,
        is_remote: false,
    })
}

/// The volume root of a Windows path: `X:\\` for `X:...` and for the
/// extended form `\\?\X:...`, and `\\server\share\` for a UNC path.
pub open spec fn windows_root(p: Seq<char>) -> Option<Seq<char>> {
    if text_starts_with(p, seq!['\\', '\\', '?', '\\']) {
        if p.len() >= 7 {
            Some(p.subrange(4, 6).push('\\'))
        } else {
            None
        }
    } else if p.len() >= 3 && p[1] == ':' {
        Some(p.subrange(0, 2).push('\\'))
    } else if text_starts_with(p, seq!['\\', '\\']) {
        let pieces = unc_pieces(trim_leading_double_backslashes(p));
        if pieces.len() >= 2 {
            Some(seq!['\\', '\\'] + pieces[0] + seq!['\\'] + pieces[1] + seq!['\\'])
        } else {
            None
        }
    } else {
        None
    }
}

/// `p` without every leading pair of backslashes.
pub open spec fn trim_leading_double_backslashes(p: Seq<char>) -> Seq<char>
    decreases p.len(),
{
    if p.len() >= 2 && p[0] == '\\' && p[1] == '\\' {
        trim_leading_double_backslashes(p.subrange(2, p.len() as int))
    } else {
        p
    }
}

/// The first two backslash-separated pieces of `p` (fewer when it has fewer).
pub open spec fn unc_pieces(p: Seq<char>) -> Seq<Seq<char>> {
    match first_occurrence(p, seq!['\\']) {
        None => seq![p],
        Some(i) => {
            let rest = p.subrange(i + 1, p.len() as int);
            match first_occurrence(rest, seq!['\\']) {
                None => seq![p.subrange(0, i), rest],
                Some(j) => seq![p.subrange(0, i), rest.subrange(0, j)],
            }
        },
    }
}

fn strip_double_backslashes(p: &Vec<char>) -> (r: Vec<char>)
    ensures
        r@ == trim_leading_double_backslashes(p@),
{
    let n = p.len();
    let mut a: usize = 0;
    assert(p@.subrange(0, n as int) =~= p@);
    loop
        invariant
            n == p@.len(),
            a <= n,
            trim_leading_double_backslashes(p@) == trim_leading_double_backslashes(
                p@.subrange(a as int, n as int),
            ),
        ensures
            n == p@.len(),
            a <= n,
            trim_leading_double_backslashes(p@) == p@.subrange(a as int, n as int),
        decreases n - a,
    {
        let ghost cur = p@.subrange(a as int, n as int);
        if n - a >= 2 && p[a] == '\\' && p[a + 1] == '\\' {
            assert(cur[0] == p@[a as int] && cur[1] == p@[a + 1]);
            assert(cur.subrange(2, cur.len() as int) =~= p@.subrange(a + 2, n as int));
            a = a + 2;
        } else {
            proof {
                if cur.len() >= 2 {
                    assert(cur[0] == p@[a as int] && cur[1] == p@[a + 1]);
                }
                assert(trim_leading_double_backslashes(cur) == cur);
            }
            break;
        }
    }
    piece(p, a, n)
}

fn piece(v: &Vec<char>, from: usize, to: usize) -> (r: Vec<char>)
    requires
        from <= to <= v@.len(),
    ensures
        r@ == v@.subrange(from as int, to as int),
{
    let mut out: Vec<char> = Vec::new();
    let mut i: usize = from;
    while i < to
        invariant
            from <= i <= to,
            to <= v@.len(),
            out@ == v@.subrange(from as int, i as int),
        decreases to - i,
    {
        out.push(v[i]);
        i = i + 1;
        assert(out@ =~= v@.subrange(from as int, i as int));
    }
    out
}

/// The volume root of a Windows path, if it has one.
pub fn windows_volume_root(path: &str) -> (r: Option<String>)
    ensures
        match r {
            Some(root) => windows_root(path@) == Some(root@),
            None => windows_root(path@) is None,
        },
{
    let p = chars_of(path);
    let n = p.len();
    let ghost ext = seq!['\\', '\\', '?', '\\'];
    let is_ext = n >= 4 && p[0] == '\\' && p[1] == '\\' && p[2] == '?' && p[3] == '\\';
    proof {
        if is_ext {
            assert(p@.subrange(0, 4) =~= ext);
        }
        if text_starts_with(p@, ext) {
            assert(p@.subrange(0, 4)[0] == p@[0]);
            assert(p@.subrange(0, 4)[1] == p@[1]);
            assert(p@.subrange(0, 4)[2] == p@[2]);
            assert(p@.subrange(0, 4)[3] == p@[3]);
        }
    }
    if is_ext {
        if n >= 7 {
            let mut out = String::new();
            push_char(&mut out, p[4]);
            push_char(&mut out, p[5]);
            push_char(&mut out, '\\');
            assert(out@ =~= p@.subrange(4, 6).push('\\'));
            return Some(out);
        }
        return None;
    }
    if n >= 3 && p[1] == ':' {
        let mut out = String::new();
        push_char(&mut out, p[0]);
        push_char(&mut out, p[1]);
        push_char(&mut out, '\\');
        assert(out@ =~= p@.subrange(0, 2).push('\\'));
        return Some(out);
    }
    let ghost unc = seq!['\\', '\\'];
    let is_unc = n >= 2 && p[0] == '\\' && p[1] == '\\';
    proof {
        if is_unc {
            assert(p@.subrange(0, 2) =~= unc);
        }
        if text_starts_with(p@, unc) {
            assert(p@.subrange(0, 2)[0] == p@[0]);
            assert(p@.subrange(0, 2)[1] == p@[1]);
        }
    }
    if !is_unc {
        return None;
    }
    let t = strip_double_backslashes(&p);
    let sep = chars_of("\\");
    assert(sep@ =~= seq!['\\']) by {
        reveal_strlit("\\");
    }
    let i = match find_chars(&t, &sep) {
        Some(i) => i,
        None => return None,
    };
    let tl = t.len();
    assert(occurs_at(t@, sep@, i as int));
    let first = piece(&t, 0, i);
    let rest = piece(&t, i + 1, tl);
    let second = match find_chars(&rest, &sep) {
        Some(j) => {
            assert(occurs_at(rest@, sep@, j as int));
            piece(&rest, 0, j)
        },
        None => {
            assert(rest@.subrange(0, rest@.len() as int) =~= rest@);
            piece(&rest, 0, rest.len())
        },
    };
    let mut out = String::new();
    push_char(&mut out, '\\');
    push_char(&mut out, '\\');
    push_text(&mut out, string_of(&first).as_str());
    push_char(&mut out, '\\');
    push_text(&mut out, string_of(&second).as_str());
    push_char(&mut out, '\\');
    assert(out@ =~= seq!['\\', '\\'] + first@ + seq!['\\'] + second@ + seq!['\\']);
    Some(out)
}

/// A Windows filesystem name, matched in uppercase.
pub open spec fn windows_type_of(name: Seq<char>) -> FilesystemType {
    let u = upper_of(name);
    if u == "NTFS"@ {
        FilesystemType::Ntfs
    } else if u == "FAT32"@ {
        FilesystemType::Fat32
    } else if u == "EXFAT"@ {
        FilesystemType::ExFat
    } else if u == "REFS"@ {
        FilesystemType::Refs
    } else {
        FilesystemType::Unknown(string_with(u))
    }
}

/// Names the filesystem that the Windows volume API reported.
pub fn windows_filesystem_type(name: &str) -> (r: FilesystemType)
    ensures
        same_type(r, windows_type_of(name@)),
{
    let upper = uppercase(name);
    let u = chars_of(upper.as_str());
    if text_is(&u, "NTFS") {
        FilesystemType::Ntfs
    } else if text_is(&u, "FAT32") {
        FilesystemType::Fat32
    } else if text_is(&u, "EXFAT") {
        FilesystemType::ExFat
    } else if text_is(&u, "REFS") {
        FilesystemType::Refs
    } else {
        FilesystemType::Unknown(upper)
    }
}

/// The volume at the Windows root `root`, from what the volume API gave:
/// whether it answered, the filesystem name, the volume label (empty when
/// there is none) and whether the drive is remote. When the API did not
/// answer, the type is unknown and a UNC root (`\\\\server\\share\\`) counts as
/// remote.
pub fn windows_volume(root: String, answered: bool, fs_name: &str, label: &str, drive_remote: bool) -> (r:
    VolumeInfo)
    ensures
        r.mount_point@ == root@,
        !answered ==> same_type(
            r.filesystem_type,
            FilesystemType::Unknown(string_with("detection failed"@)),
        ) && r.label is None && r.is_remote == text_starts_with(root@, seq!['\\', '\\']),
        answered ==> same_type(r.filesystem_type, windows_type_of(fs_name@)) && r.is_remote
            == drive_remote && (label@.len() == 0 ==> r.label is None) && (label@.len() > 0
            ==> (r.label is Some && r.label->0@ == label@)),
{
    if !answered {
        let rc = chars_of(root.as_str());
        let unc = rc.len() >= 2 && rc[0] == '\\' && rc[1] == '\\';
        proof {
            if unc {
                assert(rc@.subrange(0, 2) =~= seq!['\\', '\\']);
            }
            if text_starts_with(root@, seq!['\\', '\\']) {
                assert(rc@.subrange(0, 2)[0] == rc@[0]);
                assert(rc@.subrange(0, 2)[1] == rc@[1]);
            }
        }
        return VolumeInfo {
            filesystem_type: FilesystemType::Unknown(String::from_str("detection failed")),
            mount_point: root,
            label: None,
            is_remote: unc,
        };
    }
    let lab = if label.is_empty() {
        None
    } else {
        Some(String::from_str(label))
    };
    VolumeInfo {
        filesystem_type: windows_filesystem_type(fs_name),
        mount_point: root,
        label: lab,
        is_remote: drive_remote,
    }
}

} // verus!
