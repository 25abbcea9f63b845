use directory_scanner::filesystem::{
    detect_filesystem, extract_plist_string, volume_from_plist, windows_filesystem_type,
    windows_volume, windows_volume_root, FilesystemType,
};

#[test]
fn test_filesystem_type_display() {
    assert_eq!(FilesystemType::Ntfs.to_string(), "NTFS");
    assert_eq!(FilesystemType::Ext.to_string(), "ext2/3/4");
    assert_eq!(FilesystemType::Unknown("foo".to_string()).to_string(), "foo");
}

#[test]
fn test_supports_mft() {
    assert!(FilesystemType::Ntfs.supports_mft());
    assert!(!FilesystemType::Fat32.supports_mft());
    assert!(!FilesystemType::Ext.supports_mft());
    assert!(!FilesystemType::Apfs.supports_mft());
}

#[test]
fn test_detect_current_directory() {
    let canonical = std::path::Path::new(".").canonicalize().unwrap();
    // The root row of a mount table covers every absolute path.
    let table = "rootfs / rootfs rw 0 0\n";
    let result = detect_filesystem(&canonical.to_string_lossy(), table);
    assert!(result.is_some(), "Should detect filesystem for current directory");

    let info = result.unwrap();
    println!("Detected filesystem: {:?}", info);
    assert!(!info.mount_point.is_empty());
}

const TABLE: &str = "sysfs /sys sysfs rw 0 0\n\
/dev/sda1 / ext4 rw 0 0\n\
/dev/sdb1 /home btrfs rw 0 0\n\
server:/export /mnt/nfs nfs4 rw 0 0\n\
/dev/sdc1 /mnt/win fuseblk rw 0 0\n\
ntfs-3g /mnt/odd ntfs-3g rw 0 0\n";

#[test]
fn detect_picks_longest_mount_point() {
    let v = detect_filesystem("/home/user/file", TABLE).unwrap();
    assert_eq!(v.mount_point, "/home");
    assert_eq!(v.filesystem_type, FilesystemType::Btrfs);
    assert!(!v.is_remote);
    assert!(v.label.is_none());

    let root = detect_filesystem("/usr/bin", TABLE).unwrap();
    assert_eq!(root.mount_point, "/");
    assert_eq!(root.filesystem_type, FilesystemType::Ext);
}

#[test]
fn detect_remote_and_ntfs_mounts() {
    let nfs = detect_filesystem("/mnt/nfs/data", TABLE).unwrap();
    assert_eq!(nfs.filesystem_type, FilesystemType::Network);
    assert!(nfs.is_remote);

    let win = detect_filesystem("/mnt/win/x", TABLE).unwrap();
    assert_eq!(win.filesystem_type, FilesystemType::Ntfs);

    let odd = detect_filesystem("/mnt/odd/x", TABLE).unwrap();
    assert_eq!(odd.filesystem_type, FilesystemType::Unknown("ntfs-3g".to_string()));
}

#[test]
fn detect_without_matching_rows() {
    assert!(detect_filesystem("/x", "").is_none());
    assert!(detect_filesystem("/x", "a b\n").is_none());
}

const PLIST: &str = "<dict>\n\t<key>FilesystemType</key>\n\t<string>apfs</string>\n\
\t<key>MountPoint</key>\n\t<string>/System/Volumes/Data</string>\n\
\t<key>VolumeName</key>\n\t<string>Data</string>\n</dict>";

#[test]
fn plist_values_are_extracted() {
    assert_eq!(extract_plist_string(PLIST, "MountPoint"), Some("/System/Volumes/Data".to_string()));
    assert_eq!(extract_plist_string(PLIST, "VolumeName"), Some("Data".to_string()));
    assert_eq!(extract_plist_string(PLIST, "Missing"), None);
    assert_eq!(extract_plist_string("<key>K</key>", "K"), None);
}

#[test]
fn plist_volume_description() {
    let v = volume_from_plist(PLIST, "/Users/x");
    assert_eq!(v.filesystem_type, FilesystemType::Apfs);
    assert_eq!(v.mount_point, "/System/Volumes/Data");
    assert_eq!(v.label, Some("Data".to_string()));
    assert!(!v.is_remote);

    let smb = volume_from_plist("<key>FilesystemType</key><string>smbfs</string>", "/Volumes/share");
    assert_eq!(smb.filesystem_type, FilesystemType::Network);
    assert_eq!(smb.mount_point, "/Volumes/share");
    assert!(smb.is_remote);
    assert_eq!(smb.label, None);
}

#[test]
fn df_output_describes_volume() {
    let out = "Filesystem Type 512-blocks Used Available Capacity Mounted on\n\
               /dev/disk3s1 apfs 100 50 50 50% /System/Volumes/Data\n";
    let v = directory_scanner::filesystem::volume_from_df(out).unwrap();
    assert_eq!(v.filesystem_type, FilesystemType::Apfs);
    assert_eq!(v.mount_point, "/System/Volumes/Data");
    assert!(directory_scanner::filesystem::volume_from_df("header only\n").is_none());
    let odd = directory_scanner::filesystem::volume_from_df("h\nx zfs /pool\n").unwrap();
    assert_eq!(odd.filesystem_type, FilesystemType::Unknown("zfs".to_string()));
}

#[test]
fn windows_roots_and_types() {
    assert_eq!(windows_volume_root("C:\\Users\\x"), Some("C:\\".to_string()));
    assert_eq!(windows_volume_root("\\\\?\\D:\\data"), Some("D:\\".to_string()));
    assert_eq!(windows_volume_root("\\\\?\\D:"), None);
    assert_eq!(windows_volume_root("\\\\server\\share\\dir"), Some("\\\\server\\share\\".to_string()));
    assert_eq!(windows_volume_root("\\\\server"), None);
    assert_eq!(windows_volume_root("relative\\path"), None);
    assert_eq!(windows_filesystem_type("ntfs"), FilesystemType::Ntfs);
    assert_eq!(windows_filesystem_type("ReFS"), FilesystemType::Refs);
    assert_eq!(windows_filesystem_type("udf"), FilesystemType::Unknown("UDF".to_string()));
}

#[test]
fn windows_volume_from_api_answers() {
    let v = windows_volume("C:\\".to_string(), true, "NTFS", "System", false);
    assert_eq!(v.filesystem_type, FilesystemType::Ntfs);
    assert_eq!(v.label, Some("System".to_string()));
    assert!(!v.is_remote);
    let n = windows_volume("D:\\".to_string(), true, "exfat", "", true);
    assert_eq!(n.filesystem_type, FilesystemType::ExFat);
    assert_eq!(n.label, None);
    assert!(n.is_remote);
    let f = windows_volume("\\\\srv\\share\\".to_string(), false, "", "", false);
    assert_eq!(f.filesystem_type, FilesystemType::Unknown("detection failed".to_string()));
    assert!(f.is_remote);
    assert_eq!(f.mount_point, "\\\\srv\\share\\");
}
