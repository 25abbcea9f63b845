use directory_scanner::digest::{digest_chunks, MultiDigest};
use directory_scanner::record::{file_info_from_parts, format_modified_time, format_time_optional, FileMetadata, SniffResult};
use directory_scanner::stats::{format_file_size, FileSizeDistribution};
use sha2::Digest;

fn md5_of(data: &[u8]) -> String {
    format!("{:x}", md5::compute(data))
}

fn sha256_of(data: &[u8]) -> String {
    format!("{:x}", sha2::Sha256::digest(data))
}

fn sha512_of(data: &[u8]) -> String {
    format!("{:x}", sha2::Sha512::digest(data))
}

fn is_lower_hex(s: &str, n: usize) -> bool {
    s.len() == n && s.chars().all(|c| c.is_ascii_digit() || ('a'..='f').contains(&c))
}

#[test]
fn digests_match_independent_computation() {
    let data = b"hello world, hashed in one pass".to_vec();
    let mut d = MultiDigest::new(true, true, true);
    d.update(&data[..7]);
    d.update(&data[7..]);
    let (m, a, b) = d.finish();
    assert_eq!(m, md5_of(&data));
    assert_eq!(a, sha256_of(&data));
    assert_eq!(b, sha512_of(&data));
    assert!(is_lower_hex(&m, 32));
    assert!(is_lower_hex(&a, 64));
    assert!(is_lower_hex(&b, 128));
}

#[test]
fn digests_of_known_inputs() {
    let (m, a, _) = digest_chunks(&vec![], true, true, false);
    assert_eq!(m, "d41d8cd98f00b204e9800998ecf8427e");
    assert_eq!(a, "e3b0c44298fc1c149afbf4c8996fb92427ae41e4649b934ca495991b7852b855");
    let (_, a, _) = digest_chunks(&vec![b"ab".to_vec(), b"c".to_vec()], false, true, false);
    assert_eq!(a, "ba7816bf8f01cfea414140de5dae2223b00361a396177a9cb410ff61f20015ad");
}

#[test]
fn all_digests_at_once_equal_each_alone() {
    let chunks = vec![vec![1u8; 9000], vec![2u8; 300], vec![]];
    let all = digest_chunks(&chunks, true, true, true);
    let only_md5 = digest_chunks(&chunks, true, false, false);
    let only_256 = digest_chunks(&chunks, false, true, false);
    let only_512 = digest_chunks(&chunks, false, false, true);
    assert_eq!(all.0, only_md5.0);
    assert_eq!(all.1, only_256.1);
    assert_eq!(all.2, only_512.2);
    assert_eq!(only_md5.1, "Not calculated");
    assert_eq!(only_md5.2, "Not calculated");
    assert_eq!(only_256.0, "Not calculated");
}

#[test]
fn each_chunk_is_read_once() {
    // The digests see each chunk exactly once, whatever was asked for.
    let chunks = vec![b"abc".to_vec(), b"def".to_vec()];
    let mut reads = 0;
    let mut d = MultiDigest::new(true, true, true);
    for c in &chunks {
        reads += 1;
        d.update(c);
    }
    assert_eq!(reads, 2);
    let (m, a, b) = d.finish();
    assert_eq!(m, md5_of(b"abcdef"));
    assert_eq!(a, sha256_of(b"abcdef"));
    assert_eq!(b, sha512_of(b"abcdef"));
}

#[test]
fn record_from_parts() {
    let meta = FileMetadata { size: 42, created: Some(0), modified: Some(86400 + 3661), accessed: None };
    let mut d = MultiDigest::new(false, true, false);
    d.update(b"xyz");
    let info = file_info_from_parts("/tmp/dir/notes.txt", meta, d, None, true, true);
    assert_eq!(info.name, "notes.txt");
    assert_eq!(info.full_path, "/tmp/dir/notes.txt");
    assert_eq!(info.directory_path, "/tmp/dir");
    assert_eq!(info.size, 42);
    assert_eq!(info.created, "1970-01-01 00:00:00");
    assert_eq!(info.last_modified, "1970-01-02 01:01:01");
    assert_eq!(info.last_accessed, "N/A");
    assert_eq!(info.md5, "Not calculated");
    assert_eq!(info.sha256, sha256_of(b"xyz"));
    assert_eq!(info.sha512, "Not calculated");
    assert_eq!(info.format, "Unknown");
    assert_eq!(info.mime_type, "text/plain");
}

#[test]
fn record_uses_sniffed_format() {
    let meta = FileMetadata { size: 1, created: None, modified: None, accessed: None };
    let sniffed = SniffResult { format_name: "Portable Network Graphics".into(), media_type: "image/png".into() };
    let info = file_info_from_parts("a.bin", meta, MultiDigest::new(false, false, false), Some(sniffed), true, true);
    assert_eq!(info.format, "Portable Network Graphics");
    assert_eq!(info.mime_type, "image/png");
    assert_eq!(info.last_modified, "Unknown");
    assert_eq!(info.directory_path, "");
    let plain = file_info_from_parts("a.bin", meta, MultiDigest::new(false, false, false), None, false, false);
    assert_eq!(plain.format, "Not calculated");
    assert_eq!(plain.mime_type, "Not calculated");
}

#[test]
fn time_texts() {
    assert_eq!(format_time_optional(Some(1431648000)), "2015-05-15 00:00:00");
    assert_eq!(format_time_optional(None), "N/A");
    assert_eq!(format_modified_time(Some(1431648000)), "2015-05-15 00:00:00");
    assert_eq!(format_modified_time(None), "Unknown");
}

#[test]
fn size_texts() {
    assert_eq!(format_file_size(0), "0 B");
    assert_eq!(format_file_size(1023), "1023 B");
    assert_eq!(format_file_size(1024), "1.0 KB");
    assert_eq!(format_file_size(1280), "1.2 KB");
    assert_eq!(format_file_size(1536), "1.5 KB");
    assert_eq!(format_file_size(1048575), "1024.0 KB");
    assert_eq!(format_file_size(1048576), "1.0 MB");
    assert_eq!(format_file_size(3 * 1073741824), "3.0 GB");
    assert_eq!(format_file_size(5 * 1099511627776), "5.0 TB");
    assert_eq!(format_file_size(2048 * 1099511627776), "2048.0 TB");
}

#[test]
fn histogram_buckets_and_summary() {
    let mut h = FileSizeDistribution::new();
    assert_eq!(h.summary(), "  No files");
    for s in [0u64, 9, 10, 999, 1000, 10 * 1024, 1024 * 1024 - 1, 1024 * 1024, 100 * 1024 * 1024 * 1024] {
        h.add_file(s);
    }
    assert_eq!(h.empty, 1);
    assert_eq!(h.tiny, 1);
    assert_eq!(h.very_small, 1);
    assert_eq!(h.small, 1);
    assert_eq!(h.small_kb, 1);
    assert_eq!(h.medium_kb, 1);
    assert_eq!(h.large_kb, 1);
    assert_eq!(h.small_mb, 1);
    assert_eq!(h.huge, 1);
    let mut g = FileSizeDistribution::new();
    g.add_file(5);
    g.add_file(7);
    g.add_file(2 * 1024 * 1024 * 1024);
    assert_eq!(g.summary(), "  1 B – 9 B: 2\n  1 GB – 9.99 GB: 1");
}
