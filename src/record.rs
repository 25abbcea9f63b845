//! Assembling the record of one file from its metadata, its digests and
//! what content sniffing found.
use vstd::prelude::*;
use crate::digest::{digest_fields, is_hex_of_len, MultiDigest};
use crate::paths::{file_name, parent, path_file_name, path_parent};
use crate::FileInfo;

verus! {

/// What chrono prints for a UTC time `secs` seconds after the Unix epoch in
/// the form `%Y-%m-%d %H:%M:%S`.
pub uninterp spec fn utc_text(secs: int) -> Seq<char>;

/// The largest second of the year 9999.
pub const LAST_SECOND_OF_9999: i64 = 253402300799;

/// Relies on `chrono::DateTime::from_timestamp` and its `format`: the time as
/// `%Y-%m-%d %H:%M:%S`; none for seconds outside chrono's range, which holds
/// every second from the epoch to the end of the year 9999.
#[verifier::external_body]
fn format_utc(secs: i64) -> (r: Option<String>)
    ensures
        r matches Some(t) ==> t@ == utc_text(secs as int),
        0 <= secs <= LAST_SECOND_OF_9999 ==> r is Some,
{
    chrono::DateTime::from_timestamp(secs, 0).map(|d| d.format("%Y-%m-%d %H:%M:%S").to_string())
}

/// What mime_guess offers first for the extension of `path`, or
/// `application/octet-stream`.
pub uninterp spec fn mime_by_extension(path: Seq<char>) -> Seq<char>;

/// Relies on `mime_guess::from_path` and `MimeGuess::first_or_octet_stream`:
/// a media type guessed from the extension of the path alone.
#[verifier::external_body]
fn guess_mime(path: &str) -> (r: String)
    ensures
        r@ == mime_by_extension(path@),
{
    mime_guess::from_path(path).first_or_octet_stream().to_string()
}

/// A time as a record shows it, when the platform gave one.
pub open spec fn optional_time_text(secs: Option<u64>) -> Seq<char> {
    match secs {
        Some(s) => if s <= LAST_SECOND_OF_9999 as u64 {
            utc_text(s as int)
        } else {
            "N/A"@
        },
        None => "N/A"@,
    }
}

/// The modification time as a record shows it: unknown before the epoch, and
/// the epoch itself for a time past chrono's range.
pub open spec fn modified_time_text(secs: Option<u64>) -> Seq<char> {
    match secs {
        Some(s) => if s <= LAST_SECOND_OF_9999 as u64 {
            utc_text(s as int)
        } else {
            utc_text(0)
        },
        None => "Unknown"@,
    }
}

/// Formats an optional time of creation or access.
pub fn format_time_optional(secs: Option<u64>) -> (r: String)
    ensures
        r@ == optional_time_text(secs),
{
    match secs {
        Some(s) => {
            if s <= LAST_SECOND_OF_9999 as u64 {
                match format_utc(s as i64) {
                    Some(t) => t,
                    None => String::from_str("N/A"),
                }
            } else {
                String::from_str("N/A")
            }
        },
        None => String::from_str("N/A"),
    }
}

/// Formats a modification time; `None` stands for a time before the epoch.
pub fn format_modified_time(secs: Option<u64>) -> (r: String)
    ensures
        r@ == modified_time_text(secs),
{
    match secs {
        Some(s) => {
            let t = if s <= LAST_SECOND_OF_9999 as u64 {
                format_utc(s as i64)
            } else {
                format_utc(0)
            };
            match t {
                Some(t) => t,
                None => String::new(),
            }
        },
        None => String::from_str("Unknown"),
    }
}

/// What the metadata of a file gave, as seconds after the Unix epoch.
#[derive(Debug, Clone, Copy)]
pub struct FileMetadata {
    pub size: u64,
    /// None when the platform keeps no creation time or it is before the epoch.
    pub created: Option<u64>,
    /// None when the time is before the epoch.
    pub modified: Option<u64>,
    pub accessed: Option<u64>,
}

/// What content sniffing reported for a file: the format's name and media
/// type, or nothing when the file could not be read for it.
#[derive(Debug, Clone)]
pub struct SniffResult {
    pub format_name: String,
    pub media_type: String,
}

/// The format field of a record.
pub open spec fn format_field(calculate: bool, sniffed: Option<SniffResult>) -> Seq<char> {
    if !calculate {
        "Not calculated"@
    } else {
        match sniffed {
            Some(s) => s.format_name@,
            None => "Unknown"@,
        }
    }
}

/// The media type field of a record: what sniffing found, else a guess from
/// the extension.
pub open spec fn mime_field(calculate: bool, sniffed: Option<SniffResult>, path: Seq<char>) -> Seq<char> {
    if !calculate {
        "Not calculated"@
    } else {
        match sniffed {
            Some(s) => s.media_type@,
            None => mime_by_extension(path),
        }
    }
}

/// Builds the record of the file at `path` from its metadata, the digests fed
/// its bytes, and what sniffing reported (consulted only for the fields asked
/// for).
pub fn file_info_from_parts(
    path: &str,
    meta: FileMetadata,
    digests: MultiDigest,
    sniffed: Option<SniffResult>,
    calculate_format: bool,
    calculate_mime: bool,
) -> (r: FileInfo)
    requires
        digests.wf(),
    ensures
        r.name@ == match file_name(path@) {
            Some(n) => n,
            None => seq![],
        },
        r.full_path@ == path@,
        r.directory_path@ == match parent(path@) {
            Some(p) => p,
            None => seq![],
        },
        r.size == meta.size,
        r.created@ == optional_time_text(meta.created),
        r.last_modified@ == modified_time_text(meta.modified),
        r.last_accessed@ == optional_time_text(meta.accessed),
        (r.md5@, r.sha256@, r.sha512@) == digest_fields(
            digests.data(),
            digests.wants_md5(),
            digests.wants_sha256(),
            digests.wants_sha512(),
        ),
        digests.wants_md5() ==> is_hex_of_len(r.md5@, 32),
        digests.wants_sha256() ==> is_hex_of_len(r.sha256@, 64),
        digests.wants_sha512() ==> is_hex_of_len(r.sha512@, 128),
        r.format@ == format_field(calculate_format, sniffed),
        r.mime_type@ == mime_field(calculate_mime, sniffed, path@),
{
    let name = match path_file_name(path) {
        Some(n) => n,
        None => String::new(),
    };
    let directory_path = match path_parent(path) {
        Some(p) => p,
        None => String::new(),
    };
    let (md5, sha256, sha512) = digests.finish();
    let format = if !calculate_format {
        String::from_str("Not calculated")
    } else {
        match &sniffed {
            Some(s) => s.format_name.clone(),
            None => String::from_str("Unknown"),
        }
    };
    let mime_type = if !calculate_mime {
        String::from_str("Not calculated")
    } else {
        match &sniffed {
            Some(s) => s.media_type.clone(),
            None => guess_mime(path),
        }
    };
    FileInfo {
        name,
        full_path: String::from_str(path),
        directory_path,
        size: meta.size,
        created: format_time_optional(meta.created),
        last_modified: format_modified_time(meta.modified),
        last_accessed: format_time_optional(meta.accessed),
        md5,
        sha256,
        sha512,
        format,
        mime_type,
    }
}

} // verus!
