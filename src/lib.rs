//! A directory scanner: the rules that decide which entries of a tree are
//! scanned, the order in which they are visited, the statistics and records
//! built from them, digests computed in one pass, the rendering of directory
//! trees, and the detection of the volume that holds a path.
//!
//! The library makes every decision over plain values; reading directories,
//! files and system tables is left to its caller, which hands it what it
//! read: the entries of a walk (`scanner`), the answers to a tree scan's
//! questions (`tree_scan`), file chunks (`digest`), metadata (`record`) and
//! the text of mount tables (`mounts`, `filesystem`).
use vstd::prelude::*;

pub mod text;
pub mod paths;
pub mod order;
pub mod mounts;
pub mod stats;
pub mod scanner;
pub mod digest;
pub mod record;
pub mod tree;
pub mod filesystem;
pub mod tree_scan;

pub use mounts::MountInfo;
pub use scanner::{DirectoryScanner, ProgressSink, NoProgress, WalkEntry, validate_path};
pub use stats::{DirectoryStats, FileSizeDistribution, format_file_size};
pub use tree::{
    TreeFormatter, TreeFormatOptions, TreeLine, FileType, get_file_color, filter_tree_by_type,
    count_files_by_type,
};

verus! {

/// Why a scan failed.
#[derive(Debug, Clone)]
pub enum ScanError {
    /// Any other I/O failure, with its message.
    Io(String),
    PathNotFound,
    NotADirectory,
    PermissionDenied,
    Cancelled,
}

/// The kinds of I/O failure that a scan tells apart.
#[derive(Debug, Clone, Copy, PartialEq, Eq, Structural)]
pub enum IoKind {
    NotFound,
    PermissionDenied,
    Other,
}

impl ScanError {
    /// The scan error for an I/O failure of the given kind.
    pub fn from_io(kind: IoKind, message: String) -> (r: ScanError)
        ensures
            kind == IoKind::NotFound ==> r is PathNotFound,
            kind == IoKind::PermissionDenied ==> r is PermissionDenied,
            kind == IoKind::Other ==> r == ScanError::Io(message),
    {
        match kind {
            IoKind::NotFound => ScanError::PathNotFound,
            IoKind::PermissionDenied => ScanError::PermissionDenied,
            IoKind::Other => ScanError::Io(message),
        }
    }

    /// The message that describes this error to a person.
    pub fn message(&self) -> (r: String)
        ensures
            r@ == error_text(*self),
    {
        match self {
            ScanError::Io(m) => {
                let mut s = String::from_str("IO error: ");
                s.append(m.as_str());
                s
            },
            ScanError::PathNotFound => String::from_str("Path not found"),
            ScanError::NotADirectory => String::from_str("Path is not a directory"),
            ScanError::PermissionDenied => String::from_str("Permission denied"),
            ScanError::Cancelled => String::from_str("Operation cancelled"),
        }
    }
}

/// The text of each scan error.
pub open spec fn error_text(e: ScanError) -> Seq<char> {
    match e {
        ScanError::Io(m) => "IO error: "@ + m@,
        ScanError::PathNotFound => "Path not found"@,
        ScanError::NotADirectory => "Path is not a directory"@,
        ScanError::PermissionDenied => "Permission denied"@,
        ScanError::Cancelled => "Operation cancelled"@,
    }
}

/// What a detailed scan records about one file.
#[derive(Debug, Clone)]
pub struct FileInfo {
    pub name: String,
    pub full_path: String,
    pub directory_path: String,
    pub size: u64,
    pub created: String,
    pub last_modified: String,
    pub last_accessed: String,
    pub md5: String,
    pub sha256: String,
    pub sha512: String,
    pub format: String,
    pub mime_type: String,
}

/// A node of a scanned directory tree; children are in case-insensitive
/// name order.
#[derive(Debug)]
pub struct TreeNode {
    pub name: String,
    pub path: String,
    pub is_directory: bool,
    pub children: Vec<TreeNode>,
}

/// The tree as text, with default formatting.
pub fn format_tree_output(tree: &TreeNode, colorize: bool) -> (r: String)
    ensures
        ({
            let f = TreeFormatter {
                options: TreeFormatOptions {
                    colorize,
                    show_dotfiles: false,
                    use_unicode: true,
                    show_file_sizes: false,
                    show_permissions: false,
                },
                chars: tree::TreeChars {
                    branch: "├",
                    last_branch: "└",
                    vertical: "│",
                    horizontal: "───",
                    space: "   ",
                },
            };
            r@ == f.root_text(*tree) + f.rows_text(f.rows_of(*tree))
        }),
{
    let options = TreeFormatOptions::new().colorize(colorize);
    let formatter = TreeFormatter::new(options);
    let r = formatter.format_tree(tree);
    proof {
        let f = TreeFormatter {
            options: TreeFormatOptions {
                colorize,
                show_dotfiles: false,
                use_unicode: true,
                show_file_sizes: false,
                show_permissions: false,
            },
            chars: tree::TreeChars {
                branch: "├",
                last_branch: "└",
                vertical: "│",
                horizontal: "───",
                space: "   ",
            },
        };
        tree::lemma_rows_text_same_chars(&formatter, &f, formatter.rows_of(*tree));
        assert(formatter.rows_of(*tree) == f.rows_of(*tree));
    }
    r
}

/// The tree as display lines, with default formatting.
pub fn format_tree_lines(tree: &TreeNode, colorize: bool) -> (r: Vec<TreeLine>)
    ensures
        r@.len() >= 1,
        r@[0].content@ == tree.name@ && r@[0].depth == 0 && r@[0].prefix@.len() == 0,
        ({
            let f = TreeFormatter {
                options: TreeFormatOptions {
                    colorize,
                    show_dotfiles: false,
                    use_unicode: true,
                    show_file_sizes: false,
                    show_permissions: false,
                },
                chars: tree::TreeChars {
                    branch: "├",
                    last_branch: "└",
                    vertical: "│",
                    horizontal: "───",
                    space: "   ",
                },
            };
            &&& r@.len() == 1 + f.rows_of(*tree).len()
            &&& forall|j: int|
                0 <= j < f.rows_of(*tree).len() ==> f.line_matches(
                    #[trigger] r@[j + 1],
                    f.rows_of(*tree)[j],
                )
        }),
{
    let options = TreeFormatOptions::new().colorize(colorize);
    let formatter = TreeFormatter::new(options);
    formatter.format_tree_lines(tree)
}

/// Preset scanner configurations for common uses.
pub struct ScannerPresets;

impl ScannerPresets {
    /// No digests at all.
    pub fn minimal() -> (r: DirectoryScanner)
        ensures
            !r.calculate_md5 && !r.calculate_sha256 && !r.calculate_sha512,
            !r.include_dotfiles && r.max_depth is None && !r.follow_symlinks,
            r.skip_virtual_filesystems && !r.stay_on_filesystem && r.cancellation_flag is None,
    {
        DirectoryScanner::new().calculate_md5(false).calculate_sha256(false)
    }

    /// Hidden entries, followed links, MD5 and SHA-256.
    pub fn complete() -> (r: DirectoryScanner)
        ensures
            r.include_dotfiles && r.follow_symlinks && r.calculate_md5 && r.calculate_sha256,
            !r.calculate_sha512 && r.max_depth is None,
            r.skip_virtual_filesystems && !r.stay_on_filesystem && r.cancellation_flag is None,
    {
        DirectoryScanner::new().include_dotfiles(true).follow_symlinks(true).calculate_md5(
            true,
        ).calculate_sha256(true)
    }

    /// The default scan with MD5 in place of SHA-256.
    pub fn defaultmd5() -> (r: DirectoryScanner)
        ensures
            !r.include_dotfiles && !r.follow_symlinks && r.calculate_md5 && !r.calculate_sha256,
            !r.calculate_sha512 && r.max_depth is None,
            r.skip_virtual_filesystems && !r.stay_on_filesystem && r.cancellation_flag is None,
    {
        DirectoryScanner::new().include_dotfiles(false).follow_symlinks(false).calculate_md5(
            true,
        ).calculate_sha256(false)
    }

    /// The default scan: SHA-256 only.
    pub fn defaultsha256() -> (r: DirectoryScanner)
        ensures
            !r.include_dotfiles && !r.follow_symlinks && !r.calculate_md5 && r.calculate_sha256,
            !r.calculate_sha512 && r.max_depth is None,
            r.skip_virtual_filesystems && !r.stay_on_filesystem && r.cancellation_flag is None,
    {
        DirectoryScanner::new().include_dotfiles(false).follow_symlinks(false).calculate_md5(
            false,
        ).calculate_sha256(true)
    }
}

} // verus!
