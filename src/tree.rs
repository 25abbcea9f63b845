//! Rendering of directory trees as text or as a list of display lines, file
//! type classification by extension, and tree filtering and counting.
use vstd::prelude::*;
use crate::paths::{extension, file_name, name_extension, path_file_name};
use crate::text::{chars_of, lower_of, lowercase, push_text};
use crate::TreeNode;

verus! {

broadcast use vstd::std_specs::vec::group_vec_axioms;

/// Tree formatting options.
#[derive(Debug, Clone, Copy)]
pub struct TreeFormatOptions {
    pub colorize: bool,
    pub show_dotfiles: bool,
    pub use_unicode: bool,
    pub show_file_sizes: bool,
    pub show_permissions: bool,
}

impl Default for TreeFormatOptions {
    fn default() -> (r: Self)
        ensures
            !r.colorize && !r.show_dotfiles && r.use_unicode && !r.show_file_sizes
                && !r.show_permissions,
    {
        TreeFormatOptions {
            colorize: false,
            show_dotfiles: false,
            use_unicode: true,
            show_file_sizes: false,
            show_permissions: false,
        }
    }
}

impl TreeFormatOptions {
    pub fn new() -> (r: Self)
        ensures
            !r.colorize && !r.show_dotfiles && r.use_unicode && !r.show_file_sizes
                && !r.show_permissions,
    {
        Self::default()
    }

    pub fn colorize(self, colorize: bool) -> (r: Self)
        ensures
            r == (TreeFormatOptions { colorize, ..self }),
    {
        TreeFormatOptions { colorize, ..self }
    }

    pub fn show_dotfiles(self, show: bool) -> (r: Self)
        ensures
            r == (TreeFormatOptions { show_dotfiles: show, ..self }),
    {
        TreeFormatOptions { show_dotfiles: show, ..self }
    }

    pub fn use_unicode(self, unicode: bool) -> (r: Self)
        ensures
            r == (TreeFormatOptions { use_unicode: unicode, ..self }),
    {
        TreeFormatOptions { use_unicode: unicode, ..self }
    }

    pub fn show_file_sizes(self, show: bool) -> (r: Self)
        ensures
            r == (TreeFormatOptions { show_file_sizes: show, ..self }),
    {
        TreeFormatOptions { show_file_sizes: show, ..self }
    }

    pub fn show_permissions(self, show: bool) -> (r: Self)
        ensures
            r == (TreeFormatOptions { show_permissions: show, ..self }),
    {
        TreeFormatOptions { show_permissions: show, ..self }
    }
}

/// Tree character sets for different display modes.
pub struct TreeChars {
    pub branch: &'static str,
    pub last_branch: &'static str,
    pub vertical: &'static str,
    pub horizontal: &'static str,
    pub space: &'static str,
}

impl TreeChars {
    pub fn unicode() -> (r: Self)
        ensures
            r.branch@ == "├"@,
            r.last_branch@ == "└"@,
            r.vertical@ == "│"@,
            r.horizontal@ == "───"@,
            r.space@ == "   "@,
    {
        TreeChars { branch: "├", last_branch: "└", vertical: "│", horizontal: "───", space: "   " }
    }

    pub fn ascii() -> (r: Self)
        ensures
            r.branch@ == "|"@,
            r.last_branch@ == "`"@,
            r.vertical@ == "|"@,
            r.horizontal@ == "---"@,
            r.space@ == "   "@,
    {
        TreeChars { branch: "|", last_branch: "`", vertical: "|", horizontal: "---", space: "   " }
    }
}

/// File type classification for styling and filtering.
#[derive(Debug, Clone, Copy, PartialEq, Eq, Hash, Structural)]
pub enum FileType {
    Directory,
    Executable,
    Archive,
    Image,
    Document,
    SourceCode,
    Config,
    Audio,
    Video,
    Other,
}

pub open spec fn description_of(t: FileType) -> Seq<char> {
    match t {
        FileType::Directory => "Directory"@,
        FileType::Executable => "Executable"@,
        FileType::Archive => "Archive"@,
        FileType::Image => "Image"@,
        FileType::Document => "Document"@,
        FileType::SourceCode => "Source Code"@,
        FileType::Config => "Configuration"@,
        FileType::Audio => "Audio"@,
        FileType::Video => "Video"@,
        FileType::Other => "File"@,
    }
}

pub open spec fn color_of(t: FileType) -> Seq<char> {
    match t {
        FileType::Directory => "\x1b[1;34m"@,
        FileType::Executable => "\x1b[1;32m"@,
        FileType::Archive => "\x1b[1;31m"@,
        FileType::Image => "\x1b[1;35m"@,
        FileType::Document => "\x1b[36m"@,
        FileType::SourceCode => "\x1b[33m"@,
        FileType::Config => "\x1b[1;33m"@,
        FileType::Audio => "\x1b[95m"@,
        FileType::Video => "\x1b[96m"@,
        FileType::Other => "\x1b[37m"@,
    }
}

impl FileType {
    /// A human-readable description of the file type.
    pub fn description(&self) -> (r: &'static str)
        ensures
            r@ == description_of(*self),
    {
        match self {
            FileType::Directory => "Directory",
            FileType::Executable => "Executable",
            FileType::Archive => "Archive",
            FileType::Image => "Image",
            FileType::Document => "Document",
            FileType::SourceCode => "Source Code",
            FileType::Config => "Configuration",
            FileType::Audio => "Audio",
            FileType::Video => "Video",
            FileType::Other => "File",
        }
    }

    /// The terminal color code for this file type.
    pub fn color_code(&self) -> (r: &'static str)
        ensures
            r@ == color_of(*self),
    {
        match self {
            FileType::Directory => "\x1b[1;34m",
            FileType::Executable => "\x1b[1;32m",
            FileType::Archive => "\x1b[1;31m",
            FileType::Image => "\x1b[1;35m",
            FileType::Document => "\x1b[36m",
            FileType::SourceCode => "\x1b[33m",
            FileType::Config => "\x1b[1;33m",
            FileType::Audio => "\x1b[95m",
            FileType::Video => "\x1b[96m",
            FileType::Other => "\x1b[37m",
        }
    }

    /// A position for this type in a table of counts.
    pub fn index(&self) -> (r: usize)
        ensures
            r == type_index(*self),
    {
        match self {
            FileType::Directory => 0,
            FileType::Executable => 1,
            FileType::Archive => 2,
            FileType::Image => 3,
            FileType::Document => 4,
            FileType::SourceCode => 5,
            FileType::Config => 6,
            FileType::Audio => 7,
            FileType::Video => 8,
            FileType::Other => 9,
        }
    }
}

pub open spec fn type_index(t: FileType) -> nat {
    match t {
        FileType::Directory => 0,
        FileType::Executable => 1,
        FileType::Archive => 2,
        FileType::Image => 3,
        FileType::Document => 4,
        FileType::SourceCode => 5,
        FileType::Config => 6,
        FileType::Audio => 7,
        FileType::Video => 8,
        FileType::Other => 9,
    }
}

pub open spec fn one_of(e: Seq<char>, names: Seq<Seq<char>>) -> bool {
    exists|i: int| 0 <= i < names.len() && names[i] == e
}

pub open spec fn executable_exts() -> Seq<Seq<char>> {
    seq!["exe"@, "bin"@, "run"@, "sh"@, "bat"@, "cmd"@]
}

pub open spec fn archive_exts() -> Seq<Seq<char>> {
    seq!["zip"@, "tar"@, "gz"@, "bz2"@, "xz"@, "7z"@, "rar"@]
}

pub open spec fn image_exts() -> Seq<Seq<char>> {
    seq!["jpg"@, "jpeg"@, "png"@, "gif"@, "bmp"@, "svg"@, "webp"@, "ico"@]
}

pub open spec fn document_exts() -> Seq<Seq<char>> {
    seq!["txt"@, "md"@, "pdf"@, "doc"@, "docx"@, "rtf"@, "odt"@]
}

pub open spec fn source_exts() -> Seq<Seq<char>> {
    seq!["rs"@, "c"@, "cpp"@, "h"@, "hpp"@, "py"@, "js"@, "ts"@, "java"@, "go"@, "rb"@, "php"@]
}

pub open spec fn config_exts() -> Seq<Seq<char>> {
    seq!["toml"@, "yaml"@, "yml"@, "json"@, "xml"@, "ini"@, "conf"@, "cfg"@, "env"@]
}

pub open spec fn audio_exts() -> Seq<Seq<char>> {
    seq!["mp3"@, "wav"@, "flac"@, "ogg"@, "m4a"@, "aac"@]
}

pub open spec fn video_exts() -> Seq<Seq<char>> {
    seq!["mp4"@, "avi"@, "mkv"@, "mov"@, "wmv"@, "flv"@, "webm"@]
}

/// The category of a lowercase extension.
pub open spec fn category_of(e: Seq<char>) -> FileType {
    if one_of(e, executable_exts()) {
        FileType::Executable
    } else if one_of(e, archive_exts()) {
        FileType::Archive
    } else if one_of(e, image_exts()) {
        FileType::Image
    } else if one_of(e, document_exts()) {
        FileType::Document
    } else if one_of(e, source_exts()) {
        FileType::SourceCode
    } else if one_of(e, config_exts()) {
        FileType::Config
    } else if one_of(e, audio_exts()) {
        FileType::Audio
    } else if one_of(e, video_exts()) {
        FileType::Video
    } else {
        FileType::Other
    }
}

/// The type of an entry: directories first, then by the lowercase extension
/// of the path's file name.
pub open spec fn file_type_of(path: Seq<char>, is_directory: bool) -> FileType {
    if is_directory {
        FileType::Directory
    } else {
        match file_name(path) {
            Some(n) => match extension(n) {
                Some(e) => category_of(lower_of(e)),
                None => FileType::Other,
            },
            None => FileType::Other,
        }
    }
}

/// A name wrapped in the color of its type.
pub open spec fn colored_name(name: Seq<char>, t: FileType) -> Seq<char> {
    color_of(t) + name + "\x1b[0m"@
}

fn strs_of(v: &Vec<&'static str>) -> (r: Vec<Vec<char>>)
    ensures
        r@.len() == v@.len(),
        forall|i: int| 0 <= i < r@.len() ==> (#[trigger] r@[i])@ == v@[i]@,
{
    let mut out: Vec<Vec<char>> = Vec::new();
    let mut i: usize = 0;
    while i < v.len()
        invariant
            i <= v.len(),
            out@.len() == i,
            forall|k: int| 0 <= k < i ==> (#[trigger] out@[k])@ == v@[k]@,
        decreases v.len() - i,
    {
        out.push(chars_of(v[i]));
        i = i + 1;
    }
    out
}

pub open spec fn strs_view(v: Seq<&'static str>) -> Seq<Seq<char>> {
    Seq::new(v.len(), |i: int| v[i]@)
}

fn in_list(e: &Vec<char>, names: Vec<&'static str>) -> (r: bool)
    ensures
        r == one_of(e@, strs_view(names@)),
{
    let cs = strs_of(&names);
    let mut i: usize = 0;
    while i < cs.len()
        invariant
            i <= cs.len(),
            cs@.len() == names@.len(),
            forall|k: int| 0 <= k < cs@.len() ==> (#[trigger] cs@[k])@ == names@[k]@,
            forall|k: int| 0 <= k < i ==> names@[k]@ != e@,
        decreases cs.len() - i,
    {
        if crate::text::same_chars(&cs[i], e) {
            assert(strs_view(names@)[i as int] == e@);
            return true;
        }
        i = i + 1;
    }
    false
}

fn category(e: &Vec<char>) -> (r: FileType)
    ensures
        r == category_of(e@),
{
    let v = vec!["exe", "bin", "run", "sh", "bat", "cmd"];
    assert(strs_view(v@) =~= executable_exts());
    if in_list(e, v) {
        return FileType::Executable;
    }
    let v = vec!["zip", "tar", "gz", "bz2", "xz", "7z", "rar"];
    assert(strs_view(v@) =~= archive_exts());
    if in_list(e, v) {
        return FileType::Archive;
    }
    let v = vec!["jpg", "jpeg", "png", "gif", "bmp", "svg", "webp", "ico"];
    assert(strs_view(v@) =~= image_exts());
    if in_list(e, v) {
        return FileType::Image;
    }
    let v = vec!["txt", "md", "pdf", "doc", "docx", "rtf", "odt"];
    assert(strs_view(v@) =~= document_exts());
    if in_list(e, v) {
        return FileType::Document;
    }
    let v = vec!["rs", "c", "cpp", "h", "hpp", "py", "js", "ts", "java", "go", "rb", "php"];
    assert(strs_view(v@) =~= source_exts());
    if in_list(e, v) {
        return FileType::SourceCode;
    }
    let v = vec!["toml", "yaml", "yml", "json", "xml", "ini", "conf", "cfg", "env"];
    assert(strs_view(v@) =~= config_exts());
    if in_list(e, v) {
        return FileType::Config;
    }
    let v = vec!["mp3", "wav", "flac", "ogg", "m4a", "aac"];
    assert(strs_view(v@) =~= audio_exts());
    if in_list(e, v) {
        return FileType::Audio;
    }
    let v = vec!["mp4", "avi", "mkv", "mov", "wmv", "flv", "webm"];
    assert(strs_view(v@) =~= video_exts());
    if in_list(e, v) {
        return FileType::Video;
    }
    FileType::Other
}

/// The type of an entry and its name wrapped in the type's color.
pub fn get_file_color(path: &str, name: &str, is_directory: bool) -> (r: (String, FileType))
    ensures
        r.1 == file_type_of(path@, is_directory),
        r.0@ == colored_name(name@, r.1),
{
    let t = if is_directory {
        FileType::Directory
    } else {
        match path_file_name(path) {
            Some(n) => match name_extension(n.as_str()) {
                Some(e) => {
                    let low = lowercase(e.as_str());
                    category(&chars_of(low.as_str()))
                },
                None => FileType::Other,
            },
            None => FileType::Other,
        }
    };
    let mut s = String::from_str(t.color_code());
    push_text(&mut s, name);
    push_text(&mut s, "\x1b[0m");
    (s, t)
}

/// One displayed line below the root: the node, the prefix before its
/// connector, whether it is the last of its siblings, and its depth.
pub struct Row {
    pub lead: Seq<char>,
    pub last: bool,
    pub depth: nat,
    pub node: TreeNode,
}

/// The depth one level down (it stays put at the largest `usize`).
pub open spec fn deeper(d: nat) -> nat {
    if d < usize::MAX {
        d + 1
    } else {
        d
    }
}

/// The prefix handed to the children of a node.
pub open spec fn next_lead(lead: Seq<char>, last: bool, vertical: Seq<char>) -> Seq<char> {
    if last {
        lead + "    "@
    } else {
        lead + vertical + "   "@
    }
}

/// The rows of a node and, for a directory with children, of its subtree.
pub open spec fn node_rows(n: TreeNode, lead: Seq<char>, last: bool, depth: nat, vertical: Seq<char>) -> Seq<Row>
    decreases n, 0nat,
{
    seq![Row { lead, last, depth, node: n }] + if n.is_directory && n.children@.len() > 0 {
        forest_rows(
            n.children@,
            n.children@.len() as int,
            next_lead(lead, last, vertical),
            deeper(depth),
            vertical,
        )
    } else {
        seq![]
    }
}

/// The rows of the first `k` of the siblings `cs`.
pub open spec fn forest_rows(cs: Seq<TreeNode>, k: int, lead: Seq<char>, depth: nat, vertical: Seq<char>) -> Seq<Row>
    decreases cs, k,
{
    if k <= 0 || k > cs.len() {
        seq![]
    } else {
        forest_rows(cs, k - 1, lead, depth, vertical) + node_rows(
            cs[k - 1],
            lead,
            k - 1 == cs.len() - 1,
            depth,
            vertical,
        )
    }
}

/// Represents a single line in a tree display (useful for GUIs).
#[derive(Debug, Clone)]
pub struct TreeLine {
    pub content: String,
    pub depth: usize,
    pub is_directory: bool,
    pub path: String,
    pub prefix: String,
}

/// Tree formatter for converting TreeNode structures to formatted strings.
pub struct TreeFormatter {
    pub options: TreeFormatOptions,
    pub chars: TreeChars,
}

impl TreeFormatter {
    pub open spec fn connector(&self, last: bool) -> Seq<char> {
        if last {
            self.chars.last_branch@
        } else {
            self.chars.branch@
        }
    }

    /// The rows below `tree`.
    pub open spec fn rows_of(&self, tree: TreeNode) -> Seq<Row> {
        forest_rows(tree.children@, tree.children@.len() as int, seq![], 1, self.chars.vertical@)
    }

    /// The display line of a row.
    pub open spec fn line_matches(&self, l: TreeLine, row: Row) -> bool {
        &&& l.content@ == row.node.name@
        &&& l.depth == row.depth
        &&& l.is_directory == row.node.is_directory
        &&& l.path@ == row.node.path@
        &&& l.prefix@ == row.lead + self.connector(row.last) + self.chars.horizontal@ + " "@
    }

    /// The text of a row.
    pub open spec fn row_text(&self, row: Row) -> Seq<char> {
        if self.options.colorize {
            "\x1b[37m"@ + row.lead + self.connector(row.last) + "\x1b[0m"@ + self.chars.horizontal@
                + " "@ + colored_name(
                row.node.name@,
                file_type_of(row.node.path@, row.node.is_directory),
            ) + "\n"@
        } else {
            row.lead + self.connector(row.last) + self.chars.horizontal@ + " "@ + row.node.name@
                + "\n"@
        }
    }

    /// The texts of rows, one after another.
    pub open spec fn rows_text(&self, rows: Seq<Row>) -> Seq<char>
        decreases rows.len(),
    {
        if rows.len() == 0 {
            seq![]
        } else {
            self.rows_text(rows.drop_last()) + self.row_text(rows.last())
        }
    }

    /// The first line of a rendering: the root's name, colored when asked.
    pub open spec fn root_text(&self, tree: TreeNode) -> Seq<char> {
        if self.options.colorize {
            colored_name(tree.name@, file_type_of(tree.path@, tree.is_directory)) + "\n"@
        } else {
            tree.name@ + "\n"@
        }
    }

    pub fn new(options: TreeFormatOptions) -> (r: Self)
        ensures
            r.options == options,
            options.use_unicode ==> r.chars.branch@ == "├"@ && r.chars.last_branch@ == "└"@
                && r.chars.vertical@ == "│"@ && r.chars.horizontal@ == "───"@ && r.chars.space@
                == "   "@,
            !options.use_unicode ==> r.chars.branch@ == "|"@ && r.chars.last_branch@ == "`"@
                && r.chars.vertical@ == "|"@ && r.chars.horizontal@ == "---"@ && r.chars.space@
                == "   "@,
    {
        let chars = if options.use_unicode {
            TreeChars::unicode()
        } else {
            TreeChars::ascii()
        };
        Self { options, chars }
    }

    /// The tree as text: the root's name, then one line per node below it.
    pub fn format_tree(&self, tree: &TreeNode) -> (r: String)
        ensures
            r@ == self.root_text(*tree) + self.rows_text(self.rows_of(*tree)),
    {
        let mut output = String::new();
        if self.options.colorize {
            let (colored, _) = get_file_color(tree.path.as_str(), tree.name.as_str(), tree.is_directory);
            push_text(&mut output, colored.as_str());
            push_text(&mut output, "\n");
        } else {
            push_text(&mut output, tree.name.as_str());
            push_text(&mut output, "\n");
        }
        let lead = String::new();
        assert(lead@ =~= seq![]);
        self.format_tree_recursive(tree, &lead, 1, &mut output);
        output
    }

    /// The tree as display lines: the root at depth 0 without a prefix, then
    /// one line per node below it.
    pub fn format_tree_lines(&self, tree: &TreeNode) -> (r: Vec<TreeLine>)
        ensures
            r@.len() == 1 + self.rows_of(*tree).len(),
            r@[0].content@ == tree.name@ && r@[0].depth == 0 && r@[0].is_directory
                == tree.is_directory && r@[0].path@ == tree.path@ && r@[0].prefix@.len() == 0,
            forall|j: int|
                0 <= j < self.rows_of(*tree).len() ==> self.line_matches(
                    #[trigger] r@[j + 1],
                    self.rows_of(*tree)[j],
                ),
    {
        let mut lines: Vec<TreeLine> = Vec::new();
        lines.push(
            TreeLine {
                content: tree.name.clone(),
                depth: 0,
                is_directory: tree.is_directory,
                path: tree.path.clone(),
                prefix: String::new(),
            },
        );
        let lead = String::new();
        assert(lead@ =~= seq![]);
        self.format_tree_lines_recursive(tree, &lead, 1, &mut lines);
        assert(lines@[0] == lines@.subrange(0, 1)[0]);
        assert forall|j: int| 0 <= j < self.rows_of(*tree).len() implies self.line_matches(
            #[trigger] lines@[j + 1],
            self.rows_of(*tree)[j],
        ) by {
            assert(lines@[1 + j] == lines@[j + 1]);
        }
        lines
    }

    fn row_piece(&self, child: &TreeNode, lead: &String, last: bool) -> (r: String)
        ensures
            r@ == self.row_text(Row { lead: lead@, last, depth: 0, node: *child }),
    {
        let connector = if last {
            self.chars.last_branch
        } else {
            self.chars.branch
        };
        let mut out = String::new();
        if self.options.colorize {
            let (colored, _) = get_file_color(child.path.as_str(), child.name.as_str(), child.is_directory);
            push_text(&mut out, "\x1b[37m");
            push_text(&mut out, lead.as_str());
            push_text(&mut out, connector);
            push_text(&mut out, "\x1b[0m");
            push_text(&mut out, self.chars.horizontal);
            push_text(&mut out, " ");
            push_text(&mut out, colored.as_str());
            push_text(&mut out, "\n");
        } else {
            push_text(&mut out, lead.as_str());
            push_text(&mut out, connector);
            push_text(&mut out, self.chars.horizontal);
            push_text(&mut out, " ");
            push_text(&mut out, child.name.as_str());
            push_text(&mut out, "\n");
        }
        assert(out@ =~= self.row_text(Row { lead: lead@, last, depth: 0, node: *child }));
        out
    }

    #[verifier::rlimit(60)]
    fn format_tree_recursive(&self, node: &TreeNode, lead: &String, depth: usize, output: &mut String)
        ensures
            final(output)@ == old(output)@ + self.rows_text(
                forest_rows(
                    node.children@,
                    node.children@.len() as int,
                    lead@,
                    depth as nat,
                    self.chars.vertical@,
                ),
            ),
        decreases node,
    {
        let n = node.children.len();
        let mut i: usize = 0;
        while i < n
            invariant
                n == node.children@.len(),
                i <= n,
                output@ == old(output)@ + self.rows_text(
                    forest_rows(node.children@, i as int, lead@, depth as nat, self.chars.vertical@),
                ),
            decreases n - i,
        {
            let child = &node.children[i];
            let last = i == n - 1;
            let ghost before = forest_rows(node.children@, i as int, lead@, depth as nat, self.chars.vertical@);
            let ghost row = Row { lead: lead@, last, depth: depth as nat, node: *child };
            let piece = self.row_piece(child, lead, last);
            push_text(output, piece.as_str());
            proof {
                assert(self.row_text(row) == self.row_text(Row { lead: lead@, last, depth: 0, node: *child }));
                assert(self.rows_text(before.push(row)) == self.rows_text(before) + self.row_text(row)) by {
                    assert(before.push(row).drop_last() =~= before);
                }
            }
            let ghost sub = if child.is_directory && child.children@.len() > 0 {
                forest_rows(
                    child.children@,
                    child.children@.len() as int,
                    next_lead(lead@, last, self.chars.vertical@),
                    deeper(depth as nat),
                    self.chars.vertical@,
                )
            } else {
                seq![]
            };
            if child.is_directory && child.children.len() > 0 {
                let mut next = lead.clone();
                if last {
                    push_text(&mut next, "    ");
                } else {
                    push_text(&mut next, self.chars.vertical);
                    push_text(&mut next, "   ");
                }
                let d = if depth < usize::MAX {
                    depth + 1
                } else {
                    depth
                };
                self.format_tree_recursive(child, &next, d, output);
            }
            proof {
                lemma_rows_text_append(self, before.push(row), sub);
                lemma_forest_step(node.children@, i as int, lead@, depth as nat, self.chars.vertical@);
                assert(node_rows(*child, lead@, last, depth as nat, self.chars.vertical@) =~= seq![row] + sub);
                assert(before + (seq![row] + sub) =~= before.push(row) + sub);
            }
            i = i + 1;
        }
    }

    /// The lines from position `base` on are those of `rows`.
    pub open spec fn lines_match(&self, lines: Seq<TreeLine>, base: int, rows: Seq<Row>) -> bool {
        &&& 0 <= base
        &&& base + rows.len() <= lines.len()
        &&& forall|j: int| 0 <= j < rows.len() ==> self.line_matches(#[trigger] lines[base + j], rows[j])
    }

    fn format_tree_lines_recursive(
        &self,
        node: &TreeNode,
        lead: &String,
        depth: usize,
        lines: &mut Vec<TreeLine>,
    )
        ensures
            final(lines)@.len() == old(lines)@.len() + forest_rows(
                node.children@,
                node.children@.len() as int,
                lead@,
                depth as nat,
                self.chars.vertical@,
            ).len(),
            final(lines)@.subrange(0, old(lines)@.len() as int) == old(lines)@,
            self.lines_match(
                final(lines)@,
                old(lines)@.len() as int,
                forest_rows(
                    node.children@,
                    node.children@.len() as int,
                    lead@,
                    depth as nat,
                    self.chars.vertical@,
                ),
            ),
        decreases node,
    {
        let n = node.children.len();
        let base = lines.len();
        let mut i: usize = 0;
        assert(lines@.subrange(0, base as int) =~= old(lines)@);
        while i < n
            invariant
                n == node.children@.len(),
                i <= n,
                base == old(lines)@.len(),
                lines@.len() == base + forest_rows(
                    node.children@,
                    i as int,
                    lead@,
                    depth as nat,
                    self.chars.vertical@,
                ).len(),
                lines@.subrange(0, base as int) == old(lines)@,
                self.lines_match(
                    lines@,
                    base as int,
                    forest_rows(node.children@, i as int, lead@, depth as nat, self.chars.vertical@),
                ),
            decreases n - i,
        {
            let child = &node.children[i];
            let last = i == n - 1;
            let ghost before = forest_rows(node.children@, i as int, lead@, depth as nat, self.chars.vertical@);
            let ghost row = Row { lead: lead@, last, depth: depth as nat, node: *child };
            let ghost pre = lines@;
            let connector = if last {
                self.chars.last_branch
            } else {
                self.chars.branch
            };
            let mut prefix = lead.clone();
            push_text(&mut prefix, connector);
            push_text(&mut prefix, self.chars.horizontal);
            push_text(&mut prefix, " ");
            lines.push(
                TreeLine {
                    content: child.name.clone(),
                    depth,
                    is_directory: child.is_directory,
                    path: child.path.clone(),
                    prefix,
                },
            );
            let ghost mid = lines@;
            proof {
                assert(mid.subrange(0, pre.len() as int) =~= pre);
                lemma_lines_stable(self, pre, mid, base as int, before);
                assert(self.lines_match(mid, pre.len() as int, seq![row])) by {
                    assert(mid[pre.len() as int + 0] == mid.last());
                }
                lemma_lines_concat(self, mid, base as int, before, seq![row]);
            }
            let ghost sub = if child.is_directory && child.children@.len() > 0 {
                forest_rows(
                    child.children@,
                    child.children@.len() as int,
                    next_lead(lead@, last, self.chars.vertical@),
                    deeper(depth as nat),
                    self.chars.vertical@,
                )
            } else {
                seq![]
            };
            if child.is_directory && child.children.len() > 0 {
                let mut next = lead.clone();
                if last {
                    push_text(&mut next, "    ");
                } else {
                    push_text(&mut next, self.chars.vertical);
                    push_text(&mut next, "   ");
                }
                let d = if depth < usize::MAX {
                    depth + 1
                } else {
                    depth
                };
                self.format_tree_lines_recursive(child, &next, d, lines);
            }
            proof {
                if !(child.is_directory && child.children@.len() > 0) {
                    assert(lines@ == mid);
                    assert(lines@.subrange(0, mid.len() as int) =~= mid);
                    assert(self.lines_match(lines@, mid.len() as int, sub));
                }
                lemma_lines_stable(self, mid, lines@, base as int, before.push(row));
                lemma_lines_concat(self, lines@, base as int, before.push(row), sub);
                assert(node_rows(*child, lead@, last, depth as nat, self.chars.vertical@) =~= seq![row] + sub);
                assert(forest_rows(node.children@, i + 1, lead@, depth as nat, self.chars.vertical@)
                    =~= before.push(row) + sub);
                assert(lines@.subrange(0, base as int) =~= mid.subrange(0, base as int));
                assert(mid.subrange(0, base as int) =~= pre.subrange(0, base as int));
            }
            i = i + 1;
        }
    }
}

/// Rendering depends on the formatter's options and on the text of its
/// characters only.
pub proof fn lemma_rows_text_same_chars(f: &TreeFormatter, g: &TreeFormatter, rows: Seq<Row>)
    requires
        f.options == g.options,
        f.chars.branch@ == g.chars.branch@,
        f.chars.last_branch@ == g.chars.last_branch@,
        f.chars.horizontal@ == g.chars.horizontal@,
    ensures
        f.rows_text(rows) == g.rows_text(rows),
    decreases rows.len(),
{
    if rows.len() > 0 {
        lemma_rows_text_same_chars(f, g, rows.drop_last());
    }
}

/// The rows of the first `i + 1` siblings: those of the first `i`, then the
/// rows of sibling `i`.
pub proof fn lemma_forest_step(cs: Seq<TreeNode>, i: int, lead: Seq<char>, depth: nat, vertical: Seq<char>)
    requires
        0 <= i < cs.len(),
    ensures
        forest_rows(cs, i + 1, lead, depth, vertical) == forest_rows(cs, i, lead, depth, vertical)
            + node_rows(cs[i], lead, i == cs.len() - 1, depth, vertical),
{
}

/// Lines already matched stay matched when later lines are added.
pub proof fn lemma_lines_stable(f: &TreeFormatter, a: Seq<TreeLine>, b: Seq<TreeLine>, base: int, rows: Seq<Row>)
    requires
        f.lines_match(a, base, rows),
        a.len() <= b.len(),
        b.subrange(0, a.len() as int) == a,
    ensures
        f.lines_match(b, base, rows),
{
    assert forall|j: int| 0 <= j < rows.len() implies f.line_matches(#[trigger] b[base + j], rows[j]) by {
        assert(b[base + j] == b.subrange(0, a.len() as int)[base + j]);
    }
}

/// Two adjacent matched runs form one.
pub proof fn lemma_lines_concat(f: &TreeFormatter, l: Seq<TreeLine>, base: int, a: Seq<Row>, b: Seq<Row>)
    requires
        f.lines_match(l, base, a),
        f.lines_match(l, base + a.len(), b),
    ensures
        f.lines_match(l, base, a + b),
{
    assert forall|j: int| 0 <= j < (a + b).len() implies f.line_matches(#[trigger] l[base + j], (a + b)[j]) by {
        if j >= a.len() {
            let k = j - a.len();
            assert(l[base + a.len() + k] == l[base + j]);
        }
    }
}

/// The text of two runs of rows is the text of each, one after the other.
pub proof fn lemma_rows_text_append(f: &TreeFormatter, a: Seq<Row>, b: Seq<Row>)
    ensures
        f.rows_text(a + b) == f.rows_text(a) + f.rows_text(b),
    decreases b.len(),
{
    if b.len() == 0 {
        assert(a + b =~= a);
        assert(f.rows_text(b) =~= seq![]);
        assert(f.rows_text(a) + f.rows_text(b) =~= f.rows_text(a));
    } else {
        lemma_rows_text_append(f, a, b.drop_last());
        assert((a + b).drop_last() =~= a + b.drop_last());
        assert((a + b).last() == b.last());
    }
}

/// Two trees with the same names, paths, kinds and shape.
pub open spec fn same_tree(a: TreeNode, b: TreeNode) -> bool
    decreases b,
{
    &&& a.name@ == b.name@
    &&& a.path@ == b.path@
    &&& a.is_directory == b.is_directory
    &&& a.children@.len() == b.children@.len()
    &&& forall|i: int|
        0 <= i < b.children@.len() ==> same_tree(#[trigger] a.children@[i], b.children@[i])
}

/// A copy of a tree.
pub fn copy_tree(n: &TreeNode) -> (r: TreeNode)
    ensures
        same_tree(r, *n),
    decreases n,
{
    let mut children: Vec<TreeNode> = Vec::new();
    let mut i: usize = 0;
    while i < n.children.len()
        invariant
            i <= n.children@.len(),
            children@.len() == i,
            forall|k: int| 0 <= k < i ==> same_tree(#[trigger] children@[k], n.children@[k]),
        decreases n.children@.len() - i,
    {
        let c = copy_tree(&n.children[i]);
        children.push(c);
        i = i + 1;
    }
    TreeNode {
        name: n.name.clone(),
        path: n.path.clone(),
        is_directory: n.is_directory,
        children,
    }
}

/// A child that filtering by type keeps: a directory, or a file of an
/// allowed type.
pub open spec fn keeps_type(c: TreeNode, allowed: Seq<FileType>) -> bool {
    c.is_directory || allowed.contains(file_type_of(c.path@, c.is_directory))
}

/// The same node: name, path and kind.
pub open spec fn same_head(a: TreeNode, b: TreeNode) -> bool {
    a.name@ == b.name@ && a.path@ == b.path@ && a.is_directory == b.is_directory
}

fn allowed_contains(allowed: &[FileType], t: FileType) -> (r: bool)
    ensures
        r == allowed@.contains(t),
{
    let mut i: usize = 0;
    while i < allowed.len()
        invariant
            i <= allowed@.len(),
            forall|k: int| 0 <= k < i ==> allowed@[k] != t,
        decreases allowed@.len() - i,
    {
        if allowed[i] == t {
            return true;
        }
        i = i + 1;
    }
    false
}

/// `r` is `t` filtered by type: the same node, whose children are those of
/// `t` that filtering keeps, in order, each kept directory filtered in the
/// same way and each kept file copied whole.
pub open spec fn filtered(r: TreeNode, t: TreeNode, allowed: Seq<FileType>) -> bool
    decreases t, 0nat,
{
    same_head(r, t) && filtered_children(r.children@, t.children@, t.children@.len() as int, allowed)
}

/// `rs` are the first `i` of the siblings `cs` filtered by type.
pub open spec fn filtered_children(rs: Seq<TreeNode>, cs: Seq<TreeNode>, i: int, allowed: Seq<FileType>) -> bool
    decreases cs, i,
{
    if i <= 0 || i > cs.len() {
        rs.len() == 0
    } else if keeps_type(cs[i - 1], allowed) {
        &&& rs.len() > 0
        &&& filtered_children(rs.drop_last(), cs, i - 1, allowed)
        &&& if cs[i - 1].is_directory {
            filtered(rs.last(), cs[i - 1], allowed)
        } else {
            same_tree(rs.last(), cs[i - 1])
        }
    } else {
        filtered_children(rs, cs, i - 1, allowed)
    }
}

proof fn lemma_filtered_children_kept(rs: Seq<TreeNode>, cs: Seq<TreeNode>, i: int, allowed: Seq<FileType>)
    requires
        filtered_children(rs, cs, i, allowed),
    ensures
        forall|j: int| 0 <= j < rs.len() ==> keeps_type(#[trigger] rs[j], allowed),
        forall|j: int|
            #![trigger rs[j]]
            0 <= j < rs.len() ==> exists|k: int|
                #![trigger cs[k]]
                0 <= k < i && k < cs.len() && (if cs[k].is_directory {
                    filtered(rs[j], cs[k], allowed)
                } else {
                    same_tree(rs[j], cs[k])
                }),
    decreases i,
{
    if i <= 0 || i > cs.len() {
    } else if keeps_type(cs[i - 1], allowed) {
        lemma_filtered_children_kept(rs.drop_last(), cs, i - 1, allowed);
        assert forall|j: int| 0 <= j < rs.len() implies keeps_type(#[trigger] rs[j], allowed) by {
            if j < rs.len() - 1 {
                assert(rs[j] == rs.drop_last()[j]);
            } else {
                assert(rs[j] == rs.last());
                if cs[i - 1].is_directory {
                    assert(filtered(rs.last(), cs[i - 1], allowed));
                } else {
                    assert(same_tree(rs.last(), cs[i - 1]));
                }
                assert(same_head(rs[j], cs[i - 1]));
            }
        }
        assert forall|j: int| #![trigger rs[j]] 0 <= j < rs.len() implies exists|k: int|
            #![trigger cs[k]]
            0 <= k < i && k < cs.len() && (if cs[k].is_directory {
                filtered(rs[j], cs[k], allowed)
            } else {
                same_tree(rs[j], cs[k])
            }) by {
            if j < rs.len() - 1 {
                assert(rs[j] == rs.drop_last()[j]);
                let k = choose|k: int|
                    #![trigger cs[k]]
                    0 <= k < i - 1 && k < cs.len() && (if cs[k].is_directory {
                        filtered(rs.drop_last()[j], cs[k], allowed)
                    } else {
                        same_tree(rs.drop_last()[j], cs[k])
                    });
            } else {
                assert(rs[j] == rs.last());
                let k = i - 1;
                assert(cs[k] == cs[i - 1]);
            }
        }
    } else {
        lemma_filtered_children_kept(rs, cs, i - 1, allowed);
    }
}

proof fn lemma_filtered_children_all_kept(rs: Seq<TreeNode>, cs: Seq<TreeNode>, i: int, allowed: Seq<FileType>)
    requires
        0 <= i <= cs.len(),
        filtered_children(rs, cs, i, allowed),
        forall|j: int| 0 <= j < cs.len() ==> keeps_type(#[trigger] cs[j], allowed),
    ensures
        rs.len() == i,
        forall|j: int|
            0 <= j < i ==> if (#[trigger] cs[j]).is_directory {
                filtered(rs[j], cs[j], allowed)
            } else {
                same_tree(rs[j], cs[j])
            },
    decreases i,
{
    if i > 0 {
        assert(keeps_type(cs[i - 1], allowed));
        lemma_filtered_children_all_kept(rs.drop_last(), cs, i - 1, allowed);
        assert forall|j: int| 0 <= j < i implies if (#[trigger] cs[j]).is_directory {
            filtered(rs[j], cs[j], allowed)
        } else {
            same_tree(rs[j], cs[j])
        } by {
            if j < i - 1 {
                assert(rs[j] == rs.drop_last()[j]);
            }
        }
    }
}

/// Filtering a filtered tree again with the same types changes nothing.
pub proof fn lemma_filter_idempotent(t: TreeNode, once: TreeNode, twice: TreeNode, allowed: Seq<FileType>)
    requires
        filtered(once, t, allowed),
        filtered(twice, once, allowed),
    ensures
        same_tree(twice, once),
    decreases t,
{
    let oc = once.children@;
    let tc = t.children@;
    let wc = twice.children@;
    lemma_filtered_children_kept(oc, tc, tc.len() as int, allowed);
    lemma_filtered_children_all_kept(wc, oc, oc.len() as int, allowed);
    assert forall|j: int| 0 <= j < oc.len() implies same_tree(#[trigger] wc[j], oc[j]) by {
        if oc[j].is_directory {
            let k = choose|k: int|
                #![trigger tc[k]]
                0 <= k < tc.len() && k < tc.len() && (if tc[k].is_directory {
                    filtered(oc[j], tc[k], allowed)
                } else {
                    same_tree(oc[j], tc[k])
                });
            if tc[k].is_directory {
                lemma_filter_idempotent(tc[k], oc[j], wc[j], allowed);
            } else {
                assert(same_tree(oc[j], tc[k]));
                assert(oc[j].is_directory == tc[k].is_directory);
            }
        }
    }
}

/// The tree without the files whose type is not allowed; directories stay,
/// filtered in the same way, and kept files are copied whole.
pub fn filter_tree_by_type(tree: &TreeNode, allowed: &[FileType]) -> (r: TreeNode)
    ensures
        filtered(r, *tree, allowed@),
    decreases tree,
{
    let mut kids: Vec<TreeNode> = Vec::new();
    let mut i: usize = 0;
    while i < tree.children.len()
        invariant
            i <= tree.children@.len(),
            filtered_children(kids@, tree.children@, i as int, allowed@),
        decreases tree.children@.len() - i,
    {
        let child = &tree.children[i];
        let ghost before = kids@;
        let (_, t) = get_file_color(child.path.as_str(), child.name.as_str(), child.is_directory);
        if allowed_contains(allowed, t) || child.is_directory {
            let kept = if child.is_directory {
                filter_tree_by_type(child, allowed)
            } else {
                copy_tree(child)
            };
            kids.push(kept);
            assert(kids@.drop_last() =~= before);
        }
        i = i + 1;
    }
    let r = TreeNode {
        name: tree.name.clone(),
        path: tree.path.clone(),
        is_directory: tree.is_directory,
        children: kids,
    };
    assert(r.children@ == kids@);
    r
}

/// Nodes of type number `k` in a subtree, the node itself included.
pub open spec fn node_count(n: TreeNode, k: nat) -> nat
    decreases n, 0nat,
{
    (if type_index(file_type_of(n.path@, n.is_directory)) == k {
        1nat
    } else {
        0nat
    }) + forest_count(n.children@, n.children@.len() as int, k)
}

/// Nodes of type number `k` in the first `i` subtrees of `cs`.
pub open spec fn forest_count(cs: Seq<TreeNode>, i: int, k: nat) -> nat
    decreases cs, i,
{
    if i <= 0 || i > cs.len() {
        0
    } else {
        forest_count(cs, i - 1, k) + node_count(cs[i - 1], k)
    }
}

/// How many nodes of each file type a tree holds.
#[derive(Debug, Clone)]
pub struct FileTypeCounts {
    counts: Vec<usize>,
}

impl FileTypeCounts {
    pub closed spec fn count_of(&self, t: FileType) -> nat {
        self.counts@[type_index(t) as int] as nat
    }

    pub closed spec fn wf(&self) -> bool {
        self.counts@.len() == 10
    }

    /// The number of nodes of type `t` (it stays at the largest `usize`).
    pub fn get(&self, t: FileType) -> (r: usize)
        requires
            self.wf(),
        ensures
            r == self.count_of(t),
    {
        self.counts[t.index()]
    }
}

fn type_at(k: usize) -> (t: FileType)
    requires
        k < 10,
    ensures
        type_index(t) == k,
{
    if k == 0 { FileType::Directory } else if k == 1 { FileType::Executable }
    else if k == 2 { FileType::Archive } else if k == 3 { FileType::Image }
    else if k == 4 { FileType::Document } else if k == 5 { FileType::SourceCode }
    else if k == 6 { FileType::Config } else if k == 7 { FileType::Audio }
    else if k == 8 { FileType::Video } else { FileType::Other }
}

impl FileTypeCounts {
    /// The types that occur, each with its count, most frequent first (types
    /// with equal counts in the order of `FileType`).
    pub fn ranked(&self) -> (r: Vec<(FileType, usize)>)
        requires
            self.wf(),
        ensures
            forall|i: int| 0 <= i < r@.len() ==> (#[trigger] r@[i]).1 == self.count_of(r@[i].0) && r@[i].1 > 0,
            forall|i: int, j: int| 0 <= i < j < r@.len() ==> (#[trigger] r@[i]).1 >= (#[trigger] r@[j]).1,
            forall|i: int, j: int| 0 <= i < j < r@.len() ==> (#[trigger] r@[i]).0 != (#[trigger] r@[j]).0,
            forall|t: FileType| #[trigger] self.count_of(t) > 0 ==> exists|i: int| 0 <= i < r@.len() && r@[i].0 == t,
    {
        let mut out: Vec<(FileType, usize)> = Vec::new();
        let mut k: usize = 0;
        while k < 10
            invariant
                self.wf(),
                k <= 10,
                forall|i: int| 0 <= i < out@.len() ==> (#[trigger] out@[i]).1 == self.count_of(out@[i].0)
                    && out@[i].1 > 0 && type_index(out@[i].0) < k,
                forall|i: int, j: int| 0 <= i < j < out@.len() ==> (#[trigger] out@[i]).1 >= (#[trigger] out@[j]).1,
                forall|i: int, j: int| 0 <= i < j < out@.len() ==> (#[trigger] out@[i]).0 != (#[trigger] out@[j]).0,
                forall|t: FileType| type_index(t) < k && #[trigger] self.count_of(t) > 0 ==> exists|i: int|
                    0 <= i < out@.len() && out@[i].0 == t,
            decreases 10 - k,
        {
            let t = type_at(k);
            let c = self.get(t);
            if c > 0 {
                let mut p: usize = 0;
                while p < out.len() && out[p].1 >= c
                    invariant
                        p <= out@.len(),
                        forall|i: int| 0 <= i < p ==> (#[trigger] out@[i]).1 >= c,
                    decreases out@.len() - p,
                {
                    p = p + 1;
                }
                let ghost before = out@;
                out.insert(p, (t, c));
                proof {
                    assert(out@ == before.insert(p as int, (t, c)));
                    assert forall|i: int| 0 <= i < out@.len() implies (#[trigger] out@[i]).1
                        == self.count_of(out@[i].0) && out@[i].1 > 0 && type_index(out@[i].0) < k + 1 by {
                        if i < p {
                            assert(out@[i] == before[i]);
                        } else if i > p {
                            assert(out@[i] == before[i - 1]);
                        }
                    }
                    assert forall|i: int, j: int| 0 <= i < j < out@.len() implies (#[trigger] out@[i]).1
                        >= (#[trigger] out@[j]).1 by {
                        if p < before.len() {
                            assert(before[p as int].1 < c);
                        }
                        if i < p && j < p {
                            assert(out@[i] == before[i] && out@[j] == before[j]);
                        } else if i < p && j == p {
                            assert(out@[i] == before[i]);
                        } else if i < p {
                            assert(out@[i] == before[i] && out@[j] == before[j - 1]);
                        } else if i == p {
                            assert(out@[j] == before[j - 1]);
                            if j - 1 > p {
                                assert(before[p as int].1 >= before[j - 1].1);
                            }
                        } else {
                            assert(out@[i] == before[i - 1] && out@[j] == before[j - 1]);
                        }
                    }
                    assert forall|i: int, j: int| 0 <= i < j < out@.len() implies (#[trigger] out@[i]).0
                        != (#[trigger] out@[j]).0 by {
                        if i < p && j < p {
                            assert(out@[i] == before[i] && out@[j] == before[j]);
                        } else if i < p && j == p {
                            assert(out@[i] == before[i]);
                        } else if i < p {
                            assert(out@[i] == before[i] && out@[j] == before[j - 1]);
                        } else if i == p {
                            assert(out@[j] == before[j - 1]);
                        } else {
                            assert(out@[i] == before[i - 1] && out@[j] == before[j - 1]);
                        }
                    }
                    assert forall|u: FileType| type_index(u) < k + 1 && #[trigger] self.count_of(u) > 0 implies exists|i: int|
                        0 <= i < out@.len() && out@[i].0 == u by {
                        if type_index(u) == k {
                            assert(u == t);
                            assert(out@[p as int].0 == t);
                        } else {
                            let i = choose|i: int| 0 <= i < before.len() && before[i].0 == u;
                            if i < p {
                                assert(out@[i] == before[i]);
                            } else {
                                assert(out@[i + 1] == before[i]);
                            }
                        }
                    }
                }
            } else {
                proof {
                    assert forall|u: FileType| type_index(u) < k + 1 && #[trigger] self.count_of(u) > 0 implies exists|i: int|
                        0 <= i < out@.len() && out@[i].0 == u by {
                        if type_index(u) == k {
                            assert(u == t);
                        }
                    }
                }
            }
            k = k + 1;
        }
        proof {
            assert forall|t: FileType| #[trigger] self.count_of(t) > 0 implies exists|i: int|
                0 <= i < out@.len() && out@[i].0 == t by {
                assert(type_index(t) < 10);
            }
        }
        out
    }
}

fn count_files_recursive(node: &TreeNode, counts: &mut Vec<usize>)
    requires
        old(counts)@.len() == 10,
    ensures
        final(counts)@.len() == 10,
        forall|k: int|
            0 <= k < 10 ==> #[trigger] final(counts)@[k] == vstd::math::min(
                old(counts)@[k] + node_count(*node, k as nat),
                usize::MAX as int,
            ),
    decreases node,
{
    let (_, t) = get_file_color(node.path.as_str(), node.name.as_str(), node.is_directory);
    let ti = t.index();
    let ghost start = counts@;
    let v = counts[ti];
    counts.set(ti, v.saturating_add(1));
    let n = node.children.len();
    let mut i: usize = 0;
    while i < n
        invariant
            n == node.children@.len(),
            i <= n,
            counts@.len() == 10,
            ti == type_index(file_type_of(node.path@, node.is_directory)),
            forall|k: int|
                0 <= k < 10 ==> #[trigger] counts@[k] == vstd::math::min(
                    start[k] + (if k == ti {
                        1int
                    } else {
                        0int
                    }) + forest_count(node.children@, i as int, k as nat),
                    usize::MAX as int,
                ),
        decreases n - i,
    {
        count_files_recursive(&node.children[i], counts);
        i = i + 1;
    }
}

/// Counts the nodes of a tree by file type.
pub fn count_files_by_type(tree: &TreeNode) -> (r: FileTypeCounts)
    ensures
        r.wf(),
        forall|t: FileType| #[trigger] r.count_of(t) == vstd::math::min(
            node_count(*tree, type_index(t)) as int,
            usize::MAX as int,
        ),
{
    let mut counts: Vec<usize> = Vec::new();
    let mut k: usize = 0;
    while k < 10
        invariant
            k <= 10,
            counts@.len() == k,
            forall|j: int| 0 <= j < k ==> counts@[j] == 0,
        decreases 10 - k,
    {
        counts.push(0);
        k = k + 1;
    }
    count_files_recursive(tree, &mut counts);
    let r = FileTypeCounts { counts };
    assert forall|t: FileType| #[trigger] r.count_of(t) == vstd::math::min(
        node_count(*tree, type_index(t)) as int,
        usize::MAX as int,
    ) by {
        let k = type_index(t) as int;
        assert(0 <= k < 10);
    }
    r
}

/// A node of a flattened tree, in display order.
#[derive(Debug, Clone)]
pub struct FlatTreeNode {
    pub name: String,
    pub depth: usize,
    pub is_directory: bool,
    pub is_last: bool,
}

/// A node together with its depth and whether it is the last of its
/// siblings, in preorder.
pub struct Visit {
    pub node: TreeNode,
    pub depth: nat,
    pub last: bool,
}

/// The preorder visits of a subtree.
pub open spec fn subtree_visits(n: TreeNode, depth: nat, last: bool) -> Seq<Visit>
    decreases n, 0nat,
{
    seq![Visit { node: n, depth, last }] + forest_visits(
        n.children@,
        n.children@.len() as int,
        deeper(depth),
    )
}

/// The preorder visits of the first `k` of the siblings `cs`.
pub open spec fn forest_visits(cs: Seq<TreeNode>, k: int, depth: nat) -> Seq<Visit>
    decreases cs, k,
{
    if k <= 0 || k > cs.len() {
        seq![]
    } else {
        forest_visits(cs, k - 1, depth) + subtree_visits(cs[k - 1], depth, k - 1 == cs.len() - 1)
    }
}

/// The flattened form of a visit.
pub open spec fn flat_matches(f: FlatTreeNode, v: Visit) -> bool {
    f.name@ == v.node.name@ && f.depth == v.depth && f.is_directory == v.node.is_directory
        && f.is_last == v.last
}

/// The nodes of `out` from `base` on are the flattened `visits`.
pub open spec fn flat_from(out: Seq<FlatTreeNode>, base: int, visits: Seq<Visit>) -> bool {
    &&& 0 <= base
    &&& base + visits.len() == out.len()
    &&& forall|j: int| 0 <= j < visits.len() ==> flat_matches(#[trigger] out[base + j], visits[j])
}

fn flatten_into(node: &TreeNode, depth: usize, is_last: bool, out: &mut Vec<FlatTreeNode>)
    ensures
        final(out)@.subrange(0, old(out)@.len() as int) == old(out)@,
        flat_from(final(out)@, old(out)@.len() as int, subtree_visits(*node, depth as nat, is_last)),
    decreases node,
{
    let base = out.len();
    let ghost start = out@;
    out.push(FlatTreeNode { name: node.name.clone(), depth, is_directory: node.is_directory, is_last });
    let d = if depth < usize::MAX {
        depth + 1
    } else {
        depth
    };
    let n = node.children.len();
    let mut i: usize = 0;
    assert(out@.subrange(0, base as int) =~= start);
    while i < n
        invariant
            n == node.children@.len(),
            i <= n,
            base == start.len(),
            d == deeper(depth as nat),
            out@.subrange(0, base as int) == start,
            flat_from(
                out@,
                base as int,
                seq![Visit { node: *node, depth: depth as nat, last: is_last }] + forest_visits(
                    node.children@,
                    i as int,
                    d as nat,
                ),
            ),
        decreases n - i,
    {
        let ghost pre = out@;
        let ghost done = seq![Visit { node: *node, depth: depth as nat, last: is_last }]
            + forest_visits(node.children@, i as int, d as nat);
        flatten_into(&node.children[i], d, i == n - 1, out);
        proof {
            let sub = subtree_visits(node.children@[i as int], d as nat, i == n - 1);
            assert(forest_visits(node.children@, i + 1, d as nat) == forest_visits(
                node.children@,
                i as int,
                d as nat,
            ) + sub);
            let all = seq![Visit { node: *node, depth: depth as nat, last: is_last }]
                + forest_visits(node.children@, i + 1, d as nat);
            assert(all =~= done + sub);
            assert forall|j: int| 0 <= j < all.len() implies flat_matches(
                #[trigger] out@[base + j],
                all[j],
            ) by {
                if j < done.len() {
                    assert(out@[base + j] == out@.subrange(0, pre.len() as int)[base + j]);
                    assert(pre[base + j] == out@[base + j]);
                } else {
                    let k = j - done.len();
                    assert(out@[pre.len() + k] == out@[base + j]);
                }
            }
            assert(out@.subrange(0, base as int) =~= out@.subrange(0, pre.len() as int).subrange(
                0,
                base as int,
            ));
        }
        i = i + 1;
    }
    assert(seq![Visit { node: *node, depth: depth as nat, last: is_last }] + forest_visits(
        node.children@,
        n as int,
        d as nat,
    ) == subtree_visits(*node, depth as nat, is_last));
}

/// The tree in display order: each node with its depth (starting at
/// `depth`) and whether it is the last of its siblings (the root is not).
pub fn flatten_tree(node: &TreeNode, depth: usize) -> (r: Vec<FlatTreeNode>)
    ensures
        flat_from(r@, 0, subtree_visits(*node, depth as nat, false)),
{
    let mut out: Vec<FlatTreeNode> = Vec::new();
    flatten_into(node, depth, false, &mut out);
    out
}

/// The nodes of type `t` among `vs`, in order.
pub open spec fn visits_of_type(vs: Seq<Visit>, t: FileType) -> Seq<TreeNode>
    decreases vs.len(),
{
    if vs.len() == 0 {
        seq![]
    } else if file_type_of(vs.last().node.path@, vs.last().node.is_directory) == t {
        visits_of_type(vs.drop_last(), t).push(vs.last().node)
    } else {
        visits_of_type(vs.drop_last(), t)
    }
}

proof fn lemma_visits_of_type_append(a: Seq<Visit>, b: Seq<Visit>, t: FileType)
    ensures
        visits_of_type(a + b, t) == visits_of_type(a, t) + visits_of_type(b, t),
    decreases b.len(),
{
    if b.len() == 0 {
        assert(a + b =~= a);
        assert(visits_of_type(a, t) + visits_of_type(b, t) =~= visits_of_type(a, t));
    } else {
        lemma_visits_of_type_append(a, b.drop_last(), t);
        assert((a + b).drop_last() =~= a + b.drop_last());
        assert((a + b).last() == b.last());
        if file_type_of(b.last().node.path@, b.last().node.is_directory) == t {
            assert(visits_of_type(a, t) + visits_of_type(b, t) =~= (visits_of_type(a, t)
                + visits_of_type(b.drop_last(), t)).push(b.last().node));
        }
    }
}

/// The nodes behind a list of references.
pub open spec fn derefs(v: Seq<&TreeNode>) -> Seq<TreeNode> {
    Seq::new(v.len(), |i: int| *v[i])
}

/// Appends the nodes of type `target` in the subtree of `node`, in preorder.
pub fn collect_files_by_type<'a>(node: &'a TreeNode, target: FileType, files: &mut Vec<&'a TreeNode>)
    ensures
        derefs(final(files)@) == derefs(old(files)@) + visits_of_type(subtree_visits(*node, 0, false), target),
    decreases node,
{
    let (_, t) = get_file_color(node.path.as_str(), node.name.as_str(), node.is_directory);
    let ghost head = seq![Visit { node: *node, depth: 0, last: false }];
    let ghost start = derefs(files@);
    if t == target {
        files.push(node);
    }
    proof {
        assert(visits_of_type(head, target) == visits_of_type(seq![], target) + (if t == target {
            seq![*node]
        } else {
            seq![]
        })) by {
            assert(head.drop_last() =~= seq![]);
        }
        assert(derefs(files@) =~= start + visits_of_type(head, target));
    }
    let n = node.children.len();
    let mut i: usize = 0;
    while i < n
        invariant
            n == node.children@.len(),
            i <= n,
            derefs(files@) == start + visits_of_type(head, target) + visits_of_type(
                forest_visits(node.children@, i as int, 1),
                target,
            ),
        decreases n - i,
    {
        let ghost before = forest_visits(node.children@, i as int, 1);
        let ghost pre = files@;
        collect_files_by_type(&node.children[i], target, files);
        proof {
            let c = node.children@[i as int];
            lemma_type_visits_ignore_depth(c, 1, i == n - 1, 0, false, target);
            lemma_visits_of_type_append(before, subtree_visits(c, 1, i == n - 1), target);
            assert(forest_visits(node.children@, i + 1, 1) == before + subtree_visits(c, 1, i == n - 1));
            assert(derefs(files@) =~= start + visits_of_type(head, target) + visits_of_type(
                forest_visits(node.children@, i + 1, 1),
                target,
            ));
        }
        i = i + 1;
    }
    proof {
        lemma_visits_of_type_append(head, forest_visits(node.children@, n as int, 1), target);
        assert(subtree_visits(*node, 0, false) == head + forest_visits(node.children@, n as int, 1));
        assert(derefs(files@) =~= start + visits_of_type(subtree_visits(*node, 0, false), target));
    }
}

/// Which nodes have a type does not depend on depths or sibling positions.
pub proof fn lemma_type_visits_ignore_depth(
    n: TreeNode,
    d1: nat,
    l1: bool,
    d2: nat,
    l2: bool,
    t: FileType,
)
    ensures
        visits_of_type(subtree_visits(n, d1, l1), t) == visits_of_type(subtree_visits(n, d2, l2), t),
    decreases n, 0nat,
{
    lemma_forest_type_visits_ignore_depth(n.children@, n.children@.len() as int, deeper(d1), deeper(d2), t);
    let h1 = seq![Visit { node: n, depth: d1, last: l1 }];
    let h2 = seq![Visit { node: n, depth: d2, last: l2 }];
    lemma_visits_of_type_append(h1, forest_visits(n.children@, n.children@.len() as int, deeper(d1)), t);
    lemma_visits_of_type_append(h2, forest_visits(n.children@, n.children@.len() as int, deeper(d2)), t);
    assert(h1.drop_last() =~= seq![]);
    assert(h2.drop_last() =~= seq![]);
}

proof fn lemma_forest_type_visits_ignore_depth(cs: Seq<TreeNode>, k: int, d1: nat, d2: nat, t: FileType)
    ensures
        visits_of_type(forest_visits(cs, k, d1), t) == visits_of_type(forest_visits(cs, k, d2), t),
    decreases cs, k,
{
    if k > 0 && k <= cs.len() {
        lemma_forest_type_visits_ignore_depth(cs, k - 1, d1, d2, t);
        lemma_type_visits_ignore_depth(cs[k - 1], d1, k - 1 == cs.len() - 1, d2, k - 1 == cs.len() - 1, t);
        lemma_visits_of_type_append(forest_visits(cs, k - 1, d1), subtree_visits(cs[k - 1], d1, k - 1 == cs.len() - 1), t);
        lemma_visits_of_type_append(forest_visits(cs, k - 1, d2), subtree_visits(cs[k - 1], d2, k - 1 == cs.len() - 1), t);
    }
}

} // verus!
