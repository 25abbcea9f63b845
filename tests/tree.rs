use directory_scanner::tree::{collect_files_by_type, copy_tree, flatten_tree, TreeChars};
use directory_scanner::{
    count_files_by_type, filter_tree_by_type, format_tree_lines, format_tree_output,
    get_file_color, FileType, TreeFormatOptions, TreeFormatter, TreeNode,
};

fn leaf(path: &str) -> TreeNode {
    TreeNode::from_parts(path.to_string(), false, Vec::new())
}

fn sample() -> TreeNode {
    let src = TreeNode::from_parts(
        "p/src".to_string(),
        true,
        vec![leaf("p/src/main.rs"), leaf("p/src/lib.rs")],
    );
    TreeNode::from_parts(
        "p".to_string(),
        true,
        vec![src, leaf("p/README.md"), leaf("p/logo.PNG")],
    )
}

#[test]
fn tree_text_with_unicode_characters() {
    let out = format_tree_output(&sample(), false);
    assert_eq!(
        out,
        "p\n├─── src\n│   ├─── main.rs\n│   └─── lib.rs\n├─── README.md\n└─── logo.PNG\n"
    );
}

#[test]
fn tree_text_with_ascii_and_color() {
    let f = TreeFormatter::new(TreeFormatOptions::new().use_unicode(false));
    let t = TreeNode::from_parts("r".into(), true, vec![leaf("r/a.zip")]);
    assert_eq!(f.format_tree(&t), "r\n`--- a.zip\n");
    let c = TreeFormatter::new(TreeFormatOptions::new().colorize(true));
    assert_eq!(
        c.format_tree(&t),
        "\x1b[1;34mr\x1b[0m\n\x1b[37m└\x1b[0m─── \x1b[1;31ma.zip\x1b[0m\n"
    );
}

#[test]
fn tree_lines_carry_depth_and_prefix() {
    let lines = format_tree_lines(&sample(), false);
    assert_eq!(lines.len(), 6);
    assert_eq!(lines[0].content, "p");
    assert_eq!(lines[0].prefix, "");
    assert_eq!(lines[1].content, "src");
    assert_eq!(lines[1].depth, 1);
    assert_eq!(lines[1].prefix, "├─── ");
    assert_eq!(lines[2].content, "main.rs");
    assert_eq!(lines[2].depth, 2);
    assert_eq!(lines[2].prefix, "│   ├─── ");
    assert_eq!(lines[5].prefix, "└─── ");
    assert_eq!(lines[5].path, "p/logo.PNG");
}

#[test]
fn file_types_by_extension() {
    assert_eq!(get_file_color("a/b.PNG", "b.PNG", false).1, FileType::Image);
    assert_eq!(get_file_color("x.tar.gz", "x.tar.gz", false).1, FileType::Archive);
    assert_eq!(get_file_color("Makefile", "Makefile", false).1, FileType::Other);
    assert_eq!(get_file_color(".bashrc", ".bashrc", false).1, FileType::Other);
    assert_eq!(get_file_color("dir.rs", "dir.rs", true).1, FileType::Directory);
    assert_eq!(get_file_color("c.yml", "c.yml", false).0, "\x1b[1;33mc.yml\x1b[0m");
    assert_eq!(FileType::SourceCode.description(), "Source Code");
    assert_eq!(FileType::Other.description(), "File");
    assert_eq!(FileType::Video.color_code(), "\x1b[96m");
}

#[test]
fn filtering_keeps_directories_and_allowed_files() {
    let t = filter_tree_by_type(&sample(), &[FileType::SourceCode]);
    assert_eq!(t.children.len(), 1);
    assert_eq!(t.children[0].name, "src");
    assert_eq!(t.children[0].children.len(), 2);
    let docs = filter_tree_by_type(&sample(), &[FileType::Document, FileType::Image]);
    let names: Vec<&str> = docs.children.iter().map(|c| c.name.as_str()).collect();
    assert_eq!(names, vec!["src", "README.md", "logo.PNG"]);
    assert!(docs.children[0].children.is_empty());
}

#[test]
fn counting_by_type() {
    let c = count_files_by_type(&sample());
    assert_eq!(c.get(FileType::Directory), 2);
    assert_eq!(c.get(FileType::SourceCode), 2);
    assert_eq!(c.get(FileType::Document), 1);
    assert_eq!(c.get(FileType::Image), 1);
    assert_eq!(c.get(FileType::Audio), 0);
}

#[test]
fn copies_and_character_sets() {
    let t = sample();
    let c = copy_tree(&t);
    assert_eq!(format_tree_output(&c, false), format_tree_output(&t, false));
    assert_eq!(TreeChars::ascii().last_branch, "`");
    assert_eq!(TreeChars::unicode().vertical, "│");
    let named = TreeNode::from_parts("/".to_string(), true, Vec::new());
    assert_eq!(named.name, "/");
}

#[test]
fn flattened_tree_in_display_order() {
    let flat = flatten_tree(&sample(), 0);
    let names: Vec<&str> = flat.iter().map(|f| f.name.as_str()).collect();
    assert_eq!(names, vec!["p", "src", "main.rs", "lib.rs", "README.md", "logo.PNG"]);
    let depths: Vec<usize> = flat.iter().map(|f| f.depth).collect();
    assert_eq!(depths, vec![0, 1, 2, 2, 1, 1]);
    let lasts: Vec<bool> = flat.iter().map(|f| f.is_last).collect();
    assert_eq!(lasts, vec![false, false, false, true, false, true]);
    assert!(flat[1].is_directory && !flat[2].is_directory);
}

#[test]
fn collecting_nodes_of_one_type() {
    let t = sample();
    let mut found = Vec::new();
    collect_files_by_type(&t, FileType::SourceCode, &mut found);
    let paths: Vec<&str> = found.iter().map(|n| n.path.as_str()).collect();
    assert_eq!(paths, vec!["p/src/main.rs", "p/src/lib.rs"]);
    let mut dirs = Vec::new();
    collect_files_by_type(&t, FileType::Directory, &mut dirs);
    assert_eq!(dirs.len(), 2);
}

#[test]
fn ranked_counts_most_frequent_first() {
    let r = count_files_by_type(&sample()).ranked();
    assert_eq!(r[0].1, 2);
    assert_eq!(r[1].1, 2);
    assert_eq!(r[0].0, FileType::Directory);
    assert_eq!(r[1].0, FileType::SourceCode);
    assert_eq!(r.len(), 4);
    assert!(r.iter().all(|(_, n)| *n > 0));
}

#[test]
fn filtering_twice_changes_nothing_more() {
    let once = filter_tree_by_type(&sample(), &[FileType::Document]);
    let twice = filter_tree_by_type(&once, &[FileType::Document]);
    assert_eq!(format_tree_output(&once, false), format_tree_output(&twice, false));
}
