use dumpfs::classify::classify;
use dumpfs::config::{Config, ConfigError, PathProbe};
use dumpfs::git::GitCachePolicy;
use dumpfs::git::{GitHost, GitRepoInfo};
use dumpfs::report::FileReportInfo;
use dumpfs::scanner::Scanner;
use dumpfs::snapshot::{EntryKind, FsDir, FsEntry, FsLeaf, ReadOutcome};
use dumpfs::types::{FileType, Metadata, Node};

fn meta(size: u64) -> Metadata {
    Metadata { size, modified: 1700000000, permissions: "644".to_string() }
}

fn text_leaf(name: &str, content: &str) -> FsEntry {
    let bytes = content.as_bytes();
    let sample_len = bytes.len().min(8192);
    FsEntry::Leaf(FsLeaf {
        name: name.to_string(),
        metadata: meta(bytes.len() as u64),
        kind: EntryKind::File,
        sample: bytes[..sample_len].to_vec(),
        content: ReadOutcome::Text(content.to_string()),
        target: String::new(),
    })
}

fn binary_leaf(name: &str, bytes: &[u8]) -> FsEntry {
    FsEntry::Leaf(FsLeaf {
        name: name.to_string(),
        metadata: meta(bytes.len() as u64),
        kind: EntryKind::File,
        sample: bytes.to_vec(),
        content: ReadOutcome::NotRead,
        target: String::new(),
    })
}

fn symlink_leaf(name: &str, target: &str) -> FsEntry {
    FsEntry::Leaf(FsLeaf {
        name: name.to_string(),
        metadata: meta(0),
        kind: EntryKind::Symlink,
        sample: Vec::new(),
        content: ReadOutcome::NotRead,
        target: target.to_string(),
    })
}

fn dir_entry(name: &str, entries: Vec<FsEntry>) -> FsEntry {
    FsEntry::Dir(FsDir { name: name.to_string(), metadata: meta(0), entries: Some(entries) })
}

fn root_dir(name: &str, entries: Vec<FsEntry>) -> FsDir {
    FsDir { name: name.to_string(), metadata: meta(0), entries: Some(entries) }
}

fn test_config() -> Config {
    Config {
        target_dir: ".".to_string(),
        output_file: "output.xml".to_string(),
        ignore_patterns: vec![],
        include_patterns: vec![],
        num_threads: 1,
        respect_gitignore: false,
        gitignore_path: None,
        model: None,
        repo_url: None,
        git_repo: None,
        git_cache_policy: GitCachePolicy::AlwaysPull,
        include_metadata: false,
        clip: false,
        stdout: false,
    }
}

fn leaf_names(node: &Node, out: &mut Vec<String>) {
    match node {
        Node::Directory(d) => {
            for child in &d.contents {
                leaf_names(child, out);
            }
        }
        Node::File(f) => out.push(f.name.clone()),
        Node::Binary(b) => out.push(b.name.clone()),
        Node::Symlink(s) => out.push(s.name.clone()),
    }
}

fn all_names(node: &Node, out: &mut Vec<String>) {
    match node {
        Node::Directory(d) => {
            out.push(d.name.clone());
            for child in &d.contents {
                all_names(child, out);
            }
        }
        Node::File(f) => out.push(f.name.clone()),
        Node::Binary(b) => out.push(b.name.clone()),
        Node::Symlink(s) => out.push(s.name.clone()),
    }
}

/// The scenario: `a.txt` with "hello\n", `b.bin` with four non-UTF-8 bytes,
/// and `c/d.txt` with "x\ny\n".
fn scenario_root() -> FsDir {
    root_dir(
        "root",
        vec![
            text_leaf("a.txt", "hello\n"),
            binary_leaf("b.bin", &[0xff, 0xfe, 0xfd, 0xfc]),
            dir_entry("c", vec![text_leaf("d.txt", "x\ny\n")]),
        ],
    )
}

#[test]
fn test_scan_scenario_statistics() {
    let mut scanner = Scanner::new(test_config());
    let tree = scanner.scan(&scenario_root()).unwrap();
    let stats = scanner.get_statistics();

    assert_eq!(stats.files_processed, 3);
    assert_eq!(stats.total_lines, 3);
    assert_eq!(stats.total_chars, 10);
    assert_eq!(stats.total_tokens, None);

    let mut names = Vec::new();
    leaf_names(&Node::Directory(tree), &mut names);
    names.sort();
    assert_eq!(names, vec!["a.txt".to_string(), "b.bin".to_string(), "d.txt".to_string()]);
}

#[test]
fn test_scan_detail_measurement() {
    let mut scanner = Scanner::new(test_config());
    scanner.scan(&scenario_root()).unwrap();
    let stats = scanner.get_statistics();

    assert_eq!(
        stats.file_detail("root/a.txt"),
        Some(FileReportInfo { lines: 1, chars: 6, tokens: None })
    );
    assert_eq!(
        stats.file_detail("root/c/d.txt"),
        Some(FileReportInfo { lines: 2, chars: 4, tokens: None })
    );
    assert_eq!(
        stats.file_detail("root/b.bin"),
        Some(FileReportInfo { lines: 0, chars: 0, tokens: None })
    );
    assert_eq!(stats.file_detail("root/missing"), None);
}

#[test]
fn test_scan_unterminated_final_line() {
    let mut scanner = Scanner::new(test_config());
    scanner.scan(&root_dir("root", vec![text_leaf("f.txt", "line1\nline2")])).unwrap();
    let stats = scanner.get_statistics();
    assert_eq!(
        stats.file_detail("root/f.txt"),
        Some(FileReportInfo { lines: 2, chars: 11, tokens: None })
    );
}

#[test]
fn test_files_processed_counts_tree_leaves() {
    let mut scanner = Scanner::new(test_config());
    let tree = scanner.scan(&scenario_root()).unwrap();
    let stats = scanner.get_statistics();

    let mut names = Vec::new();
    leaf_names(&Node::Directory(tree), &mut names);
    assert_eq!(stats.files_processed as usize, names.len());
    assert_eq!(stats.files_processed as usize, stats.file_details.len());
}

#[test]
fn test_scan_idempotent() {
    let root = scenario_root();
    let mut s1 = Scanner::new(test_config());
    let mut s2 = Scanner::new(test_config());
    let t1 = s1.scan(&root).unwrap();
    let t2 = s2.scan(&root).unwrap();

    let mut n1 = Vec::new();
    let mut n2 = Vec::new();
    all_names(&Node::Directory(t1), &mut n1);
    all_names(&Node::Directory(t2), &mut n2);
    assert_eq!(n1, n2);
    assert_eq!(s1.get_statistics().total_chars, s2.get_statistics().total_chars);
    assert_eq!(s1.get_statistics().files_processed, s2.get_statistics().files_processed);
}

#[test]
fn test_ignore_patterns() {
    let mut config = test_config();
    config.ignore_patterns = vec!["*.txt".to_string()];
    let mut scanner = Scanner::new(config);
    let tree = scanner.scan(&scenario_root()).unwrap();

    let mut names = Vec::new();
    all_names(&Node::Directory(tree), &mut names);
    assert!(!names.contains(&"a.txt".to_string()));
    assert!(!names.contains(&"d.txt".to_string()));
    assert!(names.contains(&"b.bin".to_string()));
}

#[test]
fn test_include_patterns() {
    let mut config = test_config();
    config.include_patterns = vec!["*.bin".to_string()];
    let mut scanner = Scanner::new(config);
    let tree = scanner.scan(&scenario_root()).unwrap();

    let mut names = Vec::new();
    leaf_names(&Node::Directory(tree), &mut names);
    assert_eq!(names, vec!["b.bin".to_string()]);
}

#[test]
fn test_default_ignore_set() {
    let root = root_dir(
        "root",
        vec![
            dir_entry(".git", vec![text_leaf("config", "[core]\n")]),
            dir_entry("node_modules", vec![]),
            text_leaf("keep.txt", "kept\n"),
        ],
    );
    let mut scanner = Scanner::new(test_config());
    let tree = scanner.scan(&root).unwrap();

    let mut names = Vec::new();
    all_names(&Node::Directory(tree), &mut names);
    assert!(!names.contains(&".git".to_string()));
    assert!(!names.contains(&"node_modules".to_string()));
    assert!(names.contains(&"keep.txt".to_string()));
}

#[test]
fn test_output_file_self_exclusion() {
    let root = root_dir(
        "root",
        vec![text_leaf("output.xml", "<old/>\n"), text_leaf("data.txt", "data\n")],
    );
    let mut scanner = Scanner::new(test_config());
    let tree = scanner.scan(&root).unwrap();

    let mut names = Vec::new();
    leaf_names(&Node::Directory(tree), &mut names);
    assert!(!names.contains(&"output.xml".to_string()));
    assert!(names.contains(&"data.txt".to_string()));
}

#[test]
fn test_large_file_placeholder() {
    // A 2 MiB text file: its content is replaced by a placeholder and it
    // contributes nothing to the line and character totals.
    let two_mib: u64 = 2 * 1024 * 1024;
    let leaf = FsEntry::Leaf(FsLeaf {
        name: "large_file.txt".to_string(),
        metadata: meta(two_mib),
        kind: EntryKind::File,
        sample: vec![b'a'; 8192],
        content: ReadOutcome::NotRead,
        target: String::new(),
    });
    let mut scanner = Scanner::new(test_config());
    let tree = scanner.scan(&root_dir("root", vec![leaf])).unwrap();
    let stats = scanner.get_statistics();

    assert_eq!(
        stats.file_detail("root/large_file.txt"),
        Some(FileReportInfo { lines: 0, chars: 0, tokens: None })
    );
    match &tree.contents[0] {
        Node::File(f) => {
            let content = f.content.as_ref().unwrap();
            assert_eq!(content, "File too large to include content. Size: 2.00 MB");
        }
        other => panic!("expected a file node, got {:?}", other),
    }
}

#[test]
fn test_failed_read_placeholder() {
    let leaf = FsEntry::Leaf(FsLeaf {
        name: "locked.txt".to_string(),
        metadata: meta(12),
        kind: EntryKind::File,
        sample: b"hello world\n".to_vec(),
        content: ReadOutcome::Failed("permission denied".to_string()),
        target: String::new(),
    });
    let mut scanner = Scanner::new(test_config());
    let tree = scanner.scan(&root_dir("root", vec![leaf])).unwrap();
    let stats = scanner.get_statistics();

    assert_eq!(
        stats.file_detail("root/locked.txt"),
        Some(FileReportInfo { lines: 0, chars: 0, tokens: None })
    );
    match &tree.contents[0] {
        Node::File(f) => {
            assert_eq!(f.content.as_ref().unwrap(), "Failed to read file: permission denied");
        }
        other => panic!("expected a file node, got {:?}", other),
    }
}

#[test]
fn test_symlink_node() {
    let root = root_dir("root", vec![symlink_leaf("link.txt", "/target/file.txt")]);
    let mut scanner = Scanner::new(test_config());
    let tree = scanner.scan(&root).unwrap();
    let stats = scanner.get_statistics();

    assert_eq!(stats.files_processed, 1);
    assert_eq!(stats.total_lines, 0);
    assert_eq!(stats.total_chars, 0);
    assert_eq!(
        stats.file_detail("root/link.txt"),
        Some(FileReportInfo { lines: 0, chars: 0, tokens: None })
    );
    match &tree.contents[0] {
        Node::Symlink(s) => assert_eq!(s.target, "/target/file.txt"),
        other => panic!("expected a symlink node, got {:?}", other),
    }
}

#[test]
fn test_unreadable_root_fails() {
    let root = FsDir { name: "root".to_string(), metadata: meta(0), entries: None };
    let mut scanner = Scanner::new(test_config());
    assert!(scanner.scan(&root).is_err());
    assert_eq!(scanner.get_statistics().files_processed, 0);
}

#[test]
fn test_unreadable_subdir_is_skipped() {
    let bad = FsEntry::Dir(FsDir { name: "locked".to_string(), metadata: meta(0), entries: None });
    let root = root_dir("root", vec![bad, text_leaf("ok.txt", "fine\n")]);
    let mut scanner = Scanner::new(test_config());
    let tree = scanner.scan(&root).unwrap();

    let mut names = Vec::new();
    all_names(&Node::Directory(tree), &mut names);
    assert!(!names.contains(&"locked".to_string()));
    assert!(names.contains(&"ok.txt".to_string()));
}

#[test]
fn test_binary_sniffing_control_bytes() {
    // Valid UTF-8, but more than a tenth of the bytes are control-like.
    let mut sample: Vec<u8> = Vec::new();
    for _ in 0..50 {
        sample.push(0x01);
    }
    for _ in 0..50 {
        sample.push(b'a');
    }
    assert_eq!(classify(EntryKind::File, 100, &sample), FileType::BinaryFile);
}

#[test]
fn test_text_sniffing_accepts_plain_text() {
    let sample = b"A plain line of text\nwith two lines\n".to_vec();
    assert_eq!(classify(EntryKind::File, sample.len() as u64, &sample), FileType::TextFile);
}

#[test]
fn test_sniffing_boundary_ratio() {
    // Exactly one control byte in ten: not strictly below the threshold, so
    // the file counts as binary.
    let mut sample: Vec<u8> = vec![0x01];
    sample.extend_from_slice(b"abcdefghi");
    assert_eq!(sample.len(), 10);
    assert_eq!(classify(EntryKind::File, 10, &sample), FileType::BinaryFile);

    // One control byte in eleven is below the threshold.
    let mut sample: Vec<u8> = vec![0x01];
    sample.extend_from_slice(b"abcdefghij");
    assert_eq!(classify(EntryKind::File, 11, &sample), FileType::TextFile);
}

#[test]
fn test_classify_kinds() {
    assert_eq!(classify(EntryKind::Symlink, 0, &Vec::new()), FileType::Symlink);
    assert_eq!(classify(EntryKind::Other, 0, &Vec::new()), FileType::Other);
    // Empty regular files are not sniffed as text.
    assert_eq!(classify(EntryKind::File, 0, &Vec::new()), FileType::BinaryFile);
    // Invalid UTF-8 is binary.
    assert_eq!(classify(EntryKind::File, 4, &vec![0xff, 0xfe, 0xfd, 0xfc]), FileType::BinaryFile);
    // Huge files are never sniffed.
    assert_eq!(classify(EntryKind::File, 8_000_000, &b"text".to_vec()), FileType::BinaryFile);
}

#[test]
fn test_normalize_path() {
    let repo_path = "/tmp/cache/dumpfs/github/username/repo";
    let git_repo = GitRepoInfo {
        url: "https://github.com/username/repo".to_string(),
        host: GitHost::GitHub,
        owner: "username".to_string(),
        name: "repo".to_string(),
        cache_path: repo_path.to_string(),
    };
    let mut config = test_config();
    config.target_dir = repo_path.to_string();
    config.repo_url = Some("https://github.com/username/repo".to_string());
    config.git_repo = Some(git_repo);

    let scanner = Scanner::new(config);

    let test_cases = vec![
        ("/tmp/cache/dumpfs/github/username/repo/file.txt", "file.txt"),
        ("/tmp/cache/dumpfs/github/username/repo/src/main.rs", "src/main.rs"),
        ("/other/path/file.txt", "/other/path/file.txt"),
    ];
    for (input, expected) in test_cases {
        assert_eq!(scanner.normalize_path(input), expected);
    }
}

#[test]
fn test_get_normalized_path_for_reporting() {
    let repo_path = "/tmp/cache/dumpfs/github/username/repo";
    let git_repo = GitRepoInfo {
        url: "https://github.com/username/repo".to_string(),
        host: GitHost::GitHub,
        owner: "username".to_string(),
        name: "repo".to_string(),
        cache_path: repo_path.to_string(),
    };
    let mut config = test_config();
    config.target_dir = repo_path.to_string();
    config.repo_url = Some("https://github.com/username/repo".to_string());
    config.git_repo = Some(git_repo);

    let scanner = Scanner::new(config);

    assert_eq!(scanner.get_normalized_path_for_reporting(repo_path), "username/repo");
    assert_eq!(
        scanner.get_normalized_path_for_reporting("/tmp/cache/dumpfs/github/username/repo/src/main.rs"),
        "username/repo/src/main.rs"
    );
    assert_eq!(
        scanner.get_normalized_path_for_reporting("/other/path/file.txt"),
        "/other/path/file.txt"
    );
}

#[test]
fn test_output_file_path_for_git_repo() {
    let repo_path = "/tmp/cache/dumpfs/github/username/repo";
    let test_cases = vec![
        (".dumpfs.context.xml", "/tmp/cache/dumpfs/github/username/repo/.dumpfs.context.xml"),
        ("output/file.xml", "output/file.xml"),
        ("/tmp/output.xml", "/tmp/output.xml"),
    ];
    for (input, expected) in test_cases {
        assert_eq!(dumpfs::config::output_path_for_repo(input, repo_path), expected);
    }
}

#[test]
fn test_validate_config() {
    let config = test_config();
    let good = PathProbe {
        target_exists: true,
        target_is_dir: true,
        output_parent_exists: true,
        gitignore_exists: false,
    };
    assert!(config.validate(&good).is_ok());

    let missing_target = PathProbe { target_exists: false, ..good };
    assert!(matches!(config.validate(&missing_target), Err(ConfigError::TargetNotFound(_))));

    let not_dir = PathProbe { target_is_dir: false, ..good };
    assert!(matches!(config.validate(&not_dir), Err(ConfigError::TargetNotFound(_))));

    let no_parent = PathProbe { output_parent_exists: false, ..good };
    assert!(matches!(config.validate(&no_parent), Err(ConfigError::OutputDirNotFound(_))));

    let mut with_gitignore = test_config();
    with_gitignore.gitignore_path = Some(".custom-ignore".to_string());
    assert!(matches!(
        with_gitignore.validate(&good),
        Err(ConfigError::GitignoreNotFound(_))
    ));
    let gitignore_ok = PathProbe { gitignore_exists: true, ..good };
    assert!(with_gitignore.validate(&gitignore_ok).is_ok());
}

#[test]
fn test_output_file_self_exclusion_in_repo() {
    let repo_path = "/tmp/cache/dumpfs/github/username/repo";
    let git_repo = GitRepoInfo {
        url: "https://github.com/username/repo".to_string(),
        host: GitHost::GitHub,
        owner: "username".to_string(),
        name: "repo".to_string(),
        cache_path: repo_path.to_string(),
    };
    let mut config = test_config();
    config.target_dir = repo_path.to_string();
    config.output_file = "/tmp/cache/dumpfs/github/username/repo/.context.xml".to_string();
    config.repo_url = Some("https://github.com/username/repo".to_string());
    config.git_repo = Some(git_repo);

    let root = root_dir(
        "repo",
        vec![text_leaf(".context.xml", "<old/>\n"), text_leaf("data.txt", "data\n")],
    );
    let mut scanner = Scanner::new(config);
    let tree = scanner.scan(&root).unwrap();

    let mut names = Vec::new();
    leaf_names(&Node::Directory(tree), &mut names);
    assert!(!names.contains(&".context.xml".to_string()));
    assert!(names.contains(&"data.txt".to_string()));
}
