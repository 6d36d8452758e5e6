use dumpfs::config::Config;
use dumpfs::git::GitCachePolicy;
use dumpfs::scanner::Scanner;
use dumpfs::snapshot::{EntryKind, FsDir, FsEntry, FsLeaf, ReadOutcome};
use dumpfs::tokenizer::{TokenCount, Tokenizer, TokenizerError};
use dumpfs::types::Metadata;

/// A deterministic tokenizer for tests: one token per character.
struct CharTokenizer;

impl Tokenizer for CharTokenizer {
    fn count_tokens(&mut self, text: &str) -> Result<TokenCount, TokenizerError> {
        Ok(TokenCount { tokens: text.chars().count(), cached: None })
    }

    fn model_context_window(&self) -> usize {
        1000
    }
}

/// A tokenizer that always fails.
struct BrokenTokenizer;

impl Tokenizer for BrokenTokenizer {
    fn count_tokens(&mut self, _text: &str) -> Result<TokenCount, TokenizerError> {
        Err(TokenizerError::ApiError("unreachable backend".to_string()))
    }

    fn model_context_window(&self) -> usize {
        0
    }
}

fn token_config() -> Config {
    Config {
        target_dir: ".".to_string(),
        output_file: "output.xml".to_string(),
        ignore_patterns: vec![],
        include_patterns: vec![],
        num_threads: 1,
        respect_gitignore: false,
        gitignore_path: None,
        model: None,
        repo_url: None,
        git_repo: None,
        git_cache_policy: GitCachePolicy::AlwaysPull,
        include_metadata: false,
        clip: false,
        stdout: false,
    }
}

fn tmeta(size: u64) -> Metadata {
    Metadata { size, modified: 0, permissions: String::new() }
}

fn ttext(name: &str, content: &str) -> FsEntry {
    let bytes = content.as_bytes();
    FsEntry::Leaf(FsLeaf {
        name: name.to_string(),
        metadata: tmeta(bytes.len() as u64),
        kind: EntryKind::File,
        sample: bytes.to_vec(),
        content: ReadOutcome::Text(content.to_string()),
        target: String::new(),
    })
}

fn token_root() -> FsDir {
    FsDir {
        name: "root".to_string(),
        metadata: tmeta(0),
        entries: Some(vec![
            ttext("a.txt", "hello\n"),
            FsEntry::Dir(FsDir {
                name: "c".to_string(),
                metadata: tmeta(0),
                entries: Some(vec![ttext("d.txt", "x\ny\n")]),
            }),
            FsEntry::Leaf(FsLeaf {
                name: "b.bin".to_string(),
                metadata: tmeta(4),
                kind: EntryKind::File,
                sample: vec![0xff, 0xfe, 0xfd, 0xfc],
                content: ReadOutcome::NotRead,
                target: String::new(),
            }),
        ]),
    }
}

#[test]
fn test_count_tokens_over_scan() {
    let root = token_root();
    let mut scanner = Scanner::new(token_config());
    scanner.scan(&root).unwrap();
    let mut tok = CharTokenizer;
    scanner.count_tokens_with(&root, &mut tok);
    let stats = scanner.get_statistics();

    // One token per character of each text file; the binary gets none.
    assert_eq!(stats.total_tokens, Some(10));
    assert_eq!(stats.file_detail("root/a.txt").unwrap().tokens, Some(6));
    assert_eq!(stats.file_detail("root/c/d.txt").unwrap().tokens, Some(4));
    assert_eq!(stats.file_detail("root/b.bin").unwrap().tokens, None);
    // Everything else is untouched.
    assert_eq!(stats.files_processed, 3);
    assert_eq!(stats.total_lines, 3);
    assert_eq!(stats.total_chars, 10);
}

#[test]
fn test_failing_tokenizer_changes_nothing() {
    let root = token_root();
    let mut scanner = Scanner::new(token_config());
    scanner.scan(&root).unwrap();
    let mut tok = BrokenTokenizer;
    scanner.count_tokens_with(&root, &mut tok);
    let stats = scanner.get_statistics();

    assert_eq!(stats.total_tokens, None);
    assert_eq!(stats.file_detail("root/a.txt").unwrap().tokens, None);
    assert_eq!(stats.files_processed, 3);
}

#[test]
fn test_record_token_count_direct() {
    let root = token_root();
    let mut scanner = Scanner::new(token_config());
    scanner.scan(&root).unwrap();

    assert!(scanner.statistics.record_token_count("root/a.txt", 11));
    assert_eq!(scanner.statistics.total_tokens, Some(11));
    // A second count for the same file is refused.
    assert!(!scanner.statistics.record_token_count("root/a.txt", 5));
    assert_eq!(scanner.statistics.total_tokens, Some(11));
    // An unknown path is refused.
    assert!(!scanner.statistics.record_token_count("root/nope", 5));
    assert_eq!(scanner.statistics.total_tokens, Some(11));
}
