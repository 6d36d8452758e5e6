use dumpfs::config::Config;
use dumpfs::git::GitCachePolicy;
use dumpfs::scanner::Scanner;
use dumpfs::snapshot::{EntryKind, FsDir, FsEntry, FsLeaf, ReadOutcome};
use dumpfs::types::Metadata;
use dumpfs::writer::{FsWriterFormatter, SystemInfo, TxtWriter, XmlWriter};
use quick_xml::events::Event;
use quick_xml::Reader;

fn meta2(size: u64) -> Metadata {
    Metadata { size, modified: 1700000000, permissions: "644".to_string() }
}

fn text_entry(name: &str, content: &str) -> FsEntry {
    let bytes = content.as_bytes();
    let sample_len = bytes.len().min(8192);
    FsEntry::Leaf(FsLeaf {
        name: name.to_string(),
        metadata: meta2(bytes.len() as u64),
        kind: EntryKind::File,
        sample: bytes[..sample_len].to_vec(),
        content: ReadOutcome::Text(content.to_string()),
        target: String::new(),
    })
}

fn writer_config() -> Config {
    Config {
        target_dir: ".".to_string(),
        output_file: "output.xml".to_string(),
        ignore_patterns: vec![],
        include_patterns: vec![],
        num_threads: 1,
        respect_gitignore: false,
        gitignore_path: None,
        model: None,
        repo_url: None,
        git_repo: None,
        git_cache_policy: GitCachePolicy::AlwaysPull,
        include_metadata: false,
        clip: false,
        stdout: false,
    }
}

fn sysinfo() -> SystemInfo {
    SystemInfo {
        hostname: "testhost".to_string(),
        os: "linux".to_string(),
        kernel: "unix".to_string(),
    }
}

fn sample_tree() -> FsDir {
    FsDir {
        name: "root".to_string(),
        metadata: meta2(0),
        entries: Some(vec![
            FsEntry::Dir(FsDir {
                name: "dir1".to_string(),
                metadata: meta2(0),
                entries: Some(vec![text_entry("file2.txt", "This is another text file\nwith multiple lines\n")]),
            }),
            text_entry("file1.txt", "This is a text file with content\n"),
            FsEntry::Leaf(FsLeaf {
                name: "binary.bin".to_string(),
                metadata: meta2(4),
                kind: EntryKind::File,
                sample: vec![0u8, 1u8, 2u8, 3u8],
                content: ReadOutcome::NotRead,
                target: String::new(),
            }),
            FsEntry::Dir(FsDir {
                name: ".git".to_string(),
                metadata: meta2(0),
                entries: Some(vec![text_entry("config", "[core]\n")]),
            }),
        ]),
    }
}

#[test]
fn test_basic_scan() {
    let config = writer_config();
    let mut scanner = Scanner::new(config.clone());
    let writer = XmlWriter::new(config);

    let root_node = scanner.scan(&sample_tree()).unwrap();
    let xml_content = writer.write(&root_node, &sysinfo(), "2024-01-01T00:00:00Z");

    assert!(xml_content.contains("<directory_scan"));
    assert!(xml_content.contains("<system_info>"));
    assert!(xml_content.contains("<hostname>"));
    assert!(xml_content.contains("<directory name="));
    assert!(xml_content.contains("<file name=\"file1.txt\""));
    assert!(xml_content.contains("This is a text file with content"));

    // The .git directory is ignored by default.
    assert!(!xml_content.contains(".git"));
}

#[test]
fn test_xml_validity() {
    let config = writer_config();
    let mut scanner = Scanner::new(config.clone());
    let writer = XmlWriter::new(config);

    let root_node = scanner.scan(&sample_tree()).unwrap();
    let file_content = writer.write(&root_node, &sysinfo(), "2024-01-01T00:00:00Z");

    let mut reader = Reader::from_str(&file_content);
    let mut depth = 0;
    let mut buf = Vec::new();
    loop {
        match reader.read_event_into(&mut buf) {
            Ok(Event::Start(_)) => depth += 1,
            Ok(Event::End(_)) => depth -= 1,
            Ok(Event::Eof) => break,
            Err(e) => panic!("Error parsing XML: {}", e),
            _ => (),
        }
        buf.clear();
    }
    assert_eq!(depth, 0, "XML structure is not well-balanced");
}

#[test]
fn test_xml_escaping() {
    let config = writer_config();
    let mut scanner = Scanner::new(config.clone());
    let writer = XmlWriter::new(config);

    let root = FsDir {
        name: "root".to_string(),
        metadata: meta2(0),
        entries: Some(vec![text_entry("esc.txt", "a < b && c > d \"quoted\"\n")]),
    };
    let root_node = scanner.scan(&root).unwrap();
    let xml = writer.write(&root_node, &sysinfo(), "now");

    assert!(xml.contains("a &lt; b &amp;&amp; c &gt; d &quot;quoted&quot;"));
    assert!(!xml.contains("a < b &&"));
}

#[test]
fn test_txt_writer_output() {
    let config = writer_config();
    let mut scanner = Scanner::new(config.clone());
    let writer = TxtWriter::new(config);

    let root_node = scanner.scan(&sample_tree()).unwrap();
    let txt = writer.write(&root_node, &sysinfo());

    assert!(txt.starts_with("<codebase name=\"root\">\n"));
    assert!(txt.ends_with("</codebase>\n"));
    assert!(txt.contains("root/file1.txt"));
    assert!(txt.contains("```txt\nThis is a text file with content\n"));
    assert!(txt.contains("This is another text file\nwith multiple lines"));
}

#[test]
fn test_txt_writer_repo_header() {
    let mut config = writer_config();
    config.git_repo = Some(dumpfs::git::GitRepoInfo {
        url: "https://github.com/username/repo".to_string(),
        host: dumpfs::git::GitHost::GitHub,
        owner: "username".to_string(),
        name: "repo".to_string(),
        cache_path: "/tmp/cache".to_string(),
    });
    let mut scanner = Scanner::new(config.clone());
    let writer = TxtWriter::new(config);

    let root = FsDir { name: "repo".to_string(), metadata: meta2(0), entries: Some(vec![]) };
    let root_node = scanner.scan(&root).unwrap();
    let txt = writer.write(&root_node, &sysinfo());

    assert!(txt.contains("=================== REPOSITORY ==================="));
    assert!(txt.contains("URL: https://github.com/username/repo"));
    assert!(txt.contains("Host: github.com"));
    assert!(txt.contains("Owner: username"));
    assert!(txt.contains("Repository: repo"));
}

#[test]
fn test_formatter_dispatch() {
    let config = writer_config();
    let mut scanner = Scanner::new(config.clone());
    let root = FsDir { name: "root".to_string(), metadata: meta2(0), entries: Some(vec![]) };
    let root_node = scanner.scan(&root).unwrap();

    assert_eq!(FsWriterFormatter::default(), FsWriterFormatter::Txt);
    let xml = FsWriterFormatter::Xml.write(config.clone(), &root_node, &sysinfo(), "t");
    assert!(xml.starts_with("<?xml version=\"1.0\" encoding=\"UTF-8\"?>"));
    let txt = FsWriterFormatter::Txt.write(config, &root_node, &sysinfo(), "t");
    assert!(txt.contains("<codebase name=\"root\">"));
}

#[test]
fn test_xml_metadata_included() {
    let mut config = writer_config();
    config.include_metadata = true;
    let mut scanner = Scanner::new(config.clone());
    let writer = XmlWriter::new(config);

    let root = FsDir {
        name: "root".to_string(),
        metadata: meta2(0),
        entries: Some(vec![text_entry("a.txt", "x\n")]),
    };
    let root_node = scanner.scan(&root).unwrap();
    let xml = writer.write(&root_node, &sysinfo(), "t");
    assert!(xml.contains("<metadata><size>2</size><modified>1700000000</modified><permissions>644</permissions></metadata>"));
}
