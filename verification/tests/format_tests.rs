use dumpfs::clipboard::{determine_clipboard_providers, ClipboardProbe, ClipboardProvider};
use dumpfs::git::{plan_cache_action, CacheAction, GitCachePolicy};
use dumpfs::report::{FileReportInfo, Reporter, ReportFormat, ScanReport};
use dumpfs::tokenizer::{Model, ModelProvider, TokenCache};
use dumpfs::utils::format_file_size;

#[test]
fn test_format_file_size_values() {
    assert_eq!(format_file_size(0), "0 bytes");
    assert_eq!(format_file_size(512), "512 bytes");
    assert_eq!(format_file_size(1023), "1023 bytes");
    assert_eq!(format_file_size(1024), "1.00 KB");
    assert_eq!(format_file_size(1536), "1.50 KB");
    assert_eq!(format_file_size(1048576), "1.00 MB");
    assert_eq!(format_file_size(2 * 1048576), "2.00 MB");
    assert_eq!(format_file_size(1073741824), "1.00 GB");
    assert_eq!(format_file_size(1610612736), "1.50 GB");
}

#[test]
fn test_format_number_values() {
    let reporter = Reporter::new(ReportFormat::ConsoleTable);
    assert_eq!(reporter.format_number(0), "0");
    assert_eq!(reporter.format_number(999), "999");
    assert_eq!(reporter.format_number(1000), "1.0K");
    assert_eq!(reporter.format_number(1500), "1.5K");
    assert_eq!(reporter.format_number(999999), "1000.0K");
    assert_eq!(reporter.format_number(1000000), "1.0M");
    assert_eq!(reporter.format_number(2560000), "2.6M");
}

#[test]
fn test_format_path_truncation() {
    let reporter = Reporter::new(ReportFormat::ConsoleTable);
    assert_eq!(reporter.format_path("src/main.rs", 60), "src/main.rs");
    let long = "a/very/long/path/with/many/segments/deep/inside/the/tree/file.rs";
    let shortened = reporter.format_path(long, 20);
    assert_eq!(shortened.chars().count(), 20);
    assert!(shortened.starts_with("..."));
    assert!(shortened.ends_with("file.rs"));
}

#[test]
fn test_generate_report_contents() {
    let reporter = Reporter::new(ReportFormat::ConsoleTable);
    let report = ScanReport {
        output_file: "out.xml".to_string(),
        duration_millis: 42,
        files_processed: 3,
        total_lines: 3,
        total_chars: 10,
        total_tokens: None,
        file_details: vec![
            ("root/a.txt".to_string(), FileReportInfo { lines: 1, chars: 6, tokens: None }),
        ],
        token_cache_hits: None,
        token_cache_misses: None,
    };
    let text = reporter.generate_report(&report);
    assert!(text.contains("PROCESSED FILES"));
    assert!(text.contains("root/a.txt: 1 lines, 1 tokens (estimated)"));
    assert!(text.contains("EXTRACTION COMPLETE"));
    assert!(text.contains("Output File: out.xml"));
    assert!(text.contains("Process Time: 42 ms"));
    assert!(text.contains("Files Processed: 3"));
    assert!(text.contains("Total Lines: 3"));
    assert!(text.contains("LLM Tokens: 2 tokens (estimated)"));
    assert!(!text.contains("Cache Hit Rate"));
}

#[test]
fn test_generate_report_with_cache_stats() {
    let reporter = Reporter::new(ReportFormat::ConsoleTable);
    let report = ScanReport {
        output_file: "out.xml".to_string(),
        duration_millis: 1,
        files_processed: 0,
        total_lines: 0,
        total_chars: 0,
        total_tokens: Some(1234),
        file_details: vec![],
        token_cache_hits: Some(3),
        token_cache_misses: Some(1),
    };
    let text = reporter.generate_report(&report);
    assert!(text.contains("LLM Tokens: 1.2K tokens (counted)"));
    assert!(text.contains("Cache Hit Rate: 75.0% (3 hits / 4 total)"));
}

#[test]
fn test_model_properties() {
    assert_eq!(Model::Gpt4.context_window(), 8192);
    assert_eq!(Model::Gpt4Turbo.context_window(), 128000);
    assert_eq!(Model::Gpt4o.provider(), ModelProvider::OpenAI);
    assert_eq!(Model::Llama2_7b.provider(), ModelProvider::HuggingFace);
    assert_eq!(Model::Gpt4.model_id(), "gpt-4");
    assert_eq!(Model::Llama3_8b.model_id(), "meta-llama/Llama-3-8b-hf");
}

#[test]
fn test_token_cache_roundtrip() {
    let mut cache = TokenCache::new();
    assert_eq!(cache.get("Hello, world!", "gpt-4"), None);
    cache.insert("Hello, world!", "gpt-4", 42, 0);
    assert_eq!(cache.get("Hello, world!", "gpt-4"), Some(42));
    // Another model does not see the entry.
    assert_eq!(cache.get("Hello, world!", "gpt-4o"), None);
    // Re-inserting replaces the count.
    cache.insert("Hello, world!", "gpt-4", 7, 1);
    assert_eq!(cache.get("Hello, world!", "gpt-4"), Some(7));
    let (hits, misses) = cache.get_stats();
    assert_eq!(hits, 2);
    assert_eq!(misses, 2);
}

#[test]
fn test_token_cache_prunes_old_entries() {
    let mut cache = TokenCache::new();
    cache.insert("old content", "gpt-4", 5, 1000);
    cache.insert("new content", "gpt-4", 9, 2000000);
    // A week after the second entry, only it survives.
    cache.clean_old_entries(2000000 + 604799);
    assert_eq!(cache.get("old content", "gpt-4"), None);
    assert_eq!(cache.get("new content", "gpt-4"), Some(9));
    cache.clean_old_entries(2000000 + 604800);
    assert_eq!(cache.get("new content", "gpt-4"), None);
}

#[test]
fn test_plan_cache_action() {
    assert_eq!(plan_cache_action(GitCachePolicy::AlwaysPull, false), CacheAction::Clone);
    assert_eq!(plan_cache_action(GitCachePolicy::ForceClone, true), CacheAction::RemoveThenClone);
    assert_eq!(plan_cache_action(GitCachePolicy::AlwaysPull, true), CacheAction::Pull);
    assert_eq!(plan_cache_action(GitCachePolicy::UseCache, true), CacheAction::UseExisting);
}

#[test]
fn test_clipboard_provider_order() {
    let probe = ClipboardProbe {
        platform: "linux".to_string(),
        tmux_ready: true,
        has_pbcopy: false,
        has_clip_exe: false,
        has_wl_copy: true,
        has_xsel: false,
        has_xclip: true,
        has_termux: false,
    };
    assert_eq!(
        determine_clipboard_providers(&probe),
        vec![ClipboardProvider::Tmux, ClipboardProvider::Wayland, ClipboardProvider::Xclip]
    );

    let mac = ClipboardProbe {
        platform: "macos".to_string(),
        tmux_ready: false,
        has_pbcopy: true,
        has_clip_exe: false,
        has_wl_copy: false,
        has_xsel: false,
        has_xclip: false,
        has_termux: false,
    };
    assert_eq!(determine_clipboard_providers(&mac), vec![ClipboardProvider::MacOS]);

    let bare = ClipboardProbe {
        platform: "unknown".to_string(),
        tmux_ready: false,
        has_pbcopy: true,
        has_clip_exe: true,
        has_wl_copy: true,
        has_xsel: true,
        has_xclip: true,
        has_termux: true,
    };
    assert_eq!(determine_clipboard_providers(&bare), vec![]);
    assert_eq!(ClipboardProvider::Wayland.command(), "wl-copy");
}

#[test]
fn test_report_sorts_and_truncates() {
    let reporter = Reporter::new(ReportFormat::ConsoleTable);
    // Sixteen files with rising character counts: only the ten largest are
    // shown, largest first.
    let mut details = Vec::new();
    for i in 0..16u64 {
        details.push((
            format!("f{:02}.txt", i),
            FileReportInfo { lines: 1, chars: 100 * (i + 1), tokens: None },
        ));
    }
    let report = ScanReport {
        output_file: "out.xml".to_string(),
        duration_millis: 1,
        files_processed: 16,
        total_lines: 16,
        total_chars: 13600,
        total_tokens: None,
        file_details: details,
        token_cache_hits: None,
        token_cache_misses: None,
    };
    let text = reporter.generate_report(&report);
    assert!(text.contains("TOP 10 LARGEST FILES BY CHARACTER COUNT"));
    assert!(!text.contains("PROCESSED FILES"));
    // The largest file leads, the seventh-largest closes the section.
    assert!(text.contains("f15.txt"));
    assert!(text.contains("f06.txt"));
    assert!(!text.contains("f05.txt"));
    let pos_largest = text.find("f15.txt").unwrap();
    let pos_smaller = text.find("f06.txt").unwrap();
    assert!(pos_largest < pos_smaller);
}

#[test]
fn test_report_sort_is_stable() {
    let reporter = Reporter::new(ReportFormat::ConsoleTable);
    let report = ScanReport {
        output_file: "out.xml".to_string(),
        duration_millis: 1,
        files_processed: 3,
        total_lines: 3,
        total_chars: 14,
        total_tokens: None,
        file_details: vec![
            ("small.txt".to_string(), FileReportInfo { lines: 1, chars: 2, tokens: None }),
            ("first.txt".to_string(), FileReportInfo { lines: 1, chars: 6, tokens: None }),
            ("second.txt".to_string(), FileReportInfo { lines: 1, chars: 6, tokens: None }),
        ],
        token_cache_hits: None,
        token_cache_misses: None,
    };
    let text = reporter.generate_report(&report);
    // Equal counts keep their recording order; the small file comes last.
    let pos_first = text.find("first.txt").unwrap();
    let pos_second = text.find("second.txt").unwrap();
    let pos_small = text.find("small.txt").unwrap();
    assert!(pos_first < pos_second);
    assert!(pos_second < pos_small);
}
