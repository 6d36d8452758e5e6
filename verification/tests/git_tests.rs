use dumpfs::git::{get_cache_path, is_git_url, parse_git_url, GitCachePolicy, GitHost, GitRepoInfo};

#[test]
fn test_is_git_url() {
    // Test GitHub URLs
    assert!(is_git_url(&"https://github.com/username/repo".to_string()));
    assert!(is_git_url(&"https://github.com/username/repo.git".to_string()));
    assert!(is_git_url(&"git@github.com:username/repo.git".to_string()));

    // Test GitLab URLs
    assert!(is_git_url(&"https://gitlab.com/username/repo".to_string()));
    assert!(is_git_url(&"https://gitlab.com/username/repo.git".to_string()));
    assert!(is_git_url(&"git@gitlab.com:username/repo.git".to_string()));

    // Test Bitbucket URLs
    assert!(is_git_url(&"https://bitbucket.org/username/repo".to_string()));
    assert!(is_git_url(&"https://bitbucket.org/username/repo.git".to_string()));
    assert!(is_git_url(&"git@bitbucket.org:username/repo.git".to_string()));

    // Test custom Git host URLs
    assert!(is_git_url(&"https://git.example.com/username/repo".to_string()));
    assert!(is_git_url(&"https://git.example.com/username/repo.git".to_string()));
    assert!(is_git_url(&"git@git.example.com:username/repo.git".to_string()));

    // Test invalid URLs
    assert!(!is_git_url(&"https://github.com".to_string()));
    assert!(!is_git_url(&"https://github.com/username".to_string()));
    assert!(!is_git_url(&"git@github.com".to_string()));
    assert!(!is_git_url(&"/path/to/local/directory".to_string()));
    assert!(!is_git_url(&"username/repo".to_string()));
}

#[test]
fn test_git_host_display() {
    assert_eq!(GitHost::GitHub.to_string(), "GitHub");
    assert_eq!(GitHost::GitLab.to_string(), "GitLab");
    assert_eq!(GitHost::Bitbucket.to_string(), "Bitbucket");
    assert_eq!(GitHost::Other("custom.com".to_string()).to_string(), "custom.com");
}

#[test]
fn test_git_repo_info_display() {
    let info = GitRepoInfo {
        url: "https://github.com/username/repo".to_string(),
        host: GitHost::GitHub,
        owner: "username".to_string(),
        name: "repo".to_string(),
        cache_path: "/tmp/cache/github/username/repo".to_string(),
    };

    assert_eq!(info.to_string(), "GitHub/username/repo");
}

#[test]
fn test_parse_git_url() {
    // Test GitHub HTTPS URL
    let repo = parse_git_url(&"https://github.com/username/repo".to_string()).unwrap();
    assert_eq!(repo.url, "https://github.com/username/repo");
    assert!(matches!(repo.host, GitHost::GitHub));
    assert_eq!(repo.owner, "username");
    assert_eq!(repo.name, "repo");

    // Test GitHub SSH URL
    let repo = parse_git_url(&"git@github.com:username/repo.git".to_string()).unwrap();
    assert_eq!(repo.url, "git@github.com:username/repo.git");
    assert!(matches!(repo.host, GitHost::GitHub));
    assert_eq!(repo.owner, "username");
    assert_eq!(repo.name, "repo");

    // Test custom host cache path
    let host = GitHost::Other("example.com".to_string());
    let owner = "username";
    let name = "repo";
    let cache_path = get_cache_path(&host, owner, name);
    assert!(cache_path.ends_with("git/example.com/username/repo"));
}

#[test]
fn test_parse_git_url_rejects_invalid() {
    let r = parse_git_url("username/repo");
    assert!(r.is_err());
    let r = parse_git_url("https://github.com/username");
    assert!(r.is_err());
}

#[test]
fn test_git_cache_policy_default() {
    assert_eq!(GitCachePolicy::default(), GitCachePolicy::AlwaysPull);
}

#[test]
fn test_git_progress_percentage() {
    let progress = dumpfs::git::GitProgress {
        total_objects: 100,
        received_objects: 50,
        indexed_objects: 0,
        local_objects: 0,
        total_deltas: 0,
        indexed_deltas: 0,
        received_bytes: 2048,
    };
    assert_eq!(progress.percentage(), 50);
    assert_eq!(progress.formatted_bytes(), "2.00 KB");

    let empty = dumpfs::git::GitProgress {
        total_objects: 0,
        received_objects: 0,
        indexed_objects: 0,
        local_objects: 0,
        total_deltas: 0,
        indexed_deltas: 0,
        received_bytes: 0,
    };
    assert_eq!(empty.percentage(), 0);
}
