//! Git repository identity: hosts, repository information, cache locations,
//! progress reporting, and recognition of repository URLs.
//!
//! Cloning, pulling and cache upkeep are outside collaborators; this module
//! holds the pure rules they share: which strings count as repository URLs,
//! how they decompose into host, owner and name, and where a repository is
//! cached relative to the cache root.

use vstd::prelude::*;
use crate::utils::spec_format_file_size;
use crate::utils::format_file_size;
use crate::utils::starts_with;
use crate::utils::first_index_of;
use crate::utils::lemma_first_index_at;
use crate::utils::find_char;
use crate::utils::vec_starts_with;
use crate::utils::slice_string;

verus! {

broadcast use vstd::string::group_string_axioms;

/// Git hosting platform types.
#[derive(Debug, Clone, PartialEq, Eq)]
pub enum GitHost {
    /// GitHub repository
    GitHub,
    /// GitLab repository
    GitLab,
    /// Bitbucket repository
    Bitbucket,
    /// Other Git hosting
    Other(String),
}

/// Label of a host, as shown to the user.
pub open spec fn spec_host_label(h: GitHost) -> Seq<char> {
    match h {
        GitHost::GitHub => "GitHub"@,
        GitHost::GitLab => "GitLab"@,
        GitHost::Bitbucket => "Bitbucket"@,
        GitHost::Other(name) => name@,
    }
}

/// Hostname of a well-known host, used in cache paths and reports.
pub open spec fn spec_host_name(h: GitHost) -> Seq<char> {
    match h {
        GitHost::GitHub => "github.com"@,
        GitHost::GitLab => "gitlab.com"@,
        GitHost::Bitbucket => "bitbucket.org"@,
        GitHost::Other(name) => name@,
    }
}

impl GitHost {
    /// The host's display label.
    pub fn to_string(&self) -> (r: String)
        ensures
            r@ == spec_host_label(*self),
    {
        match self {
            GitHost::GitHub => "GitHub".to_owned(),
            GitHost::GitLab => "GitLab".to_owned(),
            GitHost::Bitbucket => "Bitbucket".to_owned(),
            GitHost::Other(name) => name.clone(),
        }
    }
}

/// Information about a Git repository.
#[derive(Debug, Clone)]
pub struct GitRepoInfo {
    /// Original URL
    pub url: String,
    /// Git hosting platform
    pub host: GitHost,
    /// Repository owner/username
    pub owner: String,
    /// Repository name
    pub name: String,
    /// Local cache path
    pub cache_path: String,
}

impl GitRepoInfo {
    /// `host/owner/name`, as shown to the user.
    pub fn to_string(&self) -> (r: String)
        ensures
            r@ == spec_host_label(self.host) + "/"@ + self.owner@ + "/"@ + self.name@,
    {
        let mut s = self.host.to_string();
        s.append("/");
        s.append(self.owner.as_str());
        s.append("/");
        s.append(self.name.as_str());
        s
    }
}

/// Errors from parsing a repository URL.
#[derive(Debug, Clone)]
pub enum GitError {
    /// The string is not a recognized repository URL
    InvalidUrl(String),
}

impl GitError {
    /// A human-readable description of the error.
    pub fn message(&self) -> (r: String)
        ensures
            self matches GitError::InvalidUrl(u) ==> r@ == "invalid git URL: "@ + u@,
    {
        match self {
            GitError::InvalidUrl(url) => {
                let mut s = "invalid git URL: ".to_owned();
                s.append(url.as_str());
                s
            },
        }
    }
}

/// Result type for Git operations.
pub type GitResult<T> = Result<T, GitError>;

/// Policy for handling Git repository caching.
#[derive(Debug, Clone, Copy, PartialEq, Eq, Structural)]
pub enum GitCachePolicy {
    /// Always pull latest changes for existing repositories (default)
    AlwaysPull,
    /// Delete and re-clone existing repositories
    ForceClone,
    /// Use cached repositories without pulling updates
    UseCache,
}

impl Default for GitCachePolicy {
    /// The default policy pulls the latest changes.
    fn default() -> (r: Self)
        ensures
            r == GitCachePolicy::AlwaysPull,
    {
        GitCachePolicy::AlwaysPull
    }
}

/// What to do with a repository before scanning it.
#[derive(Debug, Clone, Copy, PartialEq, Eq, Structural)]
pub enum CacheAction {
    /// Clone the repository into its cache directory
    Clone,
    /// Remove the cached copy and clone afresh
    RemoveThenClone,
    /// Pull the latest changes into the cached copy
    Pull,
    /// Use the cached copy as it is
    UseExisting,
}

/// Decide what to do with a repository, from the caching policy and whether
/// a cached copy exists: a missing repository is always cloned; an existing
/// one is re-cloned, pulled or used as-is according to the policy.
pub fn plan_cache_action(policy: GitCachePolicy, repo_exists: bool) -> (r: CacheAction)
    ensures
        !repo_exists ==> r == CacheAction::Clone,
        repo_exists && policy == GitCachePolicy::ForceClone ==> r == CacheAction::RemoveThenClone,
        repo_exists && policy == GitCachePolicy::AlwaysPull ==> r == CacheAction::Pull,
        repo_exists && policy == GitCachePolicy::UseCache ==> r == CacheAction::UseExisting,
{
    if !repo_exists {
        CacheAction::Clone
    } else {
        match policy {
            GitCachePolicy::ForceClone => CacheAction::RemoveThenClone,
            GitCachePolicy::AlwaysPull => CacheAction::Pull,
            GitCachePolicy::UseCache => CacheAction::UseExisting,
        }
    }
}

/// Progress information for Git operations.
#[derive(Debug, Clone)]
pub struct GitProgress {
    /// Total number of objects to download
    pub total_objects: usize,
    /// Number of received objects
    pub received_objects: usize,
    /// Number of indexed objects
    pub indexed_objects: usize,
    /// Number of local objects
    pub local_objects: usize,
    /// Total number of deltas
    pub total_deltas: usize,
    /// Number of indexed deltas
    pub indexed_deltas: usize,
    /// Number of bytes received
    pub received_bytes: usize,
}

/// Completion ratio of a transfer, as a percentage.
pub open spec fn spec_percentage(received: int, total: int) -> int {
    if total == 0 {
        0
    } else {
        (received * 100 / total) % 256
    }
}

impl GitProgress {
    /// Get the progress percentage.
    pub fn percentage(&self) -> (p: u8)
        ensures
            p as int == spec_percentage(self.received_objects as int, self.total_objects as int),
    {
        if self.total_objects == 0 {
            return 0;
        }
        let ratio: u128 = self.received_objects as u128 * 100 / self.total_objects as u128;
        proof {
            assert(ratio as int == self.received_objects as int * 100 / self.total_objects as int);
        }
        let p: u8 = (ratio % 256) as u8;
        p
    }

    /// Get a formatted string of received bytes.
    pub fn formatted_bytes(&self) -> (r: String)
        ensures
            r@ == spec_format_file_size(self.received_bytes as u64),
    {
        format_file_size(self.received_bytes as u64)
    }
}

/// Trait for reporting Git operation progress; implemented by the callers
/// that drive clones and pulls.
pub trait ProgressReporter {
    /// Called with progress information during Git operations.
    fn report(&self, progress: &GitProgress);
}

/// A name with a `.git` suffix stripped.
pub open spec fn strip_git_suffix(n: Seq<char>) -> Seq<char> {
    if n.len() >= 4 && n.skip(n.len() - 4) == ".git"@ {
        n.take(n.len() - 4)
    } else {
        n
    }
}

/// Whether a string is an `http://` or `https://` repository URL: a scheme,
/// a nonempty host, and at least a nonempty owner and a nonempty repository
/// segment after it.
pub open spec fn spec_is_http_git_url(s: Seq<char>) -> bool {
    (starts_with(s, "http://"@) || starts_with(s, "https://"@)) && {
        let rest = s.skip(spec_scheme_len(s));
        let i1 = first_index_of(rest, '/');
        0 < i1 < rest.len() && {
            let r2 = rest.skip(i1 + 1);
            let i2 = first_index_of(r2, '/');
            0 < i2 < r2.len() && {
                let r3 = r2.skip(i2 + 1);
                first_index_of(r3, '/') > 0
            }
        }
    }
}

/// Length of the URL scheme, when one of the two recognized schemes is
/// present.
pub open spec fn spec_scheme_len(s: Seq<char>) -> int {
    if starts_with(s, "https://"@) {
        8
    } else {
        7
    }
}

/// Host of an `http(s)` repository URL.
pub open spec fn spec_http_host(s: Seq<char>) -> Seq<char> {
    let rest = s.skip(spec_scheme_len(s));
    rest.take(first_index_of(rest, '/'))
}

/// Owner of an `http(s)` repository URL.
pub open spec fn spec_http_owner(s: Seq<char>) -> Seq<char> {
    let rest = s.skip(spec_scheme_len(s));
    let r2 = rest.skip(first_index_of(rest, '/') + 1);
    r2.take(first_index_of(r2, '/'))
}

/// Repository name of an `http(s)` repository URL, before suffix stripping.
pub open spec fn spec_http_name(s: Seq<char>) -> Seq<char> {
    let rest = s.skip(spec_scheme_len(s));
    let r2 = rest.skip(first_index_of(rest, '/') + 1);
    let r3 = r2.skip(first_index_of(r2, '/') + 1);
    r3.take(first_index_of(r3, '/'))
}

/// Whether a string is a `git@host:owner/name` repository URL: a nonempty
/// host before the colon, and after it a nonempty owner and a nonempty name
/// separated by exactly one slash.
pub open spec fn spec_is_ssh_git_url(s: Seq<char>) -> bool {
    starts_with(s, "git@"@) && {
        let rest = s.skip(4);
        let ci = first_index_of(rest, ':');
        0 < ci < rest.len() && {
            let tail = rest.skip(ci + 1);
            let si = first_index_of(tail, '/');
            0 < si < tail.len() && si + 1 < tail.len() && !tail.skip(si + 1).contains('/')
        }
    }
}

/// Host of an SSH repository URL.
pub open spec fn spec_ssh_host(s: Seq<char>) -> Seq<char> {
    let rest = s.skip(4);
    rest.take(first_index_of(rest, ':'))
}

/// Owner of an SSH repository URL.
pub open spec fn spec_ssh_owner(s: Seq<char>) -> Seq<char> {
    let rest = s.skip(4);
    let tail = rest.skip(first_index_of(rest, ':') + 1);
    tail.take(first_index_of(tail, '/'))
}

/// Repository name of an SSH repository URL, before suffix stripping.
pub open spec fn spec_ssh_name(s: Seq<char>) -> Seq<char> {
    let rest = s.skip(4);
    let tail = rest.skip(first_index_of(rest, ':') + 1);
    tail.skip(first_index_of(tail, '/') + 1)
}

/// Whether a string is a recognized Git repository URL.
pub open spec fn spec_is_git_url(s: Seq<char>) -> bool {
    spec_is_http_git_url(s) || spec_is_ssh_git_url(s)
}

/// Hostname of a parsed URL: from the URL's host part.
pub open spec fn spec_url_host(s: Seq<char>) -> Seq<char> {
    if spec_is_http_git_url(s) {
        spec_http_host(s)
    } else {
        spec_ssh_host(s)
    }
}

/// Owner of a parsed URL.
pub open spec fn spec_url_owner(s: Seq<char>) -> Seq<char> {
    if spec_is_http_git_url(s) {
        spec_http_owner(s)
    } else {
        spec_ssh_owner(s)
    }
}

/// Repository name of a parsed URL, with a `.git` suffix stripped.
pub open spec fn spec_url_name(s: Seq<char>) -> Seq<char> {
    if spec_is_http_git_url(s) {
        strip_git_suffix(spec_http_name(s))
    } else {
        strip_git_suffix(spec_ssh_name(s))
    }
}

/// The cache subdirectory a repository is stored under, relative to the
/// user's cache root.
pub open spec fn spec_cache_subpath(h: GitHost, owner: Seq<char>, name: Seq<char>) -> Seq<char> {
    "dumpfs/"@ + (match h {
        GitHost::GitHub => "github"@,
        GitHost::GitLab => "gitlab"@,
        GitHost::Bitbucket => "bitbucket"@,
        GitHost::Other(hn) => "git/"@ + hn@,
    }) + "/"@ + owner + "/"@ + name
}

/// Build the repository name from a character range, stripping a `.git`
/// suffix.
fn strip_git_slice(v: &Vec<char>, a: usize, b: usize) -> (r: String)
    requires
        a <= b <= v@.len(),
    ensures
        r@ == strip_git_suffix(v@.subrange(a as int, b as int)),
{
    let ghost n = v@.subrange(a as int, b as int);
    proof {
        reveal_strlit(".git");
    }
    if b - a >= 4 && v[b - 4] == '.' && v[b - 3] == 'g' && v[b - 2] == 'i' && v[b - 1] == 't' {
        proof {
            assert(n.skip(n.len() - 4) =~= ".git"@);
            assert(n.take(n.len() - 4) =~= v@.subrange(a as int, b - 4));
        }
        slice_string(v, a, b - 4)
    } else {
        proof {
            if n.len() >= 4 && n.skip(n.len() - 4) == ".git"@ {
                assert(n.skip(n.len() - 4)[0] == v@[b - 4]);
                assert(n.skip(n.len() - 4)[1] == v@[b - 3]);
                assert(n.skip(n.len() - 4)[2] == v@[b - 2]);
                assert(n.skip(n.len() - 4)[3] == v@[b - 1]);
                assert(".git"@[0] == '.' && ".git"@[1] == 'g' && ".git"@[2] == 'i' && ".git"@[3]
                    == 't');
                assert(false);
            }
        }
        slice_string(v, a, b)
    }
}

/// Build the host value for a hostname.
fn host_of_name(h: &str) -> (r: GitHost)
    ensures
        h@ == "github.com"@ ==> r is GitHub,
        h@ == "gitlab.com"@ ==> r is GitLab,
        h@ == "bitbucket.org"@ ==> r is Bitbucket,
        h@ != "github.com"@ && h@ != "gitlab.com"@ && h@ != "bitbucket.org"@ ==> (r matches
            GitHost::Other(x) && x@ == h@),
{
    proof {
        reveal_strlit("github.com");
        reveal_strlit("gitlab.com");
        reveal_strlit("bitbucket.org");
        assert("github.com"@[3] == 'h');
        assert("gitlab.com"@[3] == 'l');
        assert("github.com"@.len() == 10 && "gitlab.com"@.len() == 10 && "bitbucket.org"@.len()
            == 13);
        assert("github.com"@ != "gitlab.com"@);
        assert("github.com"@ != "bitbucket.org"@);
        assert("gitlab.com"@ != "bitbucket.org"@);
    }
    if crate::utils::str_eq(h, "github.com") {
        GitHost::GitHub
    } else if crate::utils::str_eq(h, "gitlab.com") {
        GitHost::GitLab
    } else if crate::utils::str_eq(h, "bitbucket.org") {
        GitHost::Bitbucket
    } else {
        GitHost::Other(h.to_owned())
    }
}

/// Parse a Git repository URL into its components.  Succeeds exactly on the
/// strings the URL grammar recognizes; the parsed owner, name, host and
/// cache path are pinned to the grammar's decomposition.
pub fn parse_git_url(url: &str) -> (r: GitResult<GitRepoInfo>)
    ensures
        r is Ok <==> spec_is_git_url(url@),
        (r matches Ok(info) ==> {
            &&& info.url@ == url@
            &&& info.owner@ == spec_url_owner(url@)
            &&& info.name@ == spec_url_name(url@)
            &&& (spec_url_host(url@) == "github.com"@ ==> info.host is GitHub)
            &&& (spec_url_host(url@) == "gitlab.com"@ ==> info.host is GitLab)
            &&& (spec_url_host(url@) == "bitbucket.org"@ ==> info.host is Bitbucket)
            &&& (spec_url_host(url@) != "github.com"@ && spec_url_host(url@) != "gitlab.com"@
                && spec_url_host(url@) != "bitbucket.org"@ ==> (info.host matches GitHost::Other(
                x,
            ) && x@ == spec_url_host(url@)))
            &&& info.cache_path@ == spec_cache_subpath(info.host, info.owner@, info.name@)
        }),
        (r matches Err(e) ==> (e matches GitError::InvalidUrl(u) && u@ == url@)),
{
    let v = crate::utils::chars_of(url);
    proof {
        reveal_strlit("http://");
        reveal_strlit("https://");
        reveal_strlit("git@");
    }
    let is_https = vec_starts_with(&v, "https://");
    let is_http = vec_starts_with(&v, "http://");
    if is_http || is_https {
        proof {
            if starts_with(url@, "git@"@) {
                assert(url@.take(4)[0] == 'g');
                assert(url@.take(7)[0] == 'h' || url@.take(8)[0] == 'h');
                assert(false);
            }
        }
        let k: usize = if is_https {
            8
        } else {
            7
        };
        proof {
            assert(k as int == spec_scheme_len(url@));
            assert(forall|j: int| 0 <= j < url@.len() - k ==> url@.skip(k as int)[j] == url@[k + j]);
        }
        let i1 = find_char(&v, '/', k);
        if i1 == k || i1 == v.len() {
            return Err(GitError::InvalidUrl(url.to_owned()));
        }
        proof {
            assert(url@.skip(k as int).skip(i1 + 1 - k) =~= url@.skip(i1 + 1));
        }
        let i2 = find_char(&v, '/', i1 + 1);
        if i2 == i1 + 1 || i2 == v.len() {
            return Err(GitError::InvalidUrl(url.to_owned()));
        }
        proof {
            assert(url@.skip(i1 + 1).skip(i2 - i1) =~= url@.skip(i2 + 1));
        }
        let i3 = find_char(&v, '/', i2 + 1);
        if i3 == i2 + 1 {
            return Err(GitError::InvalidUrl(url.to_owned()));
        }
        let host_s = slice_string(&v, k, i1);
        let owner = slice_string(&v, i1 + 1, i2);
        let name = strip_git_slice(&v, i2 + 1, i3);
        proof {
            assert(spec_http_host(url@) =~= url@.subrange(k as int, i1 as int));
            assert(spec_http_owner(url@) =~= url@.subrange(i1 + 1, i2 as int));
            assert(spec_http_name(url@) =~= url@.subrange(i2 + 1, i3 as int));
            assert(spec_is_http_git_url(url@));
        }
        let host = host_of_name(host_s.as_str());
        let cache = get_cache_path(&host, owner.as_str(), name.as_str());
        Ok(GitRepoInfo { url: url.to_owned(), host, owner, name, cache_path: cache })
    } else {
        let is_ssh = vec_starts_with(&v, "git@");
        if !is_ssh {
            return Err(GitError::InvalidUrl(url.to_owned()));
        }
        proof {
            assert(forall|j: int| 0 <= j < url@.len() - 4 ==> url@.skip(4)[j] == url@[4 + j]);
        }
        let ci = find_char(&v, ':', 4);
        if ci == 4 || ci == v.len() {
            return Err(GitError::InvalidUrl(url.to_owned()));
        }
        proof {
            assert(url@.skip(4).skip(ci - 3) =~= url@.skip(ci + 1));
        }
        let si = find_char(&v, '/', ci + 1);
        if si == ci + 1 || si == v.len() || si + 1 == v.len() {
            return Err(GitError::InvalidUrl(url.to_owned()));
        }
        let extra = find_char(&v, '/', si + 1);
        proof {
            assert(url@.skip(ci + 1).skip(si - ci) =~= url@.skip(si + 1));
        }
        if extra < v.len() {
            proof {
                assert(url@.skip(si + 1)[extra - (si + 1)] == '/');
                assert(url@.skip(si + 1).contains('/'));
            }
            return Err(GitError::InvalidUrl(url.to_owned()));
        }
        proof {
            assert(forall|j: int|
                0 <= j < url@.skip(si + 1).len() ==> #[trigger] url@.skip(si + 1)[j] != '/');
            assert(!url@.skip(si + 1).contains('/'));
        }
        let host_s = slice_string(&v, 4, ci);
        let owner = slice_string(&v, ci + 1, si);
        let name = strip_git_slice(&v, si + 1, v.len());
        proof {
            assert(spec_ssh_host(url@) =~= url@.subrange(4, ci as int));
            assert(spec_ssh_owner(url@) =~= url@.subrange(ci + 1, si as int));
            assert(spec_ssh_name(url@) =~= url@.subrange(si + 1, url@.len() as int));
            assert(spec_is_ssh_git_url(url@));
            assert(!spec_is_http_git_url(url@));
        }
        let host = host_of_name(host_s.as_str());
        let cache = get_cache_path(&host, owner.as_str(), name.as_str());
        Ok(GitRepoInfo { url: url.to_owned(), host, owner, name, cache_path: cache })
    }
}

/// Check if a string is a Git repository URL.
pub fn is_git_url(path: &str) -> (r: bool)
    ensures
        r == spec_is_git_url(path@),
{
    parse_git_url(path).is_ok()
}

/// Get the cache directory path for a repository, relative to the user's
/// cache root.
pub fn get_cache_path(host: &GitHost, owner: &str, name: &str) -> (r: String)
    ensures
        r@ == spec_cache_subpath(*host, owner@, name@),
{
    let mut s = "dumpfs/".to_owned();
    match host {
        GitHost::GitHub => s.append("github"),
        GitHost::GitLab => s.append("gitlab"),
        GitHost::Bitbucket => s.append("bitbucket"),
        GitHost::Other(hn) => {
            s.append("git/");
            s.append(hn.as_str());
        },
    }
    s.append("/");
    s.append(owner);
    s.append("/");
    s.append(name);
    s
}

} // verus!
