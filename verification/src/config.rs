//! Configuration consumed by the scanner, and validation of a configuration
//! against facts the caller has probed about the filesystem.

use vstd::prelude::*;
use crate::git::GitCachePolicy;
use crate::git::GitRepoInfo;
use crate::tokenizer::Model;

verus! {

/// Application configuration.
#[derive(Debug, Clone)]
pub struct Config {
    /// Target directory to process
    pub target_dir: String,
    /// Output file path
    pub output_file: String,
    /// Patterns to ignore
    pub ignore_patterns: Vec<String>,
    /// Patterns to include (if empty, include all)
    pub include_patterns: Vec<String>,
    /// Number of threads to use for processing
    pub num_threads: usize,
    /// Whether to respect `.gitignore` files
    pub respect_gitignore: bool,
    /// Path to a custom `.gitignore` file
    pub gitignore_path: Option<String>,
    /// LLM model to use for tokenization
    pub model: Option<Model>,
    /// Original repository URL (if applicable)
    pub repo_url: Option<String>,
    /// Git repository information (if applicable)
    pub git_repo: Option<GitRepoInfo>,
    /// Policy for handling Git repository caching
    pub git_cache_policy: GitCachePolicy,
    /// Include file and directory metadata in the output
    pub include_metadata: bool,
    /// Copy output to clipboard
    pub clip: bool,
    /// Print output to standard output
    pub stdout: bool,
}

/// Facts about the paths a configuration names, probed by the caller.
#[derive(Debug, Clone, Copy)]
pub struct PathProbe {
    /// The target directory exists
    pub target_exists: bool,
    /// The target path is a directory
    pub target_is_dir: bool,
    /// The output file's parent directory exists, or the output file has no
    /// parent directory component
    pub output_parent_exists: bool,
    /// The custom gitignore file exists, when one is configured
    pub gitignore_exists: bool,
}

/// Errors a configuration can be rejected with.
#[derive(Debug, Clone)]
pub enum ConfigError {
    /// The target directory (or cloned repository directory) was not found
    TargetNotFound(String),
    /// The output file's parent directory was not found
    OutputDirNotFound(String),
    /// The custom gitignore file was not found
    GitignoreNotFound(String),
}

impl Config {
    /// Validate the configuration against probed facts.  Accepts exactly when
    /// the target is an existing directory, the output location's parent
    /// exists, and the custom gitignore file (when configured) exists; the
    /// first failed check names the offending path.
    pub fn validate(&self, probe: &PathProbe) -> (r: Result<(), ConfigError>)
        ensures
            r is Ok <==> (probe.target_exists && probe.target_is_dir && probe.output_parent_exists
                && (self.gitignore_path is Some ==> probe.gitignore_exists)),
            !(probe.target_exists && probe.target_is_dir) ==> (r matches Err(
                ConfigError::TargetNotFound(p),
            ) && p@ == self.target_dir@),
            probe.target_exists && probe.target_is_dir && !probe.output_parent_exists ==> (
            r matches Err(ConfigError::OutputDirNotFound(p)) && p@ == self.output_file@),
            probe.target_exists && probe.target_is_dir && probe.output_parent_exists && !probe.gitignore_exists
                ==> (self.gitignore_path matches Some(g) ==> (r matches Err(
                ConfigError::GitignoreNotFound(p),
            ) && p@ == g@)),
    {
        if !probe.target_exists || !probe.target_is_dir {
            return Err(ConfigError::TargetNotFound(self.target_dir.clone()));
        }
        if !probe.output_parent_exists {
            return Err(ConfigError::OutputDirNotFound(self.output_file.clone()));
        }
        match &self.gitignore_path {
            Some(path) => {
                if !probe.gitignore_exists {
                    return Err(ConfigError::GitignoreNotFound(path.clone()));
                }
            },
            None => {},
        }
        Ok(())
    }
}

/// Where the output file of a repository scan is written: a bare file name
/// goes into the repository's cache directory; a path with any directory
/// component — including an absolute path — stays as given.
pub open spec fn spec_output_in_repo(output: Seq<char>, cache: Seq<char>) -> Seq<char> {
    if !output.contains('/') {
        cache + "/"@ + output
    } else {
        output
    }
}

/// Resolve the output file location for a repository scan.
pub fn output_path_for_repo(output_file: &str, cache_path: &str) -> (r: String)
    ensures
        r@ == spec_output_in_repo(output_file@, cache_path@),
{
    let v = crate::utils::chars_of(output_file);
    let slash = crate::utils::find_char(&v, '/', 0);
    if slash == v.len() {
        proof {
            crate::utils::lemma_first_index_of(output_file@, '/');
            assert(!output_file@.contains('/'));
        }
        let mut s = cache_path.to_owned();
        s.append("/");
        s.append(output_file);
        s
    } else {
        proof {
            assert(output_file@.contains('/'));
        }
        output_file.to_owned()
    }
}

} // verus!
