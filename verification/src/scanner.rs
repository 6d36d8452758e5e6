//! The scanner: walks a directory snapshot, applies the filter policy,
//! classifies every entry, reads and measures text content, and accumulates
//! per-file statistics, building a node tree that mirrors the filesystem.
//!
//! The whole scan is a function of the snapshot and the configuration; its
//! value is pinned down by the `scan_dir_spec` family of specification
//! functions, and the executable scanner is proved to return exactly that
//! value.

use vstd::prelude::*;
use vstd::string::StrSliceExecFns;
use crate::config::Config;
use crate::snapshot::FsDir;
use crate::snapshot::FsEntry;
use crate::snapshot::FsLeaf;
use crate::snapshot::ReadOutcome;
use crate::snapshot::classify_leaf;
use crate::snapshot::dir_wf;
use crate::snapshot::dir_leaf_count;
use crate::snapshot::entries_leaf_count;
use crate::snapshot::entry_leaf_count;
use crate::snapshot::leaf_wf;
use crate::snapshot::entry_wf;
use crate::snapshot::entry_name;
use crate::snapshot::name_wf;
use crate::types::BinaryNode;
use crate::types::DirectoryNode;
use crate::types::FileNode;
use crate::types::FileType;
use crate::types::Metadata;
use crate::types::Node;
use crate::types::leaf_node_count;
use crate::types::leaf_node_count_seq;
use crate::types::nodes_view;
use crate::types::NodeView;
use crate::types::SymlinkNode;
use crate::utils::spec_format_file_size;
use crate::utils::format_file_size;
use crate::utils::str_eq;
use crate::report::FileReportInfo;
use crate::tokenizer::Tokenizer;

verus! {

broadcast use
    vstd::std_specs::vec::axiom_vec_decreases_to_view,
    vstd::seq::axiom_seq_index_decreases,
    vstd::seq::axiom_seq_subrange_decreases;

/// Size ceiling, in bytes, above which a file's content is replaced by a
/// placeholder message and its line and character counts are recorded as
/// zero.
pub const CONTENT_CEILING: u64 = 1048576;

/// Upper bound on the `lines` and `chars` of any recorded detail; both are
/// bounded by the content ceiling plus one.
pub const DETAIL_BOUND: u64 = 2097152;

/// Largest number of entries a single scan accounts for; no real directory
/// tree comes near it, and it keeps every running total far from overflow.
pub const SCAN_ENTRY_LIMIT: u64 = 0x100_0000_0000;

/// An error that aborts a scan: the root directory's children could not be
/// enumerated.
#[derive(Debug, Clone, PartialEq, Eq, Structural)]
pub enum ScanError {
    /// The scan root itself could not be enumerated
    RootUnreadable,
}

/// Sum of the line counts of a detail sequence.
pub open spec fn sum_lines(s: Seq<(Seq<char>, FileReportInfo)>) -> int
    decreases s,
{
    if s.len() == 0 {
        0
    } else {
        sum_lines(s.drop_last()) + s.last().1.lines
    }
}

/// Sum of the character counts of a detail sequence.
pub open spec fn sum_chars(s: Seq<(Seq<char>, FileReportInfo)>) -> int
    decreases s,
{
    if s.len() == 0 {
        0
    } else {
        sum_chars(s.drop_last()) + s.last().1.chars
    }
}

/// First detail recorded under a path.
pub open spec fn detail_lookup(s: Seq<(Seq<char>, FileReportInfo)>, key: Seq<char>) -> Option<
    FileReportInfo,
>
    decreases s,
{
    if s.len() == 0 {
        None
    } else if s[0].0 == key {
        Some(s[0].1)
    } else {
        detail_lookup(s.drop_first(), key)
    }
}

/// The detail sequence after giving the first entry recorded under `key` a
/// token count; without such an entry, the sequence unchanged.
pub open spec fn details_with_token(
    s: Seq<(Seq<char>, FileReportInfo)>,
    key: Seq<char>,
    t: u64,
) -> Seq<(Seq<char>, FileReportInfo)>
    decreases s,
{
    if s.len() == 0 {
        s
    } else if s[0].0 == key {
        seq![
            (s[0].0, FileReportInfo { lines: s[0].1.lines, chars: s[0].1.chars, tokens: Some(t) }),
        ] + s.drop_first()
    } else {
        seq![s[0]] + details_with_token(s.drop_first(), key, t)
    }
}

/// Two detail sequences that agree on everything but token counts.
pub open spec fn details_frame(
    a: Seq<(Seq<char>, FileReportInfo)>,
    b: Seq<(Seq<char>, FileReportInfo)>,
) -> bool {
    &&& a.len() == b.len()
    &&& forall|i: int|
        0 <= i < a.len() ==> (#[trigger] a[i]).0 == b[i].0 && a[i].1.lines == b[i].1.lines
            && a[i].1.chars == b[i].1.chars
}

/// Giving an entry a token count changes nothing but token counts.
pub proof fn lemma_with_token_frame(s: Seq<(Seq<char>, FileReportInfo)>, key: Seq<char>, t: u64)
    ensures
        details_frame(s, details_with_token(s, key, t)),
    decreases s,
{
    let w = details_with_token(s, key, t);
    if s.len() == 0 {
    } else if s[0].0 == key {
        assert(w[0].0 == s[0].0);
        assert(forall|i: int| 1 <= i < s.len() ==> (#[trigger] w[i]) == s[i]);
    } else {
        lemma_with_token_frame(s.drop_first(), key, t);
        assert(w[0] == s[0]);
        assert(forall|i: int|
            1 <= i < s.len() ==> (#[trigger] w[i]) == details_with_token(s.drop_first(), key, t)[i
                - 1] && s[i] == s.drop_first()[i - 1]);
    }
}

/// When the first entry under `key` stands at `i`, giving it a token count
/// is an update at `i`, and the lookup finds exactly that entry.
pub proof fn lemma_with_token_at(
    s: Seq<(Seq<char>, FileReportInfo)>,
    key: Seq<char>,
    t: u64,
    i: int,
)
    requires
        0 <= i < s.len(),
        s[i].0 == key,
        forall|j: int| 0 <= j < i ==> (#[trigger] s[j]).0 != key,
    ensures
        details_with_token(s, key, t) =~= s.update(
            i,
            (s[i].0, FileReportInfo { lines: s[i].1.lines, chars: s[i].1.chars, tokens: Some(t) }),
        ),
        detail_lookup(s, key) == Some(s[i].1),
    decreases s,
{
    if i == 0 {
    } else {
        assert(s.drop_first()[i - 1] == s[i]);
        assert(forall|j: int| 0 <= j < i - 1 ==> (#[trigger] s.drop_first()[j]).0 != key);
        lemma_with_token_at(s.drop_first(), key, t, i - 1);
        assert(s.update(i, (s[i].0, FileReportInfo {
            lines: s[i].1.lines,
            chars: s[i].1.chars,
            tokens: Some(t),
        })).drop_first() =~= s.drop_first().update(i - 1, (s[i].0, FileReportInfo {
            lines: s[i].1.lines,
            chars: s[i].1.chars,
            tokens: Some(t),
        })));
    }
}

/// A lookup that misses means no entry carries the key.
pub proof fn lemma_lookup_none(s: Seq<(Seq<char>, FileReportInfo)>, key: Seq<char>)
    requires
        forall|j: int| 0 <= j < s.len() ==> (#[trigger] s[j]).0 != key,
    ensures
        detail_lookup(s, key) is None,
    decreases s,
{
    if s.len() > 0 {
        assert(forall|j: int| 0 <= j < s.drop_first().len() ==> (#[trigger] s.drop_first()[j]).0
            != key);
        lemma_lookup_none(s.drop_first(), key);
    }
}

/// Updating an entry without touching its lines and chars keeps both sums.
pub proof fn lemma_sums_update(
    s: Seq<(Seq<char>, FileReportInfo)>,
    i: int,
    e: (Seq<char>, FileReportInfo),
)
    requires
        0 <= i < s.len(),
        e.1.lines == s[i].1.lines,
        e.1.chars == s[i].1.chars,
    ensures
        sum_lines(s.update(i, e)) == sum_lines(s),
        sum_chars(s.update(i, e)) == sum_chars(s),
    decreases s,
{
    if i == s.len() - 1 {
        assert(s.update(i, e).drop_last() =~= s.drop_last());
        assert(s.update(i, e).last() == e);
    } else {
        assert(s.update(i, e).drop_last() =~= s.drop_last().update(i, e));
        assert(s.drop_last()[i] == s[i]);
        lemma_sums_update(s.drop_last(), i, e);
        assert(s.update(i, e).last() == s.last());
    }
}

/// Scanner statistics: global totals plus one detail per processed entry.
#[derive(Debug)]
pub struct ScannerStatistics {
    /// Number of files processed
    pub files_processed: u64,
    /// Total number of lines
    pub total_lines: u64,
    /// Total number of characters
    pub total_chars: u64,
    /// Total number of tokens (when token counting is enabled)
    pub total_tokens: Option<u64>,
    /// One entry per processed file, binary or symlink, in recording order
    pub file_details: Vec<(String, FileReportInfo)>,
    /// Token cache hits (when tokenizer caching is enabled)
    pub token_cache_hits: Option<u64>,
    /// Token cache misses (when tokenizer caching is enabled)
    pub token_cache_misses: Option<u64>,
}

impl ScannerStatistics {
    /// The recorded details, as path and metrics pairs.
    pub open spec fn details_view(&self) -> Seq<(Seq<char>, FileReportInfo)> {
        Seq::new(self.file_details@.len(), |i: int| (self.file_details@[i].0@, self.file_details@[i].1))
    }

    /// The statistics invariant: the number of processed files equals the
    /// number of detail entries, the totals are exactly the sums of the
    /// per-file metrics, and every metric is within the content ceiling.
    pub open spec fn wf(&self) -> bool {
        &&& self.files_processed == self.details_view().len()
        &&& self.total_lines == sum_lines(self.details_view())
        &&& self.total_chars == sum_chars(self.details_view())
        &&& forall|i: int|
            0 <= i < self.details_view().len() ==> (#[trigger] self.details_view()[i]).1.lines
                <= DETAIL_BOUND && self.details_view()[i].1.chars <= DETAIL_BOUND
    }

    /// A fresh, empty statistics value.
    pub open spec fn is_empty(&self) -> bool {
        &&& self.files_processed == 0
        &&& self.total_lines == 0
        &&& self.total_chars == 0
        &&& self.total_tokens is None
        &&& self.details_view() =~= Seq::<(Seq<char>, FileReportInfo)>::empty()
    }

    /// Create empty statistics.
    pub fn new() -> (r: Self)
        ensures
            r.wf(),
            r.is_empty(),
            r.token_cache_hits is None,
            r.token_cache_misses is None,
    {
        let r = ScannerStatistics {
            files_processed: 0,
            total_lines: 0,
            total_chars: 0,
            total_tokens: None,
            file_details: Vec::new(),
            token_cache_hits: None,
            token_cache_misses: None,
        };
        proof {
            assert(r.details_view() =~= Seq::<(Seq<char>, FileReportInfo)>::empty());
        }
        r
    }

    /// Record the metrics of one processed entry: exactly one new detail is
    /// appended and each total grows by exactly the recorded amount.
    pub fn record(&mut self, path: String, lines: u64, chars: u64, tokens: Option<u64>)
        requires
            old(self).wf(),
            lines <= DETAIL_BOUND,
            chars <= DETAIL_BOUND,
            old(self).files_processed < SCAN_ENTRY_LIMIT,
            (tokens matches Some(t) ==> (match old(self).total_tokens {
                Some(x) => x as int,
                None => 0,
            }) + t <= u64::MAX),
        ensures
            final(self).wf(),
            final(self).details_view() =~= old(self).details_view().push(
                (path@, FileReportInfo { lines, chars, tokens }),
            ),
            final(self).files_processed == old(self).files_processed + 1,
            final(self).total_lines == old(self).total_lines + lines,
            final(self).total_chars == old(self).total_chars + chars,
            final(self).total_tokens == (match tokens {
                Some(t) => Some(
                    (((match old(self).total_tokens {
                        Some(x) => x as int,
                        None => 0,
                    }) + t) as u64),
                ),
                None => old(self).total_tokens,
            }),
            final(self).token_cache_hits == old(self).token_cache_hits,
            final(self).token_cache_misses == old(self).token_cache_misses,
    {
        proof {
            lemma_sums_bounded(self.details_view());
        }
        let info = FileReportInfo { lines, chars, tokens };
        self.file_details.push((path, info));
        self.files_processed = self.files_processed + 1;
        self.total_lines = self.total_lines + lines;
        self.total_chars = self.total_chars + chars;
        match tokens {
            Some(t) => {
                let base: u64 = match self.total_tokens {
                    Some(x) => x,
                    None => 0,
                };
                self.total_tokens = Some(base + t);
            },
            None => {},
        }
        proof {
            assert(self.details_view() =~= old(self).details_view().push((path@, info)));
            assert(self.details_view().drop_last() =~= old(self).details_view());
        }
    }

    /// Look up the detail recorded under a path.
    pub fn file_detail(&self, path: &str) -> (r: Option<FileReportInfo>)
        ensures
            r == detail_lookup(self.details_view(), path@),
    {
        proof {
            assert(self.details_view().subrange(0, self.details_view().len() as int)
                =~= self.details_view());
        }
        let mut i: usize = 0;
        while i < self.file_details.len()
            invariant
                i <= self.file_details@.len(),
                detail_lookup(self.details_view(), path@) == detail_lookup(
                    self.details_view().subrange(i as int, self.details_view().len() as int),
                    path@,
                ),
            decreases self.file_details@.len() - i,
        {
            proof {
                assert(self.details_view().subrange(i as int, self.details_view().len() as int)[0]
                    == self.details_view()[i as int]);
                assert(self.details_view().subrange(
                    i as int,
                    self.details_view().len() as int,
                ).drop_first() =~= self.details_view().subrange(
                    i + 1,
                    self.details_view().len() as int,
                ));
            }
            let entry = &self.file_details[i];
            if str_eq(entry.0.as_str(), path) {
                return Some(entry.1);
            }
            i = i + 1;
        }
        None
    }

    /// Attach a token count to the first detail recorded under `key`.
    /// Succeeds exactly when such a detail exists, carries no count yet, and
    /// the grand total stays within range; the grand total then grows by the
    /// recorded count, and nothing else changes.
    pub fn record_token_count(&mut self, key: &str, tokens: u64) -> (r: bool)
        requires
            old(self).wf(),
        ensures
            final(self).wf(),
            final(self).files_processed == old(self).files_processed,
            final(self).total_lines == old(self).total_lines,
            final(self).total_chars == old(self).total_chars,
            final(self).token_cache_hits == old(self).token_cache_hits,
            final(self).token_cache_misses == old(self).token_cache_misses,
            details_frame(old(self).details_view(), final(self).details_view()),
            (match detail_lookup(old(self).details_view(), key@) {
                Some(info) => {
                    if info.tokens is None && (match old(self).total_tokens {
                        Some(x) => x as int,
                        None => 0,
                    }) + tokens <= u64::MAX {
                        r && final(self).details_view() =~= details_with_token(
                            old(self).details_view(),
                            key@,
                            tokens,
                        ) && final(self).total_tokens == Some(
                            (((match old(self).total_tokens {
                                Some(x) => x as int,
                                None => 0,
                            }) + tokens) as u64),
                        )
                    } else {
                        !r && *final(self) == *old(self)
                    }
                },
                None => !r && *final(self) == *old(self),
            }),
    {
        let ghost dv = self.details_view();
        let mut i: usize = 0;
        while i < self.file_details.len()
            invariant
                i <= self.file_details@.len(),
                *self == *old(self),
                old(self).wf(),
                dv == self.details_view(),
                forall|j: int| 0 <= j < i ==> (#[trigger] dv[j]).0 != key@,
            decreases self.file_details@.len() - i,
        {
            let found = str_eq(self.file_details[i].0.as_str(), key);
            if found {
                proof {
                    lemma_with_token_at(dv, key@, tokens, i as int);
                }
                let info = self.file_details[i].1;
                if info.tokens.is_some() {
                    return false;
                }
                let base: u64 = match self.total_tokens {
                    Some(x) => x,
                    None => 0,
                };
                if tokens > u64::MAX - base {
                    return false;
                }
                let new_info = FileReportInfo {
                    lines: info.lines,
                    chars: info.chars,
                    tokens: Some(tokens),
                };
                let key_string = self.file_details[i].0.clone();
                self.file_details[i] = (key_string, new_info);
                self.total_tokens = Some(base + tokens);
                proof {
                    assert(self.details_view() =~= dv.update(
                        i as int,
                        (dv[i as int].0, new_info),
                    ));
                    lemma_sums_update(dv, i as int, (dv[i as int].0, new_info));
                    lemma_with_token_frame(dv, key@, tokens);
                }
                return true;
            }
            i = i + 1;
        }
        proof {
            lemma_lookup_none(dv, key@);
        }
        false
    }
}

impl Clone for ScannerStatistics {
    /// A consistent copy: every total and every detail is preserved.
    fn clone(&self) -> (r: Self)
        ensures
            r.files_processed == self.files_processed,
            r.total_lines == self.total_lines,
            r.total_chars == self.total_chars,
            r.total_tokens == self.total_tokens,
            r.token_cache_hits == self.token_cache_hits,
            r.token_cache_misses == self.token_cache_misses,
            r.details_view() =~= self.details_view(),
    {
        let mut details: Vec<(String, FileReportInfo)> = Vec::new();
        let mut i: usize = 0;
        while i < self.file_details.len()
            invariant
                i <= self.file_details@.len(),
                details@.len() == i,
                forall|j: int| 0 <= j < i ==> #[trigger] details@[j] == self.file_details@[j],
            decreases self.file_details@.len() - i,
        {
            let entry = &self.file_details[i];
            details.push((entry.0.clone(), entry.1));
            i = i + 1;
        }
        let r = ScannerStatistics {
            files_processed: self.files_processed,
            total_lines: self.total_lines,
            total_chars: self.total_chars,
            total_tokens: self.total_tokens,
            file_details: details,
            token_cache_hits: self.token_cache_hits,
            token_cache_misses: self.token_cache_misses,
        };
        proof {
            assert(r.details_view() =~= self.details_view());
        }
        r
    }
}

/// With every metric within the detail bound, a sum of details is bounded by
/// the bound times the number of details.
pub proof fn lemma_sums_bounded(s: Seq<(Seq<char>, FileReportInfo)>)
    requires
        forall|i: int|
            0 <= i < s.len() ==> (#[trigger] s[i]).1.lines <= DETAIL_BOUND && s[i].1.chars
                <= DETAIL_BOUND,
    ensures
        0 <= sum_lines(s) <= DETAIL_BOUND * s.len(),
        0 <= sum_chars(s) <= DETAIL_BOUND * s.len(),
    decreases s,
{
    if s.len() > 0 {
        assert(forall|i: int| 0 <= i < s.drop_last().len() ==> #[trigger] s.drop_last()[i] == s[i]);
        lemma_sums_bounded(s.drop_last());
        assert(DETAIL_BOUND * s.len() == DETAIL_BOUND * (s.len() - 1) + DETAIL_BOUND) by (
        nonlinear_arith);
    }
}

/// Number of line-feed characters in a text.
pub open spec fn newline_count(s: Seq<char>) -> nat
    decreases s,
{
    if s.len() == 0 {
        0
    } else {
        newline_count(s.drop_last()) + if s.last() == '\n' {
            1 as nat
        } else {
            0 as nat
        }
    }
}

/// Number of logical lines of a text: one per line terminator, plus one for
/// a final line that does not end in a terminator.
pub open spec fn spec_line_count(s: Seq<char>) -> nat {
    newline_count(s) + if s.len() > 0 && s.last() != '\n' {
        1 as nat
    } else {
        0 as nat
    }
}

/// A text never holds more line feeds than characters.
proof fn lemma_newline_count_le(s: Seq<char>)
    ensures
        newline_count(s) <= s.len(),
    decreases s,
{
    if s.len() > 0 {
        lemma_newline_count_le(s.drop_last());
    }
}

/// Count the logical lines of a text.
pub fn count_lines(s: &str) -> (n: usize)
    requires
        s@.len() <= CONTENT_CEILING,
    ensures
        n == spec_line_count(s@),
{
    let mut nl: usize = 0;
    let mut last: Option<char> = None;
    proof {
        lemma_newline_count_le(s@);
    }
    for c in it: s.chars()
        invariant
            it.seq() == s@,
            s@.len() <= CONTENT_CEILING,
            nl == newline_count(it.seq().subrange(0, it.index() as int)),
            nl <= it.index(),
            last == (if it.index() == 0 {
                Option::<char>::None
            } else {
                Some(it.seq()[it.index() - 1])
            }),
    {
        proof {
            assert(it.seq().subrange(0, it.index() + 1).drop_last() =~= it.seq().subrange(
                0,
                it.index() as int,
            ));
            assert(it.seq().subrange(0, it.index() + 1).last() == it.seq()[it.index() as int]);
        }
        if c == '\n' {
            nl = nl + 1;
        }
        last = Some(c);
    }
    proof {
        assert(s@.subrange(0, s@.len() as int) =~= s@);
    }
    match last {
        Some(l) => {
            if l != '\n' {
                nl + 1
            } else {
                nl
            }
        },
        None => nl,
    }
}

/// Placeholder content recorded for a file over the size ceiling.
pub open spec fn spec_placeholder_large(size: u64) -> Seq<char> {
    "File too large to include content. Size: "@ + spec_format_file_size(size)
}

/// Placeholder content recorded for a file whose read failed.
pub open spec fn spec_placeholder_failed(msg: Seq<char>) -> Seq<char> {
    "Failed to read file: "@ + msg
}

/// Build the placeholder for a file over the size ceiling.
fn placeholder_large(size: u64) -> (r: String)
    ensures
        r@ == spec_placeholder_large(size),
{
    let mut s = "File too large to include content. Size: ".to_owned();
    s.append(format_file_size(size).as_str());
    s
}

/// Build the placeholder for a file whose read failed.
fn placeholder_failed(msg: &str) -> (r: String)
    ensures
        r@ == spec_placeholder_failed(msg@),
{
    let mut s = "Failed to read file: ".to_owned();
    s.append(msg);
    s
}

/// Join a path and a base name with a separator.
pub open spec fn spec_join(path: Seq<char>, name: Seq<char>) -> Seq<char> {
    path + "/"@ + name
}

/// Join a path and a base name with a separator.
fn join_path(path: &str, name: &str) -> (r: String)
    ensures
        r@ == spec_join(path@, name@),
{
    let mut s = path.to_owned();
    s.append("/");
    s.append(name);
    s
}

/// What a glob pattern matches is the pattern language of the matching
/// crate; the result is a function of the pattern and the name alone, under
/// the build target's path-separator convention.
pub uninterp spec fn glob_matches(pattern: Seq<char>, name: Seq<char>) -> bool;

/// Relies on `glob_match::glob_match`: whether a glob pattern matches a
/// name.  The crate computes the match from its two arguments without
/// consulting anything else.
#[verifier::external_body]
fn glob_match_name(pattern: &str, name: &str) -> (r: bool)
    ensures
        r == glob_matches(pattern@, name@),
{
    glob_match::glob_match(pattern, name)
}

/// Whether a name glob-matches any of a list of patterns.
pub open spec fn spec_matches_any(patterns: Seq<Seq<char>>, name: Seq<char>) -> bool {
    exists|i: int| 0 <= i < patterns.len() && glob_matches(patterns[i], name)
}

/// Whether `suffix` names a trailing run of whole path components of `path`.
pub open spec fn spec_path_suffix(path: Seq<char>, suffix: Seq<char>) -> bool {
    &&& suffix.len() > 0
    &&& path.len() >= suffix.len()
    &&& path.skip(path.len() - suffix.len()) == suffix
    &&& (path.len() == suffix.len() || path[path.len() - suffix.len() - 1] == '/')
}

/// Whether `suffix` names a trailing run of whole path components of `path`.
fn path_suffix_matches(path: &str, suffix: &str) -> (r: bool)
    ensures
        r == spec_path_suffix(path@, suffix@),
{
    let pv = crate::utils::chars_of(path);
    let sv = crate::utils::chars_of(suffix);
    if sv.len() == 0 || pv.len() < sv.len() {
        return false;
    }
    let base: usize = pv.len() - sv.len();
    let mut i: usize = 0;
    while i < sv.len()
        invariant
            i <= sv@.len(),
            pv@ == path@,
            sv@ == suffix@,
            sv@.len() >= 1,
            sv@.len() <= pv@.len(),
            pv@.len() <= usize::MAX,
            base == pv@.len() - sv@.len(),
            forall|j: int| 0 <= j < i ==> path@[base + j] == suffix@[j],
        decreases sv@.len() - i,
    {
        proof {
            assert(base + i < pv@.len());
        }
        let idx: usize = base + i;
        if pv[idx] != sv[i] {
            proof {
                assert(path@.skip(base as int)[i as int] != suffix@[i as int]);
            }
            return false;
        }
        i = i + 1;
    }
    proof {
        assert(path@.skip(base as int) =~= suffix@);
    }
    if base == 0 {
        true
    } else {
        pv[base - 1] == '/'
    }
}

/// The filter policy's ignore rule: a user-supplied ignore pattern matches
/// the base name, the base name is in the built-in ignore set, or the path
/// ends with the configured output file (self-exclusion).  The output file
/// is first normalized to the repository root, so that an absolute output
/// path inside a scanned repository still excludes itself.
pub open spec fn spec_should_ignore(cfg: Config, name: Seq<char>, rel: Seq<char>) -> bool {
    ||| spec_matches_any(cfg.ignore_patterns.deep_view(), name)
    ||| crate::utils::spec_default_ignored(name)
    ||| spec_path_suffix(rel, spec_normalize_path(cfg, cfg.output_file@))
}

/// The filter policy's include rule: with no include patterns everything is
/// included; otherwise the base name must match one of them.
pub open spec fn spec_should_include(cfg: Config, name: Seq<char>) -> bool {
    cfg.include_patterns@.len() == 0 || spec_matches_any(cfg.include_patterns.deep_view(), name)
}

/// The combined filter policy applied to every entry.
pub open spec fn spec_keep(cfg: Config, name: Seq<char>, rel: Seq<char>) -> bool {
    !spec_should_ignore(cfg, name, rel) && spec_should_include(cfg, name)
}

/// The node and the recorded metrics a processed leaf produces, or `None`
/// when the leaf is dropped (entries that are neither file, binary nor
/// symlink are not processed).  Binary and symlink entries record
/// zero-valued line and character counts; only read text content is
/// measured.
pub open spec fn spec_leaf_outcome(l: FsLeaf, rel: Seq<char>) -> Option<(NodeView, FileReportInfo)> {
    match classify_leaf(l) {
        FileType::TextFile => Some(spec_text_outcome(l, rel)),
        FileType::BinaryFile => Some(
            (
                NodeView::Binary { name: l.name@, path: rel, metadata: l.metadata@ },
                FileReportInfo { lines: 0, chars: 0, tokens: None },
            ),
        ),
        FileType::Symlink => Some(
            (
                NodeView::Symlink { name: l.name@, path: rel, metadata: l.metadata@, target: l.target@ },
                FileReportInfo { lines: 0, chars: 0, tokens: None },
            ),
        ),
        FileType::Directory => None,
        FileType::Other => None,
    }
}

/// Content stored for a leaf that classified as text: its content when it is
/// under the ceiling and was read, a placeholder when it is over the ceiling
/// or its read failed, nothing when it was never read.
pub open spec fn spec_text_content(l: FsLeaf) -> Option<Seq<char>> {
    if l.metadata.size > CONTENT_CEILING {
        Some(spec_placeholder_large(l.metadata.size))
    } else {
        match l.content {
            ReadOutcome::Text(s) => Some(s@),
            ReadOutcome::Failed(m) => Some(spec_placeholder_failed(m@)),
            ReadOutcome::NotRead => None,
        }
    }
}

/// Metrics recorded for a leaf that classified as text: only a read content
/// under the ceiling contributes lines and characters.
pub open spec fn spec_text_info(l: FsLeaf) -> FileReportInfo {
    if l.metadata.size > CONTENT_CEILING {
        FileReportInfo { lines: 0, chars: 0, tokens: None }
    } else {
        match l.content {
            ReadOutcome::Text(s) => FileReportInfo {
                lines: spec_line_count(s@) as u64,
                chars: s@.len() as u64,
                tokens: None,
            },
            ReadOutcome::Failed(_) => FileReportInfo { lines: 0, chars: 0, tokens: None },
            ReadOutcome::NotRead => FileReportInfo { lines: 0, chars: 0, tokens: None },
        }
    }
}

/// The node and metrics of a leaf that classified as text.
pub open spec fn spec_text_outcome(l: FsLeaf, rel: Seq<char>) -> (NodeView, FileReportInfo) {
    (
        NodeView::File {
            name: l.name@,
            path: rel,
            metadata: l.metadata@,
            content: spec_text_content(l),
        },
        spec_text_info(l),
    )
}

/// Scan of a directory snapshot: `None` when its children could not be
/// enumerated; otherwise the directory node — kept subdirectories first, in
/// order, then kept processed leaves, in order — together with the detail
/// entries recorded under it, in recording order.
pub open spec fn scan_dir_spec(d: FsDir, rel: Seq<char>, rp: Seq<char>, cfg: Config) -> Option<
    (NodeView, Seq<(Seq<char>, FileReportInfo)>),
>
    decreases d,
{
    match d.entries {
        Some(es) => {
            let sub = scan_dirs_spec(es@, rel, rp, cfg);
            let leaves = scan_leaves_spec(es@, rel, rp, cfg);
            Some(
                (
                    NodeView::Directory {
                        name: d.name@,
                        path: rel,
                        metadata: d.metadata@,
                        contents: sub.0 + leaves.0,
                    },
                    sub.1 + leaves.1,
                ),
            )
        },
        None => None,
    }
}

/// Scan of the kept subdirectories among a directory's children, in order.
/// A subdirectory whose own children cannot be enumerated is skipped.
pub open spec fn scan_dirs_spec(es: Seq<FsEntry>, rel: Seq<char>, rp: Seq<char>, cfg: Config) -> (
    Seq<NodeView>,
    Seq<(Seq<char>, FileReportInfo)>,
)
    decreases es,
{
    if es.len() == 0 {
        (Seq::empty(), Seq::empty())
    } else {
        let rest = scan_dirs_spec(es.drop_first(), rel, rp, cfg);
        match es[0] {
            FsEntry::Dir(d) => {
                if spec_keep(cfg, d.name@, spec_join(rel, d.name@)) {
                    match scan_dir_spec(d, spec_join(rel, d.name@), spec_join(rp, d.name@), cfg) {
                        Some(r) => (seq![r.0] + rest.0, r.1 + rest.1),
                        None => rest,
                    }
                } else {
                    rest
                }
            },
            FsEntry::Leaf(_) => rest,
        }
    }
}

/// Scan of the kept, processed leaves among a directory's children, in
/// order.  Each processed leaf contributes one node and one detail entry,
/// recorded under its report path.
pub open spec fn scan_leaves_spec(es: Seq<FsEntry>, rel: Seq<char>, rp: Seq<char>, cfg: Config) -> (
    Seq<NodeView>,
    Seq<(Seq<char>, FileReportInfo)>,
)
    decreases es,
{
    if es.len() == 0 {
        (Seq::empty(), Seq::empty())
    } else {
        let rest = scan_leaves_spec(es.drop_first(), rel, rp, cfg);
        match es[0] {
            FsEntry::Leaf(l) => {
                if spec_keep(cfg, l.name@, spec_join(rel, l.name@)) {
                    match spec_leaf_outcome(l, spec_join(rel, l.name@)) {
                        Some(r) => (
                            seq![r.0] + rest.0,
                            seq![(spec_join(rp, l.name@), r.1)] + rest.1,
                        ),
                        None => rest,
                    }
                } else {
                    rest
                }
            },
            FsEntry::Dir(_) => rest,
        }
    }
}

/// Scanning a concatenation of children scans both parts and concatenates,
/// for the subdirectory pass.
pub proof fn lemma_scan_dirs_concat(a: Seq<FsEntry>, b: Seq<FsEntry>, rel: Seq<char>, rp: Seq<char>, cfg: Config)
    ensures
        scan_dirs_spec(a + b, rel, rp, cfg).0 =~= scan_dirs_spec(a, rel, rp, cfg).0
            + scan_dirs_spec(b, rel, rp, cfg).0,
        scan_dirs_spec(a + b, rel, rp, cfg).1 =~= scan_dirs_spec(a, rel, rp, cfg).1
            + scan_dirs_spec(b, rel, rp, cfg).1,
    decreases a,
{
    if a.len() == 0 {
        assert(a + b =~= b);
    } else {
        assert((a + b)[0] == a[0]);
        assert((a + b).drop_first() =~= a.drop_first() + b);
        lemma_scan_dirs_concat(a.drop_first(), b, rel, rp, cfg);
    }
}

/// Scanning a concatenation of children scans both parts and concatenates,
/// for the leaf pass.
pub proof fn lemma_scan_leaves_concat(a: Seq<FsEntry>, b: Seq<FsEntry>, rel: Seq<char>, rp: Seq<char>, cfg: Config)
    ensures
        scan_leaves_spec(a + b, rel, rp, cfg).0 =~= scan_leaves_spec(a, rel, rp, cfg).0
            + scan_leaves_spec(b, rel, rp, cfg).0,
        scan_leaves_spec(a + b, rel, rp, cfg).1 =~= scan_leaves_spec(a, rel, rp, cfg).1
            + scan_leaves_spec(b, rel, rp, cfg).1,
    decreases a,
{
    if a.len() == 0 {
        assert(a + b =~= b);
    } else {
        assert((a + b)[0] == a[0]);
        assert((a + b).drop_first() =~= a.drop_first() + b);
        lemma_scan_leaves_concat(a.drop_first(), b, rel, rp, cfg);
    }
}

/// Scan of a single child, unfolded, for both passes.
pub proof fn lemma_scan_singleton(e: FsEntry, rel: Seq<char>, rp: Seq<char>, cfg: Config)
    ensures
        scan_dirs_spec(seq![e], rel, rp, cfg) == (match e {
            FsEntry::Dir(d) => {
                if spec_keep(cfg, d.name@, spec_join(rel, d.name@)) {
                    match scan_dir_spec(d, spec_join(rel, d.name@), spec_join(rp, d.name@), cfg) {
                        Some(r) => (seq![r.0], r.1),
                        None => (Seq::<NodeView>::empty(), Seq::<(Seq<char>, FileReportInfo)>::empty()),
                    }
                } else {
                    (Seq::<NodeView>::empty(), Seq::<(Seq<char>, FileReportInfo)>::empty())
                }
            },
            FsEntry::Leaf(_) => (Seq::<NodeView>::empty(), Seq::<(Seq<char>, FileReportInfo)>::empty()),
        }),
        scan_leaves_spec(seq![e], rel, rp, cfg) == (match e {
            FsEntry::Leaf(l) => {
                if spec_keep(cfg, l.name@, spec_join(rel, l.name@)) {
                    match spec_leaf_outcome(l, spec_join(rel, l.name@)) {
                        Some(r) => (seq![r.0], seq![(spec_join(rp, l.name@), r.1)]),
                        None => (Seq::<NodeView>::empty(), Seq::<(Seq<char>, FileReportInfo)>::empty()),
                    }
                } else {
                    (Seq::<NodeView>::empty(), Seq::<(Seq<char>, FileReportInfo)>::empty())
                }
            },
            FsEntry::Dir(_) => (Seq::<NodeView>::empty(), Seq::<(Seq<char>, FileReportInfo)>::empty()),
        }),
{
    let s = seq![e];
    assert(s[0] == e);
    assert(s.drop_first() =~= Seq::<FsEntry>::empty());
    assert(scan_dirs_spec(s.drop_first(), rel, rp, cfg) == (
        Seq::<NodeView>::empty(),
        Seq::<(Seq<char>, FileReportInfo)>::empty(),
    ));
    assert(scan_leaves_spec(s.drop_first(), rel, rp, cfg) == (
        Seq::<NodeView>::empty(),
        Seq::<(Seq<char>, FileReportInfo)>::empty(),
    ));
    match e {
        FsEntry::Dir(d) => {
            if spec_keep(cfg, d.name@, spec_join(rel, d.name@)) {
                match scan_dir_spec(d, spec_join(rel, d.name@), spec_join(rp, d.name@), cfg) {
                    Some(r) => {
                        assert(scan_dirs_spec(s, rel, rp, cfg).0 =~= seq![r.0]);
                        assert(scan_dirs_spec(s, rel, rp, cfg).1 =~= r.1);
                    },
                    None => {},
                }
            }
        },
        FsEntry::Leaf(l) => {
            if spec_keep(cfg, l.name@, spec_join(rel, l.name@)) {
                match spec_leaf_outcome(l, spec_join(rel, l.name@)) {
                    Some(r) => {
                        assert(scan_leaves_spec(s, rel, rp, cfg).0 =~= seq![r.0]);
                        assert(scan_leaves_spec(s, rel, rp, cfg).1 =~= seq![
                            (spec_join(rp, l.name@), r.1),
                        ]);
                    },
                    None => {},
                }
            }
        },
    }
}

/// One unfolding step of both scan passes over a nonempty child sequence.
proof fn lemma_scan_step(es: Seq<FsEntry>, rel: Seq<char>, rp: Seq<char>, cfg: Config)
    requires
        es.len() > 0,
    ensures
        scan_dirs_spec(es, rel, rp, cfg) == (match es[0] {
            FsEntry::Dir(d) => {
                if spec_keep(cfg, d.name@, spec_join(rel, d.name@)) {
                    match scan_dir_spec(d, spec_join(rel, d.name@), spec_join(rp, d.name@), cfg) {
                        Some(r) => (
                            seq![r.0] + scan_dirs_spec(es.drop_first(), rel, rp, cfg).0,
                            r.1 + scan_dirs_spec(es.drop_first(), rel, rp, cfg).1,
                        ),
                        None => scan_dirs_spec(es.drop_first(), rel, rp, cfg),
                    }
                } else {
                    scan_dirs_spec(es.drop_first(), rel, rp, cfg)
                }
            },
            FsEntry::Leaf(_) => scan_dirs_spec(es.drop_first(), rel, rp, cfg),
        }),
        scan_leaves_spec(es, rel, rp, cfg) == (match es[0] {
            FsEntry::Leaf(l) => {
                if spec_keep(cfg, l.name@, spec_join(rel, l.name@)) {
                    match spec_leaf_outcome(l, spec_join(rel, l.name@)) {
                        Some(r) => (
                            seq![r.0] + scan_leaves_spec(es.drop_first(), rel, rp, cfg).0,
                            seq![(spec_join(rp, l.name@), r.1)] + scan_leaves_spec(
                                es.drop_first(),
                                rel,
                                rp,
                                cfg,
                            ).1,
                        ),
                        None => scan_leaves_spec(es.drop_first(), rel, rp, cfg),
                    }
                } else {
                    scan_leaves_spec(es.drop_first(), rel, rp, cfg)
                }
            },
            FsEntry::Dir(_) => scan_leaves_spec(es.drop_first(), rel, rp, cfg),
        }),
{
    let rest_d = scan_dirs_spec(es.drop_first(), rel, rp, cfg);
    let rest_l = scan_leaves_spec(es.drop_first(), rel, rp, cfg);
    assert(rest_d == (rest_d.0, rest_d.1));
    assert(rest_l == (rest_l.0, rest_l.1));
}

/// Counting leaf entries distributes over concatenation.
pub proof fn lemma_entries_leaf_count_concat(a: Seq<FsEntry>, b: Seq<FsEntry>)
    ensures
        entries_leaf_count(a + b) == entries_leaf_count(a) + entries_leaf_count(b),
    decreases a,
{
    if a.len() == 0 {
        assert(a + b =~= b);
    } else {
        assert((a + b)[0] == a[0]);
        assert((a + b).drop_first() =~= a.drop_first() + b);
        lemma_entries_leaf_count_concat(a.drop_first(), b);
    }
}

/// A prefix of the children plus one more entry accounts for no more leaf
/// entries than all children together.
pub proof fn lemma_prefix_leaf_count(es: Seq<FsEntry>, i: int)
    requires
        0 <= i < es.len(),
    ensures
        entries_leaf_count(es.subrange(0, i)) + entry_leaf_count(es[i]) <= entries_leaf_count(es),
{
    let a = es.subrange(0, i);
    let m = seq![es[i]];
    let b = es.subrange(i + 1, es.len() as int);
    assert(es =~= a + m + b);
    lemma_entries_leaf_count_concat(a + m, b);
    lemma_entries_leaf_count_concat(a, m);
    assert(m.drop_first() =~= Seq::<FsEntry>::empty());
    assert(entries_leaf_count(m.drop_first()) == 0);
    assert(entries_leaf_count(m) == entry_leaf_count(es[i]));
}

/// Everything a leaf records stays within the detail bound.
pub proof fn lemma_leaf_info_bounded(l: FsLeaf, rel: Seq<char>)
    requires
        leaf_wf(l),
    ensures
        spec_leaf_outcome(l, rel) matches Some(r) ==> r.1.lines <= DETAIL_BOUND && r.1.chars
            <= DETAIL_BOUND,
{
    match classify_leaf(l) {
        FileType::TextFile => {
            if l.metadata.size <= CONTENT_CEILING {
                match l.content {
                    ReadOutcome::Text(s) => {
                        lemma_newline_count_le(s@);
                    },
                    _ => {},
                }
            }
        },
        _ => {},
    }
}

/// The details either pass produces are one per processed leaf — together no
/// more than the leaf entries of the children — and every recorded metric is
/// within the detail bound.
pub proof fn lemma_scan_entries_bounds(es: Seq<FsEntry>, rel: Seq<char>, rp: Seq<char>, cfg: Config)
    requires
        forall|i: int| 0 <= i < es.len() ==> entry_wf(#[trigger] es[i]),
    ensures
        scan_dirs_spec(es, rel, rp, cfg).1.len() + scan_leaves_spec(es, rel, rp, cfg).1.len()
            <= entries_leaf_count(es),
        forall|i: int|
            0 <= i < scan_dirs_spec(es, rel, rp, cfg).1.len() ==> (#[trigger] scan_dirs_spec(
                es,
                rel,
                rp,
                cfg,
            ).1[i]).1.lines <= DETAIL_BOUND && scan_dirs_spec(es, rel, rp, cfg).1[i].1.chars
                <= DETAIL_BOUND,
        forall|i: int|
            0 <= i < scan_leaves_spec(es, rel, rp, cfg).1.len() ==> (#[trigger] scan_leaves_spec(
                es,
                rel,
                rp,
                cfg,
            ).1[i]).1.lines <= DETAIL_BOUND && scan_leaves_spec(es, rel, rp, cfg).1[i].1.chars
                <= DETAIL_BOUND,
    decreases es,
{
    if es.len() > 0 {
        lemma_scan_step(es, rel, rp, cfg);
        assert(forall|i: int|
            0 <= i < es.drop_first().len() ==> entry_wf(#[trigger] es.drop_first()[i]));
        lemma_scan_entries_bounds(es.drop_first(), rel, rp, cfg);
        assert(entry_wf(es[0]));
        assert(entries_leaf_count(es) == entry_leaf_count(es[0]) + entries_leaf_count(
            es.drop_first(),
        ));
        match es[0] {
            FsEntry::Dir(d) => {
                assert(entry_leaf_count(es[0]) == dir_leaf_count(d));
                if spec_keep(cfg, d.name@, spec_join(rel, d.name@)) {
                    lemma_scan_dir_bounds(d, spec_join(rel, d.name@), spec_join(rp, d.name@), cfg);
                }
            },
            FsEntry::Leaf(l) => {
                assert(entry_leaf_count(es[0]) == 1);
                lemma_leaf_info_bounded(l, spec_join(rel, l.name@));
            },
        }
    }
}

/// The details a directory scan produces are no more than its leaf entries,
/// and every recorded metric is within the detail bound.
pub proof fn lemma_scan_dir_bounds(d: FsDir, rel: Seq<char>, rp: Seq<char>, cfg: Config)
    requires
        dir_wf(d),
    ensures
        scan_dir_spec(d, rel, rp, cfg) matches Some(r) ==> r.1.len() <= dir_leaf_count(d) && (
        forall|i: int|
            0 <= i < r.1.len() ==> (#[trigger] r.1[i]).1.lines <= DETAIL_BOUND && r.1[i].1.chars
                <= DETAIL_BOUND),
    decreases d,
{
    match d.entries {
        Some(es) => {
            lemma_scan_entries_bounds(es@, rel, rp, cfg);
        },
        None => {},
    }
}

/// Each pass yields exactly one node per detail entry it records: the tree
/// accounts for exactly the processed entries.
pub proof fn lemma_scan_entries_counts(es: Seq<FsEntry>, rel: Seq<char>, rp: Seq<char>, cfg: Config)
    ensures
        leaf_node_count_seq(scan_dirs_spec(es, rel, rp, cfg).0) == scan_dirs_spec(
            es,
            rel,
            rp,
            cfg,
        ).1.len(),
        leaf_node_count_seq(scan_leaves_spec(es, rel, rp, cfg).0) == scan_leaves_spec(
            es,
            rel,
            rp,
            cfg,
        ).1.len(),
    decreases es,
{
    if es.len() > 0 {
        lemma_scan_step(es, rel, rp, cfg);
        lemma_scan_entries_counts(es.drop_first(), rel, rp, cfg);
        match es[0] {
            FsEntry::Dir(d) => {
                if spec_keep(cfg, d.name@, spec_join(rel, d.name@)) {
                    lemma_scan_dir_counts(d, spec_join(rel, d.name@), spec_join(rp, d.name@), cfg);
                    match scan_dir_spec(d, spec_join(rel, d.name@), spec_join(rp, d.name@), cfg) {
                        Some(r) => {
                            crate::types::lemma_leaf_node_count_seq_concat(
                                seq![r.0],
                                scan_dirs_spec(es.drop_first(), rel, rp, cfg).0,
                            );
                            assert(seq![r.0].drop_first() =~= Seq::<NodeView>::empty());
                            assert(leaf_node_count_seq(seq![r.0].drop_first()) == 0);
                            assert(leaf_node_count_seq(seq![r.0]) == leaf_node_count(r.0));
                        },
                        None => {},
                    }
                }
            },
            FsEntry::Leaf(l) => {
                if spec_keep(cfg, l.name@, spec_join(rel, l.name@)) {
                    match spec_leaf_outcome(l, spec_join(rel, l.name@)) {
                        Some(r) => {
                            crate::types::lemma_leaf_node_count_seq_concat(
                                seq![r.0],
                                scan_leaves_spec(es.drop_first(), rel, rp, cfg).0,
                            );
                            assert(seq![r.0].drop_first() =~= Seq::<NodeView>::empty());
                            assert(leaf_node_count_seq(seq![r.0].drop_first()) == 0);
                            assert(leaf_node_count_seq(seq![r.0]) == leaf_node_count(r.0));
                        },
                        None => {},
                    }
                }
            },
        }
    }
}

/// The number of file, binary and symlink nodes in a scanned tree equals the
/// number of detail entries recorded for it: statistics account for exactly
/// the tree's non-directory nodes, never more, never fewer.
pub proof fn lemma_scan_dir_counts(d: FsDir, rel: Seq<char>, rp: Seq<char>, cfg: Config)
    ensures
        scan_dir_spec(d, rel, rp, cfg) matches Some(r) ==> leaf_node_count(r.0) == r.1.len(),
    decreases d,
{
    match d.entries {
        Some(es) => {
            lemma_scan_entries_counts(es@, rel, rp, cfg);
            crate::types::lemma_leaf_node_count_seq_concat(
                scan_dirs_spec(es@, rel, rp, cfg).0,
                scan_leaves_spec(es@, rel, rp, cfg).0,
            );
        },
        None => {},
    }
}

/// Scanner for directory contents.
#[derive(Debug)]
pub struct Scanner {
    /// Scanner configuration
    pub config: Config,
    /// Scanner statistics, updated once per processed entry
    pub statistics: ScannerStatistics,
}

impl Scanner {
    /// Create a new scanner with empty statistics.
    pub fn new(config: Config) -> (r: Scanner)
        ensures
            r.config == config,
            r.statistics.wf(),
            r.statistics.is_empty(),
    {
        Scanner { config, statistics: ScannerStatistics::new() }
    }

    /// Get a consistent copy of the scanner statistics.
    pub fn get_statistics(&self) -> (r: ScannerStatistics)
        ensures
            r.files_processed == self.statistics.files_processed,
            r.total_lines == self.statistics.total_lines,
            r.total_chars == self.statistics.total_chars,
            r.total_tokens == self.statistics.total_tokens,
            r.token_cache_hits == self.statistics.token_cache_hits,
            r.token_cache_misses == self.statistics.token_cache_misses,
            r.details_view() =~= self.statistics.details_view(),
    {
        self.statistics.clone()
    }

    /// Check if an entry should be ignored, from its base name and its path
    /// relative to the scan root.
    pub fn should_ignore(&self, name: &str, rel_path: &str) -> (r: bool)
        ensures
            r == spec_should_ignore(self.config, name@, rel_path@),
    {
        let ghost pats = self.config.ignore_patterns.deep_view();
        let mut i: usize = 0;
        while i < self.config.ignore_patterns.len()
            invariant
                i <= self.config.ignore_patterns@.len(),
                pats == self.config.ignore_patterns.deep_view(),
                pats.len() == self.config.ignore_patterns@.len(),
                forall|j: int| 0 <= j < i ==> !glob_matches(#[trigger] pats[j], name@),
            decreases self.config.ignore_patterns@.len() - i,
        {
            proof {
                assert(pats[i as int] == self.config.ignore_patterns@[i as int]@);
            }
            if glob_match_name(self.config.ignore_patterns[i].as_str(), name) {
                return true;
            }
            i = i + 1;
        }
        if crate::utils::is_default_ignored(name) {
            return true;
        }
        let output_rel = self.normalize_path(self.config.output_file.as_str());
        path_suffix_matches(rel_path, output_rel.as_str())
    }

    /// Check if an entry should be included, from its base name.
    pub fn should_include(&self, name: &str) -> (r: bool)
        ensures
            r == spec_should_include(self.config, name@),
    {
        if self.config.include_patterns.len() == 0 {
            return true;
        }
        let ghost pats = self.config.include_patterns.deep_view();
        let mut i: usize = 0;
        while i < self.config.include_patterns.len()
            invariant
                i <= self.config.include_patterns@.len(),
                pats == self.config.include_patterns.deep_view(),
                pats.len() == self.config.include_patterns@.len(),
                forall|j: int| 0 <= j < i ==> !glob_matches(#[trigger] pats[j], name@),
            decreases self.config.include_patterns@.len() - i,
        {
            proof {
                assert(pats[i as int] == self.config.include_patterns@[i as int]@);
            }
            if glob_match_name(self.config.include_patterns[i].as_str(), name) {
                return true;
            }
            i = i + 1;
        }
        false
    }

    /// Normalize a path to be relative to the repository root: a path under
    /// the repository's cache directory loses that prefix; any other path is
    /// returned as it is.
    pub fn normalize_path(&self, path: &str) -> (r: String)
        ensures
            r@ == spec_normalize_path(self.config, path@),
    {
        match &self.config.git_repo {
            Some(g) => {
                if str_eq(path, g.cache_path.as_str()) {
                    return String::new();
                }
                let mut prefix = g.cache_path.clone();
                prefix.append("/");
                let v = crate::utils::chars_of(path);
                let pv = crate::utils::chars_of(prefix.as_str());
                if crate::utils::vec_starts_with(&v, prefix.as_str()) {
                    let r = crate::utils::slice_string(&v, pv.len(), v.len());
                    proof {
                        reveal_strlit("/");
                        assert(pv@.len() == g.cache_path@.len() + 1);
                        assert(r@ =~= path@.skip(g.cache_path@.len() as int + 1));
                    }
                    r
                } else {
                    path.to_owned()
                }
            },
            None => path.to_owned(),
        }
    }

    /// Convert an absolute path to a normalized path for reporting: under a
    /// repository, `owner/name` followed by the path relative to the cache
    /// directory; otherwise the path as it is.
    pub fn get_normalized_path_for_reporting(&self, abs_path: &str) -> (r: String)
        ensures
            r@ == spec_reporting_path(self.config, abs_path@),
    {
        match &self.config.git_repo {
            Some(g) => {
                let mut base = g.owner.clone();
                base.append("/");
                base.append(g.name.as_str());
                if str_eq(abs_path, g.cache_path.as_str()) {
                    return base;
                }
                let mut prefix = g.cache_path.clone();
                prefix.append("/");
                let v = crate::utils::chars_of(abs_path);
                let pv = crate::utils::chars_of(prefix.as_str());
                if crate::utils::vec_starts_with(&v, prefix.as_str()) {
                    base.append("/");
                    let tail = crate::utils::slice_string(&v, pv.len(), v.len());
                    base.append(tail.as_str());
                    proof {
                        reveal_strlit("/");
                        assert(pv@.len() == g.cache_path@.len() + 1);
                        assert(tail@ =~= abs_path@.skip(g.cache_path@.len() as int + 1));
                    }
                    base
                } else {
                    abs_path.to_owned()
                }
            },
            None => abs_path.to_owned(),
        }
    }

    /// The combined filter policy: not ignored, and included.
    fn keep_entry(&self, name: &str, rel_path: &str) -> (r: bool)
        ensures
            r == spec_keep(self.config, name@, rel_path@),
    {
        !self.should_ignore(name, rel_path) && self.should_include(name)
    }

    /// Read the content of a file that classified as text, record its
    /// metrics under `key`, and return the content to store in its node:
    /// the text itself, or a placeholder for an over-ceiling or failed read.
    fn read_file_content(&mut self, l: &FsLeaf, key: &str) -> (c: Option<String>)
        requires
            leaf_wf(*l),
            classify_leaf(*l) is TextFile,
            old(self).statistics.wf(),
            old(self).statistics.files_processed < SCAN_ENTRY_LIMIT,
        ensures
            final(self).config == old(self).config,
            final(self).statistics.wf(),
            (match spec_text_content(*l) {
                Some(cc) => c matches Some(s2) && s2@ == cc,
                None => c is None,
            }),
            final(self).statistics.details_view() =~= old(self).statistics.details_view().push(
                (key@, spec_text_info(*l)),
            ),
            final(self).statistics.files_processed == old(self).statistics.files_processed + 1,
            final(self).statistics.total_tokens == old(self).statistics.total_tokens,
            final(self).statistics.token_cache_hits == old(self).statistics.token_cache_hits,
            final(self).statistics.token_cache_misses == old(self).statistics.token_cache_misses,
    {
        if l.metadata.size > CONTENT_CEILING {
            let msg = placeholder_large(l.metadata.size);
            self.statistics.record(key.to_owned(), 0, 0, None);
            Some(msg)
        } else {
            match &l.content {
                ReadOutcome::Text(s) => {
                    proof {
                        lemma_newline_count_le(s@);
                    }
                    let lines = count_lines(s.as_str());
                    let chars = s.as_str().unicode_len();
                    self.statistics.record(key.to_owned(), lines as u64, chars as u64, None);
                    Some(s.clone())
                },
                ReadOutcome::Failed(m) => {
                    let msg = placeholder_failed(m.as_str());
                    self.statistics.record(key.to_owned(), 0, 0, None);
                    Some(msg)
                },
                ReadOutcome::NotRead => {
                    self.statistics.record(key.to_owned(), 0, 0, None);
                    None
                },
            }
        }
    }

    /// Process a single non-directory entry: classify it, read or measure
    /// what its class calls for, record one detail under `key`, and return
    /// its node.  Entries of any other class are dropped without a trace.
    fn process_file(&mut self, l: &FsLeaf, rel: &str, key: &str) -> (r: Option<Node>)
        requires
            leaf_wf(*l),
            old(self).statistics.wf(),
            spec_leaf_outcome(*l, rel@) is Some ==> old(self).statistics.files_processed
                < SCAN_ENTRY_LIMIT,
        ensures
            final(self).config == old(self).config,
            final(self).statistics.wf(),
            (match spec_leaf_outcome(*l, rel@) {
                Some(o) => (r matches Some(n) && n@ == o.0) && final(self).statistics.details_view()
                    =~= old(self).statistics.details_view().push((key@, o.1))
                    && final(self).statistics.files_processed == old(self).statistics.files_processed
                    + 1,
                None => r is None && final(self).statistics == old(self).statistics,
            }),
            final(self).statistics.total_tokens == old(self).statistics.total_tokens,
            final(self).statistics.token_cache_hits == old(self).statistics.token_cache_hits,
            final(self).statistics.token_cache_misses == old(self).statistics.token_cache_misses,
    {
        let file_type = crate::classify::classify(l.kind, l.metadata.size, &l.sample);
        match file_type {
            FileType::TextFile => {
                let content = self.read_file_content(l, key);
                let node = Node::File(
                    FileNode {
                        name: l.name.clone(),
                        path: rel.to_owned(),
                        metadata: l.metadata.clone(),
                        content,
                    },
                );
                Some(node)
            },
            FileType::BinaryFile => {
                self.statistics.record(key.to_owned(), 0, 0, None);
                Some(
                    Node::Binary(
                        BinaryNode {
                            name: l.name.clone(),
                            path: rel.to_owned(),
                            metadata: l.metadata.clone(),
                        },
                    ),
                )
            },
            FileType::Symlink => {
                self.statistics.record(key.to_owned(), 0, 0, None);
                Some(
                    Node::Symlink(
                        SymlinkNode {
                            name: l.name.clone(),
                            path: rel.to_owned(),
                            metadata: l.metadata.clone(),
                            target: l.target.clone(),
                        },
                    ),
                )
            },
            FileType::Directory => None,
            FileType::Other => None,
        }
    }

    /// Scan one directory of the snapshot: filter its children, recurse into
    /// kept subdirectories in order, then process kept leaves in order, and
    /// assemble the directory node.  Returns `None` — with the statistics
    /// untouched under it — when the directory's children could not be
    /// enumerated.
    fn scan_directory(&mut self, d: &FsDir, rel: &str, rp: &str) -> (r: Option<DirectoryNode>)
        requires
            dir_wf(*d),
            old(self).statistics.wf(),
            old(self).statistics.files_processed + dir_leaf_count(*d) <= SCAN_ENTRY_LIMIT,
        ensures
            final(self).config == old(self).config,
            final(self).statistics.wf(),
            final(self).statistics.total_tokens == old(self).statistics.total_tokens,
            final(self).statistics.token_cache_hits == old(self).statistics.token_cache_hits,
            final(self).statistics.token_cache_misses == old(self).statistics.token_cache_misses,
            (match scan_dir_spec(*d, rel@, rp@, old(self).config) {
                Some(o) => (r matches Some(n) && n@ == o.0) && final(self).statistics.details_view()
                    =~= old(self).statistics.details_view() + o.1,
                None => r is None && final(self).statistics == old(self).statistics,
            }),
        decreases *d,
    {
        let ghost cfg = self.config;
        match &d.entries {
            None => None,
            Some(es) => {
                proof {
                    assert(forall|k: int| 0 <= k < es@.len() ==> entry_wf(#[trigger] es@[k]));
                    assert(dir_leaf_count(*d) == entries_leaf_count(es@));
                }
                let ghost dirs_full = scan_dirs_spec(es@, rel@, rp@, cfg);
                let ghost leaves_full = scan_leaves_spec(es@, rel@, rp@, cfg);
                let mut contents: Vec<Node> = Vec::new();
                let mut i: usize = 0;
                proof {
                    assert(es@.subrange(0, 0) =~= Seq::<FsEntry>::empty());
                    assert(nodes_view(contents@) =~= scan_dirs_spec(
                        es@.subrange(0, 0),
                        rel@,
                        rp@,
                        cfg,
                    ).0);
                    assert(self.statistics.details_view() =~= old(self).statistics.details_view()
                        + scan_dirs_spec(es@.subrange(0, 0), rel@, rp@, cfg).1);
                }
                while i < es.len()
                    invariant
                        i <= es@.len(),
                        self.config == cfg,
                        cfg == old(self).config,
                        d.entries matches Some(es2) && es2@ == es@,
                        forall|k: int| 0 <= k < es@.len() ==> entry_wf(#[trigger] es@[k]),
                        self.statistics.wf(),
                        old(self).statistics.wf(),
                        self.statistics.total_tokens == old(self).statistics.total_tokens,
                        self.statistics.token_cache_hits == old(self).statistics.token_cache_hits,
                        self.statistics.token_cache_misses == old(
                            self,
                        ).statistics.token_cache_misses,
                        old(self).statistics.files_processed + entries_leaf_count(es@)
                            <= SCAN_ENTRY_LIMIT,
                        nodes_view(contents@) =~= scan_dirs_spec(
                            es@.subrange(0, i as int),
                            rel@,
                            rp@,
                            cfg,
                        ).0,
                        self.statistics.details_view() =~= old(self).statistics.details_view()
                            + scan_dirs_spec(es@.subrange(0, i as int), rel@, rp@, cfg).1,
                    decreases es@.len() - i,
                {
                    let ghost prefix = es@.subrange(0, i as int);
                    let ghost prefix1 = es@.subrange(0, i as int + 1);
                    proof {
                        assert(prefix1 =~= prefix + seq![es@[i as int]]);
                        lemma_scan_dirs_concat(prefix, seq![es@[i as int]], rel@, rp@, cfg);
                        lemma_scan_singleton(es@[i as int], rel@, rp@, cfg);
                        assert(forall|k: int|
                            0 <= k < prefix.len() ==> entry_wf(#[trigger] prefix[k]));
                        lemma_scan_entries_bounds(prefix, rel@, rp@, cfg);
                        lemma_prefix_leaf_count(es@, i as int);
                    }
                    match &es[i] {
                        FsEntry::Dir(sub) => {
                            let crel = join_path(rel, sub.name.as_str());
                            let crp = join_path(rp, sub.name.as_str());
                            if self.keep_entry(sub.name.as_str(), crel.as_str()) {
                                proof {
                                    assert(entry_wf(es@[i as int]));
                                    assert(entry_leaf_count(es@[i as int]) == dir_leaf_count(
                                        *sub,
                                    ));
                                    assert(decreases_to!(*d => *sub));
                                }
                                let sub_node = self.scan_directory(
                                    sub,
                                    crel.as_str(),
                                    crp.as_str(),
                                );
                                match sub_node {
                                    Some(node) => {
                                        proof {
                                            crate::types::lemma_nodes_view_push(
                                                contents@,
                                                Node::Directory(node),
                                            );
                                        }
                                        contents.push(Node::Directory(node));
                                    },
                                    None => {},
                                }
                            }
                        },
                        FsEntry::Leaf(_) => {},
                    }
                    i = i + 1;
                    proof {
                        assert(nodes_view(contents@) =~= scan_dirs_spec(
                            es@.subrange(0, i as int),
                            rel@,
                            rp@,
                            cfg,
                        ).0);
                        assert(self.statistics.details_view() =~= old(
                            self,
                        ).statistics.details_view() + scan_dirs_spec(
                            es@.subrange(0, i as int),
                            rel@,
                            rp@,
                            cfg,
                        ).1);
                    }
                }
                proof {
                    assert(es@.subrange(0, es@.len() as int) =~= es@);
                }
                let mut j: usize = 0;
                proof {
                    assert(es@.subrange(0, 0) =~= Seq::<FsEntry>::empty());
                }
                while j < es.len()
                    invariant
                        j <= es@.len(),
                        self.config == cfg,
                        cfg == old(self).config,
                        d.entries matches Some(es2) && es2@ == es@,
                        forall|k: int| 0 <= k < es@.len() ==> entry_wf(#[trigger] es@[k]),
                        self.statistics.wf(),
                        old(self).statistics.wf(),
                        self.statistics.total_tokens == old(self).statistics.total_tokens,
                        self.statistics.token_cache_hits == old(self).statistics.token_cache_hits,
                        self.statistics.token_cache_misses == old(
                            self,
                        ).statistics.token_cache_misses,
                        old(self).statistics.files_processed + entries_leaf_count(es@)
                            <= SCAN_ENTRY_LIMIT,
                        dirs_full == scan_dirs_spec(es@, rel@, rp@, cfg),
                        nodes_view(contents@) =~= dirs_full.0 + scan_leaves_spec(
                            es@.subrange(0, j as int),
                            rel@,
                            rp@,
                            cfg,
                        ).0,
                        self.statistics.details_view() =~= old(self).statistics.details_view()
                            + dirs_full.1 + scan_leaves_spec(
                            es@.subrange(0, j as int),
                            rel@,
                            rp@,
                            cfg,
                        ).1,
                    decreases es@.len() - j,
                {
                    let ghost prefix = es@.subrange(0, j as int);
                    let ghost prefix1 = es@.subrange(0, j as int + 1);
                    proof {
                        assert(prefix1 =~= prefix + seq![es@[j as int]]);
                        lemma_scan_leaves_concat(prefix, seq![es@[j as int]], rel@, rp@, cfg);
                        lemma_scan_singleton(es@[j as int], rel@, rp@, cfg);
                        assert(forall|k: int|
                            0 <= k < prefix.len() ==> entry_wf(#[trigger] prefix[k]));
                        lemma_scan_entries_bounds(prefix, rel@, rp@, cfg);
                        lemma_scan_entries_bounds(es@, rel@, rp@, cfg);
                        lemma_prefix_leaf_count(es@, j as int);
                        lemma_scan_leaves_concat(
                            prefix1,
                            es@.subrange(j as int + 1, es@.len() as int),
                            rel@,
                            rp@,
                            cfg,
                        );
                        assert(prefix1 + es@.subrange(j as int + 1, es@.len() as int) =~= es@);
                    }
                    match &es[j] {
                        FsEntry::Leaf(l) => {
                            let crel = join_path(rel, l.name.as_str());
                            let crp = join_path(rp, l.name.as_str());
                            if self.keep_entry(l.name.as_str(), crel.as_str()) {
                                proof {
                                    assert(entry_wf(es@[j as int]));
                                    assert(leaf_wf(*l));
                                }
                                proof {
                                    if spec_leaf_outcome(*l, crel@) is Some {
                                        assert(scan_leaves_spec(prefix1, rel@, rp@, cfg).1.len()
                                            == scan_leaves_spec(prefix, rel@, rp@, cfg).1.len()
                                            + 1);
                                        assert(scan_leaves_spec(es@, rel@, rp@, cfg).1.len()
                                            >= scan_leaves_spec(prefix1, rel@, rp@, cfg).1.len());
                                    }
                                }
                                let leaf_node = self.process_file(
                                    l,
                                    crel.as_str(),
                                    crp.as_str(),
                                );
                                match leaf_node {
                                    Some(node) => {
                                        proof {
                                            crate::types::lemma_nodes_view_push(contents@, node);
                                        }
                                        contents.push(node);
                                    },
                                    None => {},
                                }
                            }
                        },
                        FsEntry::Dir(_) => {},
                    }
                    j = j + 1;
                    proof {
                        assert(nodes_view(contents@) =~= dirs_full.0 + scan_leaves_spec(
                            es@.subrange(0, j as int),
                            rel@,
                            rp@,
                            cfg,
                        ).0);
                        assert(self.statistics.details_view() =~= old(
                            self,
                        ).statistics.details_view() + dirs_full.1 + scan_leaves_spec(
                            es@.subrange(0, j as int),
                            rel@,
                            rp@,
                            cfg,
                        ).1);
                    }
                }
                proof {
                    assert(es@.subrange(0, es@.len() as int) =~= es@);
                }
                let node = DirectoryNode {
                    name: d.name.clone(),
                    path: rel.to_owned(),
                    metadata: d.metadata.clone(),
                    contents,
                };
                proof {
                    assert(node@ == scan_dir_spec(*d, rel@, rp@, cfg)->Some_0.0);
                    assert(self.statistics.details_view() =~= old(self).statistics.details_view()
                        + scan_dir_spec(*d, rel@, rp@, cfg)->Some_0.1);
                }
                Some(node)
            },
        }
    }

    /// Scan a directory snapshot and return the directory tree, with one
    /// detail recorded per file, binary or symlink node in it.  The number of
    /// processed files afterwards equals the number of such nodes in the
    /// returned tree.  Fails exactly when the root's children could not be
    /// enumerated.
    pub fn scan(&mut self, root: &FsDir) -> (r: Result<DirectoryNode, ScanError>)
        requires
            dir_wf(*root),
            old(self).statistics.wf(),
            old(self).statistics.is_empty(),
            dir_leaf_count(*root) <= SCAN_ENTRY_LIMIT,
        ensures
            final(self).config == old(self).config,
            final(self).statistics.wf(),
            final(self).statistics.total_tokens is None,
            (match scan_dir_spec(
                *root,
                spec_root_rel(old(self).config, *root),
                spec_root_rp(old(self).config, *root),
                old(self).config,
            ) {
                Some(o) => (r matches Ok(n) && n@ == o.0) && final(self).statistics.details_view()
                    =~= o.1,
                None => r matches Err(e) && e == ScanError::RootUnreadable
                    && final(self).statistics.is_empty(),
            }),
            (r matches Ok(n) ==> final(self).statistics.files_processed == leaf_node_count(n@)),
            r is Ok ==> keys_distinct(final(self).statistics.details_view()),
    {
        let rel0: String;
        let rp0: String;
        match &self.config.git_repo {
            Some(g) => {
                rel0 = g.name.clone();
                rp0 = join_path(g.owner.as_str(), g.name.as_str());
            },
            None => {
                rel0 = root.name.clone();
                rp0 = root.name.clone();
            },
        }
        proof {
            assert(rel0@ == spec_root_rel(self.config, *root));
            assert(rp0@ == spec_root_rp(self.config, *root));
        }
        let scanned = self.scan_directory(root, rel0.as_str(), rp0.as_str());
        match scanned {
            Some(node) => {
                proof {
                    lemma_scan_dir_counts(
                        *root,
                        spec_root_rel(old(self).config, *root),
                        spec_root_rp(old(self).config, *root),
                        old(self).config,
                    );
                    lemma_dir_keys(
                        *root,
                        spec_root_rel(old(self).config, *root),
                        spec_root_rp(old(self).config, *root),
                        old(self).config,
                    );
                    assert(old(self).statistics.details_view() + scan_dir_spec(
                        *root,
                        spec_root_rel(old(self).config, *root),
                        spec_root_rp(old(self).config, *root),
                        old(self).config,
                    )->Some_0.1 =~= scan_dir_spec(
                        *root,
                        spec_root_rel(old(self).config, *root),
                        spec_root_rp(old(self).config, *root),
                        old(self).config,
                    )->Some_0.1);
                }
                Ok(node)
            },
            None => Err(ScanError::RootUnreadable),
        }
    }
}

/// Scanning the same snapshot twice with the same configuration yields the
/// same value: the scan is a function of the snapshot and the configuration
/// alone, so two runs produce trees with the same nodes and the same
/// statistics.  Together with `Scanner::scan`'s postcondition — which pins
/// each run's result to `scan_dir_spec` — this is the idempotence of
/// scanning.
pub proof fn lemma_scan_idempotent(
    d: FsDir,
    rel: Seq<char>,
    rp: Seq<char>,
    cfg: Config,
    r1: Option<(NodeView, Seq<(Seq<char>, FileReportInfo)>)>,
    r2: Option<(NodeView, Seq<(Seq<char>, FileReportInfo)>)>,
)
    requires
        r1 == scan_dir_spec(d, rel, rp, cfg),
        r2 == scan_dir_spec(d, rel, rp, cfg),
    ensures
        r1 == r2,
{
}

/// Base name of a node.
pub open spec fn node_name(n: NodeView) -> Seq<char> {
    match n {
        NodeView::Directory { name, .. } => name,
        NodeView::File { name, .. } => name,
        NodeView::Binary { name, .. } => name,
        NodeView::Symlink { name, .. } => name,
    }
}

/// Path of a node, relative to the scan root.
pub open spec fn node_path(n: NodeView) -> Seq<char> {
    match n {
        NodeView::Directory { path, .. } => path,
        NodeView::File { path, .. } => path,
        NodeView::Binary { path, .. } => path,
        NodeView::Symlink { path, .. } => path,
    }
}

/// Whether `n` occurs anywhere in the tree `t`, including as `t` itself.
pub open spec fn node_in_tree(n: NodeView, t: NodeView) -> bool
    decreases t,
{
    t == n || (match t {
        NodeView::Directory { contents, .. } => node_in_forest(n, contents),
        _ => false,
    })
}

/// Whether `n` occurs anywhere in a forest of trees.
pub open spec fn node_in_forest(n: NodeView, f: Seq<NodeView>) -> bool
    decreases f,
{
    f.len() > 0 && (node_in_tree(n, f[0]) || node_in_forest(n, f.drop_first()))
}

/// What the filter policy guarantees of every node it lets into the tree:
/// the node is not ignored, and — unless it is a directory, which is kept as
/// structure — its name is included.
pub open spec fn node_kept(cfg: Config, n: NodeView) -> bool {
    &&& !spec_should_ignore(cfg, node_name(n), node_path(n))
    &&& (!(n is Directory) ==> spec_should_include(cfg, node_name(n)))
}

/// Membership in a forest splits over concatenation.
proof fn lemma_node_in_forest_concat(n: NodeView, a: Seq<NodeView>, b: Seq<NodeView>)
    ensures
        node_in_forest(n, a + b) <==> (node_in_forest(n, a) || node_in_forest(n, b)),
    decreases a,
{
    if a.len() == 0 {
        assert(a + b =~= b);
    } else {
        assert((a + b)[0] == a[0]);
        assert((a + b).drop_first() =~= a.drop_first() + b);
        assert((a + b).len() > 0);
        lemma_node_in_forest_concat(n, a.drop_first(), b);
    }
}

/// Filter correctness for the subdirectory pass: every node in the forest it
/// returns passed the filter policy.
proof fn lemma_dirs_nodes_kept(es: Seq<FsEntry>, rel: Seq<char>, rp: Seq<char>, cfg: Config, n: NodeView)
    requires
        node_in_forest(n, scan_dirs_spec(es, rel, rp, cfg).0),
    ensures
        node_kept(cfg, n),
    decreases es,
{
    lemma_scan_step(es, rel, rp, cfg);
    match es[0] {
        FsEntry::Dir(d) => {
            if spec_keep(cfg, d.name@, spec_join(rel, d.name@)) {
                match scan_dir_spec(d, spec_join(rel, d.name@), spec_join(rp, d.name@), cfg) {
                    Some(r) => {
                        lemma_node_in_forest_concat(
                            n,
                            seq![r.0],
                            scan_dirs_spec(es.drop_first(), rel, rp, cfg).0,
                        );
                        if node_in_forest(n, seq![r.0]) {
                            assert(seq![r.0].drop_first() =~= Seq::<NodeView>::empty());
                            assert(!node_in_forest(n, seq![r.0].drop_first()));
                            assert(node_in_tree(n, r.0));
                            if n == r.0 {
                            } else {
                                lemma_dir_nodes_kept(
                                    d,
                                    spec_join(rel, d.name@),
                                    spec_join(rp, d.name@),
                                    cfg,
                                    n,
                                );
                            }
                        } else {
                            lemma_dirs_nodes_kept(es.drop_first(), rel, rp, cfg, n);
                        }
                    },
                    None => {
                        lemma_dirs_nodes_kept(es.drop_first(), rel, rp, cfg, n);
                    },
                }
            } else {
                lemma_dirs_nodes_kept(es.drop_first(), rel, rp, cfg, n);
            }
        },
        FsEntry::Leaf(_) => {
            lemma_dirs_nodes_kept(es.drop_first(), rel, rp, cfg, n);
        },
    }
}

/// Filter correctness for the leaf pass: every node in the forest it returns
/// passed the filter policy.
proof fn lemma_leaves_nodes_kept(es: Seq<FsEntry>, rel: Seq<char>, rp: Seq<char>, cfg: Config, n: NodeView)
    requires
        node_in_forest(n, scan_leaves_spec(es, rel, rp, cfg).0),
    ensures
        node_kept(cfg, n),
    decreases es,
{
    lemma_scan_step(es, rel, rp, cfg);
    match es[0] {
        FsEntry::Leaf(l) => {
            if spec_keep(cfg, l.name@, spec_join(rel, l.name@)) {
                match spec_leaf_outcome(l, spec_join(rel, l.name@)) {
                    Some(r) => {
                        lemma_node_in_forest_concat(
                            n,
                            seq![r.0],
                            scan_leaves_spec(es.drop_first(), rel, rp, cfg).0,
                        );
                        if node_in_forest(n, seq![r.0]) {
                            assert(seq![r.0].drop_first() =~= Seq::<NodeView>::empty());
                            assert(!node_in_forest(n, seq![r.0].drop_first()));
                            assert(node_in_tree(n, r.0));
                            assert(n == r.0);
                            assert(node_name(n) == l.name@);
                            assert(node_path(n) == spec_join(rel, l.name@));
                        } else {
                            lemma_leaves_nodes_kept(es.drop_first(), rel, rp, cfg, n);
                        }
                    },
                    None => {
                        lemma_leaves_nodes_kept(es.drop_first(), rel, rp, cfg, n);
                    },
                }
            } else {
                lemma_leaves_nodes_kept(es.drop_first(), rel, rp, cfg, n);
            }
        },
        FsEntry::Dir(_) => {
            lemma_leaves_nodes_kept(es.drop_first(), rel, rp, cfg, n);
        },
    }
}

/// Filter correctness: every node below the root of a scanned tree passed
/// the filter policy — no entry matching an ignore pattern, the built-in
/// ignore set or the output file appears anywhere in the tree, and when
/// include patterns are configured every non-directory node's name matches
/// one of them.
pub proof fn lemma_dir_nodes_kept(d: FsDir, rel: Seq<char>, rp: Seq<char>, cfg: Config, n: NodeView)
    requires
        scan_dir_spec(d, rel, rp, cfg) is Some,
        node_in_tree(n, scan_dir_spec(d, rel, rp, cfg)->Some_0.0),
        n != scan_dir_spec(d, rel, rp, cfg)->Some_0.0,
    ensures
        node_kept(cfg, n),
    decreases d,
{
    match d.entries {
        Some(es) => {
            lemma_node_in_forest_concat(
                n,
                scan_dirs_spec(es@, rel, rp, cfg).0,
                scan_leaves_spec(es@, rel, rp, cfg).0,
            );
            if node_in_forest(n, scan_dirs_spec(es@, rel, rp, cfg).0) {
                lemma_dirs_nodes_kept(es@, rel, rp, cfg, n);
            } else {
                lemma_leaves_nodes_kept(es@, rel, rp, cfg, n);
            }
        },
        None => {},
    }
}

/// A sequence contains whatever a part of a concatenation contains.
proof fn lemma_contains_concat<T>(a: Seq<T>, b: Seq<T>, x: T)
    requires
        a.contains(x) || b.contains(x),
    ensures
        (a + b).contains(x),
{
    if a.contains(x) {
        let i = choose|i: int| 0 <= i < a.len() && a[i] == x;
        assert((a + b)[i] == x);
    } else {
        let i = choose|i: int| 0 <= i < b.len() && b[i] == x;
        assert((a + b)[a.len() + i] == x);
    }
}

/// Measurement correctness at one directory level: for every kept text file
/// under the size ceiling whose content was read, the scan records under its
/// report path exactly the logical line count of that content and its length
/// in characters.
pub proof fn lemma_leaves_detail_measured(
    es: Seq<FsEntry>,
    rel: Seq<char>,
    rp: Seq<char>,
    cfg: Config,
    i: int,
    l: FsLeaf,
    s: String,
)
    requires
        0 <= i < es.len(),
        es[i] == FsEntry::Leaf(l),
        spec_keep(cfg, l.name@, spec_join(rel, l.name@)),
        classify_leaf(l) is TextFile,
        l.metadata.size <= CONTENT_CEILING,
        l.content == ReadOutcome::Text(s),
    ensures
        scan_leaves_spec(es, rel, rp, cfg).1.contains(
            (
                spec_join(rp, l.name@),
                FileReportInfo {
                    lines: spec_line_count(s@) as u64,
                    chars: s@.len() as u64,
                    tokens: None,
                },
            ),
        ),
    decreases es,
{
    lemma_scan_step(es, rel, rp, cfg);
    let entry = (
        spec_join(rp, l.name@),
        FileReportInfo { lines: spec_line_count(s@) as u64, chars: s@.len() as u64, tokens: None },
    );
    if i == 0 {
        assert(spec_leaf_outcome(l, spec_join(rel, l.name@)) matches Some(r) && r.1
            == entry.1);
        match spec_leaf_outcome(l, spec_join(rel, l.name@)) {
            Some(r) => {
                assert(seq![(spec_join(rp, l.name@), r.1)][0] == entry);
                assert(seq![(spec_join(rp, l.name@), r.1)].contains(entry));
                lemma_contains_concat(
                    seq![(spec_join(rp, l.name@), r.1)],
                    scan_leaves_spec(es.drop_first(), rel, rp, cfg).1,
                    entry,
                );
            },
            None => {},
        }
    } else {
        assert(es.drop_first()[i - 1] == es[i]);
        lemma_leaves_detail_measured(es.drop_first(), rel, rp, cfg, i - 1, l, s);
        match es[0] {
            FsEntry::Leaf(l0) => {
                if spec_keep(cfg, l0.name@, spec_join(rel, l0.name@)) {
                    match spec_leaf_outcome(l0, spec_join(rel, l0.name@)) {
                        Some(r) => {
                            lemma_contains_concat(
                                seq![(spec_join(rp, l0.name@), r.1)],
                                scan_leaves_spec(es.drop_first(), rel, rp, cfg).1,
                                entry,
                            );
                        },
                        None => {},
                    }
                }
            },
            FsEntry::Dir(_) => {},
        }
    }
}

/// Measurement correctness for a directory: every kept text child under the
/// size ceiling whose content was read has exactly its measured line and
/// character counts recorded under its report path.
pub proof fn lemma_dir_detail_measured(
    d: FsDir,
    rel: Seq<char>,
    rp: Seq<char>,
    cfg: Config,
    i: int,
    l: FsLeaf,
    s: String,
)
    requires
        d.entries matches Some(es) && 0 <= i < es@.len() && es@[i] == FsEntry::Leaf(l),
        spec_keep(cfg, l.name@, spec_join(rel, l.name@)),
        classify_leaf(l) is TextFile,
        l.metadata.size <= CONTENT_CEILING,
        l.content == ReadOutcome::Text(s),
    ensures
        scan_dir_spec(d, rel, rp, cfg) matches Some(o) && o.1.contains(
            (
                spec_join(rp, l.name@),
                FileReportInfo {
                    lines: spec_line_count(s@) as u64,
                    chars: s@.len() as u64,
                    tokens: None,
                },
            ),
        ),
{
    match d.entries {
        Some(es) => {
            lemma_leaves_detail_measured(es@, rel, rp, cfg, i, l, s);
            lemma_contains_concat(
                scan_dirs_spec(es@, rel, rp, cfg).1,
                scan_leaves_spec(es@, rel, rp, cfg).1,
                (
                    spec_join(rp, l.name@),
                    FileReportInfo {
                        lines: spec_line_count(s@) as u64,
                        chars: s@.len() as u64,
                        tokens: None,
                    },
                ),
            );
        },
        None => {},
    }
}

/// Everything recorded under a kept subdirectory is recorded under its
/// parent too, so the measurement guarantee extends to any depth.
pub proof fn lemma_subdir_details_included(
    d: FsDir,
    rel: Seq<char>,
    rp: Seq<char>,
    cfg: Config,
    i: int,
    sub: FsDir,
    x: (Seq<char>, FileReportInfo),
)
    requires
        d.entries matches Some(es) && 0 <= i < es@.len() && es@[i] == FsEntry::Dir(sub),
        spec_keep(cfg, sub.name@, spec_join(rel, sub.name@)),
        scan_dir_spec(sub, spec_join(rel, sub.name@), spec_join(rp, sub.name@), cfg) matches Some(
            so,
        ) && so.1.contains(x),
    ensures
        scan_dir_spec(d, rel, rp, cfg) matches Some(o) && o.1.contains(x),
{
    match d.entries {
        Some(es) => {
            lemma_dirs_detail_included(es@, rel, rp, cfg, i, sub, x);
            lemma_contains_concat(
                scan_dirs_spec(es@, rel, rp, cfg).1,
                scan_leaves_spec(es@, rel, rp, cfg).1,
                x,
            );
        },
        None => {},
    }
}

/// Everything recorded under a kept subdirectory appears among the details
/// of the subdirectory pass.
proof fn lemma_dirs_detail_included(
    es: Seq<FsEntry>,
    rel: Seq<char>,
    rp: Seq<char>,
    cfg: Config,
    i: int,
    sub: FsDir,
    x: (Seq<char>, FileReportInfo),
)
    requires
        0 <= i < es.len(),
        es[i] == FsEntry::Dir(sub),
        spec_keep(cfg, sub.name@, spec_join(rel, sub.name@)),
        scan_dir_spec(sub, spec_join(rel, sub.name@), spec_join(rp, sub.name@), cfg) matches Some(
            so,
        ) && so.1.contains(x),
    ensures
        scan_dirs_spec(es, rel, rp, cfg).1.contains(x),
    decreases es,
{
    lemma_scan_step(es, rel, rp, cfg);
    if i == 0 {
        match scan_dir_spec(sub, spec_join(rel, sub.name@), spec_join(rp, sub.name@), cfg) {
            Some(so) => {
                lemma_contains_concat(so.1, scan_dirs_spec(es.drop_first(), rel, rp, cfg).1, x);
            },
            None => {},
        }
    } else {
        assert(es.drop_first()[i - 1] == es[i]);
        lemma_dirs_detail_included(es.drop_first(), rel, rp, cfg, i - 1, sub, x);
        match es[0] {
            FsEntry::Dir(d0) => {
                if spec_keep(cfg, d0.name@, spec_join(rel, d0.name@)) {
                    match scan_dir_spec(d0, spec_join(rel, d0.name@), spec_join(rp, d0.name@), cfg) {
                        Some(r) => {
                            lemma_contains_concat(
                                r.1,
                                scan_dirs_spec(es.drop_first(), rel, rp, cfg).1,
                                x,
                            );
                        },
                        None => {},
                    }
                }
            },
            FsEntry::Leaf(_) => {},
        }
    }
}

/// Count the non-directory entries of a snapshot, saturating at `u64::MAX`;
/// callers use it to check a snapshot against the scan's entry limit.
pub fn dir_leaf_count_exec(d: &FsDir) -> (r: u64)
    ensures
        r as nat == (if dir_leaf_count(*d) <= u64::MAX as nat {
            dir_leaf_count(*d)
        } else {
            u64::MAX as nat
        }),
    decreases *d,
{
    match &d.entries {
        None => 0,
        Some(es) => {
            let mut acc: u64 = 0;
            let mut i: usize = 0;
            proof {
                assert(es@.subrange(0, 0) =~= Seq::<FsEntry>::empty());
                assert(entries_leaf_count(es@.subrange(0, 0)) == 0);
            }
            while i < es.len()
                invariant
                    i <= es@.len(),
                    d.entries matches Some(es2) && es2@ == es@,
                    acc as nat == (if entries_leaf_count(es@.subrange(0, i as int))
                        <= u64::MAX as nat {
                        entries_leaf_count(es@.subrange(0, i as int))
                    } else {
                        u64::MAX as nat
                    }),
                decreases es@.len() - i,
            {
                let c: u64 = match &es[i] {
                    FsEntry::Dir(sub) => {
                        proof {
                            assert(decreases_to!(*d => *sub));
                        }
                        dir_leaf_count_exec(sub)
                    },
                    FsEntry::Leaf(_) => 1,
                };
                if acc > u64::MAX - c {
                    acc = u64::MAX;
                } else {
                    acc = acc + c;
                }
                i = i + 1;
                proof {
                    let prefix = es@.subrange(0, i as int - 1);
                    let prefix1 = es@.subrange(0, i as int);
                    assert(prefix1 =~= prefix + seq![es@[i as int - 1]]);
                    lemma_entries_leaf_count_concat(prefix, seq![es@[i as int - 1]]);
                    assert(seq![es@[i as int - 1]].drop_first() =~= Seq::<FsEntry>::empty());
                    assert(entries_leaf_count(seq![es@[i as int - 1]].drop_first()) == 0);
                    assert(entries_leaf_count(seq![es@[i as int - 1]]) == entry_leaf_count(
                        es@[i as int - 1],
                    ));
                }
            }
            proof {
                assert(es@.subrange(0, es@.len() as int) =~= es@);
            }
            acc
        },
    }
}

/// Two statistics values that agree on everything except token counts.
pub open spec fn stats_token_frame(a: ScannerStatistics, b: ScannerStatistics) -> bool {
    &&& a.files_processed == b.files_processed
    &&& a.total_lines == b.total_lines
    &&& a.total_chars == b.total_chars
    &&& a.token_cache_hits == b.token_cache_hits
    &&& a.token_cache_misses == b.token_cache_misses
    &&& details_frame(a.details_view(), b.details_view())
}

impl Scanner {
    /// Count tokens for every kept text file of the snapshot, through the
    /// given tokenizer port, and attach the counts to the recorded details.
    /// Whatever the tokenizer returns, the tree-shaped facts of the
    /// statistics are untouched: the number of processed files, every path,
    /// and every line and character count stay exactly as recorded.
    pub fn count_tokens_with<T: Tokenizer>(&mut self, root: &FsDir, tok: &mut T)
        requires
            dir_wf(*root),
            old(self).statistics.wf(),
        ensures
            final(self).config == old(self).config,
            final(self).statistics.wf(),
            stats_token_frame(old(self).statistics, final(self).statistics),
    {
        let rel0: String;
        let rp0: String;
        match &self.config.git_repo {
            Some(g) => {
                rel0 = g.name.clone();
                rp0 = join_path(g.owner.as_str(), g.name.as_str());
            },
            None => {
                rel0 = root.name.clone();
                rp0 = root.name.clone();
            },
        }
        self.count_dir_tokens(root, rel0.as_str(), rp0.as_str(), tok);
    }

    /// Walk one directory of the snapshot and count tokens for its kept text
    /// files, in the same order the scan processed them.
    fn count_dir_tokens<T: Tokenizer>(&mut self, d: &FsDir, rel: &str, rp: &str, tok: &mut T)
        requires
            dir_wf(*d),
            old(self).statistics.wf(),
        ensures
            final(self).config == old(self).config,
            final(self).statistics.wf(),
            stats_token_frame(old(self).statistics, final(self).statistics),
        decreases *d,
    {
        let ghost cfg = self.config;
        match &d.entries {
            None => {},
            Some(es) => {
                proof {
                    assert(forall|k: int| 0 <= k < es@.len() ==> entry_wf(#[trigger] es@[k]));
                }
                let mut i: usize = 0;
                while i < es.len()
                    invariant
                        i <= es@.len(),
                        self.config == cfg,
                        cfg == old(self).config,
                        d.entries matches Some(es2) && es2@ == es@,
                        forall|k: int| 0 <= k < es@.len() ==> entry_wf(#[trigger] es@[k]),
                        self.statistics.wf(),
                        stats_token_frame(old(self).statistics, self.statistics),
                    decreases es@.len() - i,
                {
                    match &es[i] {
                        FsEntry::Dir(sub) => {
                            let crel = join_path(rel, sub.name.as_str());
                            let crp = join_path(rp, sub.name.as_str());
                            if self.keep_entry(sub.name.as_str(), crel.as_str()) {
                                proof {
                                    assert(entry_wf(es@[i as int]));
                                    assert(decreases_to!(*d => *sub));
                                }
                                self.count_dir_tokens(sub, crel.as_str(), crp.as_str(), tok);
                            }
                        },
                        FsEntry::Leaf(l) => {
                            let crel = join_path(rel, l.name.as_str());
                            let crp = join_path(rp, l.name.as_str());
                            if self.keep_entry(l.name.as_str(), crel.as_str()) {
                                proof {
                                    assert(entry_wf(es@[i as int]));
                                    assert(leaf_wf(*l));
                                }
                                let file_type = crate::classify::classify(
                                    l.kind,
                                    l.metadata.size,
                                    &l.sample,
                                );
                                if matches!(file_type, FileType::TextFile) && l.metadata.size
                                    <= CONTENT_CEILING {
                                    match &l.content {
                                        ReadOutcome::Text(s) => {
                                            match tok.count_tokens(s.as_str()) {
                                                Ok(count) => {
                                                    let _ = self.statistics.record_token_count(
                                                        crp.as_str(),
                                                        count.tokens as u64,
                                                    );
                                                },
                                                Err(_) => {},
                                            }
                                        },
                                        _ => {},
                                    }
                                }
                            }
                        },
                    }
                    i = i + 1;
                }
            },
        }
    }
}

/// A path normalized to the repository root: a path under the repository's
/// cache directory loses that prefix (the cache directory itself becomes the
/// empty path); any other path is unchanged.
pub open spec fn spec_normalize_path(cfg: Config, path: Seq<char>) -> Seq<char> {
    match cfg.git_repo {
        Some(g) => {
            if path == g.cache_path@ {
                Seq::empty()
            } else if crate::utils::starts_with(path, g.cache_path@ + "/"@) {
                path.skip(g.cache_path@.len() as int + 1)
            } else {
                path
            }
        },
        None => path,
    }
}

/// A path as reported: under a repository, `owner/name` followed by the
/// path relative to the cache directory; otherwise the path as it is.
pub open spec fn spec_reporting_path(cfg: Config, path: Seq<char>) -> Seq<char> {
    match cfg.git_repo {
        Some(g) => {
            if path == g.cache_path@ {
                g.owner@ + "/"@ + g.name@
            } else if crate::utils::starts_with(path, g.cache_path@ + "/"@) {
                g.owner@ + "/"@ + g.name@ + "/"@ + path.skip(g.cache_path@.len() as int + 1)
            } else {
                path
            }
        },
        None => path,
    }
}

/// Whether `k` lies strictly under the path `rp`: it extends `rp` by a
/// separator and a nonempty remainder.
pub open spec fn path_under(k: Seq<char>, rp: Seq<char>) -> bool {
    &&& k.len() > rp.len() + 1
    &&& k.take(rp.len() as int) == rp
    &&& k[rp.len() as int] == '/'
}

/// The first path component of `k` after the prefix `rp`.
pub open spec fn key_seg(k: Seq<char>, rp: Seq<char>) -> Seq<char>
    recommends
        path_under(k, rp),
{
    let t = k.skip(rp.len() as int + 1);
    t.take(crate::utils::first_index_of(t, '/'))
}

/// A key directly joined under `rp` lies under `rp`, and its first component
/// is the joined name.
proof fn lemma_join_under(rp: Seq<char>, name: Seq<char>)
    requires
        name_wf(name),
    ensures
        path_under(spec_join(rp, name), rp),
        key_seg(spec_join(rp, name), rp) == name,
{
    reveal_strlit("/");
    let k = spec_join(rp, name);
    assert(k.len() == rp.len() + 1 + name.len());
    assert(k.take(rp.len() as int) =~= rp);
    assert(k[rp.len() as int] == '/');
    let t = k.skip(rp.len() as int + 1);
    assert(t =~= name);
    assert(forall|j: int| 0 <= j < name.len() ==> name[j] != '/') by {
        assert(forall|j: int| 0 <= j < name.len() ==> !(#[trigger] name[j] == '/') || name.contains(
            '/',
        ));
    }
    crate::utils::lemma_first_index_at(name, '/', name.len() as int);
    assert(t.take(name.len() as int) =~= name);
}

/// A key under a child path is under the parent path, and its first
/// component is the child's name.
proof fn lemma_under_join(k: Seq<char>, rp: Seq<char>, name: Seq<char>)
    requires
        name_wf(name),
        path_under(k, spec_join(rp, name)),
    ensures
        path_under(k, rp),
        key_seg(k, rp) == name,
{
    reveal_strlit("/");
    let p = spec_join(rp, name);
    assert(p.len() == rp.len() + 1 + name.len());
    assert(k.take(rp.len() as int) =~= rp) by {
        assert(forall|j: int|
            0 <= j < rp.len() ==> k.take(p.len() as int)[j] == #[trigger] k[j]);
        assert(forall|j: int| 0 <= j < rp.len() ==> p[j] == rp[j]);
    }
    assert(k[rp.len() as int] == p[rp.len() as int]) by {
        assert(k.take(p.len() as int)[rp.len() as int] == k[rp.len() as int]);
    }
    assert(p[rp.len() as int] == '/');
    let t = k.skip(rp.len() as int + 1);
    assert(forall|j: int| 0 <= j < name.len() ==> t[j] == p[rp.len() + 1 + j]) by {
        assert(forall|j: int|
            0 <= j < name.len() ==> k.take(p.len() as int)[rp.len() + 1 + j] == #[trigger] k[rp.len()
                + 1 + j]);
    }
    assert(forall|j: int| 0 <= j < name.len() ==> p[rp.len() + 1 + j] == name[j]);
    assert(t[name.len() as int] == '/') by {
        assert(k[p.len() as int] == '/');
    }
    assert(forall|j: int| 0 <= j < name.len() ==> name[j] != '/') by {
        assert(forall|j: int| 0 <= j < name.len() ==> !(#[trigger] name[j] == '/') || name.contains(
            '/',
        ));
    }
    assert(forall|j: int| 0 <= j < name.len() ==> #[trigger] t[j] != '/');
    crate::utils::lemma_first_index_at(t, '/', name.len() as int);
    assert(t.take(name.len() as int) =~= name);
}

/// Joining distinct names under one path gives distinct keys.
proof fn lemma_join_distinct(rp: Seq<char>, a: Seq<char>, b: Seq<char>)
    requires
        a != b,
    ensures
        spec_join(rp, a) != spec_join(rp, b),
{
    if spec_join(rp, a) == spec_join(rp, b) {
        assert(a =~= spec_join(rp, a).skip(rp.len() as int + "/"@.len()));
        assert(b =~= spec_join(rp, b).skip(rp.len() as int + "/"@.len()));
    }
}

/// A directly joined key never equals a key lying under another child: the
/// former's first component is one name, the latter's the other.
proof fn lemma_join_vs_under(rp: Seq<char>, a: Seq<char>, b: Seq<char>, k: Seq<char>)
    requires
        name_wf(a),
        name_wf(b),
        path_under(k, spec_join(rp, b)),
    ensures
        spec_join(rp, a) != k,
{
    reveal_strlit("/");
    lemma_under_join(k, rp, b);
    if spec_join(rp, a) == k {
        lemma_join_under(rp, a);
        assert(key_seg(k, rp) == a);
        let p = spec_join(rp, b);
        assert(k.len() > p.len() + 1);
        assert(spec_join(rp, a).len() == rp.len() + 1 + a.len());
        assert(a == b);
        assert(k.len() == rp.len() + 1 + a.len());
        assert(p.len() == rp.len() + 1 + b.len());
    }
}

/// Keys under two distinct children are distinct.
proof fn lemma_under_distinct(rp: Seq<char>, a: Seq<char>, b: Seq<char>, k1: Seq<char>, k2: Seq<
    char,
>)
    requires
        name_wf(a),
        name_wf(b),
        a != b,
        path_under(k1, spec_join(rp, a)),
        path_under(k2, spec_join(rp, b)),
    ensures
        k1 != k2,
{
    lemma_under_join(k1, rp, a);
    lemma_under_join(k2, rp, b);
}

/// All detail keys recorded under a path are pairwise distinct.
pub open spec fn keys_distinct(dets: Seq<(Seq<char>, FileReportInfo)>) -> bool {
    forall|i: int, j: int| 0 <= i < j < dets.len() ==> (#[trigger] dets[i]).0 != (#[trigger] dets[j]).0
}

/// Every detail key recorded by the leaf pass is the parent path joined with
/// the name of a distinct leaf child, so the keys are pairwise distinct and
/// all lie under the parent path.
proof fn lemma_leaves_keys(es: Seq<FsEntry>, rel: Seq<char>, rp: Seq<char>, cfg: Config)
    requires
        forall|i: int| 0 <= i < es.len() ==> entry_wf(#[trigger] es[i]),
        forall|i: int, j: int|
            0 <= i < j < es.len() ==> entry_name(es[i]) != entry_name(es[j]),
    ensures
        ({
            let ld = scan_leaves_spec(es, rel, rp, cfg).1;
            &&& keys_distinct(ld)
            &&& forall|i: int|
                0 <= i < ld.len() ==> path_under((#[trigger] ld[i]).0, rp) && (exists|m: int|
                    0 <= m < es.len() && es[m] is Leaf && key_seg(ld[i].0, rp) == entry_name(
                        es[m],
                    ))
        }),
    decreases es,
{
    if es.len() > 0 {
        lemma_scan_step(es, rel, rp, cfg);
        assert(forall|i: int|
            0 <= i < es.drop_first().len() ==> entry_wf(#[trigger] es.drop_first()[i]));
        assert(forall|i: int, j: int|
            0 <= i < j < es.drop_first().len() ==> entry_name(#[trigger] es.drop_first()[i])
                != entry_name(#[trigger] es.drop_first()[j])) by {
            assert(forall|i: int|
                0 <= i < es.drop_first().len() ==> #[trigger] es.drop_first()[i] == es[i + 1]);
        }
        lemma_leaves_keys(es.drop_first(), rel, rp, cfg);
        let rest = scan_leaves_spec(es.drop_first(), rel, rp, cfg).1;
        let ld = scan_leaves_spec(es, rel, rp, cfg).1;
        match es[0] {
            FsEntry::Leaf(l) => {
                if spec_keep(cfg, l.name@, spec_join(rel, l.name@)) && spec_leaf_outcome(
                    l,
                    spec_join(rel, l.name@),
                ) is Some {
                    let key0 = spec_join(rp, l.name@);
                    assert(ld[0].0 == key0);
                    assert(forall|i: int| 1 <= i < ld.len() ==> #[trigger] ld[i] == rest[i - 1]);
                    lemma_join_under(rp, l.name@);
                    // The head key differs from every key of the rest: their
                    // segments are names of later leaves, all distinct from
                    // this leaf's name.
                    assert forall|i: int| 1 <= i < ld.len() implies ld[i].0 != key0 by {
                        let m = choose|m: int|
                            0 <= m < es.drop_first().len() && es.drop_first()[m] is Leaf
                                && key_seg(rest[i - 1].0, rp) == entry_name(es.drop_first()[m]);
                        assert(es.drop_first()[m] == es[m + 1]);
                        assert(entry_name(es[m + 1]) != l.name@);
                        if ld[i].0 == key0 {
                            assert(key_seg(key0, rp) == l.name@);
                        }
                    }
                    assert(keys_distinct(ld)) by {
                        assert(forall|i: int, j: int|
                            1 <= i < j < ld.len() ==> (#[trigger] ld[i]).0 != (#[trigger] ld[j]).0);
                    }
                    assert forall|i: int| 0 <= i < ld.len() implies path_under(
                        (#[trigger] ld[i]).0,
                        rp,
                    ) && (exists|m: int|
                        0 <= m < es.len() && es[m] is Leaf && key_seg(ld[i].0, rp) == entry_name(
                            es[m],
                        )) by {
                        if i == 0 {
                            assert(es[0] is Leaf && key_seg(ld[0].0, rp) == entry_name(es[0]));
                        } else {
                            let m = choose|m: int|
                                0 <= m < es.drop_first().len() && es.drop_first()[m] is Leaf
                                    && key_seg(rest[i - 1].0, rp) == entry_name(
                                    es.drop_first()[m],
                                );
                            assert(es.drop_first()[m] == es[m + 1]);
                            assert(es[m + 1] is Leaf && key_seg(ld[i].0, rp) == entry_name(
                                es[m + 1],
                            ));
                        }
                    }
                } else {
                    assert(ld =~= rest);
                    assert forall|i: int| 0 <= i < ld.len() implies path_under(
                        (#[trigger] ld[i]).0,
                        rp,
                    ) && (exists|m: int|
                        0 <= m < es.len() && es[m] is Leaf && key_seg(ld[i].0, rp) == entry_name(
                            es[m],
                        )) by {
                        let m = choose|m: int|
                            0 <= m < es.drop_first().len() && es.drop_first()[m] is Leaf
                                && key_seg(rest[i].0, rp) == entry_name(es.drop_first()[m]);
                        assert(es.drop_first()[m] == es[m + 1]);
                        assert(es[m + 1] is Leaf && key_seg(ld[i].0, rp) == entry_name(es[m + 1]));
                    }
                }
            },
            FsEntry::Dir(_) => {
                assert(ld =~= rest);
                assert forall|i: int| 0 <= i < ld.len() implies path_under(
                    (#[trigger] ld[i]).0,
                    rp,
                ) && (exists|m: int|
                    0 <= m < es.len() && es[m] is Leaf && key_seg(ld[i].0, rp) == entry_name(
                        es[m],
                    )) by {
                    let m = choose|m: int|
                        0 <= m < es.drop_first().len() && es.drop_first()[m] is Leaf && key_seg(
                            rest[i].0,
                            rp,
                        ) == entry_name(es.drop_first()[m]);
                    assert(es.drop_first()[m] == es[m + 1]);
                    assert(es[m + 1] is Leaf && key_seg(ld[i].0, rp) == entry_name(es[m + 1]));
                }
            },
        }
    }
}

/// Every detail key recorded by the subdirectory pass lies under the parent
/// path, its first component is the name of a distinct subdirectory child,
/// and the keys are pairwise distinct.
proof fn lemma_dirs_keys(es: Seq<FsEntry>, rel: Seq<char>, rp: Seq<char>, cfg: Config)
    requires
        forall|i: int| 0 <= i < es.len() ==> entry_wf(#[trigger] es[i]),
        forall|i: int, j: int|
            0 <= i < j < es.len() ==> entry_name(es[i]) != entry_name(es[j]),
    ensures
        ({
            let dd = scan_dirs_spec(es, rel, rp, cfg).1;
            &&& keys_distinct(dd)
            &&& forall|i: int|
                0 <= i < dd.len() ==> path_under((#[trigger] dd[i]).0, rp) && (exists|m: int|
                    0 <= m < es.len() && es[m] is Dir && key_seg(dd[i].0, rp) == entry_name(
                        es[m],
                    ))
        }),
    decreases es,
{
    if es.len() > 0 {
        lemma_scan_step(es, rel, rp, cfg);
        assert(forall|i: int|
            0 <= i < es.drop_first().len() ==> entry_wf(#[trigger] es.drop_first()[i]));
        assert(forall|i: int, j: int|
            0 <= i < j < es.drop_first().len() ==> entry_name(#[trigger] es.drop_first()[i])
                != entry_name(#[trigger] es.drop_first()[j])) by {
            assert(forall|i: int|
                0 <= i < es.drop_first().len() ==> #[trigger] es.drop_first()[i] == es[i + 1]);
        }
        lemma_dirs_keys(es.drop_first(), rel, rp, cfg);
        let rest = scan_dirs_spec(es.drop_first(), rel, rp, cfg).1;
        let dd = scan_dirs_spec(es, rel, rp, cfg).1;
        let mut handled = false;
        match es[0] {
            FsEntry::Dir(d0) => {
                let rp0 = spec_join(rp, d0.name@);
                if spec_keep(cfg, d0.name@, spec_join(rel, d0.name@)) && scan_dir_spec(
                    d0,
                    spec_join(rel, d0.name@),
                    rp0,
                    cfg,
                ) is Some {
                    handled = true;
                    let so = scan_dir_spec(d0, spec_join(rel, d0.name@), rp0, cfg)->Some_0;
                    lemma_dir_keys(d0, spec_join(rel, d0.name@), rp0, cfg);
                    assert(dd =~= so.1 + rest);
                    assert(forall|i: int|
                        0 <= i < so.1.len() ==> #[trigger] dd[i] == so.1[i]);
                    assert(forall|i: int|
                        so.1.len() <= i < dd.len() ==> #[trigger] dd[i] == rest[i - so.1.len()]);
                    // Head-block keys lie under this child, so under rp with
                    // this child's name as first component.
                    assert forall|i: int| 0 <= i < so.1.len() implies path_under(
                        (#[trigger] so.1[i]).0,
                        rp,
                    ) && key_seg(so.1[i].0, rp) == d0.name@ by {
                        lemma_under_join(so.1[i].0, rp, d0.name@);
                    }
                    // Rest-block keys carry names of later children.
                    assert forall|i: int, j: int|
                        0 <= i < so.1.len() && so.1.len() <= j < dd.len() implies (
                    #[trigger] dd[i]).0 != (#[trigger] dd[j]).0 by {
                        let m = choose|m: int|
                            0 <= m < es.drop_first().len() && es.drop_first()[m] is Dir
                                && key_seg(rest[j - so.1.len()].0, rp) == entry_name(
                                es.drop_first()[m],
                            );
                        assert(es.drop_first()[m] == es[m + 1]);
                        assert(entry_name(es[m + 1]) != d0.name@);
                        if dd[i].0 == dd[j].0 {
                            assert(key_seg(dd[i].0, rp) == d0.name@);
                        }
                    }
                    assert(keys_distinct(dd));
                    assert forall|i: int| 0 <= i < dd.len() implies path_under(
                        (#[trigger] dd[i]).0,
                        rp,
                    ) && (exists|m: int|
                        0 <= m < es.len() && es[m] is Dir && key_seg(dd[i].0, rp) == entry_name(
                            es[m],
                        )) by {
                        if i < so.1.len() {
                            assert(es[0] is Dir && key_seg(dd[i].0, rp) == entry_name(es[0]));
                        } else {
                            let m = choose|m: int|
                                0 <= m < es.drop_first().len() && es.drop_first()[m] is Dir
                                    && key_seg(rest[i - so.1.len()].0, rp) == entry_name(
                                    es.drop_first()[m],
                                );
                            assert(es.drop_first()[m] == es[m + 1]);
                            assert(es[m + 1] is Dir && key_seg(dd[i].0, rp) == entry_name(
                                es[m + 1],
                            ));
                        }
                    }
                }
            },
            FsEntry::Leaf(_) => {},
        }
        if !handled {
            assert(dd =~= rest);
            assert forall|i: int| 0 <= i < dd.len() implies path_under(
                (#[trigger] dd[i]).0,
                rp,
            ) && (exists|m: int|
                0 <= m < es.len() && es[m] is Dir && key_seg(dd[i].0, rp) == entry_name(es[m]))
                by {
                let m = choose|m: int|
                    0 <= m < es.drop_first().len() && es.drop_first()[m] is Dir && key_seg(
                        rest[i].0,
                        rp,
                    ) == entry_name(es.drop_first()[m]);
                assert(es.drop_first()[m] == es[m + 1]);
                assert(es[m + 1] is Dir && key_seg(dd[i].0, rp) == entry_name(es[m + 1]));
            }
        }
    }
}

/// Every detail recorded under a directory lies under the directory's
/// report path, and no two details share a key: the recorded details form a
/// genuine map from path to metrics, with exactly one entry per processed
/// file, binary or symlink.
pub proof fn lemma_dir_keys(d: FsDir, rel: Seq<char>, rp: Seq<char>, cfg: Config)
    requires
        dir_wf(d),
    ensures
        scan_dir_spec(d, rel, rp, cfg) matches Some(o) ==> keys_distinct(o.1) && (forall|i: int|
            0 <= i < o.1.len() ==> path_under((#[trigger] o.1[i]).0, rp)),
    decreases d,
{
    match d.entries {
        Some(es) => {
            lemma_dirs_keys(es@, rel, rp, cfg);
            lemma_leaves_keys(es@, rel, rp, cfg);
            let dd = scan_dirs_spec(es@, rel, rp, cfg).1;
            let ld = scan_leaves_spec(es@, rel, rp, cfg).1;
            let all = scan_dir_spec(d, rel, rp, cfg)->Some_0.1;
            assert(all =~= dd + ld);
            assert(forall|i: int| 0 <= i < dd.len() ==> #[trigger] all[i] == dd[i]);
            assert(forall|i: int|
                dd.len() <= i < all.len() ==> #[trigger] all[i] == ld[i - dd.len()]);
            // A key from the subdirectory pass never equals one from the
            // leaf pass: their first components are the names of two
            // different children.
            assert forall|i: int, j: int|
                0 <= i < dd.len() && dd.len() <= j < all.len() implies (#[trigger] all[i]).0 != (
            #[trigger] all[j]).0 by {
                let m = choose|m: int|
                    0 <= m < es@.len() && es@[m] is Dir && key_seg(dd[i].0, rp) == entry_name(
                        es@[m],
                    );
                let m2 = choose|m2: int|
                    0 <= m2 < es@.len() && es@[m2] is Leaf && key_seg(ld[j - dd.len()].0, rp)
                        == entry_name(es@[m2]);
                if all[i].0 == all[j].0 {
                    assert(entry_name(es@[m]) == entry_name(es@[m2]));
                    assert(m != m2);
                }
            }
            assert(keys_distinct(all));
        },
        None => {},
    }
}

/// Path of the root node: the repository name for a repository scan, else
/// the root directory's own name.
pub open spec fn spec_root_rel(cfg: Config, root: FsDir) -> Seq<char> {
    match cfg.git_repo {
        Some(g) => g.name@,
        None => root.name@,
    }
}

/// Path under which the root's entries are reported: `owner/name` for a
/// repository scan, else the root directory's own name.
pub open spec fn spec_root_rp(cfg: Config, root: FsDir) -> Seq<char> {
    match cfg.git_repo {
        Some(g) => spec_join(g.owner@, g.name@),
        None => root.name@,
    }
}

} // verus!
