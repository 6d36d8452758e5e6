//! Reporting: per-file metrics and the formatted summary of a scan.

use vstd::prelude::*;
use crate::utils::dec_digits;
use crate::utils::digit_char;
use crate::utils::u64_to_string;

verus! {

/// Metrics recorded for one processed entry.
#[derive(Debug, Clone, Copy, PartialEq, Eq, Structural)]
pub struct FileReportInfo {
    /// Number of lines in the file
    pub lines: u64,
    /// Number of characters in the file
    pub chars: u64,
    /// Number of tokens in the file (when token counting is enabled)
    pub tokens: Option<u64>,
}

/// Statistics for a directory scan, as handed to the reporter.
#[derive(Debug)]
pub struct ScanReport {
    /// Output file path
    pub output_file: String,
    /// Time taken to scan, in milliseconds
    pub duration_millis: u64,
    /// Number of files processed
    pub files_processed: u64,
    /// Total number of lines
    pub total_lines: u64,
    /// Total number of characters
    pub total_chars: u64,
    /// Total number of tokens (when token counting is enabled)
    pub total_tokens: Option<u64>,
    /// Details for each file
    pub file_details: Vec<(String, FileReportInfo)>,
    /// Token cache hits (when tokenizer caching is enabled)
    pub token_cache_hits: Option<u64>,
    /// Token cache misses (when tokenizer caching is enabled)
    pub token_cache_misses: Option<u64>,
}

/// Format of the report output.
#[derive(Debug, Clone, Copy, PartialEq, Eq, Structural)]
pub enum ReportFormat {
    /// Console text output
    ConsoleTable,
}

/// `n * 10 / unit` rounded to the nearest integer, ties to even: the value
/// `n / unit` in tenths.
pub open spec fn spec_tenths(n: int, unit: int) -> int
    recommends
        unit > 0,
{
    let q = n * 10 / unit;
    let r = n * 10 % unit;
    if 2 * r > unit || (2 * r == unit && q % 2 == 1) {
        q + 1
    } else {
        q
    }
}

/// `n / unit` rendered with exactly one decimal, e.g. `1.5`.
pub open spec fn spec_one_decimal(n: int, unit: int) -> Seq<char>
    recommends
        unit > 0,
{
    let t = spec_tenths(n, unit);
    dec_digits(t / 10) + seq!['.'] + seq![digit_char(t % 10)]
}

/// A count rendered with human-readable units: millions and thousands get
/// one decimal and a suffix, small numbers are plain.
pub open spec fn spec_format_number(num: int) -> Seq<char> {
    if num >= 1000000 {
        spec_one_decimal(num, 1000000) + "M"@
    } else if num >= 1000 {
        spec_one_decimal(num, 1000) + "K"@
    } else {
        dec_digits(num)
    }
}

/// A path shortened for display: unchanged when it fits, otherwise an
/// ellipsis followed by its tail.
pub open spec fn spec_format_path(path: Seq<char>, max_len: int) -> Seq<char> {
    if path.len() <= max_len {
        path
    } else {
        "..."@ + path.skip(path.len() - (max_len - 3))
    }
}

/// The token figure shown for a file or for the whole scan: the counted
/// total when one exists, else an estimate of one token per four characters.
pub open spec fn spec_token_text(tokens: Option<u64>, chars: int) -> Seq<char> {
    match tokens {
        Some(t) => spec_format_number(t as int) + " tokens (counted)"@,
        None => spec_format_number(chars / 4) + " tokens (estimated)"@,
    }
}

/// One line of the per-file section: the shortened path, the line count and
/// the token figure.
pub open spec fn spec_file_line(key: Seq<char>, info: FileReportInfo) -> Seq<char> {
    spec_format_path(key, 60) + ": "@ + spec_format_number(info.lines as int) + " lines, "@
        + spec_token_text(info.tokens, info.chars as int) + "\n"@
}

/// The per-file section, one line per recorded detail, in recording order.
pub open spec fn spec_file_lines(details: Seq<(Seq<char>, FileReportInfo)>) -> Seq<char>
    decreases details,
{
    if details.len() == 0 {
        Seq::empty()
    } else {
        spec_file_line(details[0].0, details[0].1) + spec_file_lines(details.drop_first())
    }
}

/// The cache-effectiveness line, shown when both counters are known: the hit
/// rate in tenths of a percent, with the raw counts.
pub open spec fn spec_cache_line(hits: u64, misses: u64) -> Seq<char> {
    let total = hits as int + misses as int;
    (if total > 0 {
        spec_one_decimal(hits as int * 100, total)
    } else {
        "0.0"@
    }) + "% ("@ + dec_digits(hits as int) + " hits / "@ + dec_digits(total) + " total)"@
}

/// The summary section of a report.
pub open spec fn spec_summary(r: ScanReport) -> Seq<char> {
    "EXTRACTION COMPLETE\n"@ + "Output File: "@ + r.output_file@ + "\n"@ + "Process Time: "@
        + dec_digits(r.duration_millis as int) + " ms\n"@ + "Files Processed: "@
        + spec_format_number(r.files_processed as int) + "\n"@ + "Total Lines: "@
        + spec_format_number(r.total_lines as int) + "\n"@ + "LLM Tokens: "@ + spec_token_text(
        r.total_tokens,
        r.total_chars as int,
    ) + "\n"@ + (if r.token_cache_hits is Some && r.token_cache_misses is Some {
        "Cache Hit Rate: "@ + spec_cache_line(
            r.token_cache_hits->Some_0,
            r.token_cache_misses->Some_0,
        ) + "\n"@
    } else {
        Seq::<char>::empty()
    })
}

/// Details as path and metrics pairs.
pub open spec fn details_of(v: Seq<(String, FileReportInfo)>) -> Seq<(Seq<char>, FileReportInfo)> {
    Seq::new(v.len(), |i: int| (v[i].0@, v[i].1))
}

/// The recorded details, as path and metrics pairs.
pub open spec fn report_details_view(r: ScanReport) -> Seq<(Seq<char>, FileReportInfo)> {
    details_of(r.file_details@)
}

/// A detail inserted into a sequence already sorted by character count
/// descending: it goes after every entry with at least as many characters,
/// so entries with equal counts keep their order.
pub open spec fn insert_by_chars(
    e: (Seq<char>, FileReportInfo),
    s: Seq<(Seq<char>, FileReportInfo)>,
) -> Seq<(Seq<char>, FileReportInfo)>
    decreases s,
{
    if s.len() == 0 {
        seq![e]
    } else if e.1.chars > s[0].1.chars {
        seq![e] + s
    } else {
        seq![s[0]] + insert_by_chars(e, s.drop_first())
    }
}

/// The details sorted by character count, largest first; entries with equal
/// counts keep their recording order.
pub open spec fn sort_by_chars(s: Seq<(Seq<char>, FileReportInfo)>) -> Seq<
    (Seq<char>, FileReportInfo),
>
    decreases s,
{
    if s.len() == 0 {
        Seq::empty()
    } else {
        insert_by_chars(s.last(), sort_by_chars(s.drop_last()))
    }
}

/// Inserting adds exactly one entry.
proof fn lemma_insert_by_chars_len(e: (Seq<char>, FileReportInfo), s: Seq<(Seq<char>, FileReportInfo)>)
    ensures
        insert_by_chars(e, s).len() == s.len() + 1,
    decreases s,
{
    if s.len() > 0 && !(e.1.chars > s[0].1.chars) {
        lemma_insert_by_chars_len(e, s.drop_first());
    }
}

/// Sorting keeps the number of entries.
proof fn lemma_sort_by_chars_len(s: Seq<(Seq<char>, FileReportInfo)>)
    ensures
        sort_by_chars(s).len() == s.len(),
    decreases s,
{
    if s.len() > 0 {
        lemma_sort_by_chars_len(s.drop_last());
        lemma_insert_by_chars_len(s.last(), sort_by_chars(s.drop_last()));
    }
}

/// Inserting a detail at the first position whose entry has strictly fewer
/// characters is exactly the sorted insertion.
proof fn lemma_insert_by_chars_at(
    e: (Seq<char>, FileReportInfo),
    s: Seq<(Seq<char>, FileReportInfo)>,
    p: int,
)
    requires
        0 <= p <= s.len(),
        forall|j: int| 0 <= j < p ==> !(e.1.chars > (#[trigger] s[j]).1.chars),
        p < s.len() ==> e.1.chars > s[p].1.chars,
    ensures
        insert_by_chars(e, s) =~= s.insert(p, e),
    decreases s,
{
    if p == 0 {
        if s.len() == 0 {
            assert(insert_by_chars(e, s) =~= seq![e]);
        }
    } else {
        assert(!(e.1.chars > s[0].1.chars));
        assert(forall|j: int|
            0 <= j < p - 1 ==> !(e.1.chars > (#[trigger] s.drop_first()[j]).1.chars)) by {
            assert(forall|j: int|
                0 <= j < s.drop_first().len() ==> #[trigger] s.drop_first()[j] == s[j + 1]);
        }
        lemma_insert_by_chars_at(e, s.drop_first(), p - 1);
        assert(insert_by_chars(e, s) =~= s.insert(p, e));
    }
}

/// The rows the report shows: every detail when there are at most fifteen,
/// else the ten with the most characters, in sorted order.
pub open spec fn spec_shown_rows(details: Seq<(Seq<char>, FileReportInfo)>) -> Seq<
    (Seq<char>, FileReportInfo),
> {
    if details.len() > 15 {
        sort_by_chars(details).take(10)
    } else {
        sort_by_chars(details)
    }
}

/// The title of the per-file section.
pub open spec fn spec_files_title(details: Seq<(Seq<char>, FileReportInfo)>) -> Seq<char> {
    if details.len() > 15 {
        "TOP 10 LARGEST FILES BY CHARACTER COUNT\n"@
    } else {
        "PROCESSED FILES\n"@
    }
}

/// A whole console report: the per-file section — sorted by character count
/// descending and truncated to the ten largest when more than fifteen files
/// were processed — then the summary.
pub open spec fn spec_console_report(r: ScanReport) -> Seq<char> {
    spec_files_title(report_details_view(r)) + spec_file_lines(
        spec_shown_rows(report_details_view(r)),
    ) + "\n"@ + spec_summary(r)
}

/// Sort a copy of the recorded details by character count, largest first;
/// entries with equal counts keep their recording order.
fn sorted_by_chars(report: &ScanReport) -> (r: Vec<(String, FileReportInfo)>)
    ensures
        details_of(r@) =~= sort_by_chars(report_details_view(*report)),
{
    let ghost dv = report_details_view(*report);
    let mut sorted: Vec<(String, FileReportInfo)> = Vec::new();
    let mut i: usize = 0;
    proof {
        assert(dv.subrange(0, 0) =~= Seq::<(Seq<char>, FileReportInfo)>::empty());
        assert(details_of(sorted@) =~= sort_by_chars(dv.subrange(0, 0)));
    }
    while i < report.file_details.len()
        invariant
            i <= report.file_details@.len(),
            dv == report_details_view(*report),
            dv.len() == report.file_details@.len(),
            details_of(sorted@) =~= sort_by_chars(dv.subrange(0, i as int)),
        decreases report.file_details@.len() - i,
    {
        let entry = (report.file_details[i].0.clone(), report.file_details[i].1);
        let ghost ev = (entry.0@, entry.1);
        let ghost ss = details_of(sorted@);
        let mut p: usize = 0;
        while p < sorted.len()
            invariant
                p <= sorted@.len(),
                details_of(sorted@) == ss,
                ss.len() == sorted@.len(),
                ev == (entry.0@, entry.1),
                forall|k: int| 0 <= k < p ==> !(ev.1.chars > (#[trigger] ss[k]).1.chars),
            ensures
                p <= sorted@.len(),
                details_of(sorted@) == ss,
                forall|k: int| 0 <= k < p ==> !(ev.1.chars > (#[trigger] ss[k]).1.chars),
                p < sorted@.len() ==> ev.1.chars > ss[p as int].1.chars,
            decreases sorted@.len() - p,
        {
            proof {
                assert(ss[p as int].1 == sorted@[p as int].1);
            }
            if entry.1.chars > sorted[p].1.chars {
                break;
            }
            p = p + 1;
        }
        proof {
            lemma_insert_by_chars_at(ev, ss, p as int);
        }
        sorted.insert(p, entry);
        i = i + 1;
        proof {
            assert(details_of(sorted@) =~= ss.insert(p as int, ev));
            assert(dv.subrange(0, i as int).drop_last() =~= dv.subrange(0, i as int - 1));
            assert(dv.subrange(0, i as int).last() == dv[i as int - 1]);
            assert(ev == dv[i as int - 1]);
            assert(details_of(sorted@) =~= sort_by_chars(dv.subrange(0, i as int)));
        }
    }
    proof {
        assert(dv.subrange(0, dv.len() as int) =~= dv);
    }
    sorted
}

/// Report generator for scan results.
#[derive(Debug)]
pub struct Reporter {
    /// The format reports are rendered in
    pub format: ReportFormat,
}

/// Render `n / unit` with exactly one decimal, rounding to nearest and ties
/// to even.
fn one_decimal(n: u64, unit: u64) -> (r: String)
    requires
        unit > 0,
        n as int * 10 / unit as int + 1 <= u64::MAX,
    ensures
        r@ == spec_one_decimal(n as int, unit as int),
{
    let t128: u128 = n as u128 * 10;
    let q: u128 = t128 / unit as u128;
    let rem: u128 = t128 % unit as u128;
    let round_up: bool = 2 * rem > unit as u128 || (2 * rem == unit as u128 && q % 2 == 1);
    let t: u64 = if round_up {
        (q + 1) as u64
    } else {
        q as u64
    };
    proof {
        assert(t as int == spec_tenths(n as int, unit as int));
    }
    let mut s = u64_to_string(t / 10);
    proof {
        reveal_strlit(".");
        assert("."@ =~= seq!['.']);
    }
    s.append(".");
    s.append(crate::utils::u64_to_string(t % 10).as_str());
    proof {
        assert(dec_digits((t % 10) as int) =~= seq![digit_char((t % 10) as int)]);
        assert(s@ =~= spec_one_decimal(n as int, unit as int));
    }
    s
}

/// A count rendered with human-readable units.
fn format_number_value(num: u64) -> (r: String)
    ensures
        r@ == spec_format_number(num as int),
{
    if num >= 1000000 {
        let mut s = one_decimal(num, 1000000);
        s.append("M");
        proof {
            assert(s@ =~= spec_format_number(num as int));
        }
        s
    } else if num >= 1000 {
        let mut s = one_decimal(num, 1000);
        s.append("K");
        proof {
            assert(s@ =~= spec_format_number(num as int));
        }
        s
    } else {
        u64_to_string(num)
    }
}

/// The token figure for a file or for the whole scan.
fn token_text(tokens: Option<u64>, chars: u64) -> (r: String)
    ensures
        r@ == spec_token_text(tokens, chars as int),
{
    match tokens {
        Some(t) => {
            let mut s = format_number_value(t);
            s.append(" tokens (counted)");
            s
        },
        None => {
            let mut s = format_number_value(chars / 4);
            s.append(" tokens (estimated)");
            s
        },
    }
}

impl Reporter {
    /// Create a new reporter.
    pub fn new(format: ReportFormat) -> (r: Self)
        ensures
            r.format == format,
    {
        Reporter { format }
    }

    /// Format a number with human-readable units.
    pub fn format_number(&self, num: u64) -> (r: String)
        ensures
            r@ == spec_format_number(num as int),
    {
        format_number_value(num)
    }

    /// Format a path for display, shortening it to the given length.
    pub fn format_path(&self, path: &str, max_len: usize) -> (r: String)
        requires
            max_len >= 3,
        ensures
            r@ == spec_format_path(path@, max_len as int),
    {
        let v = crate::utils::chars_of(path);
        if v.len() <= max_len {
            path.to_owned()
        } else {
            let mut s = "...".to_owned();
            let tail = crate::utils::slice_string(&v, v.len() - (max_len - 3), v.len());
            s.append(tail.as_str());
            proof {
                assert(tail@ =~= path@.skip(path@.len() - (max_len - 3)));
            }
            s
        }
    }

    /// Generate a report string from scan statistics.
    pub fn generate_report(&self, report: &ScanReport) -> (r: String)
        ensures
            r@ == spec_console_report(*report),
    {
        match self.format {
            ReportFormat::ConsoleTable => self.generate_console_report(report),
        }
    }

    /// The per-file section: its title, then one line per shown row.
    #[verifier::rlimit(100)]
    fn files_section(&self, report: &ScanReport) -> (r: String)
        ensures
            r@ == spec_files_title(report_details_view(*report)) + spec_file_lines(
                spec_shown_rows(report_details_view(*report)),
            ),
    {
        let ghost dv = report_details_view(*report);
        let sorted = sorted_by_chars(report);
        proof {
            lemma_sort_by_chars_len(dv);
        }
        let shown: usize = if report.file_details.len() > 15 {
            10
        } else {
            sorted.len()
        };
        let ghost rows = spec_shown_rows(dv);
        proof {
            assert(rows =~= details_of(sorted@).subrange(0, shown as int));
            assert(rows.len() == shown);
        }
        let mut out: String;
        if report.file_details.len() > 15 {
            out = "TOP 10 LARGEST FILES BY CHARACTER COUNT\n".to_owned();
        } else {
            out = "PROCESSED FILES\n".to_owned();
        }
        let mut j: usize = 0;
        proof {
            assert(rows.subrange(0, 0) =~= Seq::<(Seq<char>, FileReportInfo)>::empty());
            assert(out@ =~= spec_files_title(dv) + spec_file_lines(rows.subrange(0, 0)));
        }
        while j < shown
            invariant
                j <= shown,
                shown <= sorted@.len(),
                dv == report_details_view(*report),
                rows == spec_shown_rows(dv),
                rows =~= details_of(sorted@).subrange(0, shown as int),
                rows.len() == shown,
                out@ =~= spec_files_title(dv) + spec_file_lines(rows.subrange(0, j as int)),
            decreases shown - j,
        {
            let entry = &sorted[j];
            proof {
                assert(rows[j as int] == (entry.0@, entry.1));
            }
            out.append(self.format_path(entry.0.as_str(), 60).as_str());
            out.append(": ");
            out.append(format_number_value(entry.1.lines).as_str());
            out.append(" lines, ");
            out.append(token_text(entry.1.tokens, entry.1.chars).as_str());
            out.append("\n");
            j = j + 1;
            proof {
                lemma_file_lines_snoc(rows, j as int);
                assert(out@ =~= spec_files_title(dv) + spec_file_lines(rows.subrange(0, j as int)));
            }
        }
        proof {
            assert(rows.subrange(0, rows.len() as int) =~= rows);
        }
        out
    }

    /// Generate the console report: the per-file section, then the summary.
    #[verifier::rlimit(100)]
    pub fn generate_console_report(&self, report: &ScanReport) -> (r: String)
        ensures
            r@ == spec_console_report(*report),
    {
        let mut out = self.files_section(report);
        out.append("\n");
        out.append("EXTRACTION COMPLETE\n");
        out.append("Output File: ");
        out.append(report.output_file.as_str());
        out.append("\n");
        out.append("Process Time: ");
        out.append(u64_to_string(report.duration_millis).as_str());
        out.append(" ms\n");
        out.append("Files Processed: ");
        out.append(format_number_value(report.files_processed).as_str());
        out.append("\n");
        out.append("Total Lines: ");
        out.append(format_number_value(report.total_lines).as_str());
        out.append("\n");
        out.append("LLM Tokens: ");
        out.append(token_text(report.total_tokens, report.total_chars).as_str());
        out.append("\n");
        match (report.token_cache_hits, report.token_cache_misses) {
            (Some(hits), Some(misses)) => {
                out.append("Cache Hit Rate: ");
                out.append(cache_line(hits, misses).as_str());
                out.append("\n");
            },
            _ => {},
        }
        proof {
            assert(out@ =~= spec_console_report(*report));
        }
        out
    }
}

/// The cache-effectiveness figure: hit rate as a percentage with one
/// decimal, with the raw counts.
fn cache_line(hits: u64, misses: u64) -> (r: String)
    ensures
        r@ == spec_cache_line(hits, misses),
{
    let mut out: String;
    if hits > 0 || misses > 0 {
        let n128: u128 = hits as u128 * 100;
        let total128: u128 = hits as u128 + misses as u128;
        let q: u128 = n128 * 10 / total128;
        let rem: u128 = n128 * 10 % total128;
        let round_up: bool = 2 * rem > total128 || (2 * rem == total128 && q % 2 == 1);
        proof {
            vstd::arithmetic::div_mod::lemma_div_is_ordered(
                hits as int * 1000,
                (hits as int + misses as int) * 1000,
                hits as int + misses as int,
            );
            vstd::arithmetic::div_mod::lemma_div_multiples_vanish(
                1000,
                hits as int + misses as int,
            );
            assert((hits as int + misses as int) * 1000 == 1000 * (hits as int + misses as int));
            assert(q <= 1000);
        }
        let t: u64 = if round_up {
            (q + 1) as u64
        } else {
            q as u64
        };
        proof {
            assert(t as int == spec_tenths(hits as int * 100, hits as int + misses as int));
        }
        out = u64_to_string(t / 10);
        proof {
            reveal_strlit(".");
            assert("."@ =~= seq!['.']);
        }
        out.append(".");
        out.append(u64_to_string(t % 10).as_str());
        proof {
            assert(dec_digits((t % 10) as int) =~= seq![digit_char((t % 10) as int)]);
            assert(out@ =~= spec_one_decimal(hits as int * 100, hits as int + misses as int));
        }
    } else {
        out = "0.0".to_owned();
    }
    out.append("% (");
    out.append(u64_to_string(hits).as_str());
    out.append(" hits / ");
    let total: u128 = hits as u128 + misses as u128;
    out.append(crate::utils::u128_to_string(total).as_str());
    out.append(" total)");
    proof {
        assert(out@ =~= spec_cache_line(hits, misses));
    }
    out
}

/// Extending the detail prefix by one extends the per-file section by one
/// line.
proof fn lemma_file_lines_snoc(dv: Seq<(Seq<char>, FileReportInfo)>, i: int)
    requires
        0 < i <= dv.len(),
    ensures
        spec_file_lines(dv.subrange(0, i)) == spec_file_lines(dv.subrange(0, i - 1))
            + spec_file_line(dv[i - 1].0, dv[i - 1].1),
{
    lemma_file_lines_concat(dv.subrange(0, i - 1), seq![dv[i - 1]]);
    assert(dv.subrange(0, i) =~= dv.subrange(0, i - 1) + seq![dv[i - 1]]);
    assert(seq![dv[i - 1]].drop_first() =~= Seq::<(Seq<char>, FileReportInfo)>::empty());
    assert(spec_file_lines(seq![dv[i - 1]].drop_first()) =~= Seq::<char>::empty());
    assert(spec_file_lines(seq![dv[i - 1]]) =~= spec_file_line(dv[i - 1].0, dv[i - 1].1));
}

/// The per-file section splits over concatenation of detail sequences.
proof fn lemma_file_lines_concat(a: Seq<(Seq<char>, FileReportInfo)>, b: Seq<
    (Seq<char>, FileReportInfo),
>)
    ensures
        spec_file_lines(a + b) =~= spec_file_lines(a) + spec_file_lines(b),
    decreases a,
{
    if a.len() == 0 {
        assert(a + b =~= b);
    } else {
        assert((a + b)[0] == a[0]);
        assert((a + b).drop_first() =~= a.drop_first() + b);
        lemma_file_lines_concat(a.drop_first(), b);
    }
}

} // verus!
