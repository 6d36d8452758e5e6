//! Small verified building blocks: decimal rendering of integers,
//! human-readable file sizes, and character-level string helpers.

use vstd::prelude::*;

verus! {

pub const KB: u64 = 1024;
pub const MB: u64 = 1048576;
pub const GB: u64 = 1073741824;

/// The character for a single decimal digit.
pub open spec fn digit_char(d: int) -> char {
    if d == 0 {
        '0'
    } else if d == 1 {
        '1'
    } else if d == 2 {
        '2'
    } else if d == 3 {
        '3'
    } else if d == 4 {
        '4'
    } else if d == 5 {
        '5'
    } else if d == 6 {
        '6'
    } else if d == 7 {
        '7'
    } else if d == 8 {
        '8'
    } else {
        '9'
    }
}

/// Decimal representation of a non-negative integer, most significant digit
/// first, without leading zeros (except for zero itself).
pub open spec fn dec_digits(n: int) -> Seq<char>
    decreases n,
{
    if n < 10 {
        seq![digit_char(n)]
    } else {
        dec_digits(n / 10) + seq![digit_char(n % 10)]
    }
}

/// One decimal digit as a string slice.
fn digit_str(d: u64) -> (r: &'static str)
    requires
        d < 10,
    ensures
        r@ == seq![digit_char(d as int)],
{
    proof {
        reveal_strlit("0");
        reveal_strlit("1");
        reveal_strlit("2");
        reveal_strlit("3");
        reveal_strlit("4");
        reveal_strlit("5");
        reveal_strlit("6");
        reveal_strlit("7");
        reveal_strlit("8");
        reveal_strlit("9");
    }
    let r: &'static str = if d == 0 {
        "0"
    } else if d == 1 {
        "1"
    } else if d == 2 {
        "2"
    } else if d == 3 {
        "3"
    } else if d == 4 {
        "4"
    } else if d == 5 {
        "5"
    } else if d == 6 {
        "6"
    } else if d == 7 {
        "7"
    } else if d == 8 {
        "8"
    } else {
        "9"
    };
    proof {
        assert(r@ =~= seq![digit_char(d as int)]);
    }
    r
}

/// Render a `u64` in decimal.
pub fn u64_to_string(n: u64) -> (r: String)
    ensures
        r@ == dec_digits(n as int),
    decreases n,
{
    if n < 10 {
        digit_str(n).to_owned()
    } else {
        let mut s = u64_to_string(n / 10);
        s.append(digit_str(n % 10));
        proof {
            assert(s@ =~= dec_digits(n as int));
        }
        s
    }
}

/// Render a `u128` in decimal.
pub fn u128_to_string(n: u128) -> (r: String)
    ensures
        r@ == dec_digits(n as int),
    decreases n,
{
    if n < 10 {
        digit_str(n as u64).to_owned()
    } else {
        let mut s = u128_to_string(n / 10);
        s.append(digit_str((n % 10) as u64));
        proof {
            assert(s@ =~= dec_digits(n as int));
        }
        s
    }
}

/// `scaled` is `n * 100 / unit` rounded to the nearest integer, ties to even:
/// the value `n / unit` in hundredths.
pub open spec fn spec_hundredths(n: int, unit: int) -> int
    recommends
        unit > 0,
{
    let q = n * 100 / unit;
    let r = n * 100 % unit;
    if 2 * r > unit || (2 * r == unit && q % 2 == 1) {
        q + 1
    } else {
        q
    }
}

/// Fraction part of a two-decimal rendering, always two digits.
pub open spec fn two_digit_frac(f: int) -> Seq<char>
    recommends
        0 <= f < 100,
{
    if f < 10 {
        seq![digit_char(0)] + seq![digit_char(f)]
    } else {
        dec_digits(f)
    }
}

/// `n / unit` rendered with exactly two decimals, e.g. `3.50`.
pub open spec fn spec_two_decimals(n: int, unit: int) -> Seq<char>
    recommends
        unit > 0,
{
    let h = spec_hundredths(n, unit);
    dec_digits(h / 100) + seq!['.'] + two_digit_frac(h % 100)
}

/// Human-readable rendering of a byte count.
pub open spec fn spec_format_file_size(size: u64) -> Seq<char> {
    if size >= GB {
        spec_two_decimals(size as int, GB as int) + " GB"@
    } else if size >= MB {
        spec_two_decimals(size as int, MB as int) + " MB"@
    } else if size >= KB {
        spec_two_decimals(size as int, KB as int) + " KB"@
    } else {
        dec_digits(size as int) + " bytes"@
    }
}

/// Render `n / unit` with exactly two decimals, rounding to nearest and ties
/// to even.
fn two_decimals(n: u64, unit: u64) -> (r: String)
    requires
        unit > 0,
        n as int * 100 / unit as int + 1 <= u64::MAX,
    ensures
        r@ == spec_two_decimals(n as int, unit as int),
{
    let t: u128 = n as u128 * 100;
    let q: u128 = t / unit as u128;
    let rem: u128 = t % unit as u128;
    let round_up: bool = 2 * rem > unit as u128 || (2 * rem == unit as u128 && q % 2 == 1);
    let h: u64 = if round_up {
        (q + 1) as u64
    } else {
        q as u64
    };
    proof {
        assert(h as int == spec_hundredths(n as int, unit as int));
    }
    let mut s = u64_to_string(h / 100);
    proof {
        reveal_strlit(".");
        assert("."@ =~= seq!['.']);
    }
    s.append(".");
    let f: u64 = h % 100;
    if f < 10 {
        s.append(digit_str(0));
    }
    s.append(u64_to_string(f).as_str());
    proof {
        assert(s@ =~= spec_two_decimals(n as int, unit as int));
    }
    s
}

/// Format a human-readable file size.
pub fn format_file_size(size: u64) -> (r: String)
    ensures
        r@ == spec_format_file_size(size),
{
    if size >= GB {
        let mut s = two_decimals(size, GB);
        s.append(" GB");
        proof {
            assert(s@ =~= spec_format_file_size(size));
        }
        s
    } else if size >= MB {
        let mut s = two_decimals(size, MB);
        s.append(" MB");
        proof {
            assert(s@ =~= spec_format_file_size(size));
        }
        s
    } else if size >= KB {
        let mut s = two_decimals(size, KB);
        s.append(" KB");
        proof {
            assert(s@ =~= spec_format_file_size(size));
        }
        s
    } else {
        let mut s = u64_to_string(size);
        s.append(" bytes");
        proof {
            assert(s@ =~= spec_format_file_size(size));
        }
        s
    }
}

/// Relies on `str`'s `PartialEq`: two string slices are equal exactly when
/// their character contents are equal.
#[verifier::external_body]
pub fn str_eq(a: &str, b: &str) -> (r: bool)
    ensures
        r == (a@ == b@),
{
    a == b
}

/// Relies on `String::push`: appends exactly the given character.
#[verifier::external_body]
pub fn push_char(s: &mut String, c: char) -> (u: ())
    ensures
        final(s)@ == old(s)@.push(c),
{
    s.push(c)
}

/// Collect the characters of a string slice into a vector.
pub fn chars_of(s: &str) -> (v: Vec<char>)
    ensures
        v@ == s@,
{
    let mut v: Vec<char> = Vec::new();
    for c in it: s.chars()
        invariant
            v@ =~= it.seq().subrange(0, it.index() as int),
            it.seq() == s@,
    {
        v.push(c);
    }
    proof {
        assert(v@ =~= s@);
    }
    v
}

/// Build a string holding exactly the given characters.
pub fn string_of_chars(v: &Vec<char>) -> (r: String)
    ensures
        r@ == v@,
{
    let mut s = String::new();
    let mut i: usize = 0;
    while i < v.len()
        invariant
            i <= v.len(),
            s@ =~= v@.subrange(0, i as int),
        decreases v.len() - i,
    {
        push_char(&mut s, v[i]);
        i = i + 1;
        proof {
            assert(s@ =~= v@.subrange(0, i as int));
        }
    }
    proof {
        assert(s@ =~= v@);
    }
    s
}

/// Whether `p` is a prefix of `s`.
pub open spec fn starts_with(s: Seq<char>, p: Seq<char>) -> bool {
    s.len() >= p.len() && s.take(p.len() as int) == p
}

/// Index of the first occurrence of `c` in `s`; the length of `s` when `c`
/// does not occur.
pub open spec fn first_index_of(s: Seq<char>, c: char) -> int
    decreases s,
{
    if s.len() == 0 {
        0
    } else if s[0] == c {
        0
    } else {
        1 + first_index_of(s.drop_first(), c)
    }
}

/// The first occurrence is within bounds, hits `c`, and nothing before it
/// does.
pub proof fn lemma_first_index_of(s: Seq<char>, c: char)
    ensures
        0 <= first_index_of(s, c) <= s.len(),
        first_index_of(s, c) < s.len() ==> s[first_index_of(s, c)] == c,
        forall|j: int| 0 <= j < first_index_of(s, c) ==> s[j] != c,
    decreases s,
{
    if s.len() > 0 && s[0] != c {
        lemma_first_index_of(s.drop_first(), c);
        assert(forall|j: int| 1 <= j < first_index_of(s, c) ==> s[j] == s.drop_first()[j - 1]);
    }
}

/// A position before which `c` does not occur, and at which it does (or the
/// end), is the first occurrence.
pub proof fn lemma_first_index_at(s: Seq<char>, c: char, k: int)
    requires
        0 <= k <= s.len(),
        forall|j: int| 0 <= j < k ==> s[j] != c,
        k < s.len() ==> s[k] == c,
    ensures
        first_index_of(s, c) == k,
    decreases s,
{
    if s.len() > 0 && k > 0 {
        assert(forall|j: int| 0 <= j < k - 1 ==> s.drop_first()[j] != c);
        lemma_first_index_at(s.drop_first(), c, k - 1);
    }
}

/// Find the first occurrence of a character at or after `from`.
pub fn find_char(v: &Vec<char>, c: char, from: usize) -> (r: usize)
    requires
        from <= v@.len(),
    ensures
        from <= r <= v@.len(),
        r < v@.len() ==> v@[r as int] == c,
        forall|j: int| from <= j < r ==> v@[j] != c,
        r - from == first_index_of(v@.skip(from as int), c),
{
    let mut i: usize = from;
    while i < v.len()
        invariant
            from <= i <= v@.len(),
            forall|j: int| from <= j < i ==> v@[j] != c,
        decreases v@.len() - i,
    {
        if v[i] == c {
            proof {
                assert(forall|j: int|
                    0 <= j < i - from ==> v@.skip(from as int)[j] == v@[from + j]);
                lemma_first_index_at(v@.skip(from as int), c, i - from);
            }
            return i;
        }
        i = i + 1;
    }
    proof {
        assert(forall|j: int|
            0 <= j < v@.len() - from ==> v@.skip(from as int)[j] == v@[from + j]);
        lemma_first_index_at(v@.skip(from as int), c, v@.len() - from);
    }
    v.len()
}

/// Whether the characters start with the given prefix.
pub fn vec_starts_with(v: &Vec<char>, p: &str) -> (r: bool)
    ensures
        r == starts_with(v@, p@),
{
    let pv = chars_of(p);
    if v.len() < pv.len() {
        return false;
    }
    let mut i: usize = 0;
    while i < pv.len()
        invariant
            i <= pv@.len(),
            pv@.len() <= v@.len(),
            pv@ == p@,
            forall|j: int| 0 <= j < i ==> v@[j] == p@[j],
        decreases pv@.len() - i,
    {
        if v[i] != pv[i] {
            proof {
                assert(v@.take(p@.len() as int)[i as int] != p@[i as int]);
            }
            return false;
        }
        i = i + 1;
    }
    proof {
        assert(v@.take(p@.len() as int) =~= p@);
    }
    true
}

/// Build a string from a character range.
pub fn slice_string(v: &Vec<char>, a: usize, b: usize) -> (r: String)
    requires
        a <= b <= v@.len(),
    ensures
        r@ == v@.subrange(a as int, b as int),
{
    let mut s = String::new();
    let mut i: usize = a;
    while i < b
        invariant
            a <= i <= b <= v@.len(),
            s@ =~= v@.subrange(a as int, i as int),
        decreases b - i,
    {
        push_char(&mut s, v[i]);
        i = i + 1;
        proof {
            assert(s@ =~= v@.subrange(a as int, i as int));
        }
    }
    s
}

/// The fixed built-in ignore set: version-control metadata, OS artifacts,
/// dependency directories, build outputs, caches and similar names that are
/// always excluded.  An entry is matched by literal name equality.
pub open spec fn spec_default_ignored(name: Seq<char>) -> bool {
    ||| name == ".git"@
    ||| name == ".svn"@
    ||| name == ".hg"@
    ||| name == ".bzr"@
    ||| name == ".gitignore"@
    ||| name == ".gitattributes"@
    ||| name == ".DS_Store"@
    ||| name == "Thumbs.db"@
    ||| name == "desktop.ini"@
    ||| name == "ehthumbs.db"@
    ||| name == "*.lnk"@
    ||| name == "*.url"@
    ||| name == ".directory"@
    ||| name == "node_modules"@
    ||| name == "bower_components"@
    ||| name == ".npm"@
    ||| name == "package-lock.json"@
    ||| name == "yarn.lock"@
    ||| name == ".yarn"@
    ||| name == "vendor"@
    ||| name == "composer.lock"@
    ||| name == ".pnpm-store"@
    ||| name == "dist"@
    ||| name == "build"@
    ||| name == "out"@
    ||| name == "bin"@
    ||| name == "release"@
    ||| name == "*.min.js"@
    ||| name == "*.min.css"@
    ||| name == "bundle.*"@
    ||| name == "__pycache__"@
    ||| name == ".pytest_cache"@
    ||| name == ".coverage"@
    ||| name == "venv"@
    ||| name == "env"@
    ||| name == ".env"@
    ||| name == ".venv"@
    ||| name == "*.pyc"@
    ||| name == "*.pyo"@
    ||| name == "*.pyd"@
    ||| name == ".python-version"@
    ||| name == "*.egg-info"@
    ||| name == "*.egg"@
    ||| name == "develop-eggs"@
    ||| name == "target"@
    ||| name == "Cargo.lock"@
    ||| name == ".cargo"@
    ||| name == ".idea"@
    ||| name == ".vscode"@
    ||| name == ".vs"@
    ||| name == ".sublime-*"@
    ||| name == "*.swp"@
    ||| name == "*.swo"@
    ||| name == "*~"@
    ||| name == ".project"@
    ||| name == ".settings"@
    ||| name == ".classpath"@
    ||| name == ".factorypath"@
    ||| name == "*.iml"@
    ||| name == "*.iws"@
    ||| name == "*.ipr"@
    ||| name == ".cache"@
    ||| name == "tmp"@
    ||| name == "temp"@
    ||| name == "logs"@
    ||| name == ".sass-cache"@
    ||| name == ".eslintcache"@
    ||| name == "*.log"@
    ||| name == "npm-debug.log*"@
    ||| name == "yarn-debug.log*"@
    ||| name == "yarn-error.log*"@
    ||| name == ".gradle"@
    ||| name == "gradle"@
    ||| name == ".maven"@
    ||| name == ".m2"@
    ||| name == "*.class"@
    ||| name == "*.jar"@
    ||| name == "*.war"@
    ||| name == "*.ear"@
    ||| name == "coverage"@
    ||| name == ".nyc_output"@
    ||| name == ".next"@
    ||| name == "*.tsbuildinfo"@
    ||| name == ".nuxt"@
    ||| name == ".output"@
    ||| name == "obj"@
    ||| name == "Debug"@
    ||| name == "Release"@
    ||| name == "packages"@
    ||| name == "*.suo"@
    ||| name == "*.user"@
    ||| name == "*.pubxml"@
    ||| name == "*.pubxml.user"@
    ||| name == "_site"@
    ||| name == ".jekyll-cache"@
    ||| name == ".docusaurus"@
    ||| name == "xcuserdata"@
    ||| name == "*.xcworkspace"@
    ||| name == "Pods/"@
    ||| name == ".expo"@
    ||| name == "*.sqlite"@
    ||| name == "*.sqlite3"@
    ||| name == "*.db"@
    ||| name == "*.zip"@
    ||| name == "*.tar.gz"@
    ||| name == "*.tgz"@
    ||| name == "*.rar"@
    ||| name == ".kube"@
    ||| name == "*.kubeconfig"@
    ||| name == ".terraform"@
    ||| name == "*.tfstate"@
    ||| name == "*.tfvars"@
    ||| name == "*.retry"@
}

/// Whether a base name is in the built-in ignore set.
pub fn is_default_ignored(name: &str) -> (r: bool)
    ensures
        r == spec_default_ignored(name@),
{
    if str_eq(name, ".git") {
        return true;
    }
    if str_eq(name, ".svn") {
        return true;
    }
    if str_eq(name, ".hg") {
        return true;
    }
    if str_eq(name, ".bzr") {
        return true;
    }
    if str_eq(name, ".gitignore") {
        return true;
    }
    if str_eq(name, ".gitattributes") {
        return true;
    }
    if str_eq(name, ".DS_Store") {
        return true;
    }
    if str_eq(name, "Thumbs.db") {
        return true;
    }
    if str_eq(name, "desktop.ini") {
        return true;
    }
    if str_eq(name, "ehthumbs.db") {
        return true;
    }
    if str_eq(name, "*.lnk") {
        return true;
    }
    if str_eq(name, "*.url") {
        return true;
    }
    if str_eq(name, ".directory") {
        return true;
    }
    if str_eq(name, "node_modules") {
        return true;
    }
    if str_eq(name, "bower_components") {
        return true;
    }
    if str_eq(name, ".npm") {
        return true;
    }
    if str_eq(name, "package-lock.json") {
        return true;
    }
    if str_eq(name, "yarn.lock") {
        return true;
    }
    if str_eq(name, ".yarn") {
        return true;
    }
    if str_eq(name, "vendor") {
        return true;
    }
    if str_eq(name, "composer.lock") {
        return true;
    }
    if str_eq(name, ".pnpm-store") {
        return true;
    }
    if str_eq(name, "dist") {
        return true;
    }
    if str_eq(name, "build") {
        return true;
    }
    if str_eq(name, "out") {
        return true;
    }
    if str_eq(name, "bin") {
        return true;
    }
    if str_eq(name, "release") {
        return true;
    }
    if str_eq(name, "*.min.js") {
        return true;
    }
    if str_eq(name, "*.min.css") {
        return true;
    }
    if str_eq(name, "bundle.*") {
        return true;
    }
    if str_eq(name, "__pycache__") {
        return true;
    }
    if str_eq(name, ".pytest_cache") {
        return true;
    }
    if str_eq(name, ".coverage") {
        return true;
    }
    if str_eq(name, "venv") {
        return true;
    }
    if str_eq(name, "env") {
        return true;
    }
    if str_eq(name, ".env") {
        return true;
    }
    if str_eq(name, ".venv") {
        return true;
    }
    if str_eq(name, "*.pyc") {
        return true;
    }
    if str_eq(name, "*.pyo") {
        return true;
    }
    if str_eq(name, "*.pyd") {
        return true;
    }
    if str_eq(name, ".python-version") {
        return true;
    }
    if str_eq(name, "*.egg-info") {
        return true;
    }
    if str_eq(name, "*.egg") {
        return true;
    }
    if str_eq(name, "develop-eggs") {
        return true;
    }
    if str_eq(name, "target") {
        return true;
    }
    if str_eq(name, "Cargo.lock") {
        return true;
    }
    if str_eq(name, ".cargo") {
        return true;
    }
    if str_eq(name, ".idea") {
        return true;
    }
    if str_eq(name, ".vscode") {
        return true;
    }
    if str_eq(name, ".vs") {
        return true;
    }
    if str_eq(name, ".sublime-*") {
        return true;
    }
    if str_eq(name, "*.swp") {
        return true;
    }
    if str_eq(name, "*.swo") {
        return true;
    }
    if str_eq(name, "*~") {
        return true;
    }
    if str_eq(name, ".project") {
        return true;
    }
    if str_eq(name, ".settings") {
        return true;
    }
    if str_eq(name, ".classpath") {
        return true;
    }
    if str_eq(name, ".factorypath") {
        return true;
    }
    if str_eq(name, "*.iml") {
        return true;
    }
    if str_eq(name, "*.iws") {
        return true;
    }
    if str_eq(name, "*.ipr") {
        return true;
    }
    if str_eq(name, ".cache") {
        return true;
    }
    if str_eq(name, "tmp") {
        return true;
    }
    if str_eq(name, "temp") {
        return true;
    }
    if str_eq(name, "logs") {
        return true;
    }
    if str_eq(name, ".sass-cache") {
        return true;
    }
    if str_eq(name, ".eslintcache") {
        return true;
    }
    if str_eq(name, "*.log") {
        return true;
    }
    if str_eq(name, "npm-debug.log*") {
        return true;
    }
    if str_eq(name, "yarn-debug.log*") {
        return true;
    }
    if str_eq(name, "yarn-error.log*") {
        return true;
    }
    if str_eq(name, ".gradle") {
        return true;
    }
    if str_eq(name, "gradle") {
        return true;
    }
    if str_eq(name, ".maven") {
        return true;
    }
    if str_eq(name, ".m2") {
        return true;
    }
    if str_eq(name, "*.class") {
        return true;
    }
    if str_eq(name, "*.jar") {
        return true;
    }
    if str_eq(name, "*.war") {
        return true;
    }
    if str_eq(name, "*.ear") {
        return true;
    }
    if str_eq(name, "coverage") {
        return true;
    }
    if str_eq(name, ".nyc_output") {
        return true;
    }
    if str_eq(name, ".next") {
        return true;
    }
    if str_eq(name, "*.tsbuildinfo") {
        return true;
    }
    if str_eq(name, ".nuxt") {
        return true;
    }
    if str_eq(name, ".output") {
        return true;
    }
    if str_eq(name, "obj") {
        return true;
    }
    if str_eq(name, "Debug") {
        return true;
    }
    if str_eq(name, "Release") {
        return true;
    }
    if str_eq(name, "packages") {
        return true;
    }
    if str_eq(name, "*.suo") {
        return true;
    }
    if str_eq(name, "*.user") {
        return true;
    }
    if str_eq(name, "*.pubxml") {
        return true;
    }
    if str_eq(name, "*.pubxml.user") {
        return true;
    }
    if str_eq(name, "_site") {
        return true;
    }
    if str_eq(name, ".jekyll-cache") {
        return true;
    }
    if str_eq(name, ".docusaurus") {
        return true;
    }
    if str_eq(name, "xcuserdata") {
        return true;
    }
    if str_eq(name, "*.xcworkspace") {
        return true;
    }
    if str_eq(name, "Pods/") {
        return true;
    }
    if str_eq(name, ".expo") {
        return true;
    }
    if str_eq(name, "*.sqlite") {
        return true;
    }
    if str_eq(name, "*.sqlite3") {
        return true;
    }
    if str_eq(name, "*.db") {
        return true;
    }
    if str_eq(name, "*.zip") {
        return true;
    }
    if str_eq(name, "*.tar.gz") {
        return true;
    }
    if str_eq(name, "*.tgz") {
        return true;
    }
    if str_eq(name, "*.rar") {
        return true;
    }
    if str_eq(name, ".kube") {
        return true;
    }
    if str_eq(name, "*.kubeconfig") {
        return true;
    }
    if str_eq(name, ".terraform") {
        return true;
    }
    if str_eq(name, "*.tfstate") {
        return true;
    }
    if str_eq(name, "*.tfvars") {
        return true;
    }
    if str_eq(name, "*.retry") {
        return true;
    }
    false
}

} // verus!
