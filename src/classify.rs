//! Per-file classification rules: extensions, languages, comment syntax,
//! binary detection and line statistics.
use vstd::prelude::*;
use crate::text::{
    chars_of, contains, seq_contains, seq_starts_with, starts_with,
    trim_chars, trimmed, char_views,
};

verus! {

/// Whether `v` holds exactly the characters of `lit`.
pub fn eq_lit(v: &Vec<char>, lit: &str) -> (r: bool)
    ensures
        r == (v@ == lit@),
{
    let l = chars_of(lit);
    if v.len() != l.len() {
        return false;
    }
    let mut i: usize = 0;
    while i < v.len()
        invariant
            i <= v.len() == l.len(),
            l@ == lit@,
            forall|k: int| 0 <= k < i ==> v@[k] == l@[k],
        decreases v.len() - i,
    {
        if v[i] != l[i] {
            return false;
        }
        i = i + 1;
    }
    assert(v@ =~= l@);
    true
}

/// Position of the last `.` in `s` before position `k`, or -1.
pub open spec fn last_dot_before(s: Seq<char>, k: int) -> int
    decreases k,
{
    if k <= 0 {
        -1
    } else if s[k - 1] == '.' {
        k - 1
    } else {
        last_dot_before(s, k - 1)
    }
}

/// The extension of a file name, as `Path::extension` gives it: what follows
/// the last `.`, unless that dot begins the name or the name is `..`.
pub open spec fn extension_of(name: Seq<char>) -> Option<Seq<char>> {
    let d = last_dot_before(name, name.len() as int);
    if name == seq!['.', '.'] || d <= 0 {
        None
    } else {
        Some(name.subrange(d + 1, name.len() as int))
    }
}

proof fn lemma_last_dot_range(s: Seq<char>, k: int)
    requires
        k <= s.len(),
    ensures
        -1 <= last_dot_before(s, k) < k || (k <= 0 && last_dot_before(s, k) == -1),
        last_dot_before(s, k) >= 0 ==> s[last_dot_before(s, k)] == '.',
    decreases k,
{
    if k > 0 && s[k - 1] != '.' {
        lemma_last_dot_range(s, k - 1);
    }
}

/// The extension of the file name `name`.
pub fn file_extension(name: &Vec<char>) -> (r: Option<Vec<char>>)
    ensures
        match r {
            Some(e) => extension_of(name@) == Some(e@),
            None => extension_of(name@) is None,
        },
{
    let n = name.len();
    let mut k: usize = n;
    while k > 0 && name[k - 1] != '.'
        invariant
            k <= n == name.len(),
            last_dot_before(name@, n as int) == last_dot_before(name@, k as int),
        decreases k,
    {
        k = k - 1;
    }
    if n == 2 && name[0] == '.' && name[1] == '.' {
        assert(name@ =~= seq!['.', '.']);
        return None;
    }
    if k <= 1 {
        proof {
            if name@ == seq!['.', '.'] {
                assert(name@.len() == 2);
            }
        }
        return None;
    }
    proof {
        if name@ == seq!['.', '.'] {
            assert(name@.len() == 2);
            assert(name@[0] == '.' && name@[1] == '.');
        }
    }
    Some(crate::text::slice_chars(name, k, n))
}

/// The language named by a lowercase file extension.
pub open spec fn language_for(e: Seq<char>) -> Option<Seq<char>> {
    if e == "rs"@ {
        Some("Rust"@)
    } else if e == "py"@ {
        Some("Python"@)
    } else if e == "js"@ || e == "jsx"@ {
        Some("JavaScript"@)
    } else if e == "ts"@ || e == "tsx"@ {
        Some("TypeScript"@)
    } else if e == "java"@ {
        Some("Java"@)
    } else if e == "c"@ {
        Some("C"@)
    } else if e == "cpp"@ || e == "cc"@ || e == "cxx"@ {
        Some("C++"@)
    } else if e == "h"@ {
        Some("C/C++ Header"@)
    } else if e == "hpp"@ {
        Some("C++ Header"@)
    } else if e == "cs"@ {
        Some("C#"@)
    } else if e == "go"@ {
        Some("Go"@)
    } else if e == "php"@ {
        Some("PHP"@)
    } else if e == "rb"@ {
        Some("Ruby"@)
    } else if e == "pl"@ {
        Some("Perl"@)
    } else if e == "swift"@ {
        Some("Swift"@)
    } else if e == "kt"@ {
        Some("Kotlin"@)
    } else if e == "scala"@ {
        Some("Scala"@)
    } else if e == "hs"@ {
        Some("Haskell"@)
    } else if e == "ml"@ || e == "mli"@ {
        Some("OCaml"@)
    } else if e == "r"@ {
        Some("R"@)
    } else if e == "m"@ {
        Some("Objective-C"@)
    } else if e == "mm"@ {
        Some("Objective-C++"@)
    } else if e == "sh"@ || e == "bash"@ || e == "zsh"@ || e == "fish"@ {
        Some("Shell"@)
    } else if e == "ps1"@ {
        Some("PowerShell"@)
    } else if e == "html"@ || e == "htm"@ {
        Some("HTML"@)
    } else if e == "css"@ {
        Some("CSS"@)
    } else if e == "scss"@ {
        Some("SCSS"@)
    } else if e == "sass"@ {
        Some("Sass"@)
    } else if e == "less"@ {
        Some("Less"@)
    } else if e == "xml"@ {
        Some("XML"@)
    } else if e == "json"@ {
        Some("JSON"@)
    } else if e == "yaml"@ || e == "yml"@ {
        Some("YAML"@)
    } else if e == "toml"@ {
        Some("TOML"@)
    } else if e == "ini"@ {
        Some("INI"@)
    } else if e == "md"@ {
        Some("Markdown"@)
    } else if e == "sql"@ {
        Some("SQL"@)
    } else if e == "dockerfile"@ {
        Some("Dockerfile"@)
    } else if e == "makefile"@ {
        Some("Makefile"@)
    } else if e == "cmake"@ {
        Some("CMake"@)
    } else if e == "proto"@ {
        Some("Protocol Buffers"@)
    } else if e == "graphql"@ {
        Some("GraphQL"@)
    } else if e == "vue"@ {
        Some("Vue"@)
    } else if e == "svelte"@ {
        Some("Svelte"@)
    } else if e == "tex"@ {
        Some("LaTeX"@)
    } else {
        None
    }
}

fn some_str(s: &str) -> (r: Option<String>)
    ensures
        r is Some,
        r->0@ == s@,
{
    Some(s.to_string())
}

/// The language of a lowercase extension.
pub fn language_for_extension(e: &Vec<char>) -> (r: Option<String>)
    ensures
        crate::tree::opt_view(r) == language_for(e@),
{
    if eq_lit(e, "rs") {
        some_str("Rust")
    } else if eq_lit(e, "py") {
        some_str("Python")
    } else if eq_lit(e, "js") || eq_lit(e, "jsx") {
        some_str("JavaScript")
    } else if eq_lit(e, "ts") || eq_lit(e, "tsx") {
        some_str("TypeScript")
    } else if eq_lit(e, "java") {
        some_str("Java")
    } else if eq_lit(e, "c") {
        some_str("C")
    } else if eq_lit(e, "cpp") || eq_lit(e, "cc") || eq_lit(e, "cxx") {
        some_str("C++")
    } else if eq_lit(e, "h") {
        some_str("C/C++ Header")
    } else if eq_lit(e, "hpp") {
        some_str("C++ Header")
    } else if eq_lit(e, "cs") {
        some_str("C#")
    } else if eq_lit(e, "go") {
        some_str("Go")
    } else if eq_lit(e, "php") {
        some_str("PHP")
    } else if eq_lit(e, "rb") {
        some_str("Ruby")
    } else if eq_lit(e, "pl") {
        some_str("Perl")
    } else if eq_lit(e, "swift") {
        some_str("Swift")
    } else if eq_lit(e, "kt") {
        some_str("Kotlin")
    } else if eq_lit(e, "scala") {
        some_str("Scala")
    } else if eq_lit(e, "hs") {
        some_str("Haskell")
    } else if eq_lit(e, "ml") || eq_lit(e, "mli") {
        some_str("OCaml")
    } else if eq_lit(e, "r") {
        some_str("R")
    } else if eq_lit(e, "m") {
        some_str("Objective-C")
    } else if eq_lit(e, "mm") {
        some_str("Objective-C++")
    } else if eq_lit(e, "sh") || eq_lit(e, "bash") || eq_lit(e, "zsh") || eq_lit(e, "fish") {
        some_str("Shell")
    } else if eq_lit(e, "ps1") {
        some_str("PowerShell")
    } else if eq_lit(e, "html") || eq_lit(e, "htm") {
        some_str("HTML")
    } else if eq_lit(e, "css") {
        some_str("CSS")
    } else if eq_lit(e, "scss") {
        some_str("SCSS")
    } else if eq_lit(e, "sass") {
        some_str("Sass")
    } else if eq_lit(e, "less") {
        some_str("Less")
    } else if eq_lit(e, "xml") {
        some_str("XML")
    } else if eq_lit(e, "json") {
        some_str("JSON")
    } else if eq_lit(e, "yaml") || eq_lit(e, "yml") {
        some_str("YAML")
    } else if eq_lit(e, "toml") {
        some_str("TOML")
    } else if eq_lit(e, "ini") {
        some_str("INI")
    } else if eq_lit(e, "md") {
        some_str("Markdown")
    } else if eq_lit(e, "sql") {
        some_str("SQL")
    } else if eq_lit(e, "dockerfile") {
        some_str("Dockerfile")
    } else if eq_lit(e, "makefile") {
        some_str("Makefile")
    } else if eq_lit(e, "cmake") {
        some_str("CMake")
    } else if eq_lit(e, "proto") {
        some_str("Protocol Buffers")
    } else if eq_lit(e, "graphql") {
        some_str("GraphQL")
    } else if eq_lit(e, "vue") {
        some_str("Vue")
    } else if eq_lit(e, "svelte") {
        some_str("Svelte")
    } else if eq_lit(e, "tex") {
        some_str("LaTeX")
    } else {
        None
    }
}

/// The comment markers of a lowercase extension: the single-line marker, and
/// the markers that open and close a multi-line comment. An empty marker does
/// not apply.
pub open spec fn comment_syntax(e: Seq<char>) -> (Seq<char>, Seq<char>, Seq<char>) {
    if e == "rs"@ || e == "js"@ || e == "ts"@ || e == "jsx"@ || e == "tsx"@ || e == "c"@ || e
        == "cpp"@ || e == "cc"@ || e == "cxx"@ || e == "h"@ || e == "hpp"@ || e == "java"@ || e
        == "scala"@ || e == "kt"@ || e == "cs"@ || e == "go"@ || e == "php"@ || e == "swift"@ {
        ("//"@, "/*"@, "*/"@)
    } else if e == "py"@ || e == "sh"@ || e == "bash"@ || e == "zsh"@ || e == "fish"@ || e
        == "rb"@ || e == "pl"@ || e == "r"@ {
        ("#"@, "\"\"\""@, "\"\"\""@)
    } else if e == "html"@ || e == "xml"@ || e == "svg"@ {
        (""@, "<!--"@, "-->"@)
    } else if e == "css"@ || e == "scss"@ || e == "sass"@ || e == "less"@ {
        (""@, "/*"@, "*/"@)
    } else if e == "sql"@ {
        ("--"@, "/*"@, "*/"@)
    } else if e == "hs"@ {
        ("--"@, "{-"@, "-}"@)
    } else if e == "ml"@ || e == "mli"@ {
        (""@, "(*"@, "*)"@)
    } else {
        (""@, ""@, ""@)
    }
}

/// The comment markers of a lowercase extension.
pub fn comment_markers(e: &Vec<char>) -> (r: (&'static str, &'static str, &'static str))
    ensures
        (r.0@, r.1@, r.2@) == comment_syntax(e@),
{
    if eq_lit(e, "rs") || eq_lit(e, "js") || eq_lit(e, "ts") || eq_lit(e, "jsx") || eq_lit(
        e,
        "tsx",
    ) || eq_lit(e, "c") || eq_lit(e, "cpp") || eq_lit(e, "cc") || eq_lit(e, "cxx") || eq_lit(
        e,
        "h",
    ) || eq_lit(e, "hpp") || eq_lit(e, "java") || eq_lit(e, "scala") || eq_lit(e, "kt")
        || eq_lit(e, "cs") || eq_lit(e, "go") || eq_lit(e, "php") || eq_lit(e, "swift") {
        ("//", "/*", "*/")
    } else if eq_lit(e, "py") || eq_lit(e, "sh") || eq_lit(e, "bash") || eq_lit(e, "zsh")
        || eq_lit(e, "fish") || eq_lit(e, "rb") || eq_lit(e, "pl") || eq_lit(e, "r") {
        ("#", "\"\"\"", "\"\"\"")
    } else if eq_lit(e, "html") || eq_lit(e, "xml") || eq_lit(e, "svg") {
        ("", "<!--", "-->")
    } else if eq_lit(e, "css") || eq_lit(e, "scss") || eq_lit(e, "sass") || eq_lit(e, "less") {
        ("", "/*", "*/")
    } else if eq_lit(e, "sql") {
        ("--", "/*", "*/")
    } else if eq_lit(e, "hs") {
        ("--", "{-", "-}")
    } else if eq_lit(e, "ml") || eq_lit(e, "mli") {
        ("", "(*", "*)")
    } else {
        ("", "", "")
    }
}

/// Whether a lowercase extension names a known binary format (images,
/// archives, executables, office documents).
pub open spec fn binary_extension(e: Seq<char>) -> bool {
    e == "exe"@ || e == "dll"@ || e == "so"@ || e == "dylib"@ || e == "bin"@ || e == "obj"@ || e
        == "o"@ || e == "a"@ || e == "lib"@ || e == "jpg"@ || e == "jpeg"@ || e == "png"@ || e
        == "gif"@ || e == "bmp"@ || e == "ico"@ || e == "svg"@ || e == "mp3"@ || e == "mp4"@ || e
        == "avi"@ || e == "mov"@ || e == "wmv"@ || e == "flv"@ || e == "zip"@ || e == "tar"@ || e
        == "gz"@ || e == "rar"@ || e == "7z"@ || e == "bz2"@ || e == "pdf"@ || e == "doc"@ || e
        == "docx"@ || e == "xls"@ || e == "xlsx"@ || e == "ppt"@ || e == "pptx"@
}

/// Whether a lowercase extension names a known binary format.
pub fn is_binary_extension(e: &Vec<char>) -> (r: bool)
    ensures
        r == binary_extension(e@),
{
    eq_lit(e, "exe") || eq_lit(e, "dll") || eq_lit(e, "so") || eq_lit(e, "dylib") || eq_lit(
        e,
        "bin",
    ) || eq_lit(e, "obj") || eq_lit(e, "o") || eq_lit(e, "a") || eq_lit(e, "lib") || eq_lit(
        e,
        "jpg",
    ) || eq_lit(e, "jpeg") || eq_lit(e, "png") || eq_lit(e, "gif") || eq_lit(e, "bmp")
        || eq_lit(e, "ico") || eq_lit(e, "svg") || eq_lit(e, "mp3") || eq_lit(e, "mp4")
        || eq_lit(e, "avi") || eq_lit(e, "mov") || eq_lit(e, "wmv") || eq_lit(e, "flv")
        || eq_lit(e, "zip") || eq_lit(e, "tar") || eq_lit(e, "gz") || eq_lit(e, "rar")
        || eq_lit(e, "7z") || eq_lit(e, "bz2") || eq_lit(e, "pdf") || eq_lit(e, "doc")
        || eq_lit(e, "docx") || eq_lit(e, "xls") || eq_lit(e, "xlsx") || eq_lit(e, "ppt")
        || eq_lit(e, "pptx")
}

/// The number of bytes that binary detection inspects.
pub const SNIFF_LEN: usize = 512;

/// Whether a zero byte occurs among the first `SNIFF_LEN` bytes of `b`.
pub open spec fn has_zero_prefix(b: Seq<u8>) -> bool {
    exists|i: int| 0 <= i < b.len() && i < SNIFF_LEN && #[trigger] b[i] == 0
}

/// Whether a zero byte occurs among the first `SNIFF_LEN` bytes of `b`.
pub fn has_null_byte(b: &Vec<u8>) -> (r: bool)
    ensures
        r == has_zero_prefix(b@),
{
    let mut i: usize = 0;
    while i < b.len() && i < SNIFF_LEN
        invariant
            i <= b.len(),
            forall|k: int| 0 <= k < i ==> b@[k] != 0,
        decreases b.len() - i,
    {
        if b[i] == 0 {
            return true;
        }
        i = i + 1;
    }
    false
}

/// Whether a file is binary: a zero byte near its start, or a known binary
/// extension.
pub open spec fn is_binary_content(b: Seq<u8>, lower_ext: Option<Seq<char>>) -> bool {
    has_zero_prefix(b) || match lower_ext {
        Some(e) => binary_extension(e),
        None => false,
    }
}

/// Whether a trimmed line is blank.
pub open spec fn is_blank(l: Seq<char>) -> bool {
    trimmed(l).len() == 0
}

/// The number of blank lines.
pub open spec fn blank_count(lines: Seq<Seq<char>>) -> int
    decreases lines.len(),
{
    if lines.len() == 0 {
        0
    } else {
        blank_count(lines.drop_last()) + if is_blank(lines.last()) {
            1int
        } else {
            0int
        }
    }
}

/// One step of the comment scanner on a trimmed, non-blank line `t`: whether
/// the line is a comment line, and whether a multi-line comment is open after
/// it.
pub open spec fn comment_step(
    t: Seq<char>,
    syn: (Seq<char>, Seq<char>, Seq<char>),
    inside: bool,
) -> (bool, bool) {
    let multi = syn.1.len() > 0 && syn.2.len() > 0;
    if multi && inside {
        (true, !seq_contains(t, syn.2))
    } else if multi && seq_contains(t, syn.1) {
        (true, !seq_contains(t, syn.2))
    } else {
        (syn.0.len() > 0 && seq_starts_with(t, syn.0), inside)
    }
}

/// The comment scanner run over `lines`: the number of comment lines and
/// whether a multi-line comment is still open. Blank lines are never comment
/// lines and leave the state as it is.
pub open spec fn comment_scan(lines: Seq<Seq<char>>, syn: (Seq<char>, Seq<char>, Seq<char>)) -> (
    int,
    bool,
)
    decreases lines.len(),
{
    if lines.len() == 0 {
        (0, false)
    } else {
        let prev = comment_scan(lines.drop_last(), syn);
        let t = trimmed(lines.last());
        if t.len() == 0 {
            prev
        } else {
            let step = comment_step(t, syn, prev.1);
            (prev.0 + if step.0 {
                1int
            } else {
                0int
            }, step.1)
        }
    }
}

/// The number of comment lines.
pub open spec fn comment_count(lines: Seq<Seq<char>>, syn: (Seq<char>, Seq<char>, Seq<char>)) -> int {
    comment_scan(lines, syn).0
}

/// No line is both blank and a comment line, so blank and comment lines
/// together never outnumber the lines, and the lines of code (the rest) are
/// never negative.
pub proof fn lemma_line_counts_disjoint(
    lines: Seq<Seq<char>>,
    syn: (Seq<char>, Seq<char>, Seq<char>),
)
    ensures
        0 <= blank_count(lines),
        0 <= comment_count(lines, syn),
        blank_count(lines) + comment_count(lines, syn) <= lines.len(),
    decreases lines.len(),
{
    if lines.len() > 0 {
        lemma_line_counts_disjoint(lines.drop_last(), syn);
    }
}

/// Counts the blank lines and the comment lines of `lines`.
pub fn count_lines(lines: &Vec<Vec<char>>, syn: (&str, &str, &str)) -> (r: (usize, usize))
    ensures
        r.0 == blank_count(char_views(lines@)),
        r.1 == comment_count(char_views(lines@), (syn.0@, syn.1@, syn.2@)),
{
    let single = chars_of(syn.0);
    let start = chars_of(syn.1);
    let end = chars_of(syn.2);
    let ghost sy = (syn.0@, syn.1@, syn.2@);
    let multi = start.len() > 0 && end.len() > 0;
    let mut blank: usize = 0;
    let mut comments: usize = 0;
    let mut inside = false;
    let mut i: usize = 0;
    while i < lines.len()
        invariant
            i <= lines.len(),
            single@ == sy.0,
            start@ == sy.1,
            end@ == sy.2,
            multi == (sy.1.len() > 0 && sy.2.len() > 0),
            blank == blank_count(char_views(lines@).take(i as int)),
            (comments as int, inside) == comment_scan(char_views(lines@).take(i as int), sy),
            blank + comments <= i,
        decreases lines.len() - i,
    {
        let ghost pre = char_views(lines@).take(i as int);
        let ghost cur = char_views(lines@).take(i + 1);
        assert(cur.drop_last() =~= pre);
        assert(cur.last() == lines@[i as int]@);
        let t = trim_chars(&lines[i]);
        if t.len() == 0 {
            blank = blank + 1;
        } else if multi && inside {
            comments = comments + 1;
            inside = !contains(&t, &end);
        } else if multi && contains(&t, &start) {
            comments = comments + 1;
            inside = !contains(&t, &end);
        } else if single.len() > 0 && starts_with(&t, &single) {
            comments = comments + 1;
        }
        i = i + 1;
    }
    assert(char_views(lines@).take(i as int) =~= char_views(lines@));
    (blank, comments)
}

} // verus!
