//! Documentation files: which files are documentation, and what their text
//! shows (word count, badges, a table of contents, section titles).
use vstd::prelude::*;
use crate::config::FoundFile;
use crate::filesystem::FileSystemAnalyzer;
use crate::security::string_views;
use crate::text::{
    char_views, chars_of, is_white, is_white_char, lines_of, lower_of, lowercase,
    seq_contains, seq_starts_with, slice_chars, split_lines, starts_with, str_contains,
    string_from_chars, trim_chars, trimmed,
};

verus! {

/// What `str::to_uppercase` returns for a string: its characters mapped
/// through Unicode's uppercase mapping.
pub uninterp spec fn upper_of(s: Seq<char>) -> Seq<char>;

/// Relies on `str::to_uppercase`: the result depends on the characters alone.
#[verifier::external_body]
fn uppercase(s: &str) -> (r: String)
    ensures
        r@ == upper_of(s@),
{
    s.to_uppercase()
}

/// The number of words of `s`: maximal runs of non-whitespace characters.
pub open spec fn word_count_of(s: Seq<char>) -> int
    decreases s.len(),
{
    if s.len() == 0 {
        0
    } else {
        word_count_of(s.drop_last()) + if !is_white(s.last()) && (s.len() == 1 || is_white(
            s[s.len() - 2],
        )) {
            1int
        } else {
            0int
        }
    }
}

/// The number of `c` characters at the start of `s`.
pub open spec fn leading(s: Seq<char>, c: char) -> int
    decreases s.len(),
{
    if s.len() > 0 && s[0] == c {
        1 + leading(s.drop_first(), c)
    } else {
        0
    }
}

/// The number of whitespace characters at the start of `s`.
pub open spec fn leading_white(s: Seq<char>) -> int
    decreases s.len(),
{
    if s.len() > 0 && is_white(s[0]) {
        1 + leading_white(s.drop_first())
    } else {
        0
    }
}

/// The title of a Markdown header line `t` (already trimmed): one or more
/// `#`, one or more whitespace characters, then the title, which is not
/// empty.
pub open spec fn header_title(t: Seq<char>) -> Option<Seq<char>> {
    let h = leading(t, '#');
    let w = leading_white(t.skip(h));
    if h >= 1 && w >= 1 && h + w < t.len() {
        Some(t.skip(h + w))
    } else {
        None
    }
}

/// The section titles of a text, in order.
pub open spec fn sections_of(lines: Seq<Seq<char>>) -> Seq<Seq<char>>
    decreases lines.len(),
{
    if lines.len() == 0 {
        Seq::empty()
    } else {
        match header_title(trimmed(lines.last())) {
            Some(title) => sections_of(lines.drop_last()).push(title),
            None => sections_of(lines.drop_last()),
        }
    }
}

/// Whether a text shows a badge image.
pub open spec fn shows_badges(c: Seq<char>) -> bool {
    seq_contains(c, "[!["@) || seq_contains(c, "!["@)
}

/// Whether a text has a table of contents.
pub open spec fn shows_toc(c: Seq<char>) -> bool {
    seq_contains(lower_of(c), "table of contents"@) || seq_contains(c, "## Contents"@)
        || seq_contains(c, "# Contents"@)
}

/// A documentation file found in the repository.
pub struct DocumentationFile {
    pub path: String,
    /// The kind of document, such as `readme` or `license`.
    pub file_type: String,
    pub content: String,
    pub word_count: u32,
    pub has_badges: bool,
    pub has_toc: bool,
    /// The titles of its Markdown headers, in order.
    pub sections: Vec<String>,
}

/// The documentation name patterns and their kinds, in scan order.
pub open spec fn doc_patterns() -> Seq<(Seq<char>, Seq<char>)> {
    seq![
        ("README"@, "readme"@),
        ("CHANGELOG"@, "changelog"@),
        ("CONTRIBUTING"@, "contributing"@),
        ("LICENSE"@, "license"@),
        ("CODE_OF_CONDUCT"@, "code_of_conduct"@),
        ("SECURITY"@, "security"@),
        ("INSTALL"@, "install"@),
        ("USAGE"@, "usage"@),
        ("API"@, "api"@),
        ("docs/"@, "documentation"@),
    ]
}

/// Whether a file name matches a documentation pattern: the uppercased name
/// begins with the uppercased pattern.
pub open spec fn doc_name_matches(name: Seq<char>, pattern: Seq<char>) -> bool {
    seq_starts_with(upper_of(name), upper_of(pattern))
}

/// The record of the documentation text `content` of kind `kind`.
pub open spec fn doc_ok(d: DocumentationFile, path: Seq<char>, kind: Seq<char>, content: Seq<char>) -> bool {
    &&& d.path@ == path
    &&& d.file_type@ == kind
    &&& d.content@ == content
    &&& d.word_count == word_count_of(content) as u32
    &&& d.has_badges == shows_badges(content)
    &&& d.has_toc == shows_toc(content)
    &&& string_views(d.sections@) == sections_of(lines_of(content))
}

/// The readable files of `found` that match `p`, with the pattern's kind.
pub open spec fn docs_for_pattern(p: (Seq<char>, Seq<char>), found: Seq<FoundFile>) -> Seq<
    (Seq<char>, Seq<char>, Seq<char>),
>
    decreases found.len(),
{
    if found.len() == 0 {
        Seq::empty()
    } else {
        let prev = docs_for_pattern(p, found.drop_last());
        let f = found.last();
        if doc_name_matches(f.name@, p.0) && f.content is Some {
            prev.push((f.path@, p.1, f.content->0@))
        } else {
            prev
        }
    }
}

/// For each documentation pattern in turn, the readable files that match
/// it, as (path, kind, text).
pub open spec fn docs_of(pats: Seq<(Seq<char>, Seq<char>)>, found: Seq<FoundFile>) -> Seq<
    (Seq<char>, Seq<char>, Seq<char>),
>
    decreases pats.len(),
{
    if pats.len() == 0 {
        Seq::empty()
    } else {
        docs_of(pats.drop_last(), found) + docs_for_pattern(pats.last(), found)
    }
}

fn leading_hashes(s: &Vec<char>) -> (r: usize)
    ensures
        r <= s.len(),
        r == leading(s@, '#'),
{
    let mut k: usize = 0;
    assert(s@.skip(0) =~= s@);
    while k < s.len() && s[k] == '#'
        invariant
            k <= s.len(),
            leading(s@, '#') == k + leading(s@.skip(k as int), '#'),
        decreases s.len() - k,
    {
        assert(s@.skip(k as int).drop_first() =~= s@.skip(k + 1));
        k = k + 1;
    }
    k
}

fn leading_whites(s: &Vec<char>, from: usize) -> (r: usize)
    requires
        from <= s.len(),
    ensures
        from + r <= s.len(),
        r == leading_white(s@.skip(from as int)),
{
    let mut k: usize = from;
    while k < s.len() && is_white_char(s[k])
        invariant
            from <= k <= s.len(),
            leading_white(s@.skip(from as int)) == (k - from) + leading_white(s@.skip(k as int)),
        decreases s.len() - k,
    {
        assert(s@.skip(k as int).drop_first() =~= s@.skip(k + 1));
        k = k + 1;
    }
    k - from
}

impl FileSystemAnalyzer {
    /// The titles of the Markdown headers of a text, in order.
    pub fn extract_markdown_sections(&self, content: &str) -> (r: Vec<String>)
        ensures
            string_views(r@) == sections_of(lines_of(content@)),
    {
        let text = chars_of(content);
        let lines = split_lines(&text);
        let ghost ls = char_views(lines@);
        let mut out: Vec<String> = Vec::new();
        let mut i: usize = 0;
        assert(string_views(out@) =~= sections_of(ls.take(0)));
        while i < lines.len()
            invariant
                i <= lines@.len(),
                ls == char_views(lines@),
                ls == lines_of(content@),
                string_views(out@) == sections_of(ls.take(i as int)),
            decreases lines.len() - i,
        {
            assert(ls.take(i + 1).drop_last() =~= ls.take(i as int));
            assert(ls.take(i + 1).last() == lines@[i as int]@);
            let t = trim_chars(&lines[i]);
            let h = leading_hashes(&t);
            let w = leading_whites(&t, h);
            if h >= 1 && w >= 1 && h + w < t.len() {
                let title = slice_chars(&t, h + w, t.len());
                assert(title@ =~= t@.skip((h + w) as int));
                let ghost pre = string_views(out@);
                out.push(string_from_chars(title.as_slice()));
                assert(string_views(out@) =~= pre.push(title@));
            }
            i = i + 1;
        }
        assert(ls.take(i as int) =~= ls);
        out
    }

    /// The record of a documentation text of kind `kind` at `path`.
    pub fn documentation_record(&self, path: String, kind: String, content: String) -> (r:
        DocumentationFile)
        ensures
            doc_ok(r, path@, kind@, content@),
    {
        let text = chars_of(content.as_str());
        let mut words: usize = 0;
        let mut i: usize = 0;
        while i < text.len()
            invariant
                i <= text@.len(),
                words <= i,
                words == word_count_of(text@.take(i as int)),
            decreases text.len() - i,
        {
            assert(text@.take(i + 1).drop_last() =~= text@.take(i as int));
            if !is_white_char(text[i]) && (i == 0 || is_white_char(text[i - 1])) {
                words = words + 1;
            }
            i = i + 1;
        }
        assert(text@.take(i as int) =~= text@);
        let has_badges = str_contains(content.as_str(), "[![") || str_contains(content.as_str(), "![");
        let lower = lowercase(content.as_str());
        let has_toc = str_contains(lower.as_str(), "table of contents") || str_contains(
            content.as_str(),
            "## Contents",
        ) || str_contains(content.as_str(), "# Contents");
        let sections = self.extract_markdown_sections(content.as_str());
        DocumentationFile {
            path,
            file_type: kind,
            content,
            word_count: words as u32,
            has_badges,
            has_toc,
            sections,
        }
    }

    /// Whether a file name matches one of the documentation patterns.
    pub fn is_documentation_candidate(&self, name: &str) -> (r: bool)
        ensures
            r == exists|i: int|
                0 <= i < doc_patterns().len() && doc_name_matches(name@, #[trigger] doc_patterns()[i].0),
    {
        let pats = vec![
            "README",
            "CHANGELOG",
            "CONTRIBUTING",
            "LICENSE",
            "CODE_OF_CONDUCT",
            "SECURITY",
            "INSTALL",
            "USAGE",
            "API",
            "docs/",
        ];
        let ghost pv = pats@.map_values(|p: &'static str| p@);
        assert(pv =~= doc_patterns().map_values(|p: (Seq<char>, Seq<char>)| p.0));
        assert(pats@.len() == doc_patterns().len());
        let up = chars_of(uppercase(name).as_str());
        let mut i: usize = 0;
        while i < pats.len()
            invariant
                i <= pats@.len(),
                pv == pats@.map_values(|p: &'static str| p@),
                pv == doc_patterns().map_values(|p: (Seq<char>, Seq<char>)| p.0),
                pats@.len() == doc_patterns().len(),
                up@ == upper_of(name@),
                forall|k: int| 0 <= k < i ==> !doc_name_matches(name@, #[trigger] doc_patterns()[k].0),
            decreases pats.len() - i,
        {
            assert(pv[i as int] == doc_patterns()[i as int].0);
            let p = chars_of(uppercase(pats[i]).as_str());
            if starts_with(&up, &p) {
                return true;
            }
            i = i + 1;
        }
        false
    }

    /// The documentation files among `found`: for each documentation
    /// pattern in turn, every readable file whose uppercased name begins
    /// with the uppercased pattern, in the order found.
    pub fn documentation_from(&self, found: &Vec<FoundFile>) -> (r: Vec<DocumentationFile>)
        ensures
            r@.len() == docs_of(doc_patterns(), found@).len(),
            forall|i: int|
                0 <= i < r@.len() ==> doc_ok(
                    #[trigger] r@[i],
                    docs_of(doc_patterns(), found@)[i].0,
                    docs_of(doc_patterns(), found@)[i].1,
                    docs_of(doc_patterns(), found@)[i].2,
                ),
    {
        let pats = vec![
            ("README", "readme"),
            ("CHANGELOG", "changelog"),
            ("CONTRIBUTING", "contributing"),
            ("LICENSE", "license"),
            ("CODE_OF_CONDUCT", "code_of_conduct"),
            ("SECURITY", "security"),
            ("INSTALL", "install"),
            ("USAGE", "usage"),
            ("API", "api"),
            ("docs/", "documentation"),
        ];
        let ghost pv = pats@.map_values(|p: (&'static str, &'static str)| (p.0@, p.1@));
        assert(pv =~= doc_patterns());
        let mut r: Vec<DocumentationFile> = Vec::new();
        let mut i: usize = 0;
        while i < pats.len()
            invariant
                i <= pats@.len(),
                pv == pats@.map_values(|p: (&'static str, &'static str)| (p.0@, p.1@)),
                pv == doc_patterns(),
                r@.len() == docs_of(pv.take(i as int), found@).len(),
                forall|k: int|
                    0 <= k < r@.len() ==> doc_ok(
                        #[trigger] r@[k],
                        docs_of(pv.take(i as int), found@)[k].0,
                        docs_of(pv.take(i as int), found@)[k].1,
                        docs_of(pv.take(i as int), found@)[k].2,
                    ),
            decreases pats.len() - i,
        {
            assert(pv.take(i + 1).drop_last() =~= pv.take(i as int));
            assert(pv.take(i + 1).last() == pv[i as int]);
            let (pattern, kind) = pats[i];
            let up = chars_of(uppercase(pattern).as_str());
            let ghost before = docs_of(pv.take(i as int), found@);
            let ghost base_len = r@.len();
            let mut j: usize = 0;
            assert(docs_for_pattern(pv[i as int], found@.take(0)) =~= Seq::empty());
            while j < found.len()
                invariant
                    j <= found@.len(),
                    i < pv.len(),
                    up@ == upper_of(pv[i as int].0),
                    kind@ == pv[i as int].1,
                    base_len == before.len(),
                    r@.len() == base_len + docs_for_pattern(pv[i as int], found@.take(j as int)).len(),
                    forall|k: int|
                        0 <= k < base_len ==> doc_ok(
                            #[trigger] r@[k],
                            before[k].0,
                            before[k].1,
                            before[k].2,
                        ),
                    forall|k: int|
                        base_len <= k < r@.len() ==> doc_ok(
                            #[trigger] r@[k],
                            docs_for_pattern(pv[i as int], found@.take(j as int))[k - base_len].0,
                            docs_for_pattern(pv[i as int], found@.take(j as int))[k - base_len].1,
                            docs_for_pattern(pv[i as int], found@.take(j as int))[k - base_len].2,
                        ),
                decreases found.len() - j,
            {
                assert(found@.take(j + 1).drop_last() =~= found@.take(j as int));
                assert(found@.take(j + 1).last() == found@[j as int]);
                let f = &found[j];
                let name_up = chars_of(uppercase(f.name.as_str()).as_str());
                if starts_with(&name_up, &up) {
                    match &f.content {
                        Some(c) => {
                            let d = self.documentation_record(f.path.clone(), kind.to_string(), c.clone());
                            r.push(d);
                        },
                        None => {},
                    }
                }
                j = j + 1;
            }
            assert(found@.take(j as int) =~= found@);
            assert forall|k: int| 0 <= k < r@.len() implies doc_ok(
                #[trigger] r@[k],
                docs_of(pv.take(i + 1), found@)[k].0,
                docs_of(pv.take(i + 1), found@)[k].1,
                docs_of(pv.take(i + 1), found@)[k].2,
            ) by {
                let all = docs_of(pv.take(i + 1), found@);
                assert(all == before + docs_for_pattern(pv[i as int], found@));
                if k >= base_len {
                    assert(all[k] == docs_for_pattern(pv[i as int], found@)[k - base_len]);
                } else {
                    assert(all[k] == before[k]);
                }
            }
            i = i + 1;
        }
        assert(pv.take(i as int) =~= pv);
        r
    }
}

} // verus!
