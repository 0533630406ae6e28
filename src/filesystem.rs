//! The file-system analyser: which directory entries the walk skips, and how
//! one file's bytes become a `FileInfo`.
use vstd::prelude::*;
use crate::classify::{
    blank_count, comment_count, comment_markers, comment_syntax, count_lines, extension_of,
    file_extension, has_null_byte, is_binary_content, is_binary_extension, language_for,
    language_for_extension,
};
use crate::text::{
    char_views, chars_of, join_first_lines, join_lines, lines_of, lower_of, lowercase,
    seq_starts_with, split_lines, starts_with, string_from_chars,
};
use crate::tree::{DirectoryInfo, FileInfo, FileInfoView, opt_view, views};

verus! {

/// The lowercase hexadecimal MD5 digest of some bytes.
pub uninterp spec fn md5_hex_of(b: Seq<u8>) -> Seq<char>;

/// The MIME type that `mime_guess` takes first for a file name, if any.
pub uninterp spec fn mime_of(name: Seq<char>) -> Option<Seq<char>>;

/// The text that UTF-8 decoding with replacement gives for some bytes (a
/// byte-order mark may select another encoding), and the name of the
/// encoding used.
pub uninterp spec fn utf8_decoded(b: Seq<u8>) -> (Seq<char>, Seq<char>);

/// Relies on `md5::compute` and the digest's `LowerHex` format: the digest
/// depends on the bytes alone.
#[verifier::external_body]
fn md5_hex(b: &[u8]) -> (r: String)
    ensures
        r@ == md5_hex_of(b@),
{
    format!("{:x}", md5::compute(b))
}

/// Relies on `mime_guess::from_path(..).first()`: a guess from the file
/// name's extension alone.
#[verifier::external_body]
fn guess_mime(name: &str) -> (r: Option<String>)
    ensures
        opt_view(r) == mime_of(name@),
{
    mime_guess::from_path(name).first().map(|m| m.to_string())
}

/// Relies on `encoding_rs::UTF_8.decode`: malformed sequences become
/// U+FFFD, and the encoding's name is returned beside the text.
#[verifier::external_body]
fn decode_utf8(b: &[u8]) -> (r: (Vec<char>, String))
    ensures
        (r.0@, r.1@) == utf8_decoded(b@),
{
    let (text, encoding, _) = encoding_rs::UTF_8.decode(b);
    (text.chars().collect(), encoding.name().to_string())
}

/// `p` without its trailing `*` characters.
pub open spec fn strip_stars(p: Seq<char>) -> Seq<char>
    decreases p.len(),
{
    if p.len() > 0 && p.last() == '*' {
        strip_stars(p.drop_last())
    } else {
        p
    }
}

/// The names that the walk skips by default.
pub open spec fn default_ignore_patterns() -> Seq<Seq<char>> {
    seq![
        ".git"@,
        "node_modules"@,
        "target"@,
        "build"@,
        "dist"@,
        "__pycache__"@,
        ".pytest_cache"@,
        ".venv"@,
        "venv"@,
        ".env"@,
        "*.log"@,
        "*.tmp"@,
        "*.cache"@,
    ]
}

/// The lowercased extension of a file name.
pub open spec fn lower_ext_of(name: Seq<char>) -> Option<Seq<char>> {
    match extension_of(name) {
        Some(e) => Some(lower_of(e)),
        None => None,
    }
}

/// The preview of a text: its first `k` lines joined by line feeds; none for
/// a text without lines.
pub open spec fn preview_of(lines: Seq<Seq<char>>, k: int) -> Option<Seq<char>> {
    if lines.len() == 0 || k <= 0 {
        None
    } else if k < lines.len() {
        Some(join_lines(lines.take(k)))
    } else {
        Some(join_lines(lines))
    }
}

/// The MIME type recorded for a file too large to inspect.
pub open spec fn octet_stream() -> Seq<char> {
    "application/octet-stream"@
}

/// The record of one file, given the results of the outside calls made on
/// it: its lowercased extension, its decoded text and encoding name, its
/// digest and its guessed MIME type.
///
/// A file over `max_size` bytes (or whose text has more lines than a `u32`
/// counts) is recorded as binary without inspection. Otherwise it is binary
/// if a zero byte occurs near its start or its extension is a binary one; a
/// text file gets line counts, its encoding and a preview.
pub open spec fn file_record(
    max_size: u64,
    max_preview: usize,
    path: Seq<char>,
    name: Seq<char>,
    size: u64,
    content: Seq<u8>,
    lower_ext: Option<Seq<char>>,
    text: Seq<char>,
    encoding: Seq<char>,
    hash: Seq<char>,
    mime: Option<Seq<char>>,
) -> FileInfoView {
    let binary = is_binary_content(content, lower_ext);
    let lines = lines_of(text);
    let language = match lower_ext {
        Some(e) => language_for(e),
        None => None,
    };
    if size > max_size || (!binary && lines.len() > u32::MAX) {
        FileInfoView {
            path,
            name,
            extension: extension_of(name),
            size,
            lines_of_code: None,
            blank_lines: None,
            comment_lines: None,
            language: None,
            mime_type: Some(octet_stream()),
            is_binary: true,
            is_text: false,
            encoding: None,
            hash,
            content_preview: None,
        }
    } else if binary {
        FileInfoView {
            path,
            name,
            extension: extension_of(name),
            size,
            lines_of_code: None,
            blank_lines: None,
            comment_lines: None,
            language,
            mime_type: mime,
            is_binary: true,
            is_text: false,
            encoding: None,
            hash,
            content_preview: None,
        }
    } else {
        let syn = comment_syntax(
            match lower_ext {
                Some(e) => e,
                None => Seq::empty(),
            },
        );
        let blank = blank_count(lines);
        let comments = comment_count(lines, syn);
        FileInfoView {
            path,
            name,
            extension: extension_of(name),
            size,
            lines_of_code: Some((lines.len() - blank - comments) as u32),
            blank_lines: Some(blank as u32),
            comment_lines: Some(comments as u32),
            language,
            mime_type: mime,
            is_binary: false,
            is_text: true,
            encoding: Some(encoding),
            hash,
            content_preview: preview_of(lines, max_preview as int),
        }
    }
}

/// Walks a directory tree and classifies its files.
pub struct FileSystemAnalyzer {
    /// Entry names to skip; a trailing `*` is dropped and the rest matched as
    /// a prefix.
    pub ignore_patterns: Vec<String>,
    /// Files larger than this are not inspected.
    pub max_file_size: u64,
    /// How many lines a preview holds.
    pub max_preview_lines: usize,
}

/// What a character-vector option holds.
pub open spec fn opt_chars(o: Option<Vec<char>>) -> Option<Seq<char>> {
    match o {
        Some(c) => Some(c@),
        None => None,
    }
}

fn opt_string(v: Option<Vec<char>>) -> (r: Option<String>)
    ensures
        opt_view(r) == opt_chars(v),
{
    match v {
        Some(c) => Some(string_from_chars(c.as_slice())),
        None => None,
    }
}

impl FileSystemAnalyzer {
    /// An analyser with the default ignore list, a 1,000,000-byte inspection
    /// cap and 50-line previews.
    pub fn new() -> (r: Self)
        ensures
            r.ignore_patterns@.map_values(|p: String| p@) == default_ignore_patterns(),
            r.max_file_size == 1_000_000,
            r.max_preview_lines == 50,
    {
        let ignore_patterns = vec![
            ".git".to_string(),
            "node_modules".to_string(),
            "target".to_string(),
            "build".to_string(),
            "dist".to_string(),
            "__pycache__".to_string(),
            ".pytest_cache".to_string(),
            ".venv".to_string(),
            "venv".to_string(),
            ".env".to_string(),
            "*.log".to_string(),
            "*.tmp".to_string(),
            "*.cache".to_string(),
        ];
        assert(ignore_patterns@.map_values(|p: String| p@) =~= default_ignore_patterns());
        FileSystemAnalyzer { ignore_patterns, max_file_size: 1_000_000, max_preview_lines: 50 }
    }

    /// Whether the walk skips an entry of this name: it begins with one of
    /// the ignore patterns, trailing `*` removed.
    pub fn is_ignored(&self, name: &str) -> (r: bool)
        ensures
            r == exists|i: int|
                0 <= i < self.ignore_patterns@.len() && seq_starts_with(
                    name@,
                    strip_stars(#[trigger] self.ignore_patterns@[i]@),
                ),
    {
        let n = chars_of(name);
        let mut i: usize = 0;
        while i < self.ignore_patterns.len()
            invariant
                i <= self.ignore_patterns@.len(),
                n@ == name@,
                forall|k: int|
                    0 <= k < i ==> !seq_starts_with(
                        name@,
                        strip_stars(#[trigger] self.ignore_patterns@[k]@),
                    ),
            decreases self.ignore_patterns.len() - i,
        {
            let p = chars_of(self.ignore_patterns[i].as_str());
            let mut e: usize = p.len();
            assert(p@.take(e as int) =~= p@);
            while e > 0 && p[e - 1] == '*'
                invariant
                    e <= p.len(),
                    strip_stars(p@) == strip_stars(p@.take(e as int)),
                decreases e,
            {
                assert(p@.take(e as int).drop_last() =~= p@.take(e - 1));
                e = e - 1;
            }
            assert(p@.take(e as int) =~= p@.subrange(0, e as int));
            let stripped = crate::text::slice_chars(&p, 0, e);
            if starts_with(&n, &stripped) {
                return true;
            }
            i = i + 1;
        }
        false
    }

    /// The record of the directory listed by `listing`: ignored entries are
    /// left out, files and subdirectories are kept in listing order, and the
    /// total size adds up the sizes below. None when a total or a count does
    /// not fit its counter.
    pub fn analyze_directory(&self, listing: &DirListing) -> (r: Option<DirectoryInfo>)
        ensures
            r is Some <==> listing_fits(*listing, self.ignore_patterns@),
            r is Some ==> {
                &&& r->0.wf()
                &&& mirrors(r->0, *listing, self.ignore_patterns@)
                &&& r->0.total_size == listing_total(*listing, self.ignore_patterns@)
            },
        decreases listing,
    {
        let ghost pats = self.ignore_patterns@;
        let ghost es = listing.entries@;
        let mut d = DirectoryInfo::new(listing.path.clone(), listing.name.clone());
        let mut i: usize = 0;
        assert(es.take(0) =~= Seq::<DirEntry>::empty());
        assert(views(d.files@) =~= Seq::<FileInfoView>::empty());
        while i < listing.entries.len()
            invariant
                i <= es.len(),
                es == listing.entries@,
                pats == self.ignore_patterns@,
                d.wf(),
                d.path@ == listing.path@,
                d.name@ == listing.name@,
                views(d.files@) == kept_files(es.take(i as int), pats),
                d.subdirectories@.len() == kept_dirs(es.take(i as int), pats).len(),
                forall|k: int|
                    0 <= k < d.subdirectories@.len() ==> {
                        let j = #[trigger] kept_dirs(es.take(i as int), pats)[k];
                        0 <= j < es.len() && match es[j] {
                            DirEntry::Dir(sub) => mirrors(d.subdirectories@[k], sub, pats),
                            DirEntry::File(_) => false,
                        }
                    },
                d.total_size == entries_total(es.take(i as int), pats),
                forall|j: int|
                    0 <= j < i ==> match #[trigger] es[j] {
                        DirEntry::Dir(sub) => !ignored_by(pats, sub.name@) ==> listing_fits(sub, pats),
                        DirEntry::File(_) => true,
                    },
            decreases es.len() - i,
        {
            let ghost pre = es.take(i as int);
            let ghost cur = es.take(i + 1);
            assert(cur.drop_last() =~= pre);
            assert(cur.last() == es[i as int]);
            proof {
                lemma_entries_total_prefix(es, pats, i + 1);
                lemma_kept_len_prefix(es, pats, i + 1);
                lemma_kept_dirs_prefix(cur, pats, i as int);
                assert(cur.take(i as int) =~= pre);
            }
            let ghost old_subs = d.subdirectories@;
            match &listing.entries[i] {
                DirEntry::File(f) => {
                    if !self.is_ignored(f.name.as_str()) {
                        if d.total_size > u64::MAX - f.size || d.file_count == u32::MAX {
                            proof {
                                assert(d.file_count == d.files@.len());
                                assert(views(d.files@).len() == d.files@.len());
                            }
                            return None;
                        }
                        d.add_file(f.clone());
                        assert(views(d.files@) =~= kept_files(cur, pats));
                    }
                },
                DirEntry::Dir(sub) => {
                    if !self.is_ignored(sub.name.as_str()) {
                        let sd = match self.analyze_directory(sub) {
                            Some(sd) => sd,
                            None => {
                                return None;
                            },
                        };
                        if d.total_size > u64::MAX - sd.total_size || d.subdirectory_count
                            == u32::MAX {
                            return None;
                        }
                        d.add_subdirectory(sd);
                        assert forall|k: int| 0 <= k < d.subdirectories@.len() implies {
                            let j = #[trigger] kept_dirs(cur, pats)[k];
                            0 <= j < es.len() && match es[j] {
                                DirEntry::Dir(sub) => mirrors(d.subdirectories@[k], sub, pats),
                                DirEntry::File(_) => false,
                            }
                        } by {
                            if k < old_subs.len() {
                                assert(d.subdirectories@[k] == old_subs[k]);
                                assert(kept_dirs(cur, pats)[k] == kept_dirs(pre, pats)[k]);
                            }
                        }
                    }
                },
            }
            i = i + 1;
        }
        assert(es.take(i as int) =~= es);
        assert(d.file_count == d.files@.len());
        assert(views(d.files@).len() == d.files@.len());
        Some(d)
    }

    /// Builds the record of a file from its bytes and the results of the
    /// outside calls made on them (see `file_record`).
    pub fn build_file_info(
        &self,
        path: String,
        name: String,
        size: u64,
        content: &Vec<u8>,
        lower_ext: Option<Vec<char>>,
        text: &Vec<char>,
        encoding: String,
        hash: String,
        mime: Option<String>,
    ) -> (r: FileInfo)
        ensures
            r@ == file_record(
                self.max_file_size,
                self.max_preview_lines,
                path@,
                name@,
                size,
                content@,
                opt_chars(lower_ext),
                text@,
                encoding@,
                hash@,
                opt_view(mime),
            ),
    {
        let name_chars = chars_of(name.as_str());
        let extension = opt_string(file_extension(&name_chars));
        let binary = has_null_byte(content) || match &lower_ext {
            Some(e) => is_binary_extension(e),
            None => false,
        };
        let lines = if binary {
            Vec::new()
        } else {
            split_lines(text)
        };
        if size > self.max_file_size || (!binary && lines.len() > u32::MAX as usize) {
            return FileInfo {
                path,
                name,
                extension,
                size,
                lines_of_code: None,
                blank_lines: None,
                comment_lines: None,
                language: None,
                mime_type: Some("application/octet-stream".to_string()),
                is_binary: true,
                is_text: false,
                encoding: None,
                hash,
                content_preview: None,
            };
        }
        let language = match &lower_ext {
            Some(e) => language_for_extension(e),
            None => None,
        };
        if binary {
            return FileInfo {
                path,
                name,
                extension,
                size,
                lines_of_code: None,
                blank_lines: None,
                comment_lines: None,
                language,
                mime_type: mime,
                is_binary: true,
                is_text: false,
                encoding: None,
                hash,
                content_preview: None,
            };
        }
        let syn = match &lower_ext {
            Some(e) => comment_markers(e),
            None => comment_markers(&Vec::new()),
        };
        let (blank, comments) = count_lines(&lines, syn);
        proof {
            crate::classify::lemma_line_counts_disjoint(char_views(lines@), (syn.0@, syn.1@, syn.2@));
        }
        let total = lines.len();
        let k = if self.max_preview_lines < total {
            self.max_preview_lines
        } else {
            total
        };
        let content_preview = if total == 0 || self.max_preview_lines == 0 {
            None
        } else {
            let joined = join_first_lines(&lines, k);
            proof {
                if k == total {
                    assert(char_views(lines@).take(k as int) =~= char_views(lines@));
                }
            }
            Some(string_from_chars(joined.as_slice()))
        };
        FileInfo {
            path,
            name,
            extension,
            size,
            lines_of_code: Some((total - blank - comments) as u32),
            blank_lines: Some(blank as u32),
            comment_lines: Some(comments as u32),
            language,
            mime_type: mime,
            is_binary: false,
            is_text: true,
            encoding: Some(encoding),
            hash,
            content_preview,
        }
    }

    /// Classifies one file from its relative path, its name, its size as the
    /// file system reports it, and its bytes. The digest is always taken;
    /// the text is decoded only when the file is inspected as text.
    pub fn classify_file(&self, path: String, name: String, size: u64, content: &Vec<u8>) -> (r:
        FileInfo)
        ensures
            r@ == file_record(
                self.max_file_size,
                self.max_preview_lines,
                path@,
                name@,
                size,
                content@,
                lower_ext_of(name@),
                utf8_decoded(content@).0,
                utf8_decoded(content@).1,
                md5_hex_of(content@),
                mime_of(name@),
            ),
    {
        let hash = md5_hex(content.as_slice());
        let name_chars = chars_of(name.as_str());
        let lower_ext = match file_extension(&name_chars) {
            Some(e) => {
                let s = string_from_chars(e.as_slice());
                let l = lowercase(s.as_str());
                Some(chars_of(l.as_str()))
            },
            None => None,
        };
        let inspect = size <= self.max_file_size && !(has_null_byte(content) || match &lower_ext {
            Some(e) => is_binary_extension(e),
            None => false,
        });
        let mime = if size <= self.max_file_size {
            guess_mime(name.as_str())
        } else {
            None
        };
        let (text, encoding) = if inspect {
            decode_utf8(content.as_slice())
        } else {
            (Vec::new(), String::new())
        };
        let r = self.build_file_info(path, name, size, content, lower_ext, &text, encoding, hash, mime);
        r
    }
}

/// One entry of a directory as read from disk: a classified file, or a
/// subdirectory with its own entries.
pub enum DirEntry {
    File(FileInfo),
    Dir(DirListing),
}

/// The entries of one directory, in enumeration order.
pub struct DirListing {
    pub path: String,
    pub name: String,
    pub entries: Vec<DirEntry>,
}

/// The name of an entry.
pub open spec fn entry_name(e: DirEntry) -> Seq<char> {
    match e {
        DirEntry::File(f) => f.name@,
        DirEntry::Dir(d) => d.name@,
    }
}

/// Whether `name` begins with one of `pats`, trailing `*` removed.
pub open spec fn ignored_by(pats: Seq<String>, name: Seq<char>) -> bool {
    exists|i: int| 0 <= i < pats.len() && seq_starts_with(name, strip_stars(#[trigger] pats[i]@))
}

/// The files among `es` that are not ignored, in order.
pub open spec fn kept_files(es: Seq<DirEntry>, pats: Seq<String>) -> Seq<FileInfoView>
    decreases es.len(),
{
    if es.len() == 0 {
        Seq::empty()
    } else {
        let prev = kept_files(es.drop_last(), pats);
        match es.last() {
            DirEntry::File(f) => if ignored_by(pats, f.name@) {
                prev
            } else {
                prev.push(f@)
            },
            DirEntry::Dir(_) => prev,
        }
    }
}

/// The positions of the subdirectories among `es` that are not ignored.
pub open spec fn kept_dirs(es: Seq<DirEntry>, pats: Seq<String>) -> Seq<int>
    decreases es.len(),
{
    if es.len() == 0 {
        Seq::empty()
    } else {
        let prev = kept_dirs(es.drop_last(), pats);
        match es.last() {
            DirEntry::Dir(d) => if ignored_by(pats, d.name@) {
                prev
            } else {
                prev.push(es.len() - 1)
            },
            DirEntry::File(_) => prev,
        }
    }
}

/// The bytes below a listing: its kept files and its kept subdirectories.
pub open spec fn listing_total(l: DirListing, pats: Seq<String>) -> int
    decreases l,
{
    entries_total(l.entries@, pats)
}

/// The bytes below the kept entries of `es`.
pub open spec fn entries_total(es: Seq<DirEntry>, pats: Seq<String>) -> int
    decreases es,
{
    if es.len() == 0 {
        0
    } else {
        entries_total(es.drop_last(), pats) + if ignored_by(pats, entry_name(es.last())) {
            0
        } else {
            match es.last() {
                DirEntry::File(f) => f.size as int,
                DirEntry::Dir(d) => listing_total(d, pats),
            }
        }
    }
}

/// Whether the totals and counts of every level below `l` fit their
/// counters.
pub open spec fn listing_fits(l: DirListing, pats: Seq<String>) -> bool
    decreases l,
{
    &&& entries_total(l.entries@, pats) <= u64::MAX
    &&& kept_files(l.entries@, pats).len() <= u32::MAX
    &&& kept_dirs(l.entries@, pats).len() <= u32::MAX
    &&& forall|j: int|
        0 <= j < l.entries@.len() ==> match #[trigger] l.entries@[j] {
            DirEntry::Dir(d) => !ignored_by(pats, d.name@) ==> listing_fits(d, pats),
            DirEntry::File(_) => true,
        }
}

/// Whether `d` records the listing `l`: its kept files in order, and for each
/// kept subdirectory in order a record of it.
pub open spec fn mirrors(d: DirectoryInfo, l: DirListing, pats: Seq<String>) -> bool
    decreases l,
{
    &&& d.path@ == l.path@
    &&& d.name@ == l.name@
    &&& views(d.files@) == kept_files(l.entries@, pats)
    &&& d.subdirectories@.len() == kept_dirs(l.entries@, pats).len()
    &&& forall|i: int|
        0 <= i < d.subdirectories@.len() ==> {
            let j = #[trigger] kept_dirs(l.entries@, pats)[i];
            0 <= j < l.entries@.len() && match l.entries@[j] {
                DirEntry::Dir(sub) => mirrors(d.subdirectories@[i], sub, pats),
                DirEntry::File(_) => false,
            }
        }
}

proof fn lemma_entries_total_nonneg(es: Seq<DirEntry>, pats: Seq<String>)
    ensures
        entries_total(es, pats) >= 0,
    decreases es,
{
    if es.len() > 0 {
        lemma_entries_total_nonneg(es.drop_last(), pats);
        match es.last() {
            DirEntry::Dir(d) => {
                lemma_entries_total_nonneg(d.entries@, pats);
                assert(listing_total(d, pats) == entries_total(d.entries@, pats));
            },
            DirEntry::File(_) => {},
        }
    }
}

proof fn lemma_entries_total_prefix(es: Seq<DirEntry>, pats: Seq<String>, k: int)
    requires
        0 <= k <= es.len(),
    ensures
        entries_total(es.take(k), pats) <= entries_total(es, pats),
    decreases es.len(),
{
    if k < es.len() {
        assert(es.drop_last().take(k) =~= es.take(k));
        lemma_entries_total_prefix(es.drop_last(), pats, k);
        match es.last() {
            DirEntry::Dir(d) => {
                lemma_entries_total_nonneg(d.entries@, pats);
                assert(listing_total(d, pats) == entries_total(d.entries@, pats));
            },
            DirEntry::File(_) => {},
        }
    } else {
        assert(es.take(k) =~= es);
    }
}

proof fn lemma_kept_len_prefix(es: Seq<DirEntry>, pats: Seq<String>, k: int)
    requires
        0 <= k <= es.len(),
    ensures
        kept_files(es.take(k), pats).len() <= kept_files(es, pats).len(),
        kept_dirs(es.take(k), pats).len() <= kept_dirs(es, pats).len(),
    decreases es.len(),
{
    if k < es.len() {
        assert(es.drop_last().take(k) =~= es.take(k));
        lemma_kept_len_prefix(es.drop_last(), pats, k);
    } else {
        assert(es.take(k) =~= es);
    }
}

proof fn lemma_kept_dirs_prefix(es: Seq<DirEntry>, pats: Seq<String>, k: int)
    requires
        0 <= k <= es.len(),
    ensures
        kept_dirs(es.take(k), pats).len() <= kept_dirs(es, pats).len(),
        forall|i: int|
            0 <= i < kept_dirs(es.take(k), pats).len() ==> kept_dirs(es.take(k), pats)[i]
                == kept_dirs(es, pats)[i],
        forall|i: int|
            0 <= i < kept_dirs(es, pats).len() ==> 0 <= #[trigger] kept_dirs(es, pats)[i] < es.len(),
    decreases es.len(),
{
    if es.len() > 0 {
        if k < es.len() {
            assert(es.drop_last().take(k) =~= es.take(k));
        } else {
            assert(es.take(k) =~= es);
        }
        lemma_kept_dirs_prefix(es.drop_last(), pats, if k < es.len() {
            k
        } else {
            es.len() - 1
        });
    }
}

/// For a text record, lines of code, blank lines and comment lines add up to
/// the number of lines of the text, each count being a true part of it.
pub proof fn lemma_text_record_line_counts(
    max_size: u64,
    max_preview: usize,
    path: Seq<char>,
    name: Seq<char>,
    size: u64,
    content: Seq<u8>,
    lower_ext: Option<Seq<char>>,
    text: Seq<char>,
    encoding: Seq<char>,
    hash: Seq<char>,
    mime: Option<Seq<char>>,
)
    ensures
        ({
            let r = file_record(
                max_size,
                max_preview,
                path,
                name,
                size,
                content,
                lower_ext,
                text,
                encoding,
                hash,
                mime,
            );
            r.is_text ==> {
                &&& r.lines_of_code is Some
                &&& r.blank_lines is Some
                &&& r.comment_lines is Some
                &&& r.lines_of_code->0 + r.blank_lines->0 + r.comment_lines->0 == lines_of(
                    text,
                ).len()
            }
        }),
{
    let syn = comment_syntax(
        match lower_ext {
            Some(e) => e,
            None => Seq::empty(),
        },
    );
    crate::classify::lemma_line_counts_disjoint(lines_of(text), syn);
}

/// Classifying the same bytes under the same name again gives the same
/// binary flag and the same digest, whatever the path and the MIME guess;
/// the digest is always that of the bytes.
pub proof fn lemma_classification_repeatable(
    max_size: u64,
    max_preview: usize,
    name: Seq<char>,
    size: u64,
    content: Seq<u8>,
    path1: Seq<char>,
    path2: Seq<char>,
    mime1: Option<Seq<char>>,
    mime2: Option<Seq<char>>,
)
    ensures
        ({
            let r1 = file_record(
                max_size,
                max_preview,
                path1,
                name,
                size,
                content,
                lower_ext_of(name),
                utf8_decoded(content).0,
                utf8_decoded(content).1,
                md5_hex_of(content),
                mime1,
            );
            let r2 = file_record(
                max_size,
                max_preview,
                path2,
                name,
                size,
                content,
                lower_ext_of(name),
                utf8_decoded(content).0,
                utf8_decoded(content).1,
                md5_hex_of(content),
                mime2,
            );
            &&& r1.is_binary == r2.is_binary
            &&& r1.is_text == r2.is_text
            &&& r1.hash == r2.hash
            &&& r1.hash == md5_hex_of(content)
        }),
{
}

} // verus!
