//! Code metrics over a directory tree: totals over text files, per-language
//! statistics, and the largest and most complex files.
use vstd::prelude::*;
use crate::ranking::{rank_desc, top_indices, lemma_top_indices, descending};
use crate::tree::{DirectoryInfo, FileInfo, FileInfoView, collect_files, flatten, views};

verus! {

/// A quantity that the metrics sum over files.
pub enum Measure {
    Files,
    Bytes,
    Code,
    Blank,
    Comment,
    Lines,
}

/// An optional count, absent counting as zero.
pub open spec fn or_zero(o: Option<u32>) -> int {
    match o {
        Some(v) => v as int,
        None => 0,
    }
}

/// What one file contributes to a measure.
pub open spec fn measure(f: FileInfoView, m: Measure) -> int {
    match m {
        Measure::Files => 1,
        Measure::Bytes => f.size as int,
        Measure::Code => or_zero(f.lines_of_code),
        Measure::Blank => or_zero(f.blank_lines),
        Measure::Comment => or_zero(f.comment_lines),
        Measure::Lines => or_zero(f.lines_of_code) + or_zero(f.blank_lines) + or_zero(
            f.comment_lines,
        ),
    }
}

/// A measure summed over the text files of `fs`.
pub open spec fn text_sum(fs: Seq<FileInfoView>, m: Measure) -> int
    decreases fs.len(),
{
    if fs.len() == 0 {
        0
    } else {
        text_sum(fs.drop_last(), m) + if fs.last().is_text {
            measure(fs.last(), m)
        } else {
            0
        }
    }
}

/// Whether `f` is a text file of language `l`.
pub open spec fn of_language(f: FileInfoView, l: Seq<char>) -> bool {
    f.is_text && f.language == Some(l)
}

/// A measure summed over the text files of `fs` in language `l`.
pub open spec fn lang_sum(fs: Seq<FileInfoView>, l: Seq<char>, m: Measure) -> int
    decreases fs.len(),
{
    if fs.len() == 0 {
        0
    } else {
        lang_sum(fs.drop_last(), l, m) + if of_language(fs.last(), l) {
            measure(fs.last(), m)
        } else {
            0
        }
    }
}

/// The languages of the text files of `fs`, each once, in order of first
/// appearance.
pub open spec fn languages_seen(fs: Seq<FileInfoView>) -> Seq<Seq<char>>
    decreases fs.len(),
{
    if fs.len() == 0 {
        Seq::empty()
    } else {
        let prev = languages_seen(fs.drop_last());
        let f = fs.last();
        if f.is_text && f.language is Some && !prev.contains(f.language->0) {
            prev.push(f.language->0)
        } else {
            prev
        }
    }
}

/// `bytes` as hundredths of a percent of `total`, rounded down; zero when
/// `total` is zero.
pub open spec fn hundredths_of(bytes: int, total: int) -> int {
    if total > 0 {
        bytes * 10000 / total
    } else {
        0
    }
}

/// The statistics of one language.
pub struct LanguageStats {
    pub language: String,
    pub file_count: u32,
    pub lines_of_code: u32,
    pub blank_lines: u32,
    pub comment_lines: u32,
    pub total_bytes: u64,
    /// Share of all text bytes, in hundredths of a percent, rounded down.
    pub percentage_hundredths: u64,
}

impl LanguageStats {
    /// The counters are those of language `l` over the files `fs`.
    pub open spec fn counts(&self, fs: Seq<FileInfoView>, l: Seq<char>) -> bool {
        &&& self.language@ == l
        &&& self.file_count == lang_sum(fs, l, Measure::Files)
        &&& self.lines_of_code == lang_sum(fs, l, Measure::Code)
        &&& self.blank_lines == lang_sum(fs, l, Measure::Blank)
        &&& self.comment_lines == lang_sum(fs, l, Measure::Comment)
        &&& self.total_bytes == lang_sum(fs, l, Measure::Bytes)
    }

    /// These are the statistics of language `l` over the files `fs`, with
    /// shares taken of `total` bytes.
    pub open spec fn describes(&self, fs: Seq<FileInfoView>, l: Seq<char>, total: int) -> bool {
        &&& self.counts(fs, l)
        &&& self.percentage_hundredths == hundredths_of(self.total_bytes as int, total)
    }
}

/// Metrics of a whole tree.
pub struct CodeMetrics {
    pub total_files: u32,
    pub total_lines: u32,
    pub total_loc: u32,
    pub total_blank_lines: u32,
    pub total_comment_lines: u32,
    pub total_size: u64,
    /// One entry per language, in order of first appearance.
    pub language_stats: Vec<LanguageStats>,
    /// Bytes per text file, rounded down; zero without text files.
    pub average_file_size: u64,
    pub largest_files: Vec<FileInfo>,
    pub most_complex_files: Vec<FileInfo>,
}

/// How many entries each ranking keeps.
pub const RANKING_LEN: usize = 10;

/// The byte sizes of `fs`.
pub open spec fn size_keys(fs: Seq<FileInfoView>) -> Seq<int> {
    fs.map_values(|f: FileInfoView| f.size as int)
}

/// The lines of code of `fs`, absent counting as zero.
pub open spec fn code_keys(fs: Seq<FileInfoView>) -> Seq<int> {
    fs.map_values(|f: FileInfoView| or_zero(f.lines_of_code))
}

/// The files of `fs` at the indices `idx`.
pub open spec fn pick(fs: Seq<FileInfoView>, idx: Seq<int>) -> Seq<FileInfoView> {
    idx.map_values(|i: int| fs[i])
}

/// The `RANKING_LEN` largest files of `fs` by byte size, ties in tree order.
pub open spec fn largest_of(fs: Seq<FileInfoView>) -> Seq<FileInfoView> {
    pick(fs, top_indices(size_keys(fs), RANKING_LEN as int))
}

/// The `RANKING_LEN` files of `fs` with most lines of code, ties in tree
/// order.
pub open spec fn most_complex_of(fs: Seq<FileInfoView>) -> Seq<FileInfoView> {
    pick(fs, top_indices(code_keys(fs), RANKING_LEN as int))
}

/// The sums that the metrics of `fs` keep fit their counters.
pub open spec fn metrics_fit(fs: Seq<FileInfoView>) -> bool {
    &&& text_sum(fs, Measure::Files) <= u32::MAX
    &&& text_sum(fs, Measure::Lines) <= u32::MAX
    &&& text_sum(fs, Measure::Code) <= u32::MAX
    &&& text_sum(fs, Measure::Blank) <= u32::MAX
    &&& text_sum(fs, Measure::Comment) <= u32::MAX
    &&& text_sum(fs, Measure::Bytes) <= u64::MAX
}

proof fn lemma_measure_nonneg(f: FileInfoView, m: Measure)
    ensures
        measure(f, m) >= 0,
{
}

proof fn lemma_text_sum_prefix(fs: Seq<FileInfoView>, i: int, m: Measure)
    requires
        0 <= i <= fs.len(),
    ensures
        0 <= text_sum(fs.take(i), m) <= text_sum(fs, m),
    decreases fs.len(),
{
    if fs.len() > 0 {
        if i == fs.len() {
            assert(fs.take(i) =~= fs);
            lemma_text_sum_prefix(fs.drop_last(), i - 1, m);
            assert(fs.drop_last().take(i - 1) =~= fs.drop_last());
        } else {
            lemma_text_sum_prefix(fs.drop_last(), i, m);
            assert(fs.drop_last().take(i) =~= fs.take(i));
        }
        lemma_measure_nonneg(fs.last(), m);
    }
}

proof fn lemma_lang_le_text(fs: Seq<FileInfoView>, l: Seq<char>, m: Measure)
    ensures
        0 <= lang_sum(fs, l, m) <= text_sum(fs, m),
    decreases fs.len(),
{
    if fs.len() > 0 {
        lemma_lang_le_text(fs.drop_last(), l, m);
        lemma_measure_nonneg(fs.last(), m);
    }
}

proof fn lemma_unseen_is_zero(fs: Seq<FileInfoView>, l: Seq<char>, m: Measure)
    requires
        !languages_seen(fs).contains(l),
    ensures
        lang_sum(fs, l, m) == 0,
    decreases fs.len(),
{
    if fs.len() > 0 {
        let prev = languages_seen(fs.drop_last());
        let f = fs.last();
        let pushed = f.is_text && f.language is Some && !prev.contains(f.language->0);
        if prev.contains(l) {
            let k = choose|k: int| 0 <= k < prev.len() && prev[k] == l;
            assert(languages_seen(fs)[k] == l);
        }
        if of_language(f, l) && !prev.contains(l) {
            assert(pushed);
            assert(languages_seen(fs)[prev.len() as int] == l);
        }
        lemma_unseen_is_zero(fs.drop_last(), l, m);
    }
}

/// Each language appears once among the languages seen.
pub proof fn lemma_languages_distinct(fs: Seq<FileInfoView>)
    ensures
        languages_seen(fs).no_duplicates(),
    decreases fs.len(),
{
    if fs.len() > 0 {
        lemma_languages_distinct(fs.drop_last());
    }
}

fn or_zero_exec(o: Option<u32>) -> (r: u32)
    ensures
        r == or_zero(o),
{
    match o {
        Some(v) => v,
        None => 0,
    }
}

proof fn lemma_bounds_at(fs: Seq<FileInfoView>, t: int, l: Seq<char>)
    requires
        0 <= t <= fs.len(),
        metrics_fit(fs),
    ensures
        text_sum(fs.take(t), Measure::Files) <= u32::MAX,
        text_sum(fs.take(t), Measure::Lines) <= u32::MAX,
        text_sum(fs.take(t), Measure::Code) <= u32::MAX,
        text_sum(fs.take(t), Measure::Blank) <= u32::MAX,
        text_sum(fs.take(t), Measure::Comment) <= u32::MAX,
        text_sum(fs.take(t), Measure::Bytes) <= u64::MAX,
        0 <= lang_sum(fs.take(t), l, Measure::Files) <= u32::MAX,
        0 <= lang_sum(fs.take(t), l, Measure::Code) <= u32::MAX,
        0 <= lang_sum(fs.take(t), l, Measure::Blank) <= u32::MAX,
        0 <= lang_sum(fs.take(t), l, Measure::Comment) <= u32::MAX,
        0 <= lang_sum(fs.take(t), l, Measure::Bytes) <= u64::MAX,
{
    lemma_text_sum_prefix(fs, t, Measure::Files);
    lemma_text_sum_prefix(fs, t, Measure::Lines);
    lemma_text_sum_prefix(fs, t, Measure::Code);
    lemma_text_sum_prefix(fs, t, Measure::Blank);
    lemma_text_sum_prefix(fs, t, Measure::Comment);
    lemma_text_sum_prefix(fs, t, Measure::Bytes);
    lemma_lang_le_text(fs.take(t), l, Measure::Files);
    lemma_lang_le_text(fs.take(t), l, Measure::Code);
    lemma_lang_le_text(fs.take(t), l, Measure::Blank);
    lemma_lang_le_text(fs.take(t), l, Measure::Comment);
    lemma_lang_le_text(fs.take(t), l, Measure::Bytes);
}

/// Copies the files of `all` at the first `RANKING_LEN` indices of `order`.
fn take_ranked(all: &Vec<FileInfo>, order: &Vec<usize>) -> (r: Vec<FileInfo>)
    requires
        forall|q: int| 0 <= q < order@.len() ==> 0 <= #[trigger] order@[q] < all@.len(),
    ensures
        views(r@) == pick(
            views(all@),
            if (RANKING_LEN as int) < order@.len() {
                order@.map_values(|i: usize| i as int).take(RANKING_LEN as int)
            } else {
                order@.map_values(|i: usize| i as int)
            },
        ),
{
    let n = if RANKING_LEN < order.len() {
        RANKING_LEN
    } else {
        order.len()
    };
    let ghost idx = order@.map_values(|i: usize| i as int).take(n as int);
    let mut r: Vec<FileInfo> = Vec::new();
    let mut k: usize = 0;
    while k < n
        invariant
            k <= n <= order@.len(),
            n <= RANKING_LEN,
            idx == order@.map_values(|i: usize| i as int).take(n as int),
            forall|q: int| 0 <= q < order@.len() ==> 0 <= #[trigger] order@[q] < all@.len(),
            views(r@) == pick(views(all@), idx.take(k as int)),
        decreases n - k,
    {
        let ghost pre = r@;
        let f = all[order[k]].clone();
        r.push(f);
        assert(idx[k as int] == order@[k as int] as int);
        assert(idx.take(k + 1) =~= idx.take(k as int).push(idx[k as int]));
        assert(views(r@) =~= views(pre).push(f@));
        assert(views(r@) =~= pick(views(all@), idx.take(k + 1)));
        k = k + 1;
    }
    assert(idx.take(k as int) =~= idx);
    if n == order.len() {
        assert(idx =~= order@.map_values(|i: usize| i as int));
    }
    r
}

proof fn lemma_counts_carry(
    st: LanguageStats,
    pre: Seq<FileInfoView>,
    cur: Seq<FileInfoView>,
    l: Seq<char>,
)
    requires
        st.counts(pre, l),
        cur.len() > 0,
        cur.drop_last() == pre,
        !of_language(cur.last(), l),
    ensures
        st.counts(cur, l),
{
}

/// Running totals over text files.
struct Totals {
    files: u32,
    lines: u32,
    loc: u32,
    blank: u32,
    comment: u32,
    size: u64,
}

/// Totals and per-language counters over `all_files` (percentages left at
/// zero).
fn accumulate(all_files: &Vec<FileInfo>) -> (r: (Totals, Vec<LanguageStats>))
    requires
        metrics_fit(views(all_files@)),
    ensures
        ({
            let fs = views(all_files@);
            &&& r.0.files == text_sum(fs, Measure::Files)
            &&& r.0.lines == text_sum(fs, Measure::Lines)
            &&& r.0.loc == text_sum(fs, Measure::Code)
            &&& r.0.blank == text_sum(fs, Measure::Blank)
            &&& r.0.comment == text_sum(fs, Measure::Comment)
            &&& r.0.size == text_sum(fs, Measure::Bytes)
            &&& r.1@.len() == languages_seen(fs).len()
            &&& forall|j: int|
                0 <= j < r.1@.len() ==> (#[trigger] r.1@[j]).counts(fs, languages_seen(fs)[j])
        }),
{
    let ghost fs = views(all_files@);
    let mut stats: Vec<LanguageStats> = Vec::new();
    let mut total_files: u32 = 0;
    let mut total_lines: u32 = 0;
    let mut total_loc: u32 = 0;
    let mut total_blank_lines: u32 = 0;
    let mut total_comment_lines: u32 = 0;
    let mut total_size: u64 = 0;
    let mut t: usize = 0;
    assert(fs.take(0) =~= Seq::<FileInfoView>::empty());
    while t < all_files.len()
        invariant
            t <= all_files@.len(),
            fs == views(all_files@),
            metrics_fit(fs),
            total_files == text_sum(fs.take(t as int), Measure::Files),
            total_lines == text_sum(fs.take(t as int), Measure::Lines),
            total_loc == text_sum(fs.take(t as int), Measure::Code),
            total_blank_lines == text_sum(fs.take(t as int), Measure::Blank),
            total_comment_lines == text_sum(fs.take(t as int), Measure::Comment),
            total_size == text_sum(fs.take(t as int), Measure::Bytes),
            stats@.len() == languages_seen(fs.take(t as int)).len(),
            forall|j: int|
                0 <= j < stats@.len() ==> (#[trigger] stats@[j]).counts(
                    fs.take(t as int),
                    languages_seen(fs.take(t as int))[j],
                ),
        decreases all_files.len() - t,
    {
        let ghost pre = fs.take(t as int);
        let ghost cur = fs.take(t + 1);
        assert(cur.drop_last() =~= pre);
        assert(cur.last() == all_files@[t as int]@);
        let file = &all_files[t];
        let ghost fv = file@;
        let ghost old_stats = stats@;
        proof {
            lemma_languages_distinct(pre);
        }
        proof {
            lemma_bounds_at(fs, t + 1, Seq::empty());
        }
        if file.is_text {
            let loc = or_zero_exec(file.lines_of_code);
            let blank = or_zero_exec(file.blank_lines);
            let comment = or_zero_exec(file.comment_lines);
            total_files = total_files + 1;
            total_size = total_size + file.size;
            total_lines = total_lines + (loc + blank + comment);
            total_loc = total_loc + loc;
            total_blank_lines = total_blank_lines + blank;
            total_comment_lines = total_comment_lines + comment;
            match &file.language {
                Some(l) => {
                    proof {
                        lemma_bounds_at(fs, t + 1, l@);
                    }
                    let mut j: usize = 0;
                    while j < stats.len() && stats[j].language != *l
                        invariant
                            j <= stats@.len(),
                            forall|k: int| 0 <= k < j ==> stats@[k].language@ != l@,
                        decreases stats.len() - j,
                    {
                        j = j + 1;
                    }
                    let ghost seen = languages_seen(pre);
                    if j < stats.len() {
                        assert(seen[j as int] == l@);
                        assert(seen.contains(l@));
                        assert(languages_seen(cur) == seen);
                        let old_s = &stats[j];
                        let new_s = LanguageStats {
                            language: old_s.language.clone(),
                            file_count: old_s.file_count + 1,
                            lines_of_code: old_s.lines_of_code + loc,
                            blank_lines: old_s.blank_lines + blank,
                            comment_lines: old_s.comment_lines + comment,
                            total_bytes: old_s.total_bytes + file.size,
                            percentage_hundredths: 0,
                        };
                        stats[j] = new_s;
                        assert forall|k: int| 0 <= k < stats@.len() implies (
                        #[trigger] stats@[k]).counts(cur, languages_seen(cur)[k]) by {
                            if k != j {
                                assert(seen[k] != l@);
                                lemma_counts_carry(old_stats[k], pre, cur, seen[k]);
                            }
                        }
                    } else {
                        assert(!seen.contains(l@)) by {
                            if seen.contains(l@) {
                                let k = choose|k: int| 0 <= k < seen.len() && seen[k] == l@;
                                assert(stats@[k].language@ == l@);
                            }
                        }
                        proof {
                            lemma_unseen_is_zero(pre, l@, Measure::Files);
                            lemma_unseen_is_zero(pre, l@, Measure::Code);
                            lemma_unseen_is_zero(pre, l@, Measure::Blank);
                            lemma_unseen_is_zero(pre, l@, Measure::Comment);
                            lemma_unseen_is_zero(pre, l@, Measure::Bytes);
                        }
                        assert(languages_seen(cur) == seen.push(l@));
                        stats.push(
                            LanguageStats {
                                language: l.clone(),
                                file_count: 1,
                                lines_of_code: loc,
                                blank_lines: blank,
                                comment_lines: comment,
                                total_bytes: file.size,
                                percentage_hundredths: 0,
                            },
                        );
                        assert forall|k: int| 0 <= k < stats@.len() implies (
                        #[trigger] stats@[k]).counts(cur, languages_seen(cur)[k]) by {
                            if k < old_stats.len() {
                                assert(seen[k] != l@);
                                assert(languages_seen(cur)[k] == seen[k]);
                                lemma_counts_carry(old_stats[k], pre, cur, seen[k]);
                            }
                        }
                    }
                },
                None => {
                    assert(languages_seen(cur) == languages_seen(pre));
                    assert forall|k: int| 0 <= k < stats@.len() implies (
                    #[trigger] stats@[k]).counts(cur, languages_seen(cur)[k]) by {
                        lemma_counts_carry(old_stats[k], pre, cur, languages_seen(pre)[k]);
                    }
                },
            }
        } else {
            assert(languages_seen(cur) == languages_seen(pre));
            assert forall|k: int| 0 <= k < stats@.len() implies (#[trigger] stats@[k]).counts(
                cur,
                languages_seen(cur)[k],
            ) by {
                lemma_counts_carry(old_stats[k], pre, cur, languages_seen(pre)[k]);
            }
        }
        t = t + 1;
    }
    assert(fs.take(t as int) =~= fs);
    (
        Totals {
            files: total_files,
            lines: total_lines,
            loc: total_loc,
            blank: total_blank_lines,
            comment: total_comment_lines,
            size: total_size,
        },
        stats,
    )
}

/// Whether `bytes` are more than 5% of `total`.
pub open spec fn above_five_percent(bytes: int, total: int) -> bool {
    20 * bytes > total
}

/// The positions of the languages of `stats` with more than 5% of `total`.
pub open spec fn prominent_of(stats: Seq<LanguageStats>, total: int) -> Seq<int>
    decreases stats.len(),
{
    if stats.len() == 0 {
        Seq::empty()
    } else if above_five_percent(stats.last().total_bytes as int, total) {
        prominent_of(stats.drop_last(), total).push(stats.len() - 1)
    } else {
        prominent_of(stats.drop_last(), total)
    }
}

/// Every position that `prominent_of` gives is a position of `stats`.
pub proof fn lemma_prominent_range(stats: Seq<LanguageStats>, total: int)
    ensures
        forall|q: int|
            0 <= q < prominent_of(stats, total).len() ==> 0 <= #[trigger] prominent_of(stats, total)[q]
                < stats.len(),
    decreases stats.len(),
{
    if stats.len() > 0 {
        lemma_prominent_range(stats.drop_last(), total);
        let prev = prominent_of(stats.drop_last(), total);
        let cur = prominent_of(stats, total);
        assert forall|q: int| 0 <= q < cur.len() implies 0 <= #[trigger] cur[q] < stats.len() by {
            if q < prev.len() {
                assert(cur[q] == prev[q]);
            }
        }
    }
}

impl CodeMetrics {
    /// The positions in `language_stats` of the languages with more than 5%
    /// of all text bytes, in order.
    pub fn prominent_languages(&self) -> (r: Vec<usize>)
        ensures
            r@.map_values(|i: usize| i as int) == prominent_of(
                self.language_stats@,
                self.total_size as int,
            ),
    {
        let mut r: Vec<usize> = Vec::new();
        let mut i: usize = 0;
        let ghost st = self.language_stats@;
        assert(r@.map_values(|i: usize| i as int) =~= prominent_of(st.take(0), self.total_size as int));
        while i < self.language_stats.len()
            invariant
                i <= st.len(),
                st == self.language_stats@,
                r@.map_values(|i: usize| i as int) == prominent_of(st.take(i as int), self.total_size as int),
            decreases st.len() - i,
        {
            assert(st.take(i + 1).drop_last() =~= st.take(i as int));
            assert(st.take(i + 1).last() == st[i as int]);
            let b = self.language_stats[i].total_bytes as u128;
            if 20 * b > self.total_size as u128 {
                let ghost pre = r@.map_values(|i: usize| i as int);
                r.push(i);
                assert(r@.map_values(|i: usize| i as int) =~= pre.push(i as int));
            }
            i = i + 1;
        }
        assert(st.take(i as int) =~= st);
        r
    }
}

impl CodeMetricsCalculator {
    /// Whether the totals of the tree rooted at `directory_info` fit the
    /// metrics' counters, as `calculate_metrics` requires.
    pub fn counters_fit(&self, directory_info: &DirectoryInfo) -> (r: bool)
        ensures
            r == metrics_fit(flatten(*directory_info)),
    {
        let mut all_files: Vec<FileInfo> = Vec::new();
        collect_files(directory_info, &mut all_files);
        let ghost fs = views(all_files@);
        assert(fs =~= flatten(*directory_info));
        let mut files: u64 = 0;
        let mut lines: u64 = 0;
        let mut code: u64 = 0;
        let mut blank: u64 = 0;
        let mut comment: u64 = 0;
        let mut bytes: u64 = 0;
        let mut t: usize = 0;
        assert(fs.take(0) =~= Seq::<FileInfoView>::empty());
        while t < all_files.len()
            invariant
                t <= all_files@.len(),
                fs == views(all_files@),
                fs == flatten(*directory_info),
                files == text_sum(fs.take(t as int), Measure::Files),
                lines == text_sum(fs.take(t as int), Measure::Lines),
                code == text_sum(fs.take(t as int), Measure::Code),
                blank == text_sum(fs.take(t as int), Measure::Blank),
                comment == text_sum(fs.take(t as int), Measure::Comment),
                bytes == text_sum(fs.take(t as int), Measure::Bytes),
                files <= u32::MAX,
                lines <= u32::MAX,
                code <= u32::MAX,
                blank <= u32::MAX,
                comment <= u32::MAX,
            decreases all_files.len() - t,
        {
            let ghost cur = fs.take(t + 1);
            assert(cur.drop_last() =~= fs.take(t as int));
            assert(cur.last() == all_files@[t as int]@);
            proof {
                lemma_text_sum_prefix(fs, t + 1, Measure::Files);
                lemma_text_sum_prefix(fs, t + 1, Measure::Lines);
                lemma_text_sum_prefix(fs, t + 1, Measure::Code);
                lemma_text_sum_prefix(fs, t + 1, Measure::Blank);
                lemma_text_sum_prefix(fs, t + 1, Measure::Comment);
                lemma_text_sum_prefix(fs, t + 1, Measure::Bytes);
            }
            let f = &all_files[t];
            if f.is_text {
                let l = or_zero_exec(f.lines_of_code) as u64;
                let b = or_zero_exec(f.blank_lines) as u64;
                let c = or_zero_exec(f.comment_lines) as u64;
                files = files + 1;
                lines = lines + l + b + c;
                code = code + l;
                blank = blank + b;
                comment = comment + c;
                match bytes.checked_add(f.size) {
                    Some(v) => {
                        bytes = v;
                    },
                    None => {
                        return false;
                    },
                }
                if files > u32::MAX as u64 || lines > u32::MAX as u64 || code > u32::MAX as u64
                    || blank > u32::MAX as u64 || comment > u32::MAX as u64 {
                    return false;
                }
            }
            t = t + 1;
        }
        assert(fs.take(t as int) =~= fs);
        true
    }

    /// The metrics of the tree rooted at `directory_info`: totals over its
    /// text files, one statistics entry per language in order of first
    /// appearance, the average text file size, and the largest and most
    /// complex files (stable, descending, at most `RANKING_LEN` each).
    pub fn calculate_metrics(&self, directory_info: &DirectoryInfo) -> (r: CodeMetrics)
        requires
            metrics_fit(flatten(*directory_info)),
        ensures
            ({
                let fs = flatten(*directory_info);
                &&& r.total_files == text_sum(fs, Measure::Files)
                &&& r.total_lines == text_sum(fs, Measure::Lines)
                &&& r.total_loc == text_sum(fs, Measure::Code)
                &&& r.total_blank_lines == text_sum(fs, Measure::Blank)
                &&& r.total_comment_lines == text_sum(fs, Measure::Comment)
                &&& r.total_size == text_sum(fs, Measure::Bytes)
                &&& r.language_stats@.len() == languages_seen(fs).len()
                &&& forall|j: int|
                    0 <= j < r.language_stats@.len() ==> (#[trigger] r.language_stats@[j]).describes(
                        fs,
                        languages_seen(fs)[j],
                        r.total_size as int,
                    )
                &&& r.average_file_size == if r.total_files > 0 {
                    r.total_size / (r.total_files as u64)
                } else {
                    0
                }
                &&& views(r.largest_files@) == largest_of(fs)
                &&& views(r.most_complex_files@) == most_complex_of(fs)
            }),
    {
        let mut all_files: Vec<FileInfo> = Vec::new();
        self.collect_file_stats(directory_info, &mut all_files);
        let ghost fs = views(all_files@);
        assert(fs =~= flatten(*directory_info));
        let (totals, mut stats) = accumulate(&all_files);
        let total_files = totals.files;
        let total_lines = totals.lines;
        let total_loc = totals.loc;
        let total_blank_lines = totals.blank;
        let total_comment_lines = totals.comment;
        let total_size = totals.size;
        let ghost seen = languages_seen(fs);
        let mut j: usize = 0;
        while j < stats.len()
            invariant
                j <= stats@.len(),
                stats@.len() == seen.len(),
                forall|k: int| 0 <= k < stats@.len() ==> (#[trigger] stats@[k]).counts(fs, seen[k]),
                total_size == text_sum(fs, Measure::Bytes),
                forall|k: int|
                    0 <= k < j ==> (#[trigger] stats@[k]).percentage_hundredths == hundredths_of(
                        stats@[k].total_bytes as int,
                        total_size as int,
                    ),
            decreases stats.len() - j,
        {
            let b = stats[j].total_bytes;
            proof {
                lemma_lang_le_text(fs, seen[j as int], Measure::Bytes);
            }
            let p: u64 = if total_size > 0 {
                assert(b <= total_size);
                assert((b as int) * 10000 / (total_size as int) <= 10000) by (nonlinear_arith)
                    requires
                        b <= total_size,
                        total_size > 0,
                ;
                ((b as u128) * 10000 / (total_size as u128)) as u64
            } else {
                0
            };
            let old_s = &stats[j];
            let new_s = LanguageStats {
                language: old_s.language.clone(),
                file_count: old_s.file_count,
                lines_of_code: old_s.lines_of_code,
                blank_lines: old_s.blank_lines,
                comment_lines: old_s.comment_lines,
                total_bytes: old_s.total_bytes,
                percentage_hundredths: p,
            };
            stats[j] = new_s;
            j = j + 1;
        }
        let mut size_keys_v: Vec<u64> = Vec::new();
        let mut code_keys_v: Vec<u64> = Vec::new();
        let mut q: usize = 0;
        while q < all_files.len()
            invariant
                q <= all_files@.len(),
                fs == views(all_files@),
                size_keys_v@.map_values(|k: u64| k as int) == size_keys(fs).take(q as int),
                code_keys_v@.map_values(|k: u64| k as int) == code_keys(fs).take(q as int),
            decreases all_files.len() - q,
        {
            size_keys_v.push(all_files[q].size);
            code_keys_v.push(or_zero_exec(all_files[q].lines_of_code) as u64);
            assert(fs[q as int] == all_files@[q as int]@);
            assert(size_keys(fs).take(q + 1) =~= size_keys(fs).take(q as int).push(
                fs[q as int].size as int,
            ));
            assert(code_keys(fs).take(q + 1) =~= code_keys(fs).take(q as int).push(
                or_zero(fs[q as int].lines_of_code),
            ));
            assert(size_keys_v@.map_values(|k: u64| k as int) =~= size_keys(fs).take(q + 1));
            assert(code_keys_v@.map_values(|k: u64| k as int) =~= code_keys(fs).take(q + 1));
            q = q + 1;
        }
        assert(size_keys(fs).take(q as int) =~= size_keys(fs));
        assert(code_keys(fs).take(q as int) =~= code_keys(fs));
        let by_size = rank_desc(&size_keys_v);
        let by_code = rank_desc(&code_keys_v);
        proof {
            lemma_top_indices(size_keys(fs), RANKING_LEN as int);
            lemma_top_indices(code_keys(fs), RANKING_LEN as int);
            crate::ranking::lemma_sort_desc(size_keys(fs), fs.len() as int);
            crate::ranking::lemma_sort_desc(code_keys(fs), fs.len() as int);
            assert forall|k: int| 0 <= k < by_size@.len() implies 0 <= #[trigger] by_size@[k]
                < all_files@.len() by {
                assert(by_size@.map_values(|i: usize| i as int)[k] == by_size@[k] as int);
            }
            assert forall|k: int| 0 <= k < by_code@.len() implies 0 <= #[trigger] by_code@[k]
                < all_files@.len() by {
                assert(by_code@.map_values(|i: usize| i as int)[k] == by_code@[k] as int);
            }
        }
        let largest_files = take_ranked(&all_files, &by_size);
        let most_complex_files = take_ranked(&all_files, &by_code);
        let average_file_size = if total_files > 0 {
            total_size / (total_files as u64)
        } else {
            0
        };
        CodeMetrics {
            total_files,
            total_lines,
            total_loc,
            total_blank_lines,
            total_comment_lines,
            total_size,
            language_stats: stats,
            average_file_size,
            largest_files,
            most_complex_files,
        }
    }

    /// Appends the files of the tree rooted at `dir` to `all_files`, in
    /// pre-order.
    pub fn collect_file_stats(&self, dir: &DirectoryInfo, all_files: &mut Vec<FileInfo>)
        ensures
            views(final(all_files)@) == views(old(all_files)@) + flatten(*dir),
    {
        collect_files(dir, all_files);
    }
}

/// Computes code metrics from a directory tree.
pub struct CodeMetricsCalculator;

/// The files of the largest-files ranking number at most `RANKING_LEN` and
/// come in non-increasing byte size; those of the most-complex ranking
/// likewise, by lines of code.
pub proof fn lemma_rankings_bounded_and_sorted(fs: Seq<FileInfoView>)
    ensures
        largest_of(fs).len() <= RANKING_LEN,
        most_complex_of(fs).len() <= RANKING_LEN,
        forall|a: int, b: int|
            0 <= a < b < largest_of(fs).len() ==> largest_of(fs)[a].size >= largest_of(fs)[b].size,
        forall|a: int, b: int|
            0 <= a < b < most_complex_of(fs).len() ==> or_zero(most_complex_of(fs)[a].lines_of_code)
                >= or_zero(most_complex_of(fs)[b].lines_of_code),
{
    let sk = size_keys(fs);
    let ck = code_keys(fs);
    lemma_top_indices(sk, RANKING_LEN as int);
    lemma_top_indices(ck, RANKING_LEN as int);
    let ts = top_indices(sk, RANKING_LEN as int);
    let tc = top_indices(ck, RANKING_LEN as int);
    assert forall|a: int, b: int| 0 <= a < b < largest_of(fs).len() implies largest_of(fs)[a].size
        >= largest_of(fs)[b].size by {
        assert(sk[ts[a]] >= sk[ts[b]]);
        assert(0 <= ts[a] < sk.len() && 0 <= ts[b] < sk.len());
    }
    assert forall|a: int, b: int| 0 <= a < b < most_complex_of(fs).len() implies or_zero(
        most_complex_of(fs)[a].lines_of_code,
    ) >= or_zero(most_complex_of(fs)[b].lines_of_code) by {
        assert(ck[tc[a]] >= ck[tc[b]]);
        assert(0 <= tc[a] < ck.len() && 0 <= tc[b] < ck.len());
    }
}

/// The bytes of the languages `langs` over `fs`, summed.
pub open spec fn stats_bytes_sum(langs: Seq<Seq<char>>, fs: Seq<FileInfoView>) -> int
    decreases langs.len(),
{
    if langs.len() == 0 {
        0
    } else {
        stats_bytes_sum(langs.drop_last(), fs) + lang_sum(fs, langs.last(), Measure::Bytes)
    }
}

/// The shares of the languages `langs` over `fs`, in hundredths of a percent
/// of `total`, summed.
pub open spec fn hundredths_sum(langs: Seq<Seq<char>>, fs: Seq<FileInfoView>, total: int) -> int
    decreases langs.len(),
{
    if langs.len() == 0 {
        0
    } else {
        hundredths_sum(langs.drop_last(), fs, total) + hundredths_of(
            lang_sum(fs, langs.last(), Measure::Bytes),
            total,
        )
    }
}

/// The bytes of the text files of `fs` that have a language.
pub open spec fn named_text_bytes(fs: Seq<FileInfoView>) -> int
    decreases fs.len(),
{
    if fs.len() == 0 {
        0
    } else {
        named_text_bytes(fs.drop_last()) + if fs.last().is_text && fs.last().language is Some {
            fs.last().size as int
        } else {
            0
        }
    }
}

/// Whether every text file of `fs` has a language.
pub open spec fn all_text_named(fs: Seq<FileInfoView>) -> bool {
    forall|i: int| 0 <= i < fs.len() && (#[trigger] fs[i]).is_text ==> fs[i].language is Some
}

proof fn lemma_stats_sum_step(langs: Seq<Seq<char>>, pre: Seq<FileInfoView>, cur: Seq<FileInfoView>)
    requires
        cur.len() > 0,
        cur.drop_last() == pre,
        langs.no_duplicates(),
    ensures
        stats_bytes_sum(langs, cur) == stats_bytes_sum(langs, pre) + if cur.last().is_text
            && cur.last().language is Some && langs.contains(cur.last().language->0) {
            cur.last().size as int
        } else {
            0
        },
    decreases langs.len(),
{
    if langs.len() > 0 {
        let init = langs.drop_last();
        assert(init.no_duplicates());
        lemma_stats_sum_step(init, pre, cur);
        let x = cur.last();
        if x.language is Some {
            let l = x.language->0;
            if init.contains(l) {
                let k = choose|k: int| 0 <= k < init.len() && init[k] == l;
                assert(langs[k] == l);
                assert(langs.last() != l);
            }
            if langs.contains(l) && !init.contains(l) {
                let k = choose|k: int| 0 <= k < langs.len() && langs[k] == l;
                if k < init.len() {
                    assert(init[k] == l);
                }
            }
            if init.contains(l) {
                let k = choose|k: int| 0 <= k < init.len() && init[k] == l;
                assert(langs[k] == l);
            }
        }
    }
}

proof fn lemma_stats_bytes(fs: Seq<FileInfoView>)
    ensures
        stats_bytes_sum(languages_seen(fs), fs) == named_text_bytes(fs),
        0 <= named_text_bytes(fs) <= text_sum(fs, Measure::Bytes),
        all_text_named(fs) ==> named_text_bytes(fs) == text_sum(fs, Measure::Bytes),
    decreases fs.len(),
{
    if fs.len() > 0 {
        let pre = fs.drop_last();
        let x = fs.last();
        lemma_stats_bytes(pre);
        lemma_languages_distinct(pre);
        lemma_languages_distinct(fs);
        let sp = languages_seen(pre);
        lemma_stats_sum_step(sp, pre, fs);
        if x.is_text && x.language is Some && !sp.contains(x.language->0) {
            let l = x.language->0;
            assert(languages_seen(fs) == sp.push(l));
            assert(languages_seen(fs).drop_last() == sp);
            lemma_stats_sum_step(sp, pre, fs);
            lemma_unseen_is_zero(pre, l, Measure::Bytes);
        }
        if all_text_named(fs) {
            assert forall|i: int| 0 <= i < pre.len() && (#[trigger] pre[i]).is_text implies pre[i].language
                is Some by {
                assert(pre[i] == fs[i]);
            }
            assert(fs[fs.len() - 1] == x);
        }
    }
}

proof fn lemma_hundredths(langs: Seq<Seq<char>>, fs: Seq<FileInfoView>, total: int)
    requires
        total > 0,
    ensures
        hundredths_sum(langs, fs, total) * total <= 10000 * stats_bytes_sum(langs, fs),
    decreases langs.len(),
{
    if langs.len() > 0 {
        lemma_hundredths(langs.drop_last(), fs, total);
        let b = lang_sum(fs, langs.last(), Measure::Bytes);
        lemma_lang_le_text(fs, langs.last(), Measure::Bytes);
        let h = b * 10000 / total;
        assert(h * total <= b * 10000) by (nonlinear_arith)
            requires
                h == b * 10000 / total,
                total > 0,
                b >= 0,
        ;
        let hp = hundredths_sum(langs.drop_last(), fs, total);
        let sp = stats_bytes_sum(langs.drop_last(), fs);
        assert((hp + h) * total <= 10000 * (sp + b)) by (nonlinear_arith)
            requires
                hp * total <= 10000 * sp,
                h * total <= b * 10000,
        ;
    }
}

/// Over the files `fs`, the bytes of all language statistics together never
/// exceed the text bytes, and equal them when every text file has a
/// language; their shares together never exceed 100% (10000 hundredths).
pub proof fn lemma_language_shares(fs: Seq<FileInfoView>)
    ensures
        stats_bytes_sum(languages_seen(fs), fs) <= text_sum(fs, Measure::Bytes),
        all_text_named(fs) ==> stats_bytes_sum(languages_seen(fs), fs) == text_sum(
            fs,
            Measure::Bytes,
        ),
        hundredths_sum(languages_seen(fs), fs, text_sum(fs, Measure::Bytes)) <= 10000,
{
    lemma_stats_bytes(fs);
    let total = text_sum(fs, Measure::Bytes);
    let langs = languages_seen(fs);
    if total > 0 {
        lemma_hundredths(langs, fs, total);
        let h = hundredths_sum(langs, fs, total);
        let sb = stats_bytes_sum(langs, fs);
        assert(h <= 10000) by (nonlinear_arith)
            requires
                h * total <= 10000 * sb,
                sb <= total,
                total > 0,
        ;
    } else {
        lemma_zero_hundredths(langs, fs, total);
    }
}

proof fn lemma_zero_hundredths(langs: Seq<Seq<char>>, fs: Seq<FileInfoView>, total: int)
    requires
        total <= 0,
    ensures
        hundredths_sum(langs, fs, total) == 0,
    decreases langs.len(),
{
    if langs.len() > 0 {
        lemma_zero_hundredths(langs.drop_last(), fs, total);
    }
}

} // verus!
