//! The plain-text summary of an analysis.
use vstd::prelude::*;
use crate::detect::ProjectInfo;
use crate::metrics::{CodeMetrics, LanguageStats, prominent_of};
use crate::security::string_views;
use crate::text::{chars_of, string_from_chars};

verus! {

/// The decimal digit `d`.
pub open spec fn digit(d: int) -> char {
    "0123456789"@[d]
}

/// The decimal representation of `n`, without leading zeros.
pub open spec fn decimal_of(n: nat) -> Seq<char>
    decreases n,
{
    if n < 10 {
        seq![digit(n as int)]
    } else {
        decimal_of(n / 10).push(digit((n % 10) as int))
    }
}

/// `parts` joined with `sep` between each two.
pub open spec fn join_with(parts: Seq<Seq<char>>, sep: Seq<char>) -> Seq<char>
    decreases parts.len(),
{
    if parts.len() == 0 {
        Seq::empty()
    } else if parts.len() == 1 {
        parts[0]
    } else {
        join_with(parts.drop_last(), sep) + sep + parts.last()
    }
}

/// `bytes` as a percentage of `total` with one decimal, rounded half up.
pub open spec fn percent_text(bytes: int, total: int) -> Seq<char> {
    let t = if total > 0 {
        (2000 * bytes + total) / (2 * total)
    } else {
        0
    };
    decimal_of((t / 10) as nat) + "."@ + decimal_of((t % 10) as nat)
}

/// The entries of the prominent languages, as `name (share%)`.
pub open spec fn language_entries(stats: Seq<LanguageStats>, idx: Seq<int>, total: int) -> Seq<
    Seq<char>,
> {
    idx.map_values(
        |i: int|
            stats[i].language@ + " ("@ + percent_text(stats[i].total_bytes as int, total) + "%)"@,
    )
}

/// `s` with `line` appended if `b`.
pub open spec fn add_if(s: Seq<Seq<char>>, b: bool, line: Seq<char>) -> Seq<Seq<char>> {
    if b {
        s.push(line)
    } else {
        s
    }
}

/// The lines of the summary: the repository, its description if any, its
/// star, fork and issue counts, the primary language if any, file, code and
/// size totals, contributor and commit counts, then the frameworks, the
/// project types and the languages over 5% of the text bytes, each when
/// there are any.
pub open spec fn summary_lines(
    full_name: Seq<char>,
    description: Option<Seq<char>>,
    stars: u32,
    forks: u32,
    open_issues: u32,
    m: CodeMetrics,
    p: ProjectInfo,
    contributors: nat,
    total_commits: u32,
) -> Seq<Seq<char>> {
    let langs = language_entries(
        m.language_stats@,
        prominent_of(m.language_stats@, m.total_size as int),
        m.total_size as int,
    );
    let s1 = seq!["Repository: "@ + full_name];
    let s2 = add_if(s1, description is Some, "Description: "@ + description->0);
    let s3 = s2.push(
        "Stars: "@ + decimal_of(stars as nat) + ", Forks: "@ + decimal_of(forks as nat)
            + ", Open Issues: "@ + decimal_of(open_issues as nat),
    );
    let s4 = add_if(
        s3,
        p.primary_language is Some,
        "Primary Language: "@ + p.primary_language->0@,
    );
    let s5 = s4.push(
        "Total Files: "@ + decimal_of(m.total_files as nat) + ", Lines of Code: "@ + decimal_of(
            m.total_loc as nat,
        ) + ", Size: "@ + decimal_of((m.total_size / 1024) as nat) + " KB"@,
    );
    let s6 = s5.push(
        "Contributors: "@ + decimal_of(contributors) + ", Total Commits: "@ + decimal_of(
            total_commits as nat,
        ),
    );
    let s7 = add_if(
        s6,
        p.frameworks@.len() > 0,
        "Frameworks: "@ + join_with(string_views(p.frameworks@), ", "@),
    );
    let s8 = add_if(
        s7,
        p.project_type@.len() > 0,
        "Project Types: "@ + join_with(string_views(p.project_type@), ", "@),
    );
    add_if(s8, langs.len() > 0, "Languages: "@ + join_with(langs, ", "@))
}

fn push_all(v: &mut Vec<char>, s: &Vec<char>)
    ensures
        final(v)@ == old(v)@ + s@,
{
    let ghost base = v@;
    let mut i: usize = 0;
    while i < s.len()
        invariant
            i <= s@.len(),
            v@ == base + s@.take(i as int),
        decreases s.len() - i,
    {
        v.push(s[i]);
        i = i + 1;
        assert(v@ =~= base + s@.take(i as int));
    }
    assert(s@.take(i as int) =~= s@);
}

fn push_str(v: &mut Vec<char>, s: &str)
    ensures
        final(v)@ == old(v)@ + s@,
{
    let c = chars_of(s);
    push_all(v, &c);
}

/// The decimal representation of `n`.
pub fn decimal(n: u128) -> (r: Vec<char>)
    ensures
        r@ == decimal_of(n as nat),
    decreases n,
{
    let digits = chars_of("0123456789");
    proof {
        reveal_strlit("0123456789");
    }
    if n < 10 {
        let mut v: Vec<char> = Vec::new();
        v.push(digits[n as usize]);
        assert(v@ =~= seq![digit(n as int)]);
        v
    } else {
        let mut v = decimal(n / 10);
        v.push(digits[(n % 10) as usize]);
        v
    }
}

fn join_strings(parts: &Vec<String>, sep: &str) -> (r: Vec<char>)
    ensures
        r@ == join_with(string_views(parts@), sep@),
{
    let ghost ps = string_views(parts@);
    let mut r: Vec<char> = Vec::new();
    let mut i: usize = 0;
    while i < parts.len()
        invariant
            i <= parts@.len(),
            ps == string_views(parts@),
            r@ == join_with(ps.take(i as int), sep@),
        decreases parts.len() - i,
    {
        assert(ps.take(i + 1).drop_last() =~= ps.take(i as int));
        assert(ps.take(i + 1).last() == parts@[i as int]@);
        if i > 0 {
            push_str(&mut r, sep);
        }
        let c = chars_of(parts[i].as_str());
        push_all(&mut r, &c);
        if i == 0 {
            assert(r@ =~= ps.take(1)[0]);
        }
        i = i + 1;
    }
    assert(ps.take(i as int) =~= ps);
    r
}

fn percent(bytes: u64, total: u64) -> (r: Vec<char>)
    ensures
        r@ == percent_text(bytes as int, total as int),
{
    let t: u128 = if total > 0 {
        (2000 * (bytes as u128) + (total as u128)) / (2 * (total as u128))
    } else {
        0
    };
    let mut v = decimal(t / 10);
    push_str(&mut v, ".");
    let d = decimal(t % 10);
    push_all(&mut v, &d);
    v
}
fn push_line(lines: &mut Vec<Vec<char>>, line: Vec<char>)
    ensures
        crate::text::char_views(final(lines)@) == crate::text::char_views(old(lines)@).push(line@),
{
    let ghost pre = crate::text::char_views(lines@);
    lines.push(line);
    assert(crate::text::char_views(lines@) =~= pre.push(lines@.last()@));
}

/// The summary of an analysis: the lines of `summary_lines` joined by line
/// feeds.
pub fn generate_analysis_summary(
    full_name: &str,
    description: &Option<String>,
    stars: u32,
    forks: u32,
    open_issues: u32,
    code_metrics: &CodeMetrics,
    project_info: &ProjectInfo,
    contributors: usize,
    total_commits: u32,
) -> (r: String)
    ensures
        r@ == crate::text::join_lines(
            summary_lines(
                full_name@,
                crate::tree::opt_view(*description),
                stars,
                forks,
                open_issues,
                *code_metrics,
                *project_info,
                contributors as nat,
                total_commits,
            ),
        ),
{
    let mut lines: Vec<Vec<char>> = Vec::new();
    let mut l: Vec<char> = Vec::new();
    push_str(&mut l, "Repository: ");
    push_str(&mut l, full_name);
    push_line(&mut lines, l);
    match description {
        Some(d) => {
            let mut l: Vec<char> = Vec::new();
            push_str(&mut l, "Description: ");
            push_str(&mut l, d.as_str());
            push_line(&mut lines, l);
        },
        None => {},
    }
    let mut l: Vec<char> = Vec::new();
    push_str(&mut l, "Stars: ");
    push_all(&mut l, &decimal(stars as u128));
    push_str(&mut l, ", Forks: ");
    push_all(&mut l, &decimal(forks as u128));
    push_str(&mut l, ", Open Issues: ");
    push_all(&mut l, &decimal(open_issues as u128));
    push_line(&mut lines, l);
    match &project_info.primary_language {
        Some(p) => {
            let mut l: Vec<char> = Vec::new();
            push_str(&mut l, "Primary Language: ");
            push_str(&mut l, p.as_str());
            push_line(&mut lines, l);
        },
        None => {},
    }
    let mut l: Vec<char> = Vec::new();
    push_str(&mut l, "Total Files: ");
    push_all(&mut l, &decimal(code_metrics.total_files as u128));
    push_str(&mut l, ", Lines of Code: ");
    push_all(&mut l, &decimal(code_metrics.total_loc as u128));
    push_str(&mut l, ", Size: ");
    push_all(&mut l, &decimal((code_metrics.total_size / 1024) as u128));
    push_str(&mut l, " KB");
    push_line(&mut lines, l);
    let mut l: Vec<char> = Vec::new();
    push_str(&mut l, "Contributors: ");
    push_all(&mut l, &decimal(contributors as u128));
    push_str(&mut l, ", Total Commits: ");
    push_all(&mut l, &decimal(total_commits as u128));
    push_line(&mut lines, l);
    if project_info.frameworks.len() > 0 {
        let mut l: Vec<char> = Vec::new();
        push_str(&mut l, "Frameworks: ");
        push_all(&mut l, &join_strings(&project_info.frameworks, ", "));
        push_line(&mut lines, l);
    }
    if project_info.project_type.len() > 0 {
        let mut l: Vec<char> = Vec::new();
        push_str(&mut l, "Project Types: ");
        push_all(&mut l, &join_strings(&project_info.project_type, ", "));
        push_line(&mut lines, l);
    }
    let idx = code_metrics.prominent_languages();
    let ghost iv = idx@.map_values(|i: usize| i as int);
    let ghost st = code_metrics.language_stats@;
    let total = code_metrics.total_size;
    let mut entries: Vec<String> = Vec::new();
    let mut k: usize = 0;
    proof {
        crate::metrics::lemma_prominent_range(st, total as int);
    }
    while k < idx.len()
        invariant
            k <= idx@.len(),
            iv == idx@.map_values(|i: usize| i as int),
            iv == prominent_of(st, total as int),
            st == code_metrics.language_stats@,
            total == code_metrics.total_size,
            forall|q: int| 0 <= q < iv.len() ==> 0 <= #[trigger] iv[q] < st.len(),
            string_views(entries@) == language_entries(st, iv.take(k as int), total as int),
        decreases idx.len() - k,
    {
        assert(iv[k as int] == idx@[k as int] as int);
        let s = &code_metrics.language_stats[idx[k]];
        let mut e: Vec<char> = chars_of(s.language.as_str());
        push_str(&mut e, " (");
        push_all(&mut e, &percent(s.total_bytes, total));
        push_str(&mut e, "%)");
        let ghost pre = string_views(entries@);
        entries.push(string_from_chars(e.as_slice()));
        assert(string_views(entries@) =~= pre.push(e@));
        assert(iv.take(k + 1) =~= iv.take(k as int).push(iv[k as int]));
        assert(string_views(entries@) =~= language_entries(st, iv.take(k + 1), total as int));
        k = k + 1;
    }
    assert(iv.take(k as int) =~= iv);
    if entries.len() > 0 {
        let mut l: Vec<char> = Vec::new();
        push_str(&mut l, "Languages: ");
        push_all(&mut l, &join_strings(&entries, ", "));
        push_line(&mut lines, l);
    }
    assert(crate::text::char_views(lines@) =~= summary_lines(
        full_name@,
        crate::tree::opt_view(*description),
        stars,
        forks,
        open_issues,
        *code_metrics,
        *project_info,
        contributors as nat,
        total_commits,
    ));
    let n = lines.len();
    let joined = crate::text::join_first_lines(&lines, n);
    assert(crate::text::char_views(lines@).take(n as int) =~= crate::text::char_views(lines@));
    string_from_chars(joined.as_slice())
}

} // verus!
