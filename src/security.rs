//! Security heuristics: policy files, dependency-update and code-scanning
//! workflows, and dependencies pinned to no particular version.
use vstd::prelude::*;
use crate::classify::eq_lit;
use crate::config::{ConfigFile, opt_pairs_view, pairs_view};
use crate::text::{chars_of, lower_of, lowercase, seq_contains, str_contains};
use crate::tree::{DirectoryInfo, FileInfo, FileInfoView, collect_files, flatten, views};

verus! {

/// Security findings of a repository.
pub struct SecurityInfo {
    pub has_security_policy: bool,
    pub has_dependabot: bool,
    pub has_codeql: bool,
    /// Always empty: no vulnerability database is consulted.
    pub vulnerability_alerts: Vec<String>,
    /// `name: version` for each dependency whose version is a wildcard or
    /// `latest`.
    pub outdated_dependencies: Vec<String>,
    /// Always empty: licences are not compared.
    pub license_compatibility: Vec<String>,
}

/// Whether a lowercased file name names a security policy.
pub open spec fn is_policy_name(lower: Seq<char>) -> bool {
    lower == "security.md"@ || lower == "security.txt"@ || lower == ".security"@
}

/// Whether some file of `fs` is a security policy.
pub open spec fn has_policy(fs: Seq<FileInfoView>) -> bool {
    exists|i: int| 0 <= i < fs.len() && is_policy_name(lower_of(#[trigger] fs[i].name))
}

/// The index of the first of `ds` named `n`, or -1.
pub open spec fn first_named(ds: Seq<DirectoryInfo>, n: Seq<char>) -> int
    decreases ds.len(),
{
    if ds.len() == 0 {
        -1
    } else {
        let p = first_named(ds.drop_last(), n);
        if p >= 0 {
            p
        } else if ds.last().name@ == n {
            ds.len() - 1
        } else {
            -1
        }
    }
}

/// Whether the first `.github` directory directly under `root` holds a first
/// `workflows` directory with a file whose lowercased name contains
/// `keyword`.
pub open spec fn workflow_with(root: DirectoryInfo, keyword: Seq<char>) -> bool {
    let g = first_named(root.subdirectories@, ".github"@);
    g >= 0 && {
        let gd = root.subdirectories@[g];
        let w = first_named(gd.subdirectories@, "workflows"@);
        w >= 0 && exists|i: int|
            0 <= i < gd.subdirectories@[w].files@.len() && seq_contains(
                lower_of(#[trigger] gd.subdirectories@[w].files@[i].name@),
                keyword,
            )
    }
}

/// Whether a version specifier is a wildcard or asks for the latest version.
pub open spec fn is_unpinned(version: Seq<char>) -> bool {
    seq_contains(version, "*"@) || seq_contains(version, "latest"@)
}

/// The `name: version` line of a dependency.
pub open spec fn dependency_line(p: (Seq<char>, Seq<char>)) -> Seq<char> {
    p.0 + ": "@ + p.1
}

/// The lines of the unpinned dependencies among `ps`, in order.
pub open spec fn unpinned_lines(ps: Seq<(Seq<char>, Seq<char>)>) -> Seq<Seq<char>>
    decreases ps.len(),
{
    if ps.len() == 0 {
        Seq::empty()
    } else {
        let prev = unpinned_lines(ps.drop_last());
        if is_unpinned(ps.last().1) {
            prev.push(dependency_line(ps.last()))
        } else {
            prev
        }
    }
}

/// The lines of the unpinned dependencies of each configuration file in turn.
pub open spec fn outdated_of(cs: Seq<ConfigFile>) -> Seq<Seq<char>>
    decreases cs.len(),
{
    if cs.len() == 0 {
        Seq::empty()
    } else {
        outdated_of(cs.drop_last()) + match opt_pairs_view(cs.last().parsed_dependencies) {
            Some(ps) => unpinned_lines(ps),
            None => Seq::empty(),
        }
    }
}

/// The views of a sequence of strings.
pub open spec fn string_views(v: Seq<String>) -> Seq<Seq<char>> {
    v.map_values(|s: String| s@)
}

/// Flags security-relevant files and unpinned dependencies.
pub struct SecurityAnalyzer;

fn first_named_exec(ds: &Vec<DirectoryInfo>, n: &str) -> (r: Option<usize>)
    ensures
        match r {
            Some(i) => i < ds@.len() && first_named(ds@, n@) == i as int,
            None => first_named(ds@, n@) == -1,
        },
{
    let mut i: usize = 0;
    while i < ds.len()
        invariant
            i <= ds@.len(),
            first_named(ds@.take(i as int), n@) == -1,
        decreases ds.len() - i,
    {
        assert(ds@.take(i + 1).drop_last() =~= ds@.take(i as int));
        let c = chars_of(ds[i].name.as_str());
        if eq_lit(&c, n) {
            proof {
                lemma_first_named_prefix(ds@, n@, i as int + 1);
            }
            return Some(i);
        }
        i = i + 1;
    }
    assert(ds@.take(i as int) =~= ds@);
    None
}

proof fn lemma_first_named_prefix(ds: Seq<DirectoryInfo>, n: Seq<char>, k: int)
    requires
        0 <= k <= ds.len(),
        first_named(ds.take(k), n) >= 0,
    ensures
        first_named(ds, n) == first_named(ds.take(k), n),
    decreases ds.len(),
{
    if ds.len() > k {
        assert(ds.drop_last().take(k) =~= ds.take(k));
        lemma_first_named_prefix(ds.drop_last(), n, k);
    } else {
        assert(ds.take(k) =~= ds);
    }
}

impl SecurityAnalyzer {
    /// Appends the files of the tree rooted at `dir` to `all_files`, in
    /// pre-order.
    pub fn collect_all_files(&self, dir: &DirectoryInfo, all_files: &mut Vec<FileInfo>)
        ensures
            views(final(all_files)@) == views(old(all_files)@) + flatten(*dir),
    {
        collect_files(dir, all_files);
    }

    /// Whether the repository's `.github/workflows` directory holds a file
    /// whose lowercased name contains `keyword`.
    pub fn has_github_workflow_file(&self, file_structure: &DirectoryInfo, keyword: &str) -> (r:
        bool)
        ensures
            r == workflow_with(*file_structure, keyword@),
    {
        let g = match first_named_exec(&file_structure.subdirectories, ".github") {
            Some(g) => g,
            None => {
                return false;
            },
        };
        let gd = &file_structure.subdirectories[g];
        let w = match first_named_exec(&gd.subdirectories, "workflows") {
            Some(w) => w,
            None => {
                return false;
            },
        };
        let wd = &gd.subdirectories[w];
        let mut i: usize = 0;
        while i < wd.files.len()
            invariant
                i <= wd.files@.len(),
                g < file_structure.subdirectories@.len(),
                *gd == file_structure.subdirectories@[g as int],
                first_named(file_structure.subdirectories@, ".github"@) == g,
                w < gd.subdirectories@.len(),
                *wd == gd.subdirectories@[w as int],
                first_named(gd.subdirectories@, "workflows"@) == w,
                forall|k: int| 0 <= k < i ==> !seq_contains(lower_of(#[trigger] wd.files@[k].name@), keyword@),
            decreases wd.files.len() - i,
        {
            let lower = lowercase(wd.files[i].name.as_str());
            if str_contains(lower.as_str(), keyword) {
                assert(seq_contains(lower_of(wd.files@[i as int].name@), keyword@));
                assert(file_structure.subdirectories@[g as int] == *gd);
                assert(gd.subdirectories@[w as int] == *wd);
                assert(seq_contains(
                    lower_of(
                        file_structure.subdirectories@[g as int].subdirectories@[w as int].files@[i as int].name@,
                    ),
                    keyword@,
                ));
                return true;
            }
            i = i + 1;
        }
        false
    }

    /// The security findings of a tree and its configuration files.
    pub fn analyze_security(&self, file_structure: &DirectoryInfo, config_files: &[ConfigFile]) -> (r:
        SecurityInfo)
        ensures
            r.has_security_policy == has_policy(flatten(*file_structure)),
            r.has_dependabot == workflow_with(*file_structure, "dependabot"@),
            r.has_codeql == workflow_with(*file_structure, "codeql"@),
            r.vulnerability_alerts@.len() == 0,
            string_views(r.outdated_dependencies@) == outdated_of(config_files@),
            r.license_compatibility@.len() == 0,
    {
        let mut all_files: Vec<FileInfo> = Vec::new();
        self.collect_all_files(file_structure, &mut all_files);
        let ghost fs = views(all_files@);
        assert(fs =~= flatten(*file_structure));
        let mut has_security_policy = false;
        let mut i: usize = 0;
        while i < all_files.len()
            invariant
                i <= all_files@.len(),
                fs == views(all_files@),
                has_security_policy == exists|k: int|
                    0 <= k < i && is_policy_name(lower_of(#[trigger] fs[k].name)),
            decreases all_files.len() - i,
        {
            let lower = chars_of(lowercase(all_files[i].name.as_str()).as_str());
            assert(fs[i as int].name == all_files@[i as int].name@);
            if eq_lit(&lower, "security.md") || eq_lit(&lower, "security.txt") || eq_lit(
                &lower,
                ".security",
            ) {
                has_security_policy = true;
            }
            i = i + 1;
        }
        let has_dependabot = self.has_github_workflow_file(file_structure, "dependabot");
        let has_codeql = self.has_github_workflow_file(file_structure, "codeql");
        let mut outdated: Vec<String> = Vec::new();
        let mut c: usize = 0;
        assert(string_views(outdated@) =~= outdated_of(config_files@.take(0)));
        while c < config_files.len()
            invariant
                c <= config_files@.len(),
                string_views(outdated@) == outdated_of(config_files@.take(c as int)),
            decreases config_files.len() - c,
        {
            assert(config_files@.take(c + 1).drop_last() =~= config_files@.take(c as int));
            assert(config_files@.take(c + 1).last() == config_files@[c as int]);
            match &config_files[c].parsed_dependencies {
                Some(deps) => {
                    let ghost base = string_views(outdated@);
                    let ghost pv = pairs_view(deps@);
                    let mut d: usize = 0;
                    assert(base + unpinned_lines(pv.take(0)) =~= base);
                    while d < deps.len()
                        invariant
                            d <= deps@.len(),
                            pv == pairs_view(deps@),
                            string_views(outdated@) == base + unpinned_lines(pv.take(d as int)),
                        decreases deps.len() - d,
                    {
                        assert(pv.take(d + 1).drop_last() =~= pv.take(d as int));
                        assert(pv.take(d + 1).last() == pv[d as int]);
                        let (name, version) = &deps[d];
                        if str_contains(version.as_str(), "*") || str_contains(
                            version.as_str(),
                            "latest",
                        ) {
                            let line = name.clone().concat(": ").concat(version.as_str());
                            let ghost pre = string_views(outdated@);
                            outdated.push(line);
                            assert(string_views(outdated@) =~= pre.push(line@));
                        }
                        d = d + 1;
                    }
                    assert(pv.take(d as int) =~= pv);
                },
                None => {
                    assert(string_views(outdated@) =~= string_views(outdated@) + Seq::empty());
                },
            }
            c = c + 1;
        }
        assert(config_files@.take(c as int) =~= config_files@);
        SecurityInfo {
            has_security_policy,
            has_dependabot,
            has_codeql,
            vulnerability_alerts: Vec::new(),
            outdated_dependencies: outdated,
            license_compatibility: Vec::new(),
        }
    }
}

} // verus!
