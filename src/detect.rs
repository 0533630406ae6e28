//! Project-type detection: package managers, build tools, frameworks and
//! deployment tags from the manifests, and type tags from the tree's shape.
use vstd::prelude::*;
use crate::classify::eq_lit;
use crate::config::ConfigFile;
use crate::security::string_views;
use crate::text::{chars_of, contains, seq_contains, str_contains};
use crate::tree::{DirectoryInfo, FileInfo, FileInfoView, collect_files, flatten, views};

verus! {

/// Substrings of a `package.json` that reveal a framework, with its name.
pub open spec fn js_framework_table() -> Seq<(Seq<char>, Seq<char>)> {
    seq![
        ("react"@, "React"@),
        ("vue"@, "Vue.js"@),
        ("angular"@, "Angular"@),
        ("svelte"@, "Svelte"@),
        ("express"@, "Express.js"@),
        ("nestjs"@, "NestJS"@),
        ("next"@, "Next.js"@),
        ("nuxt"@, "Nuxt.js"@),
        ("gatsby"@, "Gatsby"@),
        ("electron"@, "Electron"@),
    ]
}

/// Substrings of a `package.json` that reveal a build tool, with its name.
pub open spec fn js_build_tool_table() -> Seq<(Seq<char>, Seq<char>)> {
    seq![
        ("webpack"@, "Webpack"@),
        ("vite"@, "Vite"@),
        ("rollup"@, "Rollup"@),
        ("parcel"@, "Parcel"@),
        ("esbuild"@, "ESBuild"@),
        ("snowpack"@, "Snowpack"@),
    ]
}

/// Substrings of a `package.json` that reveal a testing tool, with its name.
pub open spec fn js_testing_table() -> Seq<(Seq<char>, Seq<char>)> {
    seq![
        ("jest"@, "Jest"@),
        ("mocha"@, "Mocha"@),
        ("chai"@, "Chai"@),
        ("cypress"@, "Cypress"@),
        ("playwright"@, "Playwright"@),
        ("puppeteer"@, "Puppeteer"@),
        ("jasmine"@, "Jasmine"@),
    ]
}

/// The names of the table entries whose substring occurs in `content`, in
/// table order.
pub open spec fn found_in(content: Seq<char>, table: Seq<(Seq<char>, Seq<char>)>) -> Seq<Seq<char>>
    decreases table.len(),
{
    if table.len() == 0 {
        Seq::empty()
    } else {
        let prev = found_in(content, table.drop_last());
        if seq_contains(content, table.last().0) {
            prev.push(table.last().1)
        } else {
            prev
        }
    }
}

/// The tags that the manifests give, one list per kind.
pub struct Tags {
    pub project_type: Seq<Seq<char>>,
    pub frameworks: Seq<Seq<char>>,
    pub build_tools: Seq<Seq<char>>,
    pub package_managers: Seq<Seq<char>>,
    pub testing_frameworks: Seq<Seq<char>>,
    pub ci_cd_tools: Seq<Seq<char>>,
    pub deployment_configs: Seq<Seq<char>>,
}

/// The tags after one more manifest of ecosystem `tag` with text `content`.
pub open spec fn tag_step(t: Tags, tag: Seq<char>, content: Seq<char>) -> Tags {
    if tag == "npm"@ {
        Tags {
            package_managers: t.package_managers.push("npm"@),
            frameworks: t.frameworks + found_in(content, js_framework_table()),
            build_tools: t.build_tools + found_in(content, js_build_tool_table()),
            testing_frameworks: t.testing_frameworks + found_in(content, js_testing_table()),
            ..t
        }
    } else if tag == "cargo"@ {
        Tags {
            package_managers: t.package_managers.push("cargo"@),
            build_tools: t.build_tools.push("cargo"@),
            project_type: t.project_type.push("rust"@),
            ..t
        }
    } else if tag == "pip"@ {
        Tags {
            package_managers: t.package_managers.push("pip"@),
            project_type: t.project_type.push("python"@),
            ..t
        }
    } else if tag == "maven"@ || tag == "gradle"@ {
        Tags {
            package_managers: t.package_managers.push(tag),
            build_tools: t.build_tools.push(tag),
            project_type: t.project_type.push("java"@),
            ..t
        }
    } else if tag == "docker"@ || tag == "docker-compose"@ || tag == "kubernetes"@ || tag
        == "terraform"@ {
        Tags { deployment_configs: t.deployment_configs.push(tag), ..t }
    } else if tag == "github-actions"@ {
        Tags { ci_cd_tools: t.ci_cd_tools.push("github-actions"@), ..t }
    } else if tag == "travis"@ {
        Tags { ci_cd_tools: t.ci_cd_tools.push("travis-ci"@), ..t }
    } else {
        t
    }
}

/// The tags that the manifests `cs` give, taken in order.
pub open spec fn config_tags(cs: Seq<ConfigFile>) -> Tags
    decreases cs.len(),
{
    if cs.len() == 0 {
        Tags {
            project_type: Seq::empty(),
            frameworks: Seq::empty(),
            build_tools: Seq::empty(),
            package_managers: Seq::empty(),
            testing_frameworks: Seq::empty(),
            ci_cd_tools: Seq::empty(),
            deployment_configs: Seq::empty(),
        }
    } else {
        tag_step(config_tags(cs.drop_last()), cs.last().file_type@, cs.last().content@)
    }
}

/// Whether a direct subdirectory of `d` is named `n`.
pub open spec fn has_dir(d: DirectoryInfo, n: Seq<char>) -> bool {
    exists|i: int| 0 <= i < d.subdirectories@.len() && (#[trigger] d.subdirectories@[i]).name@ == n
}

/// Whether some file of `fs` is named `n`.
pub open spec fn has_file_named(fs: Seq<FileInfoView>, n: Seq<char>) -> bool {
    exists|i: int| 0 <= i < fs.len() && (#[trigger] fs[i]).name == n
}

/// Whether some file name of `fs` contains `server` or `app`.
pub open spec fn has_service_file(fs: Seq<FileInfoView>) -> bool {
    exists|i: int|
        0 <= i < fs.len() && (seq_contains((#[trigger] fs[i]).name, "server"@) || seq_contains(
            fs[i].name,
            "app"@,
        ))
}

/// What the shape of the tree rooted at `d` shows: a `main.rs`, a `lib.rs`,
/// an `index.html`, a server or app file, a tests, a docs and an examples
/// directory.
pub open spec fn structure_flags(d: DirectoryInfo) -> (bool, bool, bool, bool, bool, bool, bool) {
    let fs = flatten(d);
    (
        has_file_named(fs, "main.rs"@),
        has_file_named(fs, "lib.rs"@),
        has_file_named(fs, "index.html"@),
        has_service_file(fs),
        has_dir(d, "tests"@) || has_dir(d, "test"@),
        has_dir(d, "docs"@) || has_dir(d, "documentation"@),
        has_dir(d, "examples"@),
    )
}

/// The names whose flag is set, in order.
pub open spec fn selected(t: Seq<(bool, Seq<char>)>) -> Seq<Seq<char>>
    decreases t.len(),
{
    if t.len() == 0 {
        Seq::empty()
    } else if t.last().0 {
        selected(t.drop_last()).push(t.last().1)
    } else {
        selected(t.drop_last())
    }
}

/// The shape flags paired with their type tags, in a fixed order.
pub open spec fn flag_table(f: (bool, bool, bool, bool, bool, bool, bool)) -> Seq<(bool, Seq<char>)> {
    seq![
        (f.0, "cli-application"@),
        (f.1, "library"@),
        (f.2, "web-application"@),
        (f.3, "backend-service"@),
        (f.4, "tested-project"@),
        (f.5, "documented-project"@),
        (f.6, "example-driven"@),
    ]
}

/// The type tags for the given shape flags.
pub open spec fn tags_from_flags(f: (bool, bool, bool, bool, bool, bool, bool)) -> Seq<Seq<char>> {
    selected(flag_table(f))
}

/// The type tags that the shape of the tree rooted at `d` gives.
pub open spec fn structure_tags(d: DirectoryInfo) -> Seq<Seq<char>> {
    tags_from_flags(structure_flags(d))
}

/// The number of files of `fs` in language `l`, text or not.
pub open spec fn language_count(fs: Seq<FileInfoView>, l: Seq<char>) -> int
    decreases fs.len(),
{
    if fs.len() == 0 {
        0
    } else {
        language_count(fs.drop_last(), l) + if fs.last().language == Some(l) {
            1int
        } else {
            0int
        }
    }
}

/// The languages of the files of `fs`, text or not, each once, in order of
/// first appearance.
pub open spec fn all_languages(fs: Seq<FileInfoView>) -> Seq<Seq<char>>
    decreases fs.len(),
{
    if fs.len() == 0 {
        Seq::empty()
    } else {
        let prev = all_languages(fs.drop_last());
        let f = fs.last();
        if f.language is Some && !prev.contains(f.language->0) {
            prev.push(f.language->0)
        } else {
            prev
        }
    }
}

/// The index among `ls` of the first language with the highest count.
pub open spec fn best_index(fs: Seq<FileInfoView>, ls: Seq<Seq<char>>) -> int
    decreases ls.len(),
{
    if ls.len() <= 1 {
        0
    } else {
        let b = best_index(fs, ls.drop_last());
        if language_count(fs, ls.last()) > language_count(fs, ls[b]) {
            ls.len() - 1
        } else {
            b
        }
    }
}

/// The language with most files; of several with equally many, the one met
/// first in pre-order. None for a tree without a file in a known language.
pub open spec fn primary_language_of(fs: Seq<FileInfoView>) -> Option<Seq<char>> {
    let ls = all_languages(fs);
    if ls.len() == 0 {
        None
    } else {
        Some(ls[best_index(fs, ls)])
    }
}

/// What was detected of a project.
pub struct ProjectInfo {
    pub primary_language: Option<String>,
    pub project_type: Vec<String>,
    pub frameworks: Vec<String>,
    pub build_tools: Vec<String>,
    pub package_managers: Vec<String>,
    pub testing_frameworks: Vec<String>,
    pub ci_cd_tools: Vec<String>,
    pub deployment_configs: Vec<String>,
    /// Always empty: databases are not detected.
    pub database_technologies: Vec<String>,
}

/// Detects project types and technologies.
pub struct ProjectTypeDetector;

fn push_str(v: &mut Vec<String>, s: &str)
    ensures
        string_views(final(v)@) == string_views(old(v)@).push(s@),
{
    let ghost pre = string_views(v@);
    v.push(s.to_string());
    assert(string_views(v@) =~= pre.push(s@));
}

fn push_found(content: &Vec<char>, table: &Vec<(&'static str, &'static str)>, out: &mut Vec<String>)
    ensures
        string_views(final(out)@) == string_views(old(out)@) + found_in(
            content@,
            table@.map_values(|p: (&'static str, &'static str)| (p.0@, p.1@)),
        ),
{
    let ghost tv = table@.map_values(|p: (&'static str, &'static str)| (p.0@, p.1@));
    let ghost base = string_views(out@);
    let mut i: usize = 0;
    assert(base + found_in(content@, tv.take(0)) =~= base);
    while i < table.len()
        invariant
            i <= table@.len(),
            tv == table@.map_values(|p: (&'static str, &'static str)| (p.0@, p.1@)),
            string_views(out@) == base + found_in(content@, tv.take(i as int)),
        decreases table.len() - i,
    {
        assert(tv.take(i + 1).drop_last() =~= tv.take(i as int));
        assert(tv.take(i + 1).last() == tv[i as int]);
        let (needle, name) = table[i];
        let n = chars_of(needle);
        if contains(content, &n) {
            push_str(out, name);
        }
        i = i + 1;
    }
    assert(tv.take(i as int) =~= tv);
}

proof fn lemma_absent_count_zero(fs: Seq<FileInfoView>, l: Seq<char>)
    requires
        !all_languages(fs).contains(l),
    ensures
        language_count(fs, l) == 0,
    decreases fs.len(),
{
    if fs.len() > 0 {
        let prev = all_languages(fs.drop_last());
        if prev.contains(l) {
            let k = choose|k: int| 0 <= k < prev.len() && prev[k] == l;
            assert(all_languages(fs)[k] == l);
        }
        if fs.last().language == Some(l) && !prev.contains(l) {
            assert(all_languages(fs)[prev.len() as int] == l);
        }
        lemma_absent_count_zero(fs.drop_last(), l);
    }
}

proof fn lemma_all_languages_distinct(fs: Seq<FileInfoView>)
    ensures
        all_languages(fs).no_duplicates(),
    decreases fs.len(),
{
    if fs.len() > 0 {
        lemma_all_languages_distinct(fs.drop_last());
    }
}

proof fn lemma_count_bound(fs: Seq<FileInfoView>, l: Seq<char>)
    ensures
        0 <= language_count(fs, l) <= fs.len(),
    decreases fs.len(),
{
    if fs.len() > 0 {
        lemma_count_bound(fs.drop_last(), l);
    }
}

/// Language counts as the pairs `(language, count)`.
pub open spec fn counts_view(v: Seq<(String, usize)>) -> Seq<(Seq<char>, int)> {
    v.map_values(|p: (String, usize)| (p.0@, p.1 as int))
}

/// The counts of the languages of `fs`, in order of first appearance.
pub open spec fn language_counts(fs: Seq<FileInfoView>) -> Seq<(Seq<char>, int)> {
    all_languages(fs).map_values(|l: Seq<char>| (l, language_count(fs, l)))
}

fn any_named(fs: &Vec<FileInfo>, n: &str) -> (r: bool)
    ensures
        r == has_file_named(views(fs@), n@),
{
    let mut i: usize = 0;
    while i < fs.len()
        invariant
            i <= fs@.len(),
            forall|k: int| 0 <= k < i ==> (#[trigger] views(fs@)[k]).name != n@,
        decreases fs.len() - i,
    {
        let c = chars_of(fs[i].name.as_str());
        if eq_lit(&c, n) {
            assert(views(fs@)[i as int].name == n@);
            return true;
        }
        i = i + 1;
    }
    false
}

fn any_service(fs: &Vec<FileInfo>) -> (r: bool)
    ensures
        r == has_service_file(views(fs@)),
{
    let mut i: usize = 0;
    while i < fs.len()
        invariant
            i <= fs@.len(),
            forall|k: int|
                0 <= k < i ==> !(seq_contains((#[trigger] views(fs@)[k]).name, "server"@)
                    || seq_contains(views(fs@)[k].name, "app"@)),
        decreases fs.len() - i,
    {
        if str_contains(fs[i].name.as_str(), "server") || str_contains(fs[i].name.as_str(), "app") {
            assert(views(fs@)[i as int].name == fs@[i as int].name@);
            return true;
        }
        assert(views(fs@)[i as int].name == fs@[i as int].name@);
        i = i + 1;
    }
    false
}

fn push_tags(v: &mut Vec<String>, f: (bool, bool, bool, bool, bool, bool, bool))
    ensures
        string_views(final(v)@) == string_views(old(v)@) + tags_from_flags(f),
{
    let table = vec![
        (f.0, "cli-application"),
        (f.1, "library"),
        (f.2, "web-application"),
        (f.3, "backend-service"),
        (f.4, "tested-project"),
        (f.5, "documented-project"),
        (f.6, "example-driven"),
    ];
    let ghost tv = table@.map_values(|p: (bool, &'static str)| (p.0, p.1@));
    assert(tv =~= flag_table(f));
    let ghost base = string_views(v@);
    let mut i: usize = 0;
    assert(base + selected(tv.take(0)) =~= base);
    while i < table.len()
        invariant
            i <= table@.len(),
            tv == table@.map_values(|p: (bool, &'static str)| (p.0, p.1@)),
            string_views(v@) == base + selected(tv.take(i as int)),
        decreases table.len() - i,
    {
        assert(tv.take(i + 1).drop_last() =~= tv.take(i as int));
        assert(tv.take(i + 1).last() == tv[i as int]);
        let (on, name) = table[i];
        if on {
            let ghost pre = string_views(v@);
            push_str(v, name);
            assert(string_views(v@) =~= base + selected(tv.take(i + 1)));
        }
        i = i + 1;
    }
    assert(tv.take(i as int) =~= tv);
}

impl ProjectTypeDetector {
    /// Appends the type tags that the shape of the tree gives.
    pub fn detect_project_types_from_structure(
        &self,
        file_structure: &DirectoryInfo,
        project_types: &mut Vec<String>,
    )
        ensures
            string_views(final(project_types)@) == string_views(old(project_types)@)
                + structure_tags(*file_structure),
    {
        let flags = self.shape_flags(file_structure);
        push_tags(project_types, flags);
    }

    /// The shape flags of the tree rooted at `file_structure`.
    fn shape_flags(&self, file_structure: &DirectoryInfo) -> (r: (bool, bool, bool, bool, bool, bool, bool))
        ensures
            r == structure_flags(*file_structure),
    {
        let mut all_files: Vec<FileInfo> = Vec::new();
        self.collect_all_files(file_structure, &mut all_files);
        assert(views(all_files@) =~= flatten(*file_structure));
        let has_tests_dir = self.has_directory(file_structure, "tests") || self.has_directory(
            file_structure,
            "test",
        );
        let has_docs_dir = self.has_directory(file_structure, "docs") || self.has_directory(
            file_structure,
            "documentation",
        );
        let has_examples_dir = self.has_directory(file_structure, "examples");
        let has_main_rs = any_named(&all_files, "main.rs");
        let has_lib_rs = any_named(&all_files, "lib.rs");
        let has_index_html = any_named(&all_files, "index.html");
        let has_server_files = any_service(&all_files);
        (
            has_main_rs,
            has_lib_rs,
            has_index_html,
            has_server_files,
            has_tests_dir,
            has_docs_dir,
            has_examples_dir,
        )
    }

    /// The project information that the manifests and the tree give: the
    /// manifests' tags in manifest order, then the tree's type tags, and the
    /// primary language.
    pub fn detect_project_info(&self, config_files: &[ConfigFile], file_structure: &DirectoryInfo) -> (r:
        ProjectInfo)
        ensures
            ({
                let t = config_tags(config_files@);
                &&& string_views(r.project_type@) == t.project_type + structure_tags(*file_structure)
                &&& string_views(r.frameworks@) == t.frameworks
                &&& string_views(r.build_tools@) == t.build_tools
                &&& string_views(r.package_managers@) == t.package_managers
                &&& string_views(r.testing_frameworks@) == t.testing_frameworks
                &&& string_views(r.ci_cd_tools@) == t.ci_cd_tools
                &&& string_views(r.deployment_configs@) == t.deployment_configs
                &&& r.database_technologies@.len() == 0
                &&& crate::tree::opt_view(r.primary_language) == primary_language_of(
                    flatten(*file_structure),
                )
            }),
    {
        let mut project_types: Vec<String> = Vec::new();
        let mut frameworks: Vec<String> = Vec::new();
        let mut build_tools: Vec<String> = Vec::new();
        let mut package_managers: Vec<String> = Vec::new();
        let mut testing_frameworks: Vec<String> = Vec::new();
        let mut ci_cd_tools: Vec<String> = Vec::new();
        let mut deployment_configs: Vec<String> = Vec::new();
        let mut c: usize = 0;
        assert(config_files@.take(0) =~= Seq::<ConfigFile>::empty());
        proof {
            let t = config_tags(config_files@.take(0));
            assert(string_views(project_types@) =~= t.project_type);
            assert(string_views(frameworks@) =~= t.frameworks);
            assert(string_views(build_tools@) =~= t.build_tools);
            assert(string_views(package_managers@) =~= t.package_managers);
            assert(string_views(testing_frameworks@) =~= t.testing_frameworks);
            assert(string_views(ci_cd_tools@) =~= t.ci_cd_tools);
            assert(string_views(deployment_configs@) =~= t.deployment_configs);
        }
        while c < config_files.len()
            invariant
                c <= config_files@.len(),
                ({
                    let t = config_tags(config_files@.take(c as int));
                    &&& string_views(project_types@) == t.project_type
                    &&& string_views(frameworks@) == t.frameworks
                    &&& string_views(build_tools@) == t.build_tools
                    &&& string_views(package_managers@) == t.package_managers
                    &&& string_views(testing_frameworks@) == t.testing_frameworks
                    &&& string_views(ci_cd_tools@) == t.ci_cd_tools
                    &&& string_views(deployment_configs@) == t.deployment_configs
                }),
            decreases config_files.len() - c,
        {
            assert(config_files@.take(c + 1).drop_last() =~= config_files@.take(c as int));
            assert(config_files@.take(c + 1).last() == config_files@[c as int]);
            let config = &config_files[c];
            let tag = chars_of(config.file_type.as_str());
            if eq_lit(&tag, "npm") {
                push_str(&mut package_managers, "npm");
                self.detect_js_frameworks(config.content.as_str(), &mut frameworks);
                self.detect_js_tools(
                    config.content.as_str(),
                    &mut build_tools,
                    &mut testing_frameworks,
                );
            } else if eq_lit(&tag, "cargo") {
                push_str(&mut package_managers, "cargo");
                push_str(&mut build_tools, "cargo");
                push_str(&mut project_types, "rust");
            } else if eq_lit(&tag, "pip") {
                push_str(&mut package_managers, "pip");
                push_str(&mut project_types, "python");
            } else if eq_lit(&tag, "maven") {
                push_str(&mut package_managers, "maven");
                push_str(&mut build_tools, "maven");
                push_str(&mut project_types, "java");
            } else if eq_lit(&tag, "gradle") {
                push_str(&mut package_managers, "gradle");
                push_str(&mut build_tools, "gradle");
                push_str(&mut project_types, "java");
            } else if eq_lit(&tag, "docker") {
                push_str(&mut deployment_configs, "docker");
            } else if eq_lit(&tag, "docker-compose") {
                push_str(&mut deployment_configs, "docker-compose");
            } else if eq_lit(&tag, "kubernetes") {
                push_str(&mut deployment_configs, "kubernetes");
            } else if eq_lit(&tag, "terraform") {
                push_str(&mut deployment_configs, "terraform");
            } else if eq_lit(&tag, "github-actions") {
                push_str(&mut ci_cd_tools, "github-actions");
            } else if eq_lit(&tag, "travis") {
                push_str(&mut ci_cd_tools, "travis-ci");
            }
            c = c + 1;
        }
        assert(config_files@.take(c as int) =~= config_files@);
        let primary_language = self.detect_primary_language(file_structure);
        self.detect_project_types_from_structure(file_structure, &mut project_types);
        ProjectInfo {
            primary_language,
            project_type: project_types,
            frameworks,
            build_tools,
            package_managers,
            testing_frameworks,
            ci_cd_tools,
            deployment_configs,
            database_technologies: Vec::new(),
        }
    }

    /// The number of files of each language in the tree rooted at `dir`, in
    /// order of first appearance.
    pub fn count_languages(&self, dir: &DirectoryInfo) -> (r: Vec<(String, usize)>)
        ensures
            counts_view(r@) == language_counts(flatten(*dir)),
    {
        let mut all_files: Vec<FileInfo> = Vec::new();
        self.collect_all_files(dir, &mut all_files);
        let ghost fs = views(all_files@);
        assert(fs =~= flatten(*dir));
        let mut counts: Vec<(String, usize)> = Vec::new();
        let mut t: usize = 0;
        assert(counts_view(counts@) =~= language_counts(fs.take(0)));
        while t < all_files.len()
            invariant
                t <= all_files@.len(),
                fs == views(all_files@),
                counts_view(counts@) == language_counts(fs.take(t as int)),
            decreases all_files.len() - t,
        {
            let ghost pre = fs.take(t as int);
            let ghost cur = fs.take(t + 1);
            assert(cur.drop_last() =~= pre);
            assert(cur.last() == all_files@[t as int]@);
            let ghost old_counts = counts_view(counts@);
            let ghost old_vec = counts@;
            let ghost seen = all_languages(pre);
            proof {
                assert(counts_view(counts@).len() == counts@.len());
                assert(language_counts(pre).len() == seen.len());
                lemma_all_languages_distinct(pre);
                assert forall|k: int| 0 <= k < seen.len() implies #[trigger] old_counts[k] == (seen[k], language_count(pre, seen[k])) by {}
            }
            match &all_files[t].language {
                Some(l) => {
                    let mut j: usize = 0;
                    while j < counts.len() && counts[j].0 != *l
                        invariant
                            j <= counts@.len(),
                            forall|k: int| 0 <= k < j ==> counts@[k].0@ != l@,
                        decreases counts.len() - j,
                    {
                        j = j + 1;
                    }
                    if j < counts.len() {
                        assert(old_counts[j as int] == (counts@[j as int].0@, counts@[j as int].1 as int));
                        assert(old_counts[j as int].0 == l@);
                        assert(seen[j as int] == l@);
                        assert(all_languages(cur) == seen);
                        proof {
                            lemma_count_bound(pre, l@);
                            assert(counts@[j as int].1 as int == language_count(pre, l@));
                        }
                        let c = counts[j].1;
                        let name = counts[j].0.clone();
                        counts[j] = (name, c + 1);
                        assert forall|k: int| 0 <= k < seen.len() implies counts_view(counts@)[k] == (
                        seen[k], language_count(cur, seen[k])) by {
                            assert(old_counts[k] == (old_vec[k].0@, old_vec[k].1 as int));
                            assert(counts_view(counts@)[k] == (counts@[k].0@, counts@[k].1 as int));
                            if k != j {
                                assert(seen[k] != l@);
                                assert(counts@[k] == old_vec[k]);
                            }
                        }
                        assert(counts_view(counts@) =~= language_counts(cur));
                    } else {
                        assert(!seen.contains(l@)) by {
                            if seen.contains(l@) {
                                let k = choose|k: int| 0 <= k < seen.len() && seen[k] == l@;
                                assert(old_counts[k].0 == l@);
                            }
                        }
                        proof {
                            lemma_absent_count_zero(pre, l@);
                        }
                        assert(all_languages(cur) == seen.push(l@));
                        counts.push((l.clone(), 1));
                        assert forall|k: int| 0 <= k < seen.len() implies counts_view(counts@)[k] == (
                        seen[k], language_count(cur, seen[k])) by {
                            assert(seen[k] != l@);
                            assert(old_counts[k] == (old_vec[k].0@, old_vec[k].1 as int));
                            assert(counts_view(counts@)[k] == (counts@[k].0@, counts@[k].1 as int));
                            assert(counts@[k] == old_vec[k]);
                        }
                        assert(counts_view(counts@) =~= language_counts(cur));
                    }
                },
                None => {
                    assert(all_languages(cur) == seen);
                    assert(counts_view(counts@) =~= language_counts(cur));
                },
            }
            t = t + 1;
        }
        assert(fs.take(t as int) =~= fs);
        counts
    }

    /// The primary language of the tree rooted at `file_structure`: the
    /// language with most files, the first met in pre-order among equals.
    pub fn detect_primary_language(&self, file_structure: &DirectoryInfo) -> (r: Option<String>)
        ensures
            crate::tree::opt_view(r) == primary_language_of(flatten(*file_structure)),
    {
        let counts = self.count_languages(file_structure);
        let ghost fs = flatten(*file_structure);
        let ghost ls = all_languages(fs);
        assert(counts_view(counts@).len() == counts@.len());
        assert(language_counts(fs).len() == ls.len());
        if counts.len() == 0 {
            return None;
        }
        assert(counts_view(counts@)[0] == language_counts(fs)[0]);
        let mut best: usize = 0;
        let mut i: usize = 1;
        assert(ls.take(1).len() == 1);
        assert(best_index(fs, ls.take(1)) == 0);
        while i < counts.len()
            invariant
                1 <= i <= counts@.len(),
                counts@.len() == ls.len(),
                counts_view(counts@) == language_counts(fs),
                ls == all_languages(fs),
                best < i,
                best as int == best_index(fs, ls.take(i as int)),
            decreases counts.len() - i,
        {
            assert(ls.take(i + 1).drop_last() =~= ls.take(i as int));
            assert(ls.take(i + 1).last() == ls[i as int]);
            assert(ls.take(i + 1)[best as int] == ls[best as int]);
            assert(counts_view(counts@)[i as int] == language_counts(fs)[i as int]);
            assert(counts_view(counts@)[best as int] == language_counts(fs)[best as int]);
            if counts[i].1 > counts[best].1 {
                best = i;
            }
            i = i + 1;
        }
        assert(ls.take(i as int) =~= ls);
        assert(counts_view(counts@)[best as int] == language_counts(fs)[best as int]);
        Some(counts[best].0.clone())
    }

    /// Appends the frameworks whose names occur in a `package.json` text.
    pub fn detect_js_frameworks(&self, content: &str, frameworks: &mut Vec<String>)
        ensures
            string_views(final(frameworks)@) == string_views(old(frameworks)@) + found_in(
                content@,
                js_framework_table(),
            ),
    {
        let table = vec![
            ("react", "React"),
            ("vue", "Vue.js"),
            ("angular", "Angular"),
            ("svelte", "Svelte"),
            ("express", "Express.js"),
            ("nestjs", "NestJS"),
            ("next", "Next.js"),
            ("nuxt", "Nuxt.js"),
            ("gatsby", "Gatsby"),
            ("electron", "Electron"),
        ];
        assert(table@.map_values(|p: (&'static str, &'static str)| (p.0@, p.1@))
            =~= js_framework_table());
        let c = chars_of(content);
        push_found(&c, &table, frameworks);
    }

    /// Appends the build tools and the testing tools whose names occur in a
    /// `package.json` text.
    pub fn detect_js_tools(
        &self,
        content: &str,
        build_tools: &mut Vec<String>,
        testing_frameworks: &mut Vec<String>,
    )
        ensures
            string_views(final(build_tools)@) == string_views(old(build_tools)@) + found_in(
                content@,
                js_build_tool_table(),
            ),
            string_views(final(testing_frameworks)@) == string_views(old(testing_frameworks)@)
                + found_in(content@, js_testing_table()),
    {
        let builds = vec![
            ("webpack", "Webpack"),
            ("vite", "Vite"),
            ("rollup", "Rollup"),
            ("parcel", "Parcel"),
            ("esbuild", "ESBuild"),
            ("snowpack", "Snowpack"),
        ];
        assert(builds@.map_values(|p: (&'static str, &'static str)| (p.0@, p.1@))
            =~= js_build_tool_table());
        let tests = vec![
            ("jest", "Jest"),
            ("mocha", "Mocha"),
            ("chai", "Chai"),
            ("cypress", "Cypress"),
            ("playwright", "Playwright"),
            ("puppeteer", "Puppeteer"),
            ("jasmine", "Jasmine"),
        ];
        assert(tests@.map_values(|p: (&'static str, &'static str)| (p.0@, p.1@))
            =~= js_testing_table());
        let c = chars_of(content);
        push_found(&c, &builds, build_tools);
        push_found(&c, &tests, testing_frameworks);
    }

    /// Appends the files of the tree rooted at `dir` to `all_files`, in
    /// pre-order.
    pub fn collect_all_files(&self, dir: &DirectoryInfo, all_files: &mut Vec<FileInfo>)
        ensures
            views(final(all_files)@) == views(old(all_files)@) + flatten(*dir),
    {
        collect_files(dir, all_files);
    }

    /// Whether a direct subdirectory of `dir` is named `name`.
    pub fn has_directory(&self, dir: &DirectoryInfo, name: &str) -> (r: bool)
        ensures
            r == has_dir(*dir, name@),
    {
        let mut i: usize = 0;
        while i < dir.subdirectories.len()
            invariant
                i <= dir.subdirectories@.len(),
                forall|k: int| 0 <= k < i ==> (#[trigger] dir.subdirectories@[k]).name@ != name@,
            decreases dir.subdirectories.len() - i,
        {
            let c = chars_of(dir.subdirectories[i].name.as_str());
            if eq_lit(&c, name) {
                return true;
            }
            i = i + 1;
        }
        false
    }
}

} // verus!
