use repo_analyzer::config::{ConfigFile, FoundFile};
use repo_analyzer::docs::DocumentationFile;
use repo_analyzer::detect::ProjectTypeDetector;
use repo_analyzer::filesystem::FileSystemAnalyzer;
use repo_analyzer::history::{analyze_history, CommitRecord};
use repo_analyzer::security::SecurityAnalyzer;
use repo_analyzer::tree::{DirectoryInfo, FileInfo};

fn classify(name: &str, bytes: &[u8]) -> FileInfo {
    FileSystemAnalyzer::new().classify_file(
        name.to_string(),
        name.to_string(),
        bytes.len() as u64,
        &bytes.to_vec(),
    )
}

fn dir(name: &str) -> DirectoryInfo {
    DirectoryInfo::new(name.to_string(), name.to_string())
}

fn config(tag: &str, content: &str) -> ConfigFile {
    ConfigFile {
        path: tag.to_string(),
        file_type: tag.to_string(),
        content: content.to_string(),
        parsed_dependencies: None,
        scripts: None,
    }
}

#[test]
fn project_info_from_manifests_and_shape() {
    let mut root = dir("r");
    root.add_file(classify("main.rs", b"fn main() {}\n"));
    root.add_file(classify("server.py", b"x = 1\n"));
    root.add_file(classify("util.rs", b"fn u() {}\n"));
    root.add_subdirectory(dir("tests"));
    root.add_subdirectory(dir("docs"));
    let configs = vec![
        config("cargo", "[package]"),
        config("npm", r#"{"dependencies":{"react":"1","vite":"2"},"devDependencies":{"jest":"3"}}"#),
        config("docker", "FROM x"),
        config("travis", ""),
    ];
    let info = ProjectTypeDetector.detect_project_info(&configs, &root);
    assert_eq!(info.primary_language.as_deref(), Some("Rust"));
    assert_eq!(
        info.project_type,
        vec!["rust", "cli-application", "backend-service", "tested-project", "documented-project"]
    );
    assert_eq!(info.package_managers, vec!["cargo", "npm"]);
    assert_eq!(info.build_tools, vec!["cargo", "Vite"]);
    assert_eq!(info.frameworks, vec!["React"]);
    assert_eq!(info.testing_frameworks, vec!["Jest"]);
    assert_eq!(info.deployment_configs, vec!["docker"]);
    assert_eq!(info.ci_cd_tools, vec!["travis-ci"]);
    assert!(info.database_technologies.is_empty());
}

#[test]
fn primary_language_ties_go_to_the_first_met() {
    let mut root = dir("r");
    root.add_file(classify("a.py", b"x\n"));
    root.add_file(classify("b.rs", b"x\n"));
    let info = ProjectTypeDetector.detect_project_info(&[], &root);
    assert_eq!(info.primary_language.as_deref(), Some("Python"));
    let empty = ProjectTypeDetector.detect_project_info(&[], &dir("e"));
    assert_eq!(empty.primary_language, None);
    assert!(empty.project_type.is_empty());
}

#[test]
fn security_policy_and_workflows() {
    let mut workflows = dir("workflows");
    workflows.add_file(classify("CodeQL-analysis.yml", b"on: push\n"));
    workflows.add_file(classify("dependabot.yml", b"version: 2\n"));
    let mut github = dir(".github");
    github.add_subdirectory(workflows);
    let mut root = dir("r");
    root.add_file(classify("SECURITY.md", b"# Policy\n"));
    root.add_subdirectory(github);
    let info = SecurityAnalyzer.analyze_security(&root, &[]);
    assert!(info.has_security_policy);
    assert!(info.has_codeql);
    assert!(info.has_dependabot);
    assert!(SecurityAnalyzer.has_github_workflow_file(&root, "codeql"));
    assert!(!SecurityAnalyzer.has_github_workflow_file(&root, "snyk"));
    assert!(!SecurityAnalyzer.has_github_workflow_file(&dir("bare"), "codeql"));
}

fn commit(sha: &str, name: Option<&str>, email: Option<&str>, time: i64, entries: &[&str]) -> CommitRecord {
    CommitRecord {
        sha: sha.to_string(),
        message: format!("commit {}", sha),
        author_name: name.map(|s| s.to_string()),
        author_email: email.map(|s| s.to_string()),
        time,
        tree_entries: entries.iter().map(|s| s.to_string()).collect(),
    }
}

#[test]
fn three_commits_one_contributor() {
    let commits = vec![
        commit("c3", Some("Ann"), Some("ann@x.org"), 1_700_000_000, &["README.md", "src/main.rs"]),
        commit("c2", Some("Ann"), Some("ann@x.org"), 1_690_000_000, &["README.md"]),
        commit("c1", Some("Ann"), Some("ann@x.org"), 1_600_000_000, &["README.md"]),
    ];
    let g = analyze_history(&commits, 2, 1);
    assert_eq!(g.total_commits, 3);
    assert_eq!(g.contributors.len(), 1);
    assert_eq!(g.contributors[0].login, "Ann");
    assert_eq!(g.contributors[0].contributions, Some(3));
    assert_eq!(g.recent_commits.len(), 3);
    assert_eq!(g.recent_commits[0].sha, "c3");
    assert_eq!(g.first_commit_date, Some(1_700_000_000));
    assert_eq!(g.last_commit_date, Some(1_600_000_000));
    assert_eq!(g.branch_count, 2);
    assert_eq!(g.tag_count, 1);
    assert_eq!(
        g.commit_frequency,
        vec![("2023-11".to_string(), 1), ("2023-07".to_string(), 1), ("2020-09".to_string(), 1)]
    );
    assert_eq!(
        g.most_active_files,
        vec![("README.md".to_string(), 3), ("src/main.rs".to_string(), 1)]
    );
}

#[test]
fn history_limits_and_unknown_authors() {
    let many: Vec<String> = (0..150).map(|i| format!("f{}", i)).collect();
    let refs: Vec<&str> = many.iter().map(|s| s.as_str()).collect();
    let mut commits = Vec::new();
    for i in 0..1005i64 {
        let name = if i % 2 == 0 { Some("Bo") } else { None };
        commits.push(commit(&format!("s{}", i), name, Some("bo@x.org"), 1_600_000_000 - i * 60, if i == 0 { &refs } else { &[] }));
    }
    let g = analyze_history(&commits, 0, 0);
    assert_eq!(g.total_commits, 1000);
    assert_eq!(g.recent_commits.len(), 50);
    assert_eq!(g.recent_commits[1].author.login, "Unknown");
    assert_eq!(g.contributors.len(), 1);
    assert_eq!(g.contributors[0].contributions, Some(500));
    assert_eq!(g.most_active_files.len(), 20);
    let counted: usize = 101;
    assert!(g.most_active_files.iter().all(|(_, c)| *c == 1));
    assert_eq!(g.most_active_files[0].0, "f0");
    assert!(counted > 100);
}

#[test]
fn documentation_records() {
    let a = FileSystemAnalyzer::new();
    let readme = "# Title\n[![build](x)](y)\n## Table of Contents\nSome words here.\n#nospace\n";
    let list = vec![
        FoundFile { path: "README.md".to_string(), name: "README.md".to_string(), content: Some(readme.to_string()) },
        FoundFile { path: "license".to_string(), name: "license".to_string(), content: Some("MIT".to_string()) },
        FoundFile { path: "docs".to_string(), name: "docs".to_string(), content: None },
    ];
    let docs: Vec<DocumentationFile> = a.documentation_from(&list);
    assert_eq!(docs.len(), 2);
    assert_eq!(docs[0].file_type, "readme");
    assert_eq!(docs[0].sections, vec!["Title".to_string(), "Table of Contents".to_string()]);
    assert!(docs[0].has_badges);
    assert!(docs[0].has_toc);
    assert_eq!(docs[0].word_count, 11);
    assert_eq!(docs[1].file_type, "license");
    assert_eq!(docs[1].word_count, 1);
    assert!(!docs[1].has_toc);
}

#[test]
fn tally_counts_in_first_appearance_order() {
    let keys: Vec<String> = ["b", "a", "b", "c", "b"].iter().map(|s| s.to_string()).collect();
    let t = repo_analyzer::history::tally_of(&keys);
    assert_eq!(t, vec![("b".to_string(), 3), ("a".to_string(), 1), ("c".to_string(), 1)]);
    assert!(repo_analyzer::history::tally_of(&Vec::new()).is_empty());
}
