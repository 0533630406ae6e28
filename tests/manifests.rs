use repo_analyzer::config::{ConfigFile, FoundFile};
use repo_analyzer::filesystem::FileSystemAnalyzer;
use repo_analyzer::security::SecurityAnalyzer;
use repo_analyzer::tree::DirectoryInfo;

fn pairs(v: &[(&str, &str)]) -> Vec<(String, String)> {
    v.iter().map(|(a, b)| (a.to_string(), b.to_string())).collect()
}

fn sorted(mut v: Vec<(String, String)>) -> Vec<(String, String)> {
    v.sort();
    v
}

#[test]
fn package_json_dependencies_and_dev_dependencies() {
    let a = FileSystemAnalyzer::new();
    let (deps, scripts) = a.parse_package_json(
        r#"{"dependencies":{"react":"^18.0.0"},"devDependencies":{"jest":"^29.0.0"}}"#,
    );
    assert_eq!(
        sorted(deps.unwrap()),
        sorted(pairs(&[("react", "^18.0.0"), ("jest (dev)", "^29.0.0")]))
    );
    assert!(scripts.is_none());
}

#[test]
fn package_json_scripts_and_non_string_versions() {
    let a = FileSystemAnalyzer::new();
    let (deps, scripts) = a.parse_config_file(
        r#"{"dependencies":{"a":"1.0","b":{"x":1}},"scripts":{"build":"tsc","test":"jest"}}"#,
        "npm",
    );
    assert_eq!(deps.unwrap(), pairs(&[("a", "1.0")]));
    assert_eq!(sorted(scripts.unwrap()), pairs(&[("build", "tsc"), ("test", "jest")]));
}

#[test]
fn malformed_json_yields_nothing() {
    let a = FileSystemAnalyzer::new();
    let (deps, scripts) = a.parse_package_json("{not json");
    assert!(deps.is_none());
    assert!(scripts.is_none());
}

#[test]
fn requirements_txt_pins_and_wildcards() {
    let a = FileSystemAnalyzer::new();
    let (deps, scripts) = a.parse_requirements_txt("flask==2.0.1\nrequests\n");
    assert_eq!(deps.unwrap(), pairs(&[("flask", "2.0.1"), ("requests", "*")]));
    assert!(scripts.is_none());
}

#[test]
fn requirements_txt_comments_minimums_and_repeats() {
    let a = FileSystemAnalyzer::new();
    let (deps, _) = a.parse_requirements_txt(
        "# tools\n\n  numpy >= 1.20 \nflask==1.0\nflask == 2.0\n",
    );
    assert_eq!(deps.unwrap(), pairs(&[("numpy", ">=1.20"), ("flask", "2.0")]));
    let (none, _) = a.parse_requirements_txt("# only a comment\n\n");
    assert!(none.is_none());
}

#[test]
fn cargo_toml_versions() {
    let a = FileSystemAnalyzer::new();
    let (deps, scripts) = a.parse_cargo_toml(
        "[package]\nname = \"x\"\n\n[dependencies]\nserde = \"1.0\"\ntokio = { version = \"1\", features = [\"full\"] }\nlocal = { path = \"../local\" }\n",
    );
    assert_eq!(
        sorted(deps.unwrap()),
        sorted(pairs(&[("serde", "1.0"), ("tokio", "1"), ("local", "*")]))
    );
    assert!(scripts.is_none());
}

#[test]
fn cargo_toml_without_dependencies_yields_nothing() {
    let a = FileSystemAnalyzer::new();
    assert!(a.parse_cargo_toml("[package]\nname = \"x\"\n").0.is_none());
    assert!(a.parse_cargo_toml("this is = = not toml").0.is_none());
}

#[test]
fn pyproject_dependencies() {
    let a = FileSystemAnalyzer::new();
    let (deps, _) = a.parse_pyproject_toml(
        "[project]\nname = \"x\"\ndependencies = [\"requests>=2.0\", \"flask==2.0.1\", \"click\"]\n",
    );
    assert_eq!(
        deps.unwrap(),
        pairs(&[("requests", ">=2.0"), ("flask", "2.0.1"), ("click", "*")])
    );
    assert!(a.parse_pyproject_toml("[project]\nname = \"x\"\n").0.is_none());
}

#[test]
fn other_ecosystems_are_kept_verbatim_only() {
    let a = FileSystemAnalyzer::new();
    let (deps, scripts) = a.parse_config_file("FROM rust\n", "docker");
    assert!(deps.is_none());
    assert!(scripts.is_none());
}

fn found(path: &str, name: &str, content: Option<&str>) -> FoundFile {
    FoundFile {
        path: path.to_string(),
        name: name.to_string(),
        content: content.map(|c| c.to_string()),
    }
}

#[test]
fn config_files_are_grouped_by_pattern() {
    let a = FileSystemAnalyzer::new();
    let list = vec![
        found("requirements.txt", "requirements.txt", Some("flask==2.0.1\nrequests\n")),
        found("package.json", "package.json", Some(r#"{"dependencies":{"react":"^18.0.0"}}"#)),
        found("Dockerfile.dev", "Dockerfile.dev", Some("FROM x\n")),
        found(".github", ".github", None),
        found("src/main.rs", "main.rs", Some("fn main() {}\n")),
    ];
    assert!(a.is_config_candidate("Dockerfile.dev"));
    assert!(!a.is_config_candidate("main.rs"));
    let configs = a.config_files_from(&list);
    let tags: Vec<&str> = configs.iter().map(|c| c.file_type.as_str()).collect();
    assert_eq!(tags, vec!["npm", "pip", "docker"]);
    assert_eq!(configs[1].parsed_dependencies.clone().unwrap(), pairs(&[("flask", "2.0.1"), ("requests", "*")]));
    assert_eq!(configs[2].content, "FROM x\n");
}

#[test]
fn unpinned_dependencies_are_flagged() {
    let a = FileSystemAnalyzer::new();
    let (deps, _) = a.parse_requirements_txt("flask==2.0.1\nrequests\n");
    let config = ConfigFile {
        path: "requirements.txt".to_string(),
        file_type: "pip".to_string(),
        content: String::new(),
        parsed_dependencies: deps,
        scripts: None,
    };
    let npm = ConfigFile {
        path: "package.json".to_string(),
        file_type: "npm".to_string(),
        content: String::new(),
        parsed_dependencies: Some(pairs(&[("left-pad", "latest"), ("react", "^18.0.0")])),
        scripts: None,
    };
    let root = DirectoryInfo::new("r".to_string(), "r".to_string());
    let info = SecurityAnalyzer.analyze_security(&root, &[config, npm]);
    assert_eq!(info.outdated_dependencies, vec!["requests: *".to_string(), "left-pad: latest".to_string()]);
    assert!(!info.has_security_policy);
    assert!(!info.has_dependabot);
    assert!(!info.has_codeql);
    assert!(info.vulnerability_alerts.is_empty());
}

#[test]
fn package_entries_from_members() {
    let a = FileSystemAnalyzer::new();
    let deps = Some(vec![("react".to_string(), Some("^18.0.0".to_string())), ("odd".to_string(), None)]);
    let dev = Some(vec![("jest".to_string(), Some("^29.0.0".to_string()))]);
    let (d, s) = a.package_entries_from(deps, dev, None);
    assert_eq!(d.unwrap(), pairs(&[("react", "^18.0.0"), ("jest (dev)", "^29.0.0")]));
    assert!(s.is_none());
    let (none, _) = a.package_entries_from(None, None, None);
    assert!(none.is_none());
}

#[test]
fn cargo_dependencies_from_entries() {
    let a = FileSystemAnalyzer::new();
    let entries = vec![
        ("serde".to_string(), Some("1".to_string()), None),
        ("tokio".to_string(), None, Some(Some("1.2".to_string()))),
        ("local".to_string(), None, Some(None)),
        ("weird".to_string(), None, None),
    ];
    let d = a.cargo_dependencies_from(Some(entries)).unwrap();
    assert_eq!(d, pairs(&[("serde", "1"), ("tokio", "1.2"), ("local", "*"), ("weird", "*")]));
    assert!(a.cargo_dependencies_from(Some(vec![])).is_none());
}

#[test]
fn pyproject_dependencies_from_items() {
    let a = FileSystemAnalyzer::new();
    let items = vec![Some("a==1".to_string()), None, Some("b >= 2 ".to_string()), Some(" c ".to_string())];
    let d = a.pyproject_dependencies_from(Some(items)).unwrap();
    assert_eq!(d, pairs(&[("a", "1"), ("b", ">=2"), (" c ", "*")]));
}

#[test]
fn build_file_info_from_given_results() {
    let a = FileSystemAnalyzer::new();
    let bytes = b"x\n# y\n".to_vec();
    let text: Vec<char> = "x\n# y\n".chars().collect();
    let f = a.build_file_info(
        "p/s.sh".to_string(),
        "s.sh".to_string(),
        6,
        &bytes,
        Some(vec!['s', 'h']),
        &text,
        "UTF-8".to_string(),
        "digest".to_string(),
        Some("text/x-sh".to_string()),
    );
    assert_eq!(f.language.as_deref(), Some("Shell"));
    assert_eq!(f.comment_lines, Some(1));
    assert_eq!(f.lines_of_code, Some(1));
    assert_eq!(f.hash, "digest");
    assert_eq!(f.mime_type.as_deref(), Some("text/x-sh"));
}
