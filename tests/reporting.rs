use repo_analyzer::detect::ProjectTypeDetector;
use repo_analyzer::filesystem::FileSystemAnalyzer;
use repo_analyzer::metrics::CodeMetricsCalculator;
use repo_analyzer::repo_url::{parse_github_url, UrlError};
use repo_analyzer::summary::{decimal, generate_analysis_summary};
use repo_analyzer::tree::DirectoryInfo;

#[test]
fn summary_lists_what_was_found() {
    let a = FileSystemAnalyzer::new();
    let mut root = DirectoryInfo::new("r".to_string(), "r".to_string());
    let big = vec![b'x'; 3000];
    root.add_file(a.classify_file("main.rs".to_string(), "main.rs".to_string(), 3000, &big));
    let small = vec![b'y'; 100];
    root.add_file(a.classify_file("t.py".to_string(), "t.py".to_string(), 100, &small));
    let m = CodeMetricsCalculator.calculate_metrics(&root);
    let p = ProjectTypeDetector.detect_project_info(&[], &root);
    let s = generate_analysis_summary(
        "owner/repo",
        &Some("A tool".to_string()),
        5,
        2,
        1,
        &m,
        &p,
        3,
        42,
    );
    let want = "Repository: owner/repo\n\
Description: A tool\n\
Stars: 5, Forks: 2, Open Issues: 1\n\
Primary Language: Rust\n\
Total Files: 2, Lines of Code: 2, Size: 3 KB\n\
Contributors: 3, Total Commits: 42\n\
Project Types: cli-application\n\
Languages: Rust (96.8%)";
    assert_eq!(s, want);
}

#[test]
fn summary_without_optional_lines() {
    let root = DirectoryInfo::new("r".to_string(), "r".to_string());
    let m = CodeMetricsCalculator.calculate_metrics(&root);
    let p = ProjectTypeDetector.detect_project_info(&[], &root);
    let s = generate_analysis_summary("o/r", &None, 0, 0, 0, &m, &p, 0, 0);
    assert_eq!(
        s,
        "Repository: o/r\nStars: 0, Forks: 0, Open Issues: 0\nTotal Files: 0, Lines of Code: 0, Size: 0 KB\nContributors: 0, Total Commits: 0"
    );
}

#[test]
fn decimal_digits() {
    let d: String = decimal(0).into_iter().collect();
    assert_eq!(d, "0");
    let d: String = decimal(1234567890123).into_iter().collect();
    assert_eq!(d, "1234567890123");
}

#[test]
fn github_urls() {
    assert_eq!(
        parse_github_url("https://github.com/owner/repo.git"),
        Ok(("owner".to_string(), "repo".to_string()))
    );
    assert_eq!(
        parse_github_url("https://github.com/owner/repo/tree/main"),
        Ok(("owner".to_string(), "repo".to_string()))
    );
    assert_eq!(parse_github_url("not a url"), Err(UrlError::Invalid));
    assert_eq!(parse_github_url("https://gitlab.com/a/b"), Err(UrlError::NotGitHub));
    assert_eq!(parse_github_url("https://github.com/owner"), Err(UrlError::BadFormat));
    assert_eq!(parse_github_url("mailto:someone@github.com"), Err(UrlError::NotGitHub));
}
