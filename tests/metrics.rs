use repo_analyzer::filesystem::FileSystemAnalyzer;
use repo_analyzer::metrics::CodeMetricsCalculator;
use repo_analyzer::tree::{DirectoryInfo, FileInfo};

fn classify(name: &str, bytes: &[u8]) -> FileInfo {
    FileSystemAnalyzer::new().classify_file(
        name.to_string(),
        name.to_string(),
        bytes.len() as u64,
        &bytes.to_vec(),
    )
}

fn sized(name: &str, size: usize) -> FileInfo {
    classify(name, &vec![b'x'; size])
}

#[test]
fn totals_and_language_stats() {
    let mut sub = DirectoryInfo::new("r/s".to_string(), "s".to_string());
    sub.add_file(classify("b.py", b"x = 1\n\n# c\n"));
    let mut root = DirectoryInfo::new("r".to_string(), "r".to_string());
    root.add_file(classify("a.rs", b"// comment\nfn main() {}\n\n"));
    root.add_file(classify("c.rs", b"fn f() {}\n"));
    root.add_file(classify("img.png", b"\x89PNG"));
    root.add_subdirectory(sub);
    let calc = CodeMetricsCalculator;
    assert!(calc.counters_fit(&root));
    let m = calc.calculate_metrics(&root);
    assert_eq!(m.total_files, 3);
    assert_eq!(m.total_lines, 7);
    assert_eq!(m.total_loc, 3);
    assert_eq!(m.total_blank_lines, 2);
    assert_eq!(m.total_comment_lines, 2);
    assert_eq!(m.total_size, 25 + 10 + 11);
    assert_eq!(m.average_file_size, 46 / 3);
    assert_eq!(m.language_stats.len(), 2);
    let rust = &m.language_stats[0];
    assert_eq!(rust.language, "Rust");
    assert_eq!(rust.file_count, 2);
    assert_eq!(rust.lines_of_code, 2);
    assert_eq!(rust.total_bytes, 35);
    assert_eq!(rust.percentage_hundredths, 35 * 10000 / 46);
    let py = &m.language_stats[1];
    assert_eq!(py.language, "Python");
    assert_eq!(py.total_bytes, 11);
    assert_eq!(py.percentage_hundredths, 11 * 10000 / 46);
}

#[test]
fn shares_sum_to_at_most_one_hundred_percent() {
    let mut root = DirectoryInfo::new("r".to_string(), "r".to_string());
    root.add_file(sized("a.rs", 3));
    root.add_file(sized("b.py", 3));
    root.add_file(sized("c.go", 3));
    root.add_file(sized("notes", 5));
    let m = CodeMetricsCalculator.calculate_metrics(&root);
    let sum: u64 = m.language_stats.iter().map(|s| s.percentage_hundredths).sum();
    assert!(sum <= 10000);
    let bytes: u64 = m.language_stats.iter().map(|s| s.total_bytes).sum();
    assert_eq!(bytes, 9);
    assert_eq!(m.total_size, 14);
}

#[test]
fn shares_of_fully_named_tree_use_all_bytes() {
    let mut root = DirectoryInfo::new("r".to_string(), "r".to_string());
    root.add_file(sized("a.rs", 1));
    root.add_file(sized("b.rs", 1));
    root.add_file(sized("c.py", 2));
    let m = CodeMetricsCalculator.calculate_metrics(&root);
    let bytes: u64 = m.language_stats.iter().map(|s| s.total_bytes).sum();
    assert_eq!(bytes, m.total_size);
    let sum: u64 = m.language_stats.iter().map(|s| s.percentage_hundredths).sum();
    assert_eq!(sum, 10000);
}

#[test]
fn empty_tree_has_zero_metrics() {
    let root = DirectoryInfo::new("r".to_string(), "r".to_string());
    let m = CodeMetricsCalculator.calculate_metrics(&root);
    assert_eq!(m.total_files, 0);
    assert_eq!(m.average_file_size, 0);
    assert!(m.language_stats.is_empty());
    assert!(m.largest_files.is_empty());
    assert!(m.most_complex_files.is_empty());
}

#[test]
fn rankings_are_truncated_and_descending() {
    let mut root = DirectoryInfo::new("r".to_string(), "r".to_string());
    for i in 0..15usize {
        let size = (i * 7) % 11 + 1;
        let text: String = (0..size).map(|_| "x\n").collect();
        root.add_file(classify(&format!("f{}.rs", i), text.as_bytes()));
    }
    let m = CodeMetricsCalculator.calculate_metrics(&root);
    assert_eq!(m.largest_files.len(), 10);
    assert_eq!(m.most_complex_files.len(), 10);
    for w in m.largest_files.windows(2) {
        assert!(w[0].size >= w[1].size);
    }
    for w in m.most_complex_files.windows(2) {
        assert!(w[0].lines_of_code.unwrap_or(0) >= w[1].lines_of_code.unwrap_or(0));
    }
    assert_eq!(m.largest_files[0].size, 22);
}

#[test]
fn rankings_keep_tree_order_among_equals() {
    let mut root = DirectoryInfo::new("r".to_string(), "r".to_string());
    root.add_file(sized("a.bin", 5));
    root.add_file(sized("b.bin", 9));
    root.add_file(sized("c.bin", 5));
    let m = CodeMetricsCalculator.calculate_metrics(&root);
    let names: Vec<&str> = m.largest_files.iter().map(|f| f.name.as_str()).collect();
    assert_eq!(names, vec!["b.bin", "a.bin", "c.bin"]);
    let complex: Vec<&str> = m.most_complex_files.iter().map(|f| f.name.as_str()).collect();
    assert_eq!(complex, vec!["a.bin", "b.bin", "c.bin"]);
}

#[test]
fn counters_that_overflow_are_reported() {
    let mut f = sized("a.rs", 1);
    f.lines_of_code = Some(u32::MAX);
    let mut g = sized("b.rs", 1);
    g.lines_of_code = Some(1);
    let mut root = DirectoryInfo::new("r".to_string(), "r".to_string());
    root.add_file(f);
    root.add_file(g);
    assert!(!CodeMetricsCalculator.counters_fit(&root));
}
