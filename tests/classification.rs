use repo_analyzer::filesystem::{DirEntry, DirListing, FileSystemAnalyzer};
use repo_analyzer::text::{chars_of, split_lines};
use repo_analyzer::tree::{DirectoryInfo, FileInfo};

fn classify(name: &str, bytes: &[u8]) -> FileInfo {
    let a = FileSystemAnalyzer::new();
    a.classify_file(
        format!("src/{}", name),
        name.to_string(),
        bytes.len() as u64,
        &bytes.to_vec(),
    )
}

#[test]
fn rust_file_line_counts() {
    let f = classify("a.rs", b"// comment\nfn main() {}\n\n");
    assert!(f.is_text);
    assert!(!f.is_binary);
    assert_eq!(f.blank_lines, Some(1));
    assert_eq!(f.comment_lines, Some(1));
    assert_eq!(f.lines_of_code, Some(1));
    let total = f.lines_of_code.unwrap() + f.blank_lines.unwrap() + f.comment_lines.unwrap();
    assert_eq!(total, 3);
    assert_eq!(f.language.as_deref(), Some("Rust"));
    assert_eq!(f.extension.as_deref(), Some("rs"));
    assert_eq!(f.encoding.as_deref(), Some("UTF-8"));
    assert_eq!(f.content_preview.as_deref(), Some("// comment\nfn main() {}\n"));
}

#[test]
fn block_comment_spans_lines_but_not_blank_ones() {
    let f = classify("b.c", b"/* start\n\n   middle\nend */\nint x;\n");
    assert_eq!(f.blank_lines, Some(1));
    assert_eq!(f.comment_lines, Some(3));
    assert_eq!(f.lines_of_code, Some(1));
}

#[test]
fn python_docstring_on_one_line_does_not_open_a_block() {
    let f = classify("m.py", b"\"\"\"doc\"\"\"\nx = 1\n# note\n");
    assert_eq!(f.comment_lines, Some(2));
    assert_eq!(f.lines_of_code, Some(1));
    assert_eq!(f.language.as_deref(), Some("Python"));
}

#[test]
fn crlf_lines_and_uppercase_extension() {
    let f = classify("Main.RS", b"fn a() {}\r\n// x\r\n");
    assert_eq!(f.language.as_deref(), Some("Rust"));
    assert_eq!(f.comment_lines, Some(1));
    assert_eq!(f.lines_of_code, Some(1));
    assert_eq!(f.content_preview.as_deref(), Some("fn a() {}\n// x"));
}

#[test]
fn null_byte_makes_a_file_binary() {
    let f = classify("data.txt", b"abc\0def");
    assert!(f.is_binary);
    assert!(!f.is_text);
    assert_eq!(f.lines_of_code, None);
    assert_eq!(f.content_preview, None);
    assert_eq!(f.encoding, None);
}

#[test]
fn null_byte_after_the_sniffed_prefix_is_not_seen() {
    let mut bytes = vec![b'a'; 600];
    bytes[550] = 0;
    let f = classify("late.txt", &bytes);
    assert!(!f.is_binary);
}

#[test]
fn binary_extension_makes_a_file_binary() {
    let f = classify("logo.PNG", b"not really an image");
    assert!(f.is_binary);
    assert_eq!(f.mime_type.as_deref(), Some("image/png"));
}

#[test]
fn oversized_file_is_not_inspected_but_hashed() {
    let a = FileSystemAnalyzer::new();
    let bytes = b"hello".to_vec();
    let f = a.classify_file("big.rs".to_string(), "big.rs".to_string(), 2_000_000, &bytes);
    assert!(f.is_binary);
    assert_eq!(f.mime_type.as_deref(), Some("application/octet-stream"));
    assert_eq!(f.language, None);
    assert_eq!(f.lines_of_code, None);
    assert_eq!(f.hash, "5d41402abc4b2a76b9719d911017c592");
}

#[test]
fn hash_is_md5_of_the_bytes() {
    let f = classify("e.txt", b"");
    assert_eq!(f.hash, "d41d8cd98f00b204e9800998ecf8427e");
    let g = classify("h.txt", b"hello");
    assert_eq!(g.hash, "5d41402abc4b2a76b9719d911017c592");
}

#[test]
fn classification_is_repeatable() {
    let bytes = b"\x00\x01binary".to_vec();
    let a = classify("x.dat", &bytes);
    let b = classify("x.dat", &bytes);
    assert_eq!(a.is_binary, b.is_binary);
    assert_eq!(a.hash, b.hash);
    let t = b"plain text".to_vec();
    assert_eq!(classify("y.md", &t).is_binary, classify("y.md", &t).is_binary);
    assert_eq!(classify("y.md", &t).hash, classify("y.md", &t).hash);
}

#[test]
fn invalid_utf8_is_replaced() {
    let f = classify("bad.txt", b"ok\xffok\n");
    assert_eq!(f.content_preview.as_deref(), Some("ok\u{fffd}ok"));
    assert_eq!(f.lines_of_code, Some(1));
}

#[test]
fn preview_keeps_fifty_lines() {
    let text: String = (0..60).map(|i| format!("line{}\n", i)).collect();
    let f = classify("long.txt", text.as_bytes());
    let preview = f.content_preview.unwrap();
    assert_eq!(preview.lines().count(), 50);
    assert!(preview.ends_with("line49"));
}

#[test]
fn empty_file_has_no_preview() {
    let f = classify("empty.rs", b"");
    assert!(f.is_text);
    assert_eq!(f.lines_of_code, Some(0));
    assert_eq!(f.content_preview, None);
}

#[test]
fn extensionless_and_dotfiles() {
    let f = classify("Makefile", b"all:\n");
    assert_eq!(f.extension, None);
    assert_eq!(f.language, None);
    let g = classify(".bashrc", b"# x\n");
    assert_eq!(g.extension, None);
    assert_eq!(g.comment_lines, Some(0));
}

#[test]
fn lines_split_like_str_lines() {
    let s = "a\r\nb\n\nc\r";
    let lines = split_lines(&chars_of(s));
    let got: Vec<String> = lines.iter().map(|l| l.iter().collect()).collect();
    let want: Vec<String> = s.lines().map(|l| l.to_string()).collect();
    assert_eq!(got, want);
}

#[test]
fn ignore_patterns_match_prefixes() {
    let a = FileSystemAnalyzer::new();
    assert!(a.is_ignored(".git"));
    assert!(a.is_ignored("node_modules"));
    assert!(a.is_ignored("targets"));
    assert!(a.is_ignored(".envrc"));
    assert!(!a.is_ignored("src"));
    assert!(!a.is_ignored("app.log"));
}

fn file(name: &str, size: u64) -> FileInfo {
    classify(name, &vec![b'x'; size as usize])
}

#[test]
fn directory_total_is_files_plus_subdirectories() {
    let mut child = DirectoryInfo::new("root/sub".to_string(), "sub".to_string());
    child.add_file(file("c.rs", 7));
    let mut root = DirectoryInfo::new("root".to_string(), "root".to_string());
    root.add_file(file("a.rs", 3));
    root.add_file(file("b.rs", 5));
    root.add_subdirectory(child);
    assert_eq!(root.total_size, 15);
    assert_eq!(root.file_count, 2);
    assert_eq!(root.subdirectory_count, 1);
    let own: u64 = root.files.iter().map(|f| f.size).sum();
    let below: u64 = root.subdirectories.iter().map(|d| d.total_size).sum();
    assert_eq!(root.total_size, own + below);
}

#[test]
fn listing_skips_ignored_entries() {
    let a = FileSystemAnalyzer::new();
    let nested = DirListing {
        path: "r/src".to_string(),
        name: "src".to_string(),
        entries: vec![DirEntry::File(file("lib.rs", 10))],
    };
    let ignored = DirListing {
        path: "r/node_modules".to_string(),
        name: "node_modules".to_string(),
        entries: vec![DirEntry::File(file("x.js", 100))],
    };
    let root = DirListing {
        path: "r".to_string(),
        name: "r".to_string(),
        entries: vec![
            DirEntry::File(file("main.rs", 4)),
            DirEntry::Dir(nested),
            DirEntry::Dir(ignored),
            DirEntry::File(file("debug.log", 50)),
        ],
    };
    let d = a.analyze_directory(&root).unwrap();
    assert_eq!(d.total_size, 64);
    assert_eq!(d.files.len(), 2);
    assert_eq!(d.files[1].name, "debug.log");
    assert_eq!(d.subdirectories.len(), 1);
    assert_eq!(d.subdirectories[0].name, "src");
    assert_eq!(d.subdirectories[0].total_size, 10);
}

#[test]
fn listing_total_overflow_is_refused() {
    let a = FileSystemAnalyzer::new();
    let mut big = file("a.rs", 1);
    big.size = u64::MAX;
    let root = DirListing {
        path: "r".to_string(),
        name: "r".to_string(),
        entries: vec![DirEntry::File(big), DirEntry::File(file("b.rs", 1))],
    };
    assert!(a.analyze_directory(&root).is_none());
}
