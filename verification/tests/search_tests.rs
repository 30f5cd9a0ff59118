use codeedit::search::{perform_search, FileEntry, SearchResult};

fn entry(full: &str, rel: &str, content: Option<&[u8]>) -> FileEntry {
    FileEntry {
        components: full.split('/').map(|c| c.as_bytes().to_vec()).collect(),
        full_path: full.as_bytes().to_vec(),
        rel_path: rel.as_bytes().to_vec(),
        content: content.map(|c| c.to_vec()),
    }
}

fn workspace() -> Vec<FileEntry> {
    vec![
        entry(
            "root/src/main.rs",
            "src/main.rs",
            Some(b"fn main() { println!(\"Hello\"); }\n"),
        ),
        entry("root/src/util.rs", "src/util.rs", Some(b"pub fn help() { }\n")),
        entry(
            "root/README.md",
            "README.md",
            Some(b"# My Project\nTODO: finish this.\n"),
        ),
        entry(
            "root/target/ignore_me.rs",
            "target/ignore_me.rs",
            Some(b"fn main() { // duplicate }\n"),
        ),
    ]
}

fn text(bytes: &[u8]) -> String {
    String::from_utf8(bytes.to_vec()).unwrap()
}

fn run(files: &Vec<FileEntry>, q: &str, regex: bool, glob: Option<&str>) -> Vec<SearchResult> {
    let query = q.as_bytes().to_vec();
    let glob_vec = glob.map(|g| g.as_bytes().to_vec());
    perform_search(files, &query, regex, glob_vec.as_ref())
}

#[test]
fn test_search_content_substring() {
    let files = workspace();
    let results = run(&files, "println", false, None);

    assert_eq!(results.len(), 1);
    assert!(text(&results[0].file).contains("main.rs"));
    assert!(text(&results[0].preview).contains("fn main"));
}

#[test]
fn test_search_filename() {
    let files = workspace();
    let results = run(&files, "util.rs", false, None);

    assert_eq!(results.len(), 1);
    assert!(text(&results[0].file).contains("util.rs"));
    assert!(text(&results[0].preview).contains("FILENAME MATCH"));
}

#[test]
fn test_search_ignore_target() {
    let files = workspace();
    let results = run(&files, "fn main", false, None);

    assert_eq!(results.len(), 1);
    assert!(text(&results[0].file).contains("src"));
}

#[test]
fn test_exclusion_is_by_component_not_substring() {
    let files = vec![
        entry("target_app/notes.rs", "target_app/notes.rs", Some(b"fn main() {}\n")),
        entry("target/other.rs", "target/other.rs", Some(b"fn main() {}\n")),
    ];
    let results = run(&files, "fn main", false, None);

    assert_eq!(results.len(), 1);
    assert!(text(&results[0].file).contains("target_app"));
}

#[test]
fn test_case_insensitive_substring() {
    let files = vec![entry("root/notes.md", "notes.md", Some(b"plan\ntodo: write tests\n"))];
    let results = run(&files, "TODO", false, None);

    assert_eq!(results.len(), 1);
    assert_eq!(results[0].line, 2);
    assert_eq!(results[0].column, 1);
    assert_eq!(text(&results[0].preview), "todo: write tests");
}

#[test]
fn test_column_is_one_based_byte_offset() {
    let files = vec![entry("root/a.txt", "a.txt", Some(b"abc TODO here\n"))];
    let results = run(&files, "todo", false, None);

    assert_eq!(results.len(), 1);
    assert_eq!(results[0].line, 1);
    assert_eq!(results[0].column, 5);
}

#[test]
fn test_binary_skip_keeps_filename_match() {
    let content: Vec<u8> = vec![100, 97, 116, 97, 0, 1, 2, 3];
    let files = vec![FileEntry {
        components: vec![b"root".to_vec(), b"data.bin".to_vec()],
        full_path: b"root/data.bin".to_vec(),
        rel_path: b"data.bin".to_vec(),
        content: Some(content),
    }];
    let results = run(&files, "data", false, None);

    assert_eq!(results.len(), 1);
    assert!(text(&results[0].preview).starts_with("FILENAME MATCH: "));
}

#[test]
fn test_unreadable_file_still_matches_by_name() {
    let files = vec![entry("root/locked.txt", "locked.txt", None)];
    let results = run(&files, "locked", false, None);

    assert_eq!(results.len(), 1);
    assert!(text(&results[0].preview).starts_with("FILENAME MATCH: "));
}

#[test]
fn test_result_cap() {
    let line = b"hit\n".repeat(1000);
    let files = vec![
        entry("root/a.txt", "a.txt", Some(&line)),
        entry("root/b.txt", "b.txt", Some(&line)),
        entry("root/c.txt", "c.txt", Some(&line)),
    ];
    let results = run(&files, "hit", false, None);

    assert_eq!(results.len(), 2001);
}

#[test]
fn test_glob_is_literal_suffix() {
    let files = vec![
        entry("root/a.rs", "a.rs", Some(b"shared text\n")),
        entry("root/b.txt", "b.txt", Some(b"shared text\n")),
    ];
    let results = run(&files, "shared", false, Some("*.rs"));

    assert_eq!(results.len(), 1);
    assert_eq!(text(&results[0].file), "a.rs");
}

#[test]
fn test_regex_mode() {
    let files = workspace();
    let results = run(&files, "fn\\s+main", true, None);

    assert_eq!(results.len(), 1);
    assert_eq!(text(&results[0].file), "src/main.rs");
    assert_eq!(results[0].line, 1);
    assert_eq!(results[0].column, 1);
}

#[test]
fn test_regex_is_case_insensitive() {
    let files = vec![entry("root/a.txt", "a.txt", Some(b"Hello World\n"))];
    let results = run(&files, "hello\\s+world", true, None);

    assert_eq!(results.len(), 1);
}

#[test]
fn test_invalid_regex_yields_no_matches() {
    let files = workspace();
    let results = run(&files, "(", true, None);

    assert_eq!(results.len(), 0);
}

#[test]
fn test_preview_trimmed_and_truncated() {
    let mut line: Vec<u8> = b"   ".to_vec();
    line.extend(b"x".repeat(250));
    line.extend(b"  \n");
    let files = vec![entry("root/long.md", "long.md", Some(&line))];
    let results = run(&files, "x", false, None);

    assert_eq!(results.len(), 1);
    assert_eq!(results[0].preview.len(), 200);
    assert_eq!(text(&results[0].preview), "x".repeat(200));
    assert_eq!(results[0].column, 4);
}

#[test]
fn test_filename_match_preview_format() {
    let files = vec![entry("root/src/lib.rs", "src/lib.rs", Some(b"nothing here\n"))];
    let results = run(&files, "lib", false, None);

    assert_eq!(results.len(), 1);
    assert_eq!(results[0].line, 1);
    assert_eq!(results[0].column, 1);
    assert_eq!(text(&results[0].preview), "FILENAME MATCH: src/lib.rs");
}

#[test]
fn test_crlf_lines_and_invalid_utf8_replacement() {
    let mut content: Vec<u8> = b"first\r\nsecond needle\r\n".to_vec();
    content.extend(vec![0xff, 0xfe]);
    content.extend(b" needle\n");
    let files = vec![entry("root/m.txt", "m.txt", Some(&content))];
    let results = run(&files, "needle", false, None);

    assert_eq!(results.len(), 2);
    assert_eq!(results[0].line, 2);
    assert_eq!(text(&results[0].preview), "second needle");
    assert_eq!(results[1].line, 3);
    assert!(text(&results[1].preview).contains('\u{FFFD}'));
}
