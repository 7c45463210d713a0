use localfiles::codec::{is_supported, FileSnapshot};
use localfiles::index::FileIndex;
use localfiles::snippet::{extract_snippet, find_match_line};
use localfiles::store::{marker_text, needs_recreate, open_plan, OpenPlan};
use tempfile::TempDir;

fn test_index(dir: &TempDir) -> FileIndex {
    FileIndex::create_in(dir.path().to_str().unwrap()).expect("failed to create test index")
}

fn fixture(root: &TempDir, name: &str, content: &str) -> FileSnapshot {
    FileSnapshot {
        path: root.path().join(name).to_string_lossy().into_owned(),
        size: content.len() as u64,
        content: Some(content.to_string()),
        modified_secs: 1_700_000_000,
    }
}

// -- Index creation & migration --

#[test]
fn test_new_creates_index() {
    let dir = TempDir::new().unwrap();
    let _idx = test_index(&dir);
    assert_eq!(marker_text().trim(), "2");
}

#[test]
fn test_new_opens_existing_index() {
    let dir = TempDir::new().unwrap();
    let idx1 = test_index(&dir);
    drop(idx1);
    let _idx2 = FileIndex::open_in(dir.path().to_str().unwrap()).unwrap();
}

#[test]
fn test_schema_version_migration() {
    // A marker of another version discards the index; the marker written
    // afterwards is the current one, which the next opening keeps.
    assert_eq!(open_plan(true, Some("1")), OpenPlan::Recreate);
    let version = marker_text();
    assert_eq!(version.trim(), "2");
    assert!(!needs_recreate(Some(&version)));
    assert_eq!(open_plan(true, Some(&version)), OpenPlan::Reuse);
}

// -- is_supported --

#[test]
fn test_is_supported_common_extensions() {
    for ext in &["rs", "py", "js", "md", "yaml"] {
        let p = format!("test.{}", ext);
        assert!(is_supported(&p), "expected {} to be supported", ext);
    }
}

#[test]
fn test_is_supported_makefile_dockerfile() {
    assert!(is_supported("Makefile"));
    assert!(is_supported("Dockerfile"));
}

#[test]
fn test_is_supported_unsupported() {
    for ext in &["png", "jpg", "exe"] {
        let p = format!("test.{}", ext);
        assert!(!is_supported(&p), "expected {} to be unsupported", ext);
    }
}

#[test]
fn test_is_supported_no_extension() {
    assert!(!is_supported("README"));
}

#[test]
fn test_is_supported_case_insensitive() {
    assert!(is_supported("test.RS"));
    assert!(is_supported("test.Py"));
}

// -- index_file --

#[test]
fn test_index_file_basic() {
    let dir = TempDir::new().unwrap();
    let fixtures = TempDir::new().unwrap();
    let mut idx = test_index(&dir);
    let f = fixture(&fixtures, "hello.rs", "fn main() {}");
    idx.index_file(f).unwrap();
    idx.commit().unwrap();
    assert_eq!(idx.status().num_files, 1);
}

#[test]
fn test_index_file_unsupported_skipped() {
    let dir = TempDir::new().unwrap();
    let fixtures = TempDir::new().unwrap();
    let mut idx = test_index(&dir);
    let f = fixture(&fixtures, "image.png", "not really an image");
    idx.index_file(f).unwrap();
    idx.commit().unwrap();
    assert_eq!(idx.status().num_files, 0);
}

#[test]
fn test_index_file_binary_skipped() {
    let dir = TempDir::new().unwrap();
    let fixtures = TempDir::new().unwrap();
    let mut idx = test_index(&dir);
    // The bytes "hello\xff\xfeworld" are not UTF-8: reading them as text fails.
    let bytes: &[u8] = b"hello\xff\xfeworld";
    let f = FileSnapshot {
        path: fixtures.path().join("binary.rs").to_string_lossy().into_owned(),
        size: bytes.len() as u64,
        content: String::from_utf8(bytes.to_vec()).ok(),
        modified_secs: 0,
    };
    idx.index_file(f).unwrap();
    idx.commit().unwrap();
    assert_eq!(idx.status().num_files, 0);
}

#[test]
fn test_index_file_upsert() {
    let dir = TempDir::new().unwrap();
    let fixtures = TempDir::new().unwrap();
    let mut idx = test_index(&dir);
    idx.index_file(fixture(&fixtures, "data.rs", "old_unique_content")).unwrap();
    idx.commit().unwrap();

    // Overwrite with new content
    idx.index_file(fixture(&fixtures, "data.rs", "new_unique_content")).unwrap();
    idx.commit().unwrap();

    let old = idx.search("old_unique_content", 10, None, None).unwrap();
    assert_eq!(old.results.len(), 0);
    let new = idx.search("new_unique_content", 10, None, None).unwrap();
    assert_eq!(new.results.len(), 1);
}

// -- index_directory --

#[test]
fn test_index_directory_recursive() {
    let dir = TempDir::new().unwrap();
    let fixtures = TempDir::new().unwrap();
    let mut idx = test_index(&dir);
    let files = vec![
        fixture(&fixtures, "a.rs", "aaa"),
        fixture(&fixtures, "sub/b.py", "bbb"),
        fixture(&fixtures, "sub/deep/c.js", "ccc"),
    ];
    let count = idx.index_directory(fixtures.path().to_str().unwrap(), files);
    assert_eq!(count, 3);
}

#[test]
fn test_index_directory_skips_unsupported() {
    let dir = TempDir::new().unwrap();
    let fixtures = TempDir::new().unwrap();
    let mut idx = test_index(&dir);
    let files = vec![
        fixture(&fixtures, "good.rs", "code"),
        fixture(&fixtures, "bad.png", "pixels"),
        fixture(&fixtures, "also_good.md", "docs"),
    ];
    let _count = idx.index_directory(fixtures.path().to_str().unwrap(), files);
    idx.commit().unwrap();
    assert_eq!(idx.status().num_files, 2);
}

#[test]
fn test_index_directory_adds_watched_root() {
    let dir = TempDir::new().unwrap();
    let fixtures = TempDir::new().unwrap();
    let mut idx = test_index(&dir);
    let root = fixtures.path().display().to_string();
    idx.index_directory(&root, vec![fixture(&fixtures, "a.rs", "code")]);
    let status = idx.status();
    assert!(status.watched_paths.contains(&root));
}

// -- search: keyword --

#[test]
fn test_search_keyword_match() {
    let dir = TempDir::new().unwrap();
    let fixtures = TempDir::new().unwrap();
    let mut idx = test_index(&dir);
    idx.index_file(fixture(&fixtures, "greet.rs", "hello world")).unwrap();
    idx.commit().unwrap();
    let res = idx.search("hello", 10, None, None).unwrap();
    assert_eq!(res.results.len(), 1);
}

#[test]
fn test_search_empty_query_no_filters() {
    let dir = TempDir::new().unwrap();
    let fixtures = TempDir::new().unwrap();
    let mut idx = test_index(&dir);
    idx.index_file(fixture(&fixtures, "a.rs", "content")).unwrap();
    idx.commit().unwrap();
    let res = idx.search("", 10, None, None).unwrap();
    assert_eq!(res.results.len(), 0);
}

#[test]
fn test_search_limit() {
    let dir = TempDir::new().unwrap();
    let fixtures = TempDir::new().unwrap();
    let mut idx = test_index(&dir);
    for i in 0..5 {
        let f = fixture(&fixtures, &format!("f{}.rs", i), "shared_keyword_xyz");
        idx.index_file(f).unwrap();
    }
    idx.commit().unwrap();
    let res = idx.search("shared_keyword_xyz", 2, None, None).unwrap();
    assert!(res.results.len() <= 2);
}

#[test]
fn test_search_no_match() {
    let dir = TempDir::new().unwrap();
    let fixtures = TempDir::new().unwrap();
    let mut idx = test_index(&dir);
    idx.index_file(fixture(&fixtures, "a.rs", "some content")).unwrap();
    idx.commit().unwrap();
    let res = idx.search("nonexistent_term_xyz", 10, None, None).unwrap();
    assert_eq!(res.results.len(), 0);
}

// -- search: field-based --

#[test]
fn test_search_empty_query_with_file_type() {
    let dir = TempDir::new().unwrap();
    let fixtures = TempDir::new().unwrap();
    let mut idx = test_index(&dir);
    idx.index_file(fixture(&fixtures, "a.rs", "rust code")).unwrap();
    idx.index_file(fixture(&fixtures, "b.py", "python code")).unwrap();
    idx.commit().unwrap();
    let res = idx.search("", 10, Some("rs"), None).unwrap();
    assert_eq!(res.results.len(), 1);
    assert!(res.results[0].file_path.ends_with("a.rs"));
}

#[test]
fn test_search_file_type_filter() {
    let dir = TempDir::new().unwrap();
    let fixtures = TempDir::new().unwrap();
    let mut idx = test_index(&dir);
    idx.index_file(fixture(&fixtures, "a.rs", "shared_token_abc")).unwrap();
    idx.index_file(fixture(&fixtures, "b.py", "shared_token_abc")).unwrap();
    idx.commit().unwrap();
    let res = idx.search("shared_token_abc", 10, Some("rs"), None).unwrap();
    assert_eq!(res.results.len(), 1);
    assert!(res.results[0].file_path.ends_with("a.rs"));
}

#[test]
fn test_search_path_prefix_filter() {
    let dir = TempDir::new().unwrap();
    let fixtures = TempDir::new().unwrap();
    let mut idx = test_index(&dir);
    idx.index_file(fixture(&fixtures, "src/a.rs", "unique_path_token")).unwrap();
    idx.index_file(fixture(&fixtures, "tests/b.rs", "unique_path_token")).unwrap();
    idx.commit().unwrap();
    let res = idx.search("unique_path_token", 10, None, Some("src")).unwrap();
    assert_eq!(res.results.len(), 1);
    assert!(res.results[0].file_path.contains("src"));
}

#[test]
fn test_search_combined_filters() {
    let dir = TempDir::new().unwrap();
    let fixtures = TempDir::new().unwrap();
    let mut idx = test_index(&dir);
    idx.index_file(fixture(&fixtures, "src/a.rs", "combo_token")).unwrap();
    idx.index_file(fixture(&fixtures, "src/b.py", "combo_token")).unwrap();
    idx.index_file(fixture(&fixtures, "tests/c.rs", "combo_token")).unwrap();
    idx.commit().unwrap();
    let res = idx.search("combo_token", 10, Some("rs"), Some("src")).unwrap();
    assert_eq!(res.results.len(), 1);
    assert!(res.results[0].file_path.contains("src"));
    assert!(res.results[0].file_path.ends_with("a.rs"));
}

// -- remove_file --

#[test]
fn test_remove_file_from_search() {
    let dir = TempDir::new().unwrap();
    let fixtures = TempDir::new().unwrap();
    let mut idx = test_index(&dir);
    let f = fixture(&fixtures, "rm.rs", "removable_content");
    let path = f.path.clone();
    idx.index_file(f).unwrap();
    idx.commit().unwrap();
    assert_eq!(idx.search("removable_content", 10, None, None).unwrap().results.len(), 1);
    idx.remove_file(&path).unwrap();
    idx.commit().unwrap();
    assert_eq!(idx.search("removable_content", 10, None, None).unwrap().results.len(), 0);
}

#[test]
fn test_remove_file_updates_indexed_paths() {
    let dir = TempDir::new().unwrap();
    let fixtures = TempDir::new().unwrap();
    let mut idx = test_index(&dir);
    let f = fixture(&fixtures, "gone.rs", "content");
    let path = f.path.clone();
    idx.index_file(f).unwrap();
    idx.commit().unwrap();
    assert!(idx.list_files(None, None).iter().any(|p| p.contains("gone.rs")));
    idx.remove_file(&path).unwrap();
    assert!(!idx.list_files(None, None).iter().any(|p| p.contains("gone.rs")));
}

// -- list_files --

#[test]
fn test_list_files_all() {
    let dir = TempDir::new().unwrap();
    let fixtures = TempDir::new().unwrap();
    let mut idx = test_index(&dir);
    idx.index_file(fixture(&fixtures, "a.rs", "aaa")).unwrap();
    idx.index_file(fixture(&fixtures, "b.py", "bbb")).unwrap();
    let files = idx.list_files(None, None);
    assert_eq!(files.len(), 2);
    // Should be sorted
    assert!(files[0] < files[1]);
}

#[test]
fn test_list_files_extension_filter() {
    let dir = TempDir::new().unwrap();
    let fixtures = TempDir::new().unwrap();
    let mut idx = test_index(&dir);
    idx.index_file(fixture(&fixtures, "a.rs", "aaa")).unwrap();
    idx.index_file(fixture(&fixtures, "b.py", "bbb")).unwrap();
    let files = idx.list_files(Some("rs"), None);
    assert_eq!(files.len(), 1);
    assert!(files[0].ends_with("a.rs"));
}

#[test]
fn test_list_files_path_prefix_filter() {
    let dir = TempDir::new().unwrap();
    let fixtures = TempDir::new().unwrap();
    let mut idx = test_index(&dir);
    idx.index_file(fixture(&fixtures, "src/a.rs", "aaa")).unwrap();
    idx.index_file(fixture(&fixtures, "tests/b.rs", "bbb")).unwrap();
    let files = idx.list_files(None, Some("src"));
    assert_eq!(files.len(), 1);
    assert!(files[0].contains("src"));
}

// -- read_file --

#[test]
fn test_read_file_indexed() {
    let dir = TempDir::new().unwrap();
    let fixtures = TempDir::new().unwrap();
    let mut idx = test_index(&dir);
    let f = fixture(&fixtures, "readable.rs", "fn hello() {}");
    let path = f.path.clone();
    idx.index_file(f).unwrap();
    idx.commit().unwrap();
    assert!(idx.ensure_indexed(&path).is_ok());
}

#[test]
fn test_read_file_not_indexed() {
    let dir = TempDir::new().unwrap();
    let fixtures = TempDir::new().unwrap();
    let idx = test_index(&dir);
    let f = fixture(&fixtures, "unindexed.rs", "content");
    let result = idx.ensure_indexed(&f.path);
    assert!(result.is_err());
}

// -- status --

#[test]
fn test_status_fields() {
    let dir = TempDir::new().unwrap();
    let fixtures = TempDir::new().unwrap();
    let mut idx = test_index(&dir);
    idx.index_file(fixture(&fixtures, "s.rs", "code")).unwrap();
    idx.index_directory(
        fixtures.path().to_str().unwrap(),
        vec![fixture(&fixtures, "s.rs", "code")],
    );
    idx.commit().unwrap();
    let status = idx.status();
    assert!(status.num_files >= 1);
    assert!(!status.index_path.is_empty());
    assert!(!status.watched_paths.is_empty());
}

// -- extract_snippet --

#[test]
fn test_extract_snippet_centered() {
    let content = "aaaa bbbb cccc target_word dddd eeee ffff";
    let terms = vec!["target_word".to_string()];
    let snippet = extract_snippet(content, &terms, 30);
    assert!(snippet.contains("target_word"));
}

#[test]
fn test_extract_snippet_at_start() {
    let content = "target_word is at the very beginning of this text";
    let terms = vec!["target_word".to_string()];
    let snippet = extract_snippet(content, &terms, 40);
    assert!(snippet.contains("target_word"));
}

#[test]
fn test_extract_snippet_utf8_safe() {
    // Multi-byte chars (emoji) near window boundary — ensure no panic
    let content = "🎉🎊🎈 target_word 🎉🎊🎈";
    let terms = vec!["target_word".to_string()];
    let snippet = extract_snippet(content, &terms, 60);
    assert!(snippet.contains("target_word"));
}

// -- find_match_line --

#[test]
fn test_find_match_line_found() {
    let content = "line1\nline2\ntarget";
    let terms = vec!["target".to_string()];
    assert_eq!(find_match_line(content, &terms), Some(3));
}

#[test]
fn test_find_match_line_first_line() {
    let content = "target on first line\nsecond line";
    let terms = vec!["target".to_string()];
    assert_eq!(find_match_line(content, &terms), Some(1));
}

#[test]
fn test_find_match_line_not_found() {
    let content = "nothing here";
    let terms = vec!["absent".to_string()];
    assert_eq!(find_match_line(content, &terms), None);
}
