use localfiles::catalog::{compare_text, eq_ignore_ascii_case};
use localfiles::codec::{
    decimal_text, is_supported_extension, is_supported_name, name_extension, path_extension,
    path_file_name,
    path_parent, FileDocument, FileSnapshot, MAX_FILE_SIZE,
};
use localfiles::index::{FileIndex, IndexError, SearchOutput, SearchResult};
use localfiles::query::SearchPlan;
use localfiles::server::{
    join, render_indexing, render_listing, render_search, render_status, SearchRequest,
    DEFAULT_SEARCH_LIMIT,
};
use localfiles::snippet::{extract_snippet, find_match_line, first_match, line_at, snippet_at};
use localfiles::store::{marker_text, needs_recreate, open_plan, parse_u32_text, OpenPlan};
use localfiles::text::{split_runs, to_lower, trim, Separator};
use localfiles::watcher::{
    events_for, step, ChangeKind, EventAction, FileEvent, IngestInput, IngestState, IngestStep,
};
use tempfile::TempDir;

fn new_index(dir: &TempDir) -> FileIndex {
    FileIndex::create_in(dir.path().to_str().unwrap()).expect("index")
}

fn text_file(path: &str, content: &str) -> FileSnapshot {
    FileSnapshot {
        path: path.to_string(),
        size: content.len() as u64,
        content: Some(content.to_string()),
        modified_secs: 42,
    }
}

fn found_paths(idx: &FileIndex, q: &str, ext: Option<&str>, prefix: Option<&str>) -> Vec<String> {
    let mut v: Vec<String> =
        idx.search(q, 10, ext, prefix).unwrap().results.into_iter().map(|r| r.file_path).collect();
    v.sort();
    v
}

// -- documents and indexing policy --

#[test]
fn document_fields_are_built_from_the_path() {
    let d = FileDocument::from_file("/proj/src/Main.RS", "fn main() {}".to_string(), 1234);
    assert_eq!(d.file_path, "/proj/src/Main.RS");
    assert_eq!(d.file_name, "Main.RS");
    assert_eq!(d.content, "fn main() {}");
    assert_eq!(d.last_modified, "1234s");
    assert_eq!(d.extension, "rs");
    assert_eq!(d.directory, "/proj/src");
}

#[test]
fn oversized_file_is_skipped() {
    let dir = TempDir::new().unwrap();
    let mut idx = new_index(&dir);
    let mut f = text_file("/proj/big.rs", "small text, large size");
    f.size = MAX_FILE_SIZE + 1;
    idx.index_file(f).unwrap();
    idx.commit().unwrap();
    assert_eq!(idx.status().num_files, 0);
    let mut g = text_file("/proj/limit.rs", "at the limit");
    g.size = MAX_FILE_SIZE;
    idx.index_file(g).unwrap();
    assert_eq!(idx.status().num_files, 1);
}

#[test]
fn skipped_files_never_grow_the_indexed_set() {
    let dir = TempDir::new().unwrap();
    let mut idx = new_index(&dir);
    idx.index_file(text_file("/proj/kept.md", "kept")).unwrap();
    let before = idx.status().num_files;
    idx.index_file(text_file("/proj/photo.jpg", "jpeg")).unwrap();
    let mut big = text_file("/proj/huge.txt", "x");
    big.size = MAX_FILE_SIZE + 10;
    idx.index_file(big).unwrap();
    let mut binary = text_file("/proj/blob.rs", "");
    binary.content = None;
    idx.index_file(binary).unwrap();
    idx.commit().unwrap();
    assert_eq!(idx.status().num_files, before);
}

#[test]
fn extensionless_names_and_extensions() {
    assert!(is_supported_name("makefile"));
    assert!(is_supported_name("dockerfile"));
    assert!(!is_supported_name("Makefile"));
    assert!(is_supported_extension("toml"));
    assert!(is_supported_extension("dockerfile"));
    assert!(!is_supported_extension("exe"));
    assert!(!is_supported_extension(""));
}

#[test]
fn path_wrappers_take_the_path_apart() {
    assert_eq!(path_extension("archive.tar.GZ"), Some("GZ".to_string()));
    assert_eq!(path_extension(".bashrc"), None);
    assert_eq!(path_extension("notes."), Some("".to_string()));
    assert_eq!(path_file_name("/a/b/c.txt"), Some("c.txt".to_string()));
    assert_eq!(path_parent("/a/b/c.txt"), Some("/a/b".to_string()));
    assert_eq!(to_lower("ÀBc"), "àbc");
    assert_eq!(trim(" \t x y \n"), "x y");
}

#[test]
fn decimal_text_writes_numbers() {
    assert_eq!(decimal_text(0), "0");
    assert_eq!(decimal_text(7), "7");
    assert_eq!(decimal_text(1234), "1234");
    assert_eq!(decimal_text(u64::MAX), "18446744073709551615");
}

// -- search --

#[test]
fn reindexing_keeps_only_the_latest_content() {
    let dir = TempDir::new().unwrap();
    let mut idx = new_index(&dir);
    idx.index_file(text_file("/p/data.rs", "alpha_first")).unwrap();
    idx.index_file(text_file("/p/data.rs", "beta_second")).unwrap();
    idx.commit().unwrap();
    assert_eq!(found_paths(&idx, "alpha_first", None, None).len(), 0);
    assert_eq!(found_paths(&idx, "beta_second", None, None), vec!["/p/data.rs".to_string()]);
    assert_eq!(idx.list_files(None, None), vec!["/p/data.rs".to_string()]);
}

#[test]
fn blank_query_without_filters_finds_nothing() {
    let dir = TempDir::new().unwrap();
    let mut idx = new_index(&dir);
    idx.index_file(text_file("/p/a.rs", "anything at all")).unwrap();
    idx.commit().unwrap();
    let res = idx.search("  \t ", 10, None, None).unwrap();
    assert_eq!(res.results.len(), 0);
    assert_eq!(res.total_count, 0);
}

#[test]
fn zero_limit_finds_nothing() {
    let dir = TempDir::new().unwrap();
    let mut idx = new_index(&dir);
    idx.index_file(text_file("/p/a.rs", "token")).unwrap();
    idx.commit().unwrap();
    let res = idx.search("token", 0, None, None).unwrap();
    assert_eq!(res.results.len(), 0);
}

#[test]
fn extension_filter_alone_selects_by_extension() {
    let dir = TempDir::new().unwrap();
    let mut idx = new_index(&dir);
    idx.index_file(text_file("/w/a.rs", "code")).unwrap();
    idx.index_file(text_file("/w/b.py", "code")).unwrap();
    idx.commit().unwrap();
    assert_eq!(found_paths(&idx, "", Some("rs"), None), vec!["/w/a.rs".to_string()]);
    assert_eq!(found_paths(&idx, "", Some("PY"), None), vec!["/w/b.py".to_string()]);
}

#[test]
fn path_prefix_selects_by_directory_segment() {
    let dir = TempDir::new().unwrap();
    let mut idx = new_index(&dir);
    idx.index_file(text_file("/w/src/a.rs", "shared")).unwrap();
    idx.index_file(text_file("/w/tests/b.rs", "shared")).unwrap();
    idx.index_file(text_file("/w/src/c.py", "shared")).unwrap();
    idx.commit().unwrap();
    assert_eq!(
        found_paths(&idx, "shared", None, Some("src")),
        vec!["/w/src/a.rs".to_string(), "/w/src/c.py".to_string()]
    );
    assert_eq!(found_paths(&idx, "shared", Some("rs"), Some("src")), vec!["/w/src/a.rs".to_string()]);
    // Each segment is matched on its own, anywhere among the directory terms.
    assert_eq!(found_paths(&idx, "shared", Some("rs"), Some("/src/w/")), vec!["/w/src/a.rs".to_string()]);
}

#[test]
fn search_results_carry_snippet_and_line() {
    let dir = TempDir::new().unwrap();
    let mut idx = new_index(&dir);
    idx.index_file(text_file("/d/notes.md", "first line\nsecond has Needle here")).unwrap();
    idx.commit().unwrap();
    let res = idx.search("needle", 10, None, None).unwrap();
    assert_eq!(res.total_count, 1);
    let r = &res.results[0];
    assert_eq!(r.file_path, "/d/notes.md");
    assert_eq!(r.file_name, "notes.md");
    assert_eq!(r.line_number, Some(2));
    assert_eq!(r.snippet, "...first line\nsecond has Needle here...");
    assert!(f32::from_bits(r.score_bits) > 0.0);
}

#[test]
fn malformed_query_is_a_query_error() {
    let dir = TempDir::new().unwrap();
    let mut idx = new_index(&dir);
    idx.index_file(text_file("/d/a.rs", "x")).unwrap();
    idx.commit().unwrap();
    let r = idx.search("nosuchfield:value", 10, None, None);
    assert!(matches!(r, Err(IndexError::Query(_))));
}

#[test]
fn creating_in_a_missing_directory_is_an_engine_error() {
    let dir = TempDir::new().unwrap();
    let missing = dir.path().join("does").join("not").join("exist");
    let r = FileIndex::create_in(missing.to_str().unwrap());
    assert!(matches!(r, Err(IndexError::Engine(_))));
}

#[test]
fn unindexed_path_is_not_readable() {
    let dir = TempDir::new().unwrap();
    let mut idx = new_index(&dir);
    idx.index_file(text_file("/d/a.rs", "x")).unwrap();
    match idx.ensure_indexed("/d/b.rs") {
        Err(IndexError::NotIndexed(p)) => assert_eq!(p, "/d/b.rs"),
        _ => panic!("expected NotIndexed"),
    }
    assert!(idx.ensure_indexed("/d/a.rs").is_ok());
}

#[test]
fn result_from_hit_places_excerpt_and_line() {
    let terms = vec!["zeta".to_string()];
    let r = SearchResult::from_hit("/x/y.txt".to_string(), "y.txt".to_string(), "a\nb\nZETA", 7, &terms);
    assert_eq!(r.line_number, Some(3));
    assert_eq!(r.snippet, "...a\nb\nZETA...");
    assert_eq!(r.score_bits, 7);
}

// -- listing --

#[test]
fn listing_is_sorted_and_free_of_duplicates() {
    let dir = TempDir::new().unwrap();
    let mut idx = new_index(&dir);
    for p in ["/r/z.rs", "/r/b.rs", "/r/m.md", "/r/b.rs", "/r/a.txt", "/r/z.rs"] {
        idx.index_file(text_file(p, "t")).unwrap();
    }
    let files = idx.list_files(None, None);
    assert_eq!(files, vec!["/r/a.txt", "/r/b.rs", "/r/m.md", "/r/z.rs"]);
    assert_eq!(idx.status().num_files, 4);
}

#[test]
fn listing_filters_ignore_ascii_case_and_match_substrings() {
    let dir = TempDir::new().unwrap();
    let mut idx = new_index(&dir);
    idx.index_file(text_file("/r/src/A.RS", "t")).unwrap();
    idx.index_file(text_file("/r/lib/b.rs", "t")).unwrap();
    idx.index_file(text_file("/r/srcfoo/c.md", "t")).unwrap();
    assert_eq!(idx.list_files(Some("rs"), None), vec!["/r/lib/b.rs", "/r/src/A.RS"]);
    assert_eq!(idx.list_files(None, Some("src")), vec!["/r/src/A.RS", "/r/srcfoo/c.md"]);
    assert_eq!(idx.list_files(Some("Rs"), Some("src/")), vec!["/r/src/A.RS"]);
}

#[test]
fn removed_path_leaves_listing_at_once() {
    let dir = TempDir::new().unwrap();
    let mut idx = new_index(&dir);
    idx.index_file(text_file("/r/a.rs", "t")).unwrap();
    idx.index_file(text_file("/r/b.rs", "t")).unwrap();
    idx.remove_file("/r/a.rs").unwrap();
    idx.remove_file("/r/never.rs").unwrap();
    assert_eq!(idx.list_files(None, None), vec!["/r/b.rs"]);
}

#[test]
fn roots_are_registered_once_in_order() {
    let dir = TempDir::new().unwrap();
    let mut idx = new_index(&dir);
    idx.index_directory("/one", vec![]);
    idx.index_directory("/two", vec![]);
    idx.index_directory("/one", vec![]);
    assert_eq!(idx.status().watched_paths, vec!["/one", "/two"]);
}

#[test]
fn text_order_and_case_folding() {
    assert!(compare_text("a", "b") < 0);
    assert!(compare_text("ab", "a") > 0);
    assert_eq!(compare_text("same", "same"), 0);
    assert!(compare_text("Z", "a") < 0);
    assert!(eq_ignore_ascii_case("Rs", "rS"));
    assert!(!eq_ignore_ascii_case("rs", "r"));
    assert!(!eq_ignore_ascii_case("é", "É"));
}

// -- query plan --

#[test]
fn plan_is_none_for_an_empty_request() {
    assert!(SearchPlan::new("", None, None).is_none());
    assert!(SearchPlan::new(" \n", None, None).is_none());
    assert!(SearchPlan::new("", Some("rs"), None).is_some());
    assert!(SearchPlan::new("", None, Some("")).is_some());
}

#[test]
fn plan_clauses_follow_the_filters() {
    let p = SearchPlan::new("  ", Some("RS"), Some("/Src//api/")).unwrap();
    assert!(p.text.is_none());
    assert_eq!(p.extension, Some("rs".to_string()));
    assert_eq!(p.directory_terms, vec!["src", "api"]);
    assert!(p.highlight_terms.is_empty());
}

#[test]
fn plan_highlights_plain_words_only() {
    let p = SearchPlan::new("Foo extension:rs  BAR", None, None).unwrap();
    assert_eq!(p.text, Some("Foo extension:rs  BAR".to_string()));
    assert_eq!(p.highlight_terms, vec!["foo", "bar"]);
    assert!(p.directory_terms.is_empty());
}

#[test]
fn split_runs_drops_empty_pieces() {
    assert_eq!(split_runs("a//b/", Separator::Slash), vec!["a", "b"]);
    assert_eq!(split_runs(" x\u{3000}y\t", Separator::Blank), vec!["x", "y"]);
    assert!(split_runs("", Separator::Slash).is_empty());
}

// -- excerpts and lines --

#[test]
fn snippet_exact_window() {
    let content = "aaaa bbbb cccc target_word dddd eeee ffff";
    let terms = vec!["target_word".to_string()];
    assert_eq!(extract_snippet(content, &terms, 30), "...aaaa bbbb cccc target_word ddd...");
}

#[test]
fn snippet_without_match_starts_at_the_beginning() {
    let terms = vec!["absent".to_string()];
    assert_eq!(extract_snippet("aaaa bbbb cccc", &terms, 10), "...aaaa...");
    assert_eq!(extract_snippet("", &terms, 10), "......");
}

#[test]
fn snippet_widens_to_character_boundaries() {
    // Each euro sign is three bytes; the window edge falls inside the fourth.
    let content = "€€€€x";
    assert_eq!(snippet_at(content, 12, 4), "...€x...");
    assert_eq!(snippet_at(content, 1, 2), "...€...");
    assert_eq!(snippet_at(content, 100, 4), "......");
    let terms = vec!["X".to_string()];
    assert_eq!(extract_snippet(content, &terms, 4), "...€x...");
}

#[test]
fn first_term_in_order_decides() {
    let terms = vec!["two".to_string(), "one".to_string()];
    assert_eq!(first_match("one two", &terms), Some(4));
    let none: Vec<String> = vec![];
    assert_eq!(first_match("one two", &none), None);
    assert_eq!(find_match_line("one\ntwo", &terms), Some(2));
}

#[test]
fn match_line_counts_newlines() {
    let terms = vec!["target".to_string()];
    assert_eq!(find_match_line("a\nb\nc\nd TARGET", &terms), Some(4));
    assert_eq!(line_at("x\ny\nz", 0), 1);
    assert_eq!(line_at("x\ny\nz", 4), 3);
    let empty = vec!["".to_string()];
    assert_eq!(find_match_line("\n\n", &empty), Some(1));
}

// -- store --

#[test]
fn open_plan_cases() {
    assert_eq!(open_plan(false, None), OpenPlan::CreateFresh);
    assert_eq!(open_plan(true, None), OpenPlan::Recreate);
    assert_eq!(open_plan(true, Some("abc")), OpenPlan::Recreate);
    assert_eq!(open_plan(true, Some(" 2\n")), OpenPlan::Reuse);
    assert_eq!(open_plan(true, Some("+2")), OpenPlan::Reuse);
    assert_eq!(open_plan(true, Some("02")), OpenPlan::Reuse);
    assert_eq!(open_plan(true, Some("3")), OpenPlan::Recreate);
    assert!(needs_recreate(Some("")));
    assert_eq!(marker_text(), "2");
}

#[test]
fn parse_u32_text_cases() {
    assert_eq!(parse_u32_text("4294967295"), Some(u32::MAX));
    assert_eq!(parse_u32_text("4294967296"), None);
    assert_eq!(parse_u32_text("+7"), Some(7));
    assert_eq!(parse_u32_text("+"), None);
    assert_eq!(parse_u32_text(""), None);
    assert_eq!(parse_u32_text("-1"), None);
    assert_eq!(parse_u32_text("1 2"), None);
}

// -- events and batching --

#[test]
fn notifications_become_events() {
    let ev = events_for(ChangeKind::Create, vec!["/a".to_string(), "/b".to_string()]);
    assert_eq!(ev.len(), 2);
    assert!(matches!(&ev[0], FileEvent::Created(p) if p == "/a"));
    assert!(matches!(&ev[1], FileEvent::Created(p) if p == "/b"));
    let rm = events_for(ChangeKind::Remove, vec!["/c".to_string()]);
    assert!(matches!(&rm[0], FileEvent::Removed(p) if p == "/c"));
    assert!(events_for(ChangeKind::Other, vec!["/d".to_string()]).is_empty());
}

#[test]
fn event_actions() {
    assert!(matches!(FileEvent::Modified("/m".to_string()).action(), EventAction::Reindex(p) if p == "/m"));
    assert!(matches!(FileEvent::Created("/c".to_string()).action(), EventAction::Reindex(p) if p == "/c"));
    assert!(matches!(FileEvent::Removed("/r".to_string()).action(), EventAction::Forget(p) if p == "/r"));
}

#[test]
fn debounce_batches_in_arrival_order() {
    let (s, k) = step(IngestState::Idle, IngestInput::Event(FileEvent::Created("/1".to_string())));
    assert!(matches!(k, IngestStep::OpenWindow));
    let (s, k) = step(s, IngestInput::Event(FileEvent::Removed("/2".to_string())));
    assert!(matches!(k, IngestStep::AwaitMore));
    let (s, k) = step(s, IngestInput::Event(FileEvent::Modified("/3".to_string())));
    assert!(matches!(k, IngestStep::AwaitMore));
    let (s, k) = step(s, IngestInput::WindowClosed);
    assert!(matches!(s, IngestState::Idle));
    match k {
        IngestStep::Apply(batch) => {
            assert_eq!(batch.len(), 3);
            assert!(matches!(&batch[0], FileEvent::Created(p) if p == "/1"));
            assert!(matches!(&batch[1], FileEvent::Removed(p) if p == "/2"));
            assert!(matches!(&batch[2], FileEvent::Modified(p) if p == "/3"));
        }
        _ => panic!("expected a batch"),
    }
}

#[test]
fn debounce_stops_when_the_source_closes() {
    let (s, k) = step(IngestState::Idle, IngestInput::Event(FileEvent::Created("/1".to_string())));
    assert!(matches!(k, IngestStep::OpenWindow));
    let (s, k) = step(s, IngestInput::SourceClosed);
    assert!(matches!(k, IngestStep::Apply(ref b) if b.len() == 1));
    let (s, k) = step(s, IngestInput::SourceClosed);
    assert!(matches!(s, IngestState::Stopped));
    assert!(matches!(k, IngestStep::Stop));
    let (_, k) = step(s, IngestInput::Event(FileEvent::Created("/late".to_string())));
    assert!(matches!(k, IngestStep::Stop));
}

// -- replies --

#[test]
fn replies_are_rendered() {
    assert_eq!(render_listing(&vec![]), "No indexed files match the given filters.");
    assert_eq!(render_listing(&vec!["a".to_string(), "b".to_string()]), "a\nb\n\n(2 files)");
    assert_eq!(render_indexing(3, &vec![]), "Indexed 3 files.");
    assert_eq!(
        render_indexing(0, &vec!["x".to_string(), "y".to_string()]),
        "Indexed 0 files.\nErrors:\nx\ny"
    );
    assert_eq!(join(&vec!["p".to_string()], ", "), "p");
}

#[test]
fn status_reply_lists_roots() {
    let dir = TempDir::new().unwrap();
    let mut idx = new_index(&dir);
    let none = render_status(&idx.status());
    assert!(none.starts_with("Index Status:\n  Files indexed: 0\n  Watched paths: (none)\n  Index location: "));
    idx.index_directory("/r1", vec![text_file("/r1/a.rs", "x")]);
    idx.index_directory("/r2", vec![]);
    let s = render_status(&idx.status());
    assert!(s.starts_with("Index Status:\n  Files indexed: 1\n  Watched paths: /r1, /r2\n  Index location: "));
    assert!(s.ends_with(dir.path().to_str().unwrap()));
}

#[test]
fn default_search_limit() {
    let mut r = SearchRequest { query: "q".to_string(), limit: None, file_type: None, path_prefix: None };
    assert_eq!(r.effective_limit(), DEFAULT_SEARCH_LIMIT);
    assert_eq!(DEFAULT_SEARCH_LIMIT, 10);
    r.limit = Some(3);
    assert_eq!(r.effective_limit(), 3);
}

#[test]
fn search_reply_numbers_results() {
    let empty = SearchOutput::new(vec![], 0);
    assert_eq!(render_search(&empty, &vec![]), "No results found.");
    let output = SearchOutput::new(
        vec![
            SearchResult {
                file_path: "/p/a.rs".to_string(),
                file_name: "a.rs".to_string(),
                snippet: "...fn a...".to_string(),
                score_bits: 0,
                line_number: Some(12),
            },
            SearchResult {
                file_path: "/p/b.md".to_string(),
                file_name: "b.md".to_string(),
                snippet: "...b...".to_string(),
                score_bits: 0,
                line_number: None,
            },
        ],
        5,
    );
    let scores = vec!["1.50".to_string(), "0.25".to_string()];
    assert_eq!(
        render_search(&output, &scores),
        "1. a.rs (score: 1.50)\n   Path: /p/a.rs:12\n   Snippet: ...fn a...\n\n\
         2. b.md (score: 0.25)\n   Path: /p/b.md\n   Snippet: ...b...\n\n\
         (showing 2 of 5 total matches)\n"
    );
}

#[test]
fn directory_count_includes_skipped_files() {
    let dir = TempDir::new().unwrap();
    let mut idx = new_index(&dir);
    let mut unread = text_file("/d/blob.rs", "");
    unread.content = None;
    let files = vec![
        text_file("/d/good.rs", "code"),
        text_file("/d/bad.png", "pixels"),
        unread,
        text_file("/d/good.rs", "newer code"),
    ];
    assert_eq!(idx.index_directory("/d", files), 4);
    idx.commit().unwrap();
    assert_eq!(idx.list_files(None, None), vec!["/d/good.rs"]);
    assert_eq!(found_paths(&idx, "newer", None, None), vec!["/d/good.rs".to_string()]);
    assert_eq!(found_paths(&idx, "pixels", None, None).len(), 0);
}

#[test]
fn name_extension_cases() {
    assert_eq!(name_extension("a.tar.gz"), Some("gz".to_string()));
    assert_eq!(name_extension(".profile"), None);
    assert_eq!(name_extension("..x"), Some("x".to_string()));
    assert_eq!(name_extension("plain"), None);
}
