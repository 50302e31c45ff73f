use file_index::engine::{SearchEngine, SearchProvider};
use file_index::provider::StoreProvider;
use file_index::store::Database;
use file_index::types::{FileEntry, SearchError, SearchFilters, SearchQuery};

fn engine() -> SearchEngine<StoreProvider> {
    SearchEngine::new(StoreProvider::new(Database::new(), Vec::new()))
}

fn entry(name: &str, path: &str, size: i64, is_directory: bool) -> FileEntry {
    FileEntry {
        id: format!("id-{}", path),
        name: name.to_string(),
        path: path.to_string(),
        size: if is_directory { 0 } else { size },
        modified: 1_600_000_000,
        created: 1_500_000_000,
        is_directory,
        extension: None,
        attributes: 0,
        indexed_at: 1_700_000_000,
    }
}

#[test]
fn test_regex_validation() {
    let engine = engine();

    let valid_query = SearchQuery {
        query: r"test\d+".to_string(),
        filters: SearchFilters { use_regex: true, ..Default::default() },
        limit: None,
        offset: None,
    };

    let invalid_query = SearchQuery {
        query: r"test[".to_string(),
        filters: SearchFilters { use_regex: true, ..Default::default() },
        limit: None,
        offset: None,
    };

    assert!(engine.preprocess_query(&valid_query).is_ok());
    assert!(engine.preprocess_query(&invalid_query).is_err());
}

#[test]
fn test_invalid_regex_rejected_before_any_store_access() {
    let mut db = Database::new();
    db.insert_file_entry(&entry("test.txt", "/p/test.txt", 1, false)).unwrap();
    let before = db.entries.len();
    let mut engine = SearchEngine::new(StoreProvider::new(db, Vec::new()));
    let q = SearchQuery {
        query: "test[".to_string(),
        filters: SearchFilters { use_regex: true, ..Default::default() },
        limit: None,
        offset: None,
    };
    let res = engine.search(&q);
    assert!(matches!(res, Err(SearchError::InvalidQuery(_))));
    assert_eq!(engine.provider.db.entries.len(), before);
}

#[test]
fn test_preprocess_trims_and_caps() {
    let engine = engine();
    let q = SearchQuery {
        query: "  readme \t".to_string(),
        filters: SearchFilters::default(),
        limit: None,
        offset: Some(3),
    };
    let p = engine.preprocess_query(&q).unwrap();
    assert_eq!(p.query, "readme");
    assert_eq!(p.limit, Some(1000));
    assert_eq!(p.offset, Some(3));
}

#[test]
fn test_preprocess_trims_unicode_whitespace() {
    let engine = engine();
    let q = SearchQuery {
        query: "\u{a0}\u{2003}notes\u{a0}".to_string(),
        filters: SearchFilters::default(),
        limit: None,
        offset: None,
    };
    let p = engine.preprocess_query(&q).unwrap();
    assert_eq!(p.query, "notes");
}

#[test]
fn test_preprocess_keeps_explicit_limit() {
    let engine = engine();
    let q = SearchQuery {
        query: "x".to_string(),
        filters: SearchFilters::default(),
        limit: Some(25),
        offset: None,
    };
    let p = engine.preprocess_query(&q).unwrap();
    assert_eq!(p.limit, Some(25));
}

#[test]
fn test_engine_search_end_to_end() {
    let mut db = Database::new();
    db.insert_file_entry(&entry("readme.md", "/p/readme.md", 1, false)).unwrap();
    db.insert_file_entry(&entry("other.md", "/p/other.md", 1, false)).unwrap();
    let mut engine = SearchEngine::new(StoreProvider::new(db, vec!["/p".to_string()]));
    let q = SearchQuery {
        query: " readme ".to_string(),
        filters: SearchFilters::default(),
        limit: None,
        offset: None,
    };
    let r = engine.search(&q).unwrap();
    assert_eq!(r.total_count, 1);
    assert_eq!(r.entries[0].name, "readme.md");
}

#[test]
fn test_provider_stats_report_roots() {
    let mut db = Database::new();
    db.insert_file_entry(&entry("a.txt", "/p/a.txt", 10, false)).unwrap();
    let provider = StoreProvider::new(db, vec!["/p".to_string(), "/q".to_string()]);
    let st = provider.get_stats().unwrap();
    assert_eq!(st.total_files, 1);
    assert_eq!(st.indexed_paths, vec!["/p".to_string(), "/q".to_string()]);
}

#[test]
fn test_suggest_completions_shapes() {
    let engine = engine();
    let v = engine.suggest_completions("repo").unwrap();
    assert_eq!(
        v,
        vec!["repo*.txt".to_string(), "repo*.pdf".to_string(), "repo*.doc".to_string()]
    );
}

#[test]
fn test_history_stubs() {
    let engine = engine();
    assert!(engine.get_recent_searches().unwrap().is_empty());
    assert!(engine.save_search_history("q").is_ok());
}

#[test]
fn test_error_messages() {
    let io = SearchError::Io("disk gone".to_string());
    let bad = SearchError::InvalidQuery("bad pattern".to_string());
    let sdk = SearchError::EverythingSdk("not initialized".to_string());
    assert_eq!(io.message(), "disk gone");
    assert_eq!(bad.message(), "bad pattern");
    assert_eq!(sdk.message(), "not initialized");
}
