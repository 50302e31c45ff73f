use file_index::indexer::{FileIndexer, FsEventKind};
use file_index::query::CompiledQuery;
use file_index::store::Database;
use file_index::types::{FileEntry, SearchFilters, SearchQuery};

fn entry(name: &str, path: &str, size: i64, is_directory: bool) -> FileEntry {
    FileEntry {
        id: format!("id-{}", path),
        name: name.to_string(),
        path: path.to_string(),
        size: if is_directory { 0 } else { size },
        modified: 1_600_000_000,
        created: 1_500_000_000,
        is_directory,
        extension: if is_directory {
            None
        } else {
            name.rsplit_once('.').map(|(stem, ext)| (stem, ext.to_lowercase())).and_then(
                |(stem, ext)| {
                    if stem.is_empty() || ext.is_empty() {
                        None
                    } else {
                        Some(ext)
                    }
                },
            )
        },
        attributes: 0,
        indexed_at: 1_700_000_000,
    }
}

fn three_entry_store() -> Database {
    let mut db = Database::new();
    db.insert_file_entry(&entry("a.txt", "/p/a.txt", 10, false)).unwrap();
    db.insert_file_entry(&entry("b.TXT", "/p/b.TXT", 20, false)).unwrap();
    db.insert_file_entry(&entry(".hidden", "/p/.hidden", 5, false)).unwrap();
    db
}

fn query(term: &str, filters: SearchFilters) -> SearchQuery {
    SearchQuery { query: term.to_string(), filters, limit: None, offset: None }
}

fn run(db: &Database, q: &SearchQuery) -> Vec<String> {
    let c = CompiledQuery::compile(q).unwrap();
    db.search(&c).entries.iter().map(|e| e.name.clone()).collect()
}

#[test]
fn test_filter_correctness_concrete_case() {
    let db = three_entry_store();
    let names = run(&db, &query("a", SearchFilters::default()));
    assert_eq!(names, vec!["a.txt".to_string()]);
}

#[test]
fn test_hidden_exclusion_toggle() {
    let db = three_entry_store();
    let names = run(&db, &query("", SearchFilters::default()));
    assert_eq!(names, vec!["a.txt".to_string(), "b.TXT".to_string()]);
    let all = run(
        &db,
        &query("", SearchFilters { include_hidden: true, ..SearchFilters::default() }),
    );
    assert_eq!(all, vec![".hidden".to_string(), "a.txt".to_string(), "b.TXT".to_string()]);
}

#[test]
fn test_case_sensitive_substring() {
    let db = three_entry_store();
    let names = run(
        &db,
        &query("TXT", SearchFilters { case_sensitive: true, ..SearchFilters::default() }),
    );
    assert_eq!(names, vec!["b.TXT".to_string()]);
    let folded = run(&db, &query("TXT", SearchFilters::default()));
    assert_eq!(folded, vec!["a.txt".to_string(), "b.TXT".to_string()]);
}

#[test]
fn test_size_range_boundary() {
    let db = three_entry_store();
    let names = run(
        &db,
        &query(
            "",
            SearchFilters {
                size_min: Some(10),
                size_max: Some(20),
                include_hidden: true,
                ..SearchFilters::default()
            },
        ),
    );
    assert_eq!(names, vec!["a.txt".to_string(), "b.TXT".to_string()]);
}

#[test]
fn test_date_range_inclusive() {
    let mut db = Database::new();
    let mut old = entry("old.txt", "/p/old.txt", 1, false);
    old.modified = 100;
    let mut mid = entry("mid.txt", "/p/mid.txt", 1, false);
    mid.modified = 200;
    let mut new = entry("new.txt", "/p/new.txt", 1, false);
    new.modified = 300;
    db.insert_file_entry(&old).unwrap();
    db.insert_file_entry(&mid).unwrap();
    db.insert_file_entry(&new).unwrap();
    let names = run(
        &db,
        &query(
            "",
            SearchFilters {
                date_from: Some(200),
                date_to: Some(300),
                ..SearchFilters::default()
            },
        ),
    );
    assert_eq!(names, vec!["mid.txt".to_string(), "new.txt".to_string()]);
}

#[test]
fn test_directories_only_vs_files_only() {
    let mut db = Database::new();
    db.insert_file_entry(&entry("test", "/p/test", 0, true)).unwrap();
    db.insert_file_entry(&entry("test", "/p/sub/test", 7, false)).unwrap();
    let dirs = run(
        &db,
        &query("test", SearchFilters { directories_only: true, ..SearchFilters::default() }),
    );
    assert_eq!(dirs, vec!["test".to_string()]);
    let c = CompiledQuery::compile(
        &query("test", SearchFilters { directories_only: true, ..SearchFilters::default() }),
    )
    .unwrap();
    let r = db.search(&c);
    assert!(r.entries[0].is_directory);
    let files = run(
        &db,
        &query("test", SearchFilters { files_only: true, ..SearchFilters::default() }),
    );
    assert_eq!(files, vec!["test".to_string()]);
    let c = CompiledQuery::compile(
        &query("test", SearchFilters { files_only: true, ..SearchFilters::default() }),
    )
    .unwrap();
    let r = db.search(&c);
    assert!(!r.entries[0].is_directory);
}

#[test]
fn test_ordering_directories_first_then_name() {
    let mut db = Database::new();
    db.insert_file_entry(&entry("zeta.txt", "/p/zeta.txt", 1, false)).unwrap();
    db.insert_file_entry(&entry("alpha.txt", "/p/alpha.txt", 1, false)).unwrap();
    db.insert_file_entry(&entry("mdir", "/p/mdir", 0, true)).unwrap();
    db.insert_file_entry(&entry("adir", "/p/adir", 0, true)).unwrap();
    let names = run(&db, &query("", SearchFilters::default()));
    assert_eq!(
        names,
        vec![
            "adir".to_string(),
            "mdir".to_string(),
            "alpha.txt".to_string(),
            "zeta.txt".to_string()
        ]
    );
}

#[test]
fn test_pagination_second_entry() {
    let mut db = Database::new();
    db.insert_file_entry(&entry("a.txt", "/p/a.txt", 1, false)).unwrap();
    db.insert_file_entry(&entry("b.txt", "/p/b.txt", 1, false)).unwrap();
    db.insert_file_entry(&entry("c.txt", "/p/c.txt", 1, false)).unwrap();
    let q = SearchQuery {
        query: String::new(),
        filters: SearchFilters::default(),
        limit: Some(1),
        offset: Some(1),
    };
    let c = CompiledQuery::compile(&q).unwrap();
    let r = db.search(&c);
    assert_eq!(r.entries.len(), 1);
    assert_eq!(r.entries[0].name, "b.txt");
    assert_eq!(r.total_count, 3);
}

#[test]
fn test_pagination_offset_beyond_end() {
    let mut db = Database::new();
    db.insert_file_entry(&entry("a.txt", "/p/a.txt", 1, false)).unwrap();
    let q = SearchQuery {
        query: String::new(),
        filters: SearchFilters::default(),
        limit: Some(10),
        offset: Some(5),
    };
    let c = CompiledQuery::compile(&q).unwrap();
    let r = db.search(&c);
    assert_eq!(r.entries.len(), 0);
    assert_eq!(r.total_count, 1);
}

#[test]
fn test_extension_allow_list() {
    let mut db = Database::new();
    db.insert_file_entry(&entry("a.txt", "/p/a.txt", 1, false)).unwrap();
    db.insert_file_entry(&entry("b.PDF", "/p/b.PDF", 1, false)).unwrap();
    db.insert_file_entry(&entry("c.doc", "/p/c.doc", 1, false)).unwrap();
    db.insert_file_entry(&entry("d", "/p/d", 0, true)).unwrap();
    let names = run(
        &db,
        &query(
            "",
            SearchFilters {
                file_types: vec!["TXT".to_string(), "pdf".to_string()],
                ..SearchFilters::default()
            },
        ),
    );
    assert_eq!(names, vec!["a.txt".to_string(), "b.PDF".to_string()]);
}

#[test]
fn test_regex_search_matches_true_semantics() {
    let mut db = Database::new();
    db.insert_file_entry(&entry("report12.txt", "/p/report12.txt", 1, false)).unwrap();
    db.insert_file_entry(&entry("report.txt", "/p/report.txt", 1, false)).unwrap();
    let names = run(
        &db,
        &query(r"report\d+", SearchFilters { use_regex: true, ..SearchFilters::default() }),
    );
    assert_eq!(names, vec!["report12.txt".to_string()]);
}

#[test]
fn test_invalid_regex_rejected_by_compile() {
    let q = query("test[", SearchFilters { use_regex: true, ..SearchFilters::default() });
    let res = CompiledQuery::compile(&q);
    assert!(matches!(res, Err(file_index::types::SearchError::InvalidQuery(_))));
}

#[test]
fn test_remove_event_then_search_finds_nothing() {
    let mut db = Database::new();
    db.insert_file_entry(&entry("gone.txt", "/p/gone.txt", 1, false)).unwrap();
    let ix = FileIndexer::new();
    ix.handle_file_system_event(
        &mut db,
        FsEventKind::Remove,
        &"/p/gone.txt".to_string(),
        None,
        1_700_000_000,
    )
    .unwrap();
    let names = run(&db, &query("gone", SearchFilters::default()));
    assert!(names.is_empty());
    let r = db.search(&CompiledQuery::compile(&query("gone", SearchFilters::default())).unwrap());
    assert_eq!(r.total_count, 0);
}
