use file_index::indexer::{FileIndexer, FsEventKind, FsMeta, ScanItem};
use file_index::query::CompiledQuery;
use file_index::store::Database;
use file_index::types::{SearchFilters, SearchQuery};

fn meta(is_directory: bool, size: i64) -> FsMeta {
    FsMeta { is_directory, size, modified: 1_600_000_000, created: 1_500_000_000, attributes: 0 }
}

fn search_names(db: &Database, term: &str) -> Vec<String> {
    let q = SearchQuery {
        query: term.to_string(),
        filters: SearchFilters { include_hidden: true, ..SearchFilters::default() },
        limit: None,
        offset: None,
    };
    let c = CompiledQuery::compile(&q).unwrap();
    db.search(&c).entries.iter().map(|e| e.name.clone()).collect()
}

#[test]
fn test_should_index_excludes_patterns_case_insensitively() {
    let ix = FileIndexer::new();
    assert!(!ix.should_index_path(&"/home/u/project/node_modules/lib.js".to_string()));
    assert!(!ix.should_index_path(&"/home/u/project/NODE_MODULES/lib.js".to_string()));
    assert!(!ix.should_index_path(&"/repo/.git/config".to_string()));
    assert!(ix.should_index_path(&"/home/u/project/src/lib.js".to_string()));
}

#[test]
fn test_should_index_skips_hidden_names() {
    let ix = FileIndexer::new();
    assert!(!ix.should_index_path(&"/home/u/.bashrc".to_string()));
    assert!(ix.should_index_path(&"/home/u/notes.txt".to_string()));
    assert!(ix.should_index_path(&".".to_string()));
    assert!(ix.should_index_path(&"..".to_string()));
}

#[test]
fn test_exclusion_policy_scan_never_indexes_excluded() {
    let ix = FileIndexer::new();
    let mut db = Database::new();
    let items = vec![
        ScanItem { path: "/p/src/main.rs".to_string(), meta: meta(false, 10) },
        ScanItem { path: "/p/node_modules/x.js".to_string(), meta: meta(false, 20) },
        ScanItem { path: "/p/docs".to_string(), meta: meta(true, 0) },
    ];
    ix.ingest_scan(&mut db, &items, 1_700_000_000).unwrap();
    assert_eq!(db.entries.len(), 2);
    for e in &db.entries {
        assert!(!e.path.contains("node_modules"));
    }
    let names = search_names(&db, "x.js");
    assert!(names.is_empty());
}

#[test]
fn test_scan_batches_large_input() {
    let ix = FileIndexer::new();
    let mut db = Database::new();
    let items: Vec<ScanItem> = (0..2500)
        .map(|i| ScanItem { path: format!("/data/f{:04}.bin", i), meta: meta(false, 1) })
        .collect();
    ix.ingest_scan(&mut db, &items, 1_700_000_000).unwrap();
    assert_eq!(db.entries.len(), 2500);
    assert_eq!(db.shadow.len(), 2500);
}

#[test]
fn test_create_file_entry_fields() {
    let ix = FileIndexer::new();
    let e = ix.create_file_entry(&"/p/Photos/Trip.JPG".to_string(), &meta(false, 123), 42);
    assert_eq!(e.name, "Trip.JPG");
    assert_eq!(e.path, "/p/Photos/Trip.JPG");
    assert_eq!(e.size, 123);
    assert!(!e.is_directory);
    assert_eq!(e.extension.as_deref(), Some("jpg"));
    assert_eq!(e.indexed_at, 42);
    assert_eq!(e.id.len(), 36);
}

#[test]
fn test_create_file_entry_ignores_trailing_separator() {
    let ix = FileIndexer::new();
    let e = ix.create_file_entry(&"/p/Photos/".to_string(), &meta(true, 0), 42);
    assert_eq!(e.name, "Photos");
    let e = ix.create_file_entry(&"/p/a.txt/".to_string(), &meta(false, 3), 42);
    assert_eq!(e.name, "a.txt");
    assert_eq!(e.extension.as_deref(), Some("txt"));
}

#[test]
fn test_should_index_sees_hidden_dir_behind_trailing_separator() {
    let mut ix = FileIndexer::new();
    ix.set_exclude_patterns(Vec::new());
    assert!(!ix.should_index_path(&"/home/u/.config/".to_string()));
    assert!(ix.should_index_path(&"/home/u/docs/".to_string()));
}

#[test]
fn test_create_file_entry_directory_has_no_extension_and_zero_size() {
    let ix = FileIndexer::new();
    let e = ix.create_file_entry(&"/p/archive.d".to_string(), &meta(true, 555), 42);
    assert!(e.is_directory);
    assert_eq!(e.size, 0);
    assert_eq!(e.extension, None);
}

#[test]
fn test_extension_edge_cases() {
    let ix = FileIndexer::new();
    let e = ix.create_file_entry(&"/p/.hidden".to_string(), &meta(false, 1), 0);
    assert_eq!(e.extension, None);
    let e = ix.create_file_entry(&"/p/trailing.".to_string(), &meta(false, 1), 0);
    assert_eq!(e.extension, None);
    let e = ix.create_file_entry(&"/p/a.tar.gz".to_string(), &meta(false, 1), 0);
    assert_eq!(e.extension.as_deref(), Some("gz"));
    let e = ix.create_file_entry(&"/p/noext".to_string(), &meta(false, 1), 0);
    assert_eq!(e.extension, None);
}

#[test]
fn test_create_event_indexes_path() {
    let ix = FileIndexer::new();
    let mut db = Database::new();
    ix.handle_file_system_event(
        &mut db,
        FsEventKind::Create,
        &"/p/new.txt".to_string(),
        Some(&meta(false, 9)),
        7,
    )
    .unwrap();
    assert_eq!(db.entries.len(), 1);
    assert_eq!(db.entries[0].name, "new.txt");
}

#[test]
fn test_modify_event_replaces_entry() {
    let ix = FileIndexer::new();
    let mut db = Database::new();
    ix.handle_file_system_event(
        &mut db,
        FsEventKind::Create,
        &"/p/f.txt".to_string(),
        Some(&meta(false, 9)),
        7,
    )
    .unwrap();
    ix.handle_file_system_event(
        &mut db,
        FsEventKind::Modify,
        &"/p/f.txt".to_string(),
        Some(&meta(false, 90)),
        8,
    )
    .unwrap();
    assert_eq!(db.entries.len(), 1);
    assert_eq!(db.entries[0].size, 90);
    assert_eq!(db.entries[0].indexed_at, 8);
}

#[test]
fn test_event_on_excluded_path_is_ignored() {
    let ix = FileIndexer::new();
    let mut db = Database::new();
    ix.handle_file_system_event(
        &mut db,
        FsEventKind::Create,
        &"/p/node_modules/x.js".to_string(),
        Some(&meta(false, 9)),
        7,
    )
    .unwrap();
    assert_eq!(db.entries.len(), 0);
}

#[test]
fn test_add_indexed_path_deduplicates() {
    let mut ix = FileIndexer::new();
    ix.add_indexed_path("/home/u".to_string());
    ix.add_indexed_path("/srv".to_string());
    ix.add_indexed_path("/home/u".to_string());
    assert_eq!(ix.indexed_paths, vec!["/home/u".to_string(), "/srv".to_string()]);
}

#[test]
fn test_set_exclude_patterns_replaces_defaults() {
    let mut ix = FileIndexer::new();
    ix.set_exclude_patterns(vec!["secret".to_string()]);
    assert!(!ix.should_index_path(&"/p/secret/x".to_string()));
    assert!(ix.should_index_path(&"/p/node_modules/x".to_string()));
}

#[test]
fn test_windows_attribute_helpers() {
    assert_eq!(file_index::indexer::get_windows_attributes(&"/p/x".to_string()), 0);
    assert!(file_index::indexer::is_hidden_or_system(2));
    assert!(file_index::indexer::is_hidden_or_system(4));
    assert!(file_index::indexer::is_hidden_or_system(6));
    assert!(!file_index::indexer::is_hidden_or_system(0));
    assert!(!file_index::indexer::is_hidden_or_system(8));
}
