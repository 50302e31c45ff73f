use file_index::store::Database;
use file_index::types::FileEntry;

fn entry(name: &str, path: &str, size: i64, is_directory: bool) -> FileEntry {
    FileEntry {
        id: format!("id-{}", path),
        name: name.to_string(),
        path: path.to_string(),
        size: if is_directory { 0 } else { size },
        modified: 1_600_000_000,
        created: 1_500_000_000,
        is_directory,
        extension: if is_directory {
            None
        } else {
            name.rsplit_once('.').map(|(stem, ext)| (stem, ext.to_lowercase())).and_then(
                |(stem, ext)| {
                    if stem.is_empty() || ext.is_empty() {
                        None
                    } else {
                        Some(ext)
                    }
                },
            )
        },
        attributes: 0,
        indexed_at: 1_700_000_000,
    }
}

#[test]
fn test_upsert_idempotence() {
    let mut db = Database::new();
    let mut e = entry("a.txt", "/p/a.txt", 10, false);
    db.insert_file_entry(&e).unwrap();
    e.size = 42;
    e.modified = 1_600_000_999;
    db.insert_file_entry(&e).unwrap();
    assert_eq!(db.entries.len(), 1);
    assert_eq!(db.entries[0].path, "/p/a.txt");
    assert_eq!(db.entries[0].size, 42);
    assert_eq!(db.entries[0].modified, 1_600_000_999);
    assert_eq!(db.shadow.len(), 1);
}

#[test]
fn test_shadow_index_consistency() {
    let mut db = Database::new();
    db.insert_file_entry(&entry("a.txt", "/p/a.txt", 10, false)).unwrap();
    db.insert_file_entry(&entry("b.txt", "/p/b.txt", 20, false)).unwrap();
    db.insert_file_entry(&entry("c", "/p/c", 0, true)).unwrap();
    db.insert_file_entry(&entry("a.txt", "/p/a.txt", 11, false)).unwrap();
    db.delete(&"/p/b.txt".to_string());
    assert_eq!(db.entries.len(), 2);
    assert_eq!(db.shadow.len(), 2);
    for i in 0..db.entries.len() {
        assert_eq!(db.shadow[i].name, db.entries[i].name);
        assert_eq!(db.shadow[i].path, db.entries[i].path);
    }
    let paths: Vec<&String> = db.shadow.iter().map(|r| &r.path).collect();
    for i in 0..paths.len() {
        for j in i + 1..paths.len() {
            assert_ne!(paths[i], paths[j]);
        }
    }
}

#[test]
fn test_batch_atomicity() {
    let mut db = Database::new();
    db.insert_file_entry(&entry("keep.txt", "/p/keep.txt", 1, false)).unwrap();
    let mut batch = Vec::new();
    for i in 0..10 {
        let name = format!("f{}.txt", i);
        let path = format!("/batch/f{}.txt", i);
        let mut e = entry(&name, &path, 5, false);
        if i == 7 {
            // Malformed: a directory must not carry a size or an extension.
            e.is_directory = true;
            e.size = 5;
        }
        batch.push(e);
    }
    let res = db.batch_insert_file_entries(&batch);
    assert!(res.is_err());
    assert_eq!(db.entries.len(), 1);
    assert_eq!(db.entries[0].path, "/p/keep.txt");
}

#[test]
fn test_batch_commits_whole() {
    let mut db = Database::new();
    let batch: Vec<FileEntry> = (0..10)
        .map(|i| entry(&format!("f{}.txt", i), &format!("/batch/f{}.txt", i), 5, false))
        .collect();
    db.batch_insert_file_entries(&batch).unwrap();
    assert_eq!(db.entries.len(), 10);
    assert_eq!(db.shadow.len(), 10);
}

#[test]
fn test_delete_unknown_path_is_noop() {
    let mut db = Database::new();
    db.insert_file_entry(&entry("a.txt", "/p/a.txt", 10, false)).unwrap();
    db.delete(&"/p/unknown".to_string());
    assert_eq!(db.entries.len(), 1);
}

#[test]
fn test_malformed_entry_rejected_with_io_error() {
    let mut db = Database::new();
    let mut bad = entry("x", "", 1, false);
    bad.path = String::new();
    let res = db.insert_file_entry(&bad);
    assert!(matches!(res, Err(file_index::types::SearchError::Io(_))));
    assert_eq!(db.entries.len(), 0);
}

#[test]
fn test_stats_counts_sizes_and_latest() {
    let mut db = Database::new();
    let mut a = entry("a.txt", "/p/a.txt", 10, false);
    a.indexed_at = 100;
    let mut b = entry("b.txt", "/p/b.txt", 32, false);
    b.indexed_at = 300;
    let mut d = entry("d", "/p/d", 0, true);
    d.indexed_at = 200;
    db.insert_file_entry(&a).unwrap();
    db.insert_file_entry(&b).unwrap();
    db.insert_file_entry(&d).unwrap();
    let st = db.get_stats();
    assert_eq!(st.total_files, 2);
    assert_eq!(st.total_directories, 1);
    assert_eq!(st.index_size_bytes, 42);
    assert_eq!(st.last_index_time, 300);
    assert!(st.indexed_paths.is_empty());
}

#[test]
fn test_clear_index_empties_both_tables() {
    let mut db = Database::new();
    db.insert_file_entry(&entry("a.txt", "/p/a.txt", 10, false)).unwrap();
    db.clear_index();
    assert_eq!(db.entries.len(), 0);
    assert_eq!(db.shadow.len(), 0);
    let st = db.get_stats();
    assert_eq!(st.total_files, 0);
    assert_eq!(st.index_size_bytes, 0);
}
