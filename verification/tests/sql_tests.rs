use file_index::query::CompiledQuery;
use file_index::sql::{compile_sql, count_placeholders, SqlParam};
use file_index::types::{SearchFilters, SearchQuery};

fn compile(term: &str, filters: SearchFilters) -> file_index::sql::SqlQuery {
    let q = SearchQuery { query: term.to_string(), filters, limit: Some(50), offset: Some(10) };
    compile_sql(&CompiledQuery::compile(&q).unwrap())
}

#[test]
fn test_sql_text_depends_on_shape_not_values() {
    let a = compile(
        "alpha",
        SearchFilters {
            file_types: vec!["txt".to_string(), "md".to_string()],
            size_min: Some(1),
            ..SearchFilters::default()
        },
    );
    let b = compile(
        "omega'; DROP TABLE file_entries; --",
        SearchFilters {
            file_types: vec!["pdf".to_string(), "doc".to_string()],
            size_min: Some(99),
            ..SearchFilters::default()
        },
    );
    assert_eq!(a.sql, b.sql);
    assert_ne!(
        format!("{:?}", a.params),
        format!("{:?}", b.params)
    );
}

#[test]
fn test_sql_holds_no_filter_value() {
    let term = "needle'; DROP TABLE file_entries; --";
    let q = compile(
        term,
        SearchFilters { file_types: vec!["mp3".to_string()], ..SearchFilters::default() },
    );
    assert!(!q.sql.contains(term));
    assert!(!q.sql.contains("needle"));
    assert!(!q.sql.contains("mp3"));
    assert!(!q.sql.contains("50"));
    assert!(!q.sql.contains("10"));
}

#[test]
fn test_placeholders_match_params_one_to_one() {
    let cases = vec![
        compile("", SearchFilters::default()),
        compile("term", SearchFilters::default()),
        compile(
            "term",
            SearchFilters { case_sensitive: true, include_hidden: true, ..SearchFilters::default() },
        ),
        compile(
            "t",
            SearchFilters {
                file_types: vec!["a".to_string(), "b".to_string(), "c".to_string()],
                size_min: Some(1),
                size_max: Some(2),
                date_from: Some(3),
                date_to: Some(4),
                directories_only: true,
                ..SearchFilters::default()
            },
        ),
        compile(
            "t",
            SearchFilters { files_only: true, use_regex: true, ..SearchFilters::default() },
        ),
    ];
    for q in cases {
        assert_eq!(count_placeholders(&q.sql), q.params.len());
    }
}

#[test]
fn test_sql_binds_values_in_order() {
    let q = compile(
        "Term",
        SearchFilters {
            file_types: vec!["TXT".to_string()],
            size_min: Some(7),
            ..SearchFilters::default()
        },
    );
    assert_eq!(q.params.len(), 6);
    assert!(matches!(&q.params[0], SqlParam::Text(t) if t == "Term"));
    assert!(matches!(&q.params[1], SqlParam::Text(t) if t == "Term"));
    assert!(matches!(&q.params[2], SqlParam::Text(t) if t == "txt"));
    assert!(matches!(&q.params[3], SqlParam::Int(7)));
    assert!(matches!(&q.params[4], SqlParam::Int(50)));
    assert!(matches!(&q.params[5], SqlParam::Int(10)));
}

#[test]
fn test_regex_term_adds_no_text_predicate() {
    let with_regex = compile(
        "pat.*",
        SearchFilters { use_regex: true, ..SearchFilters::default() },
    );
    let empty_term = compile("", SearchFilters::default());
    assert_eq!(with_regex.sql, empty_term.sql);
}

#[test]
fn test_sql_orders_and_paginates() {
    let q = compile("", SearchFilters::default());
    assert!(q.sql.contains("ORDER BY is_directory DESC, name ASC, path ASC"));
    assert!(q.sql.ends_with("LIMIT ? OFFSET ?"));
    assert!(q.sql.contains("substr(name, 1, 1) != '.'"));
}
