//! The data model: file entries, queries, filters, results, statistics and
//! the error taxonomy, together with their mathematical views.
use vstd::prelude::*;

use crate::text::lower_seq;

verus! {

/// Mathematical view of a [`FileEntry`]: every field as a plain value.
pub ghost struct EntryV {
    pub id: Seq<char>,
    pub name: Seq<char>,
    pub path: Seq<char>,
    pub size: int,
    pub modified: int,
    pub created: int,
    pub is_directory: bool,
    pub extension: Option<Seq<char>>,
    pub attributes: int,
    pub indexed_at: int,
}

/// One indexed filesystem object: a metadata snapshot of a file or
/// directory. `path` is the natural key; timestamps are UTC seconds since
/// the epoch.
#[derive(Debug, Clone)]
pub struct FileEntry {
    pub id: String,
    pub name: String,
    pub path: String,
    pub size: i64,
    pub modified: i64,
    pub created: i64,
    pub is_directory: bool,
    pub extension: Option<String>,
    pub attributes: i32,
    pub indexed_at: i64,
}

impl View for FileEntry {
    type V = EntryV;

    open spec fn view(&self) -> EntryV {
        EntryV {
            id: self.id@,
            name: self.name@,
            path: self.path@,
            size: self.size as int,
            modified: self.modified as int,
            created: self.created as int,
            is_directory: self.is_directory,
            extension: match self.extension {
                Some(e) => Some(e@),
                None => None,
            },
            attributes: self.attributes as int,
            indexed_at: self.indexed_at as int,
        }
    }
}

impl FileEntry {
    /// A copy whose every field equals the original's.
    pub fn duplicate(&self) -> (r: FileEntry)
        ensures
            r == *self,
    {
        let r = FileEntry {
            id: self.id.clone(),
            name: self.name.clone(),
            path: self.path.clone(),
            size: self.size,
            modified: self.modified,
            created: self.created,
            is_directory: self.is_directory,
            extension: match &self.extension {
                Some(e) => Some(e.clone()),
                None => None,
            },
            attributes: self.attributes,
            indexed_at: self.indexed_at,
        };
        r
    }
}

/// A well-formed entry, as the store accepts it: a non-empty path, a
/// non-negative size, and for directories a zero size and no extension;
/// a present extension is already folded to lower case.
pub open spec fn valid_entry(e: EntryV) -> bool {
    &&& e.path.len() > 0
    &&& e.size >= 0
    &&& (e.is_directory ==> e.size == 0 && e.extension is None)
    &&& (match e.extension {
        Some(x) => x == lower_seq(x),
        None => true,
    })
}

/// The views of a sequence of entries.
pub open spec fn views_of(s: Seq<FileEntry>) -> Seq<EntryV> {
    s.map_values(|e: FileEntry| e@)
}

/// Mathematical view of [`SearchFilters`].
pub ghost struct FiltersV {
    pub file_types: Seq<Seq<char>>,
    pub size_min: Option<int>,
    pub size_max: Option<int>,
    pub date_from: Option<int>,
    pub date_to: Option<int>,
    pub include_hidden: bool,
    pub case_sensitive: bool,
    pub use_regex: bool,
    pub search_content: bool,
    pub directories_only: bool,
    pub files_only: bool,
}

/// The optional restrictions a query carries besides its free-text term.
/// Date bounds are UTC seconds since the epoch and apply to `modified`;
/// size and date bounds are inclusive. `search_content` is carried for
/// interface compatibility: content search is a non-goal and the flag does
/// not influence matching.
#[derive(Debug, Clone)]
pub struct SearchFilters {
    pub file_types: Vec<String>,
    pub size_min: Option<i64>,
    pub size_max: Option<i64>,
    pub date_from: Option<i64>,
    pub date_to: Option<i64>,
    pub include_hidden: bool,
    pub case_sensitive: bool,
    pub use_regex: bool,
    pub search_content: bool,
    pub directories_only: bool,
    pub files_only: bool,
}

impl View for SearchFilters {
    type V = FiltersV;

    open spec fn view(&self) -> FiltersV {
        FiltersV {
            file_types: self.file_types@.map_values(|s: String| s@),
            size_min: match self.size_min {
                Some(v) => Some(v as int),
                None => None,
            },
            size_max: match self.size_max {
                Some(v) => Some(v as int),
                None => None,
            },
            date_from: match self.date_from {
                Some(v) => Some(v as int),
                None => None,
            },
            date_to: match self.date_to {
                Some(v) => Some(v as int),
                None => None,
            },
            include_hidden: self.include_hidden,
            case_sensitive: self.case_sensitive,
            use_regex: self.use_regex,
            search_content: self.search_content,
            directories_only: self.directories_only,
            files_only: self.files_only,
        }
    }
}

impl Default for SearchFilters {
    /// No restriction is active: hidden entries are excluded, matching is
    /// case-insensitive and non-regex, and no kind filter is set.
    fn default() -> (r: Self)
        ensures
            r@.file_types.len() == 0,
            r@.size_min is None,
            r@.size_max is None,
            r@.date_from is None,
            r@.date_to is None,
            !r@.include_hidden,
            !r@.case_sensitive,
            !r@.use_regex,
            !r@.search_content,
            !r@.directories_only,
            !r@.files_only,
    {
        SearchFilters {
            file_types: Vec::new(),
            size_min: None,
            size_max: None,
            date_from: None,
            date_to: None,
            include_hidden: false,
            case_sensitive: false,
            use_regex: false,
            search_content: false,
            directories_only: false,
            files_only: false,
        }
    }
}

/// An element-wise copy of a vector of strings.
pub fn clone_string_vec(v: &Vec<String>) -> (r: Vec<String>)
    ensures
        r@ == v@,
{
    let mut r: Vec<String> = Vec::new();
    let mut i: usize = 0;
    while i < v.len()
        invariant
            i <= v@.len(),
            r@ == v@.take(i as int),
        decreases v@.len() - i,
    {
        r.push(v[i].clone());
        proof {
            assert(v@.take(i + 1) =~= v@.take(i as int).push(v@[i as int]));
        }
        i += 1;
    }
    proof {
        assert(v@.take(v@.len() as int) =~= v@);
    }
    r
}

impl SearchFilters {
    /// A copy whose view equals the original's.
    pub fn duplicate(&self) -> (r: SearchFilters)
        ensures
            r@ == self@,
    {
        SearchFilters {
            file_types: clone_string_vec(&self.file_types),
            size_min: self.size_min,
            size_max: self.size_max,
            date_from: self.date_from,
            date_to: self.date_to,
            include_hidden: self.include_hidden,
            case_sensitive: self.case_sensitive,
            use_regex: self.use_regex,
            search_content: self.search_content,
            directories_only: self.directories_only,
            files_only: self.files_only,
        }
    }
}

/// Mathematical view of [`SearchQuery`].
pub ghost struct QueryV {
    pub query: Seq<char>,
    pub filters: FiltersV,
    pub limit: Option<int>,
    pub offset: Option<int>,
}

/// A caller-supplied search request: a free-text term, filters, and
/// optional pagination.
#[derive(Debug, Clone)]
pub struct SearchQuery {
    pub query: String,
    pub filters: SearchFilters,
    pub limit: Option<u32>,
    pub offset: Option<u32>,
}

impl View for SearchQuery {
    type V = QueryV;

    open spec fn view(&self) -> QueryV {
        QueryV {
            query: self.query@,
            filters: self.filters@,
            limit: match self.limit {
                Some(v) => Some(v as int),
                None => None,
            },
            offset: match self.offset {
                Some(v) => Some(v as int),
                None => None,
            },
        }
    }
}

/// Mathematical view of [`SearchResult`].
pub ghost struct ResultV {
    pub entries: Seq<EntryV>,
    pub total_count: int,
    pub query_time_ms: int,
}

/// An answer to a query: the requested page of matching entries, the number
/// of matches before pagination, and the elapsed time in milliseconds.
#[derive(Debug, Clone)]
pub struct SearchResult {
    pub entries: Vec<FileEntry>,
    pub total_count: u64,
    pub query_time_ms: u64,
}

impl View for SearchResult {
    type V = ResultV;

    open spec fn view(&self) -> ResultV {
        ResultV {
            entries: views_of(self.entries@),
            total_count: self.total_count as int,
            query_time_ms: self.query_time_ms as int,
        }
    }
}

/// Aggregate statistics over the index.
#[derive(Debug, Clone)]
pub struct IndexStats {
    pub total_files: u64,
    pub total_directories: u64,
    pub indexed_paths: Vec<String>,
    pub last_index_time: i64,
    pub index_size_bytes: u64,
}

/// The error taxonomy: I/O and storage failures, queries rejected by
/// validation, and failures reported by the external search backend.
#[derive(Debug, Clone)]
pub enum SearchError {
    Io(String),
    InvalidQuery(String),
    EverythingSdk(String),
}

impl SearchError {
    /// A human-readable description of the error.
    pub fn message(&self) -> (r: String)
        ensures
            match self {
                SearchError::Io(m) => r@ == m@,
                SearchError::InvalidQuery(m) => r@ == m@,
                SearchError::EverythingSdk(m) => r@ == m@,
            },
    {
        match self {
            SearchError::Io(m) => m.clone(),
            SearchError::InvalidQuery(m) => m.clone(),
            SearchError::EverythingSdk(m) => m.clone(),
        }
    }
}

} // verus!
