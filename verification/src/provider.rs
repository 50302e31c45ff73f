//! The store-backed search provider: the built-in implementation of the
//! [`SearchProvider`] capability, executing compiled queries against the
//! entry store and reporting statistics together with the configured roots.
use vstd::prelude::*;

use crate::engine::SearchProvider;
use crate::query::{compiled_of, regex_valid, CompiledQuery};
use crate::store::{last_indexed, matched_of, num_dirs, num_files, page_of, total_size, Database};
use crate::order::sort_entries;
use crate::types::{clone_string_vec, views_of, IndexStats, QueryV, ResultV, SearchError,
    SearchQuery, SearchResult};

verus! {

/// The built-in backend: the entry store plus the roots it was told about,
/// which it reports in its statistics.
pub struct StoreProvider {
    pub db: Database,
    pub roots: Vec<String>,
}

impl StoreProvider {
    pub fn new(db: Database, roots: Vec<String>) -> (r: StoreProvider)
        ensures
            r.db == db,
            r.roots == roots,
    {
        StoreProvider { db, roots }
    }
}

impl SearchProvider for StoreProvider {
    /// The provider is usable while its store's invariant holds.
    open spec fn inv(&self) -> bool {
        self.db.wf()
    }

    /// The store rejects exactly the queries whose regex pattern is
    /// invalid.
    open spec fn accepts(&self, q: QueryV) -> bool {
        !(q.filters.use_regex && !regex_valid(q.query))
    }

    /// The store's answer: the matching rows in display order, paginated,
    /// with the count of matches before pagination; the elapsed time is
    /// left for the engine to measure.
    open spec fn answer(&self, q: QueryV) -> ResultV {
        ResultV {
            entries: page_of(
                sort_entries(matched_of(compiled_of(q), self.db@)),
                compiled_of(q).offset,
                compiled_of(q).limit,
            ),
            total_count: matched_of(compiled_of(q), self.db@).len() as int,
            query_time_ms: 0,
        }
    }

    /// Compiles the query — rejecting exactly the invalid regex patterns,
    /// before any store access — and executes it against the store. The
    /// trait contract pins the successful answer; rejection leaves the
    /// store untouched.
    fn search(&mut self, query: &SearchQuery) -> (r: Result<SearchResult, SearchError>)
        ensures
            *final(self) == *old(self),
            match r {
                Ok(_) => true,
                Err(e) => {
                    &&& query@.filters.use_regex && !regex_valid(query@.query)
                    &&& e is InvalidQuery
                },
            },
    {
        match CompiledQuery::compile(query) {
            Ok(c) => {
                let res = self.db.search(&c);
                proof {
                    assert(views_of(res.entries@) == self.answer(query@).entries);
                    assert(res@ == self.answer(query@));
                }
                Ok(res)
            },
            Err(e) => Err(e),
        }
    }

    /// Statistics from the store's current contents, with the configured
    /// roots filled in.
    fn get_stats(&self) -> (r: Result<IndexStats, SearchError>)
        ensures
            match r {
                Ok(st) => {
                    &&& st.total_files == num_files(self.db@)
                    &&& st.total_directories == num_dirs(self.db@)
                    &&& st.index_size_bytes == (if total_size(self.db@) > u64::MAX {
                        u64::MAX as int
                    } else {
                        total_size(self.db@)
                    })
                    &&& st.last_index_time == last_indexed(self.db@)
                    &&& st.indexed_paths@ == self.roots@
                },
                Err(_) => false,
            },
    {
        let mut st = self.db.get_stats();
        st.indexed_paths = clone_string_vec(&self.roots);
        Ok(st)
    }
}

} // verus!
