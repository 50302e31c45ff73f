//! The query engine: the gatekeeper between caller-supplied queries and the
//! active search provider. It validates and normalizes a raw query, rejects
//! invalid regex patterns before any store access, injects the default result
//! cap, and re-measures elapsed time end to end.
use vstd::prelude::*;

use crate::query::{regex_check, regex_valid, DEFAULT_RESULT_LIMIT};
use crate::text::{spec_trim, str_trim};
use crate::types::{IndexStats, QueryV, ResultV, SearchError, SearchQuery, SearchResult};

verus! {

/// Relies on `chrono::Utc::now` and `timestamp_millis`: a wall-clock
/// reading, of whose value nothing can be promised.
#[verifier::external_body]
pub(crate) fn now_millis() -> i64 {
    chrono::Utc::now().timestamp_millis()
}

/// The normalized form of a query: the term trimmed, the default result
/// cap injected when none is named, everything else carried over
/// unchanged.
pub open spec fn normalized_of(q: QueryV) -> QueryV {
    QueryV {
        query: spec_trim(q.query),
        filters: q.filters,
        limit: match q.limit {
            Some(l) => Some(l),
            None => Some(DEFAULT_RESULT_LIMIT as int),
        },
        offset: q.offset,
    }
}

/// The capability every search backend offers: answer a query, report
/// index statistics. The store-backed engine and the external index
/// service implement the same contract; callers are indifferent to which
/// one is active.
pub trait SearchProvider: Sized {
    /// The invariant the backend maintains between calls.
    spec fn inv(&self) -> bool;

    /// Whether the backend accepts the query, rather than rejecting it as
    /// invalid.
    spec fn accepts(&self, q: QueryV) -> bool;

    /// The answer the backend gives to an accepted query, as a function of
    /// its current state.
    spec fn answer(&self, q: QueryV) -> ResultV;

    /// Answers a query: whatever comes back on success is this backend's
    /// answer to the query as asked. Success itself is not promised — a
    /// backend may fail for reasons of its own, as an external service
    /// can.
    fn search(&mut self, query: &SearchQuery) -> (r: Result<SearchResult, SearchError>)
        requires
            old(self).inv(),
        ensures
            final(self).inv(),
            match r {
                Ok(res) => old(self).accepts(query@) && res@ == old(self).answer(query@),
                Err(_) => true,
            },
    ;

    /// Reports aggregate statistics over the index.
    fn get_stats(&self) -> (r: Result<IndexStats, SearchError>)
        requires
            self.inv(),
    ;
}

/// Elapsed milliseconds between two clock readings, clamped to the
/// counter's range.
pub open spec fn clamped_elapsed(start: int, end: int) -> int {
    if end - start < 0 {
        0
    } else if end - start > u64::MAX {
        u64::MAX as int
    } else {
        end - start
    }
}

/// The provider's result with the engine's own end-to-end measurement in
/// place of the backend-reported time; entries and total count pass
/// through unchanged.
fn with_measured_time(res: SearchResult, start: i64, end: i64) -> (r: SearchResult)
    ensures
        r.entries == res.entries,
        r.total_count == res.total_count,
        r.query_time_ms == clamped_elapsed(start as int, end as int),
{
    let d: i128 = end as i128 - start as i128;
    let ms: u64 = if d < 0 {
        0
    } else if d > u64::MAX as i128 {
        u64::MAX
    } else {
        d as u64
    };
    SearchResult { entries: res.entries, total_count: res.total_count, query_time_ms: ms }
}

/// The engine in front of a search provider.
pub struct SearchEngine<P: SearchProvider> {
    pub provider: P,
}

impl<P: SearchProvider> SearchEngine<P> {
    /// The engine is usable while its provider's invariant holds.
    pub open spec fn wf(&self) -> bool {
        self.provider.inv()
    }

    pub fn new(provider: P) -> (r: SearchEngine<P>)
        ensures
            r.provider == provider,
    {
        SearchEngine { provider }
    }

    /// Validates and normalizes a query: an invalid regex pattern is
    /// rejected here, before any store access; otherwise the result is
    /// exactly the normalized query.
    pub fn preprocess_query(&self, query: &SearchQuery) -> (r: Result<SearchQuery, SearchError>)
        ensures
            match r {
                Ok(p) => {
                    &&& !(query@.filters.use_regex && !regex_valid(query@.query))
                    &&& p@ == normalized_of(query@)
                },
                Err(e) => {
                    &&& query@.filters.use_regex && !regex_valid(query@.query)
                    &&& e is InvalidQuery
                },
            },
    {
        if query.filters.use_regex {
            if !regex_check(query.query.as_str()) {
                return Err(
                    SearchError::InvalidQuery(String::from_str("invalid regex pattern")),
                );
            }
        }
        let limit: Option<u32> = match query.limit {
            Some(l) => Some(l),
            None => Some(DEFAULT_RESULT_LIMIT),
        };
        let p = SearchQuery {
            query: str_trim(query.query.as_str()),
            filters: query.filters.duplicate(),
            limit,
            offset: query.offset,
        };
        proof {
            assert(p@ == normalized_of(query@));
        }
        Ok(p)
    }

    /// Normalizes the query and delegates to the active provider. A query
    /// with an invalid regex pattern is rejected with the validation error
    /// before the provider — and so before any store — is reached, leaving
    /// the engine untouched. On success the answer is the provider's
    /// answer for the normalized query, entries and total count unchanged,
    /// with the elapsed time replaced by the engine's own end-to-end
    /// measurement.
    pub fn search(&mut self, query: &SearchQuery) -> (r: Result<SearchResult, SearchError>)
        requires
            old(self).wf(),
        ensures
            final(self).wf(),
            query@.filters.use_regex && !regex_valid(query@.query) ==> r is Err,
            match r {
                Ok(res) => {
                    &&& !(query@.filters.use_regex && !regex_valid(query@.query))
                    &&& old(self).provider.accepts(normalized_of(query@))
                    &&& res@.entries == old(self).provider.answer(normalized_of(query@)).entries
                    &&& res@.total_count == old(self).provider.answer(
                        normalized_of(query@),
                    ).total_count
                },
                Err(e) => query@.filters.use_regex && !regex_valid(query@.query) ==> {
                    &&& e is InvalidQuery
                    &&& *final(self) == *old(self)
                },
            },
    {
        let start = now_millis();
        let processed = match self.preprocess_query(query) {
            Ok(p) => p,
            Err(e) => {
                return Err(e);
            },
        };
        let res = self.provider.search(&processed);
        let end = now_millis();
        match res {
            Ok(result) => Ok(with_measured_time(result, start, end)),
            Err(e) => Err(e),
        }
    }

    /// Completion suggestions for a partial query: the common document
    /// extensions appended as glob patterns.
    pub fn suggest_completions(&self, partial_query: &str) -> (r: Result<Vec<String>, SearchError>)
        ensures
            match r {
                Ok(v) => {
                    &&& v@.len() == 3
                    &&& v@[0]@ == partial_query@ + "*.txt"@
                    &&& v@[1]@ == partial_query@ + "*.pdf"@
                    &&& v@[2]@ == partial_query@ + "*.doc"@
                },
                Err(_) => false,
            },
    {
        let mut v: Vec<String> = Vec::new();
        let mut s = partial_query.to_owned();
        s.append("*.txt");
        v.push(s);
        let mut s = partial_query.to_owned();
        s.append("*.pdf");
        v.push(s);
        let mut s = partial_query.to_owned();
        s.append("*.doc");
        v.push(s);
        Ok(v)
    }

    /// The recent search history; none is kept.
    pub fn get_recent_searches(&self) -> (r: Result<Vec<String>, SearchError>)
        ensures
            match r {
                Ok(v) => v@.len() == 0,
                Err(_) => false,
            },
    {
        Ok(Vec::new())
    }

    /// Records a query in the search history; none is kept.
    pub fn save_search_history(&self, query: &str) -> (r: Result<(), SearchError>)
        ensures
            r is Ok,
    {
        let _ = query;
        Ok(())
    }
}

} // verus!
