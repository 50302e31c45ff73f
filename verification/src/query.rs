//! The query layer: validation and compilation of a raw [`SearchQuery`] into
//! the predicate form the store executes, the matching predicate itself, and
//! the translation into a parameterized SQL text whose shape depends on which
//! filters are active — never on their values.
use vstd::prelude::*;

use crate::text::{contains_seq, fold_seq, lower_seq, starts_with_dot, str_contains_fold,
    to_ascii_lower};
use crate::types::{EntryV, FileEntry, SearchError, SearchQuery};

verus! {

/// Whether the regex crate accepts the pattern; a function of the pattern
/// alone.
pub uninterp spec fn regex_valid(pat: Seq<char>) -> bool;

/// Whether the pattern matches somewhere in the text, under the regex
/// crate's semantics; a function of pattern and text alone.
pub uninterp spec fn regex_match(pat: Seq<char>, text: Seq<char>) -> bool;

/// Relies on `regex::Regex::new`: compilation succeeds exactly on the
/// patterns the crate accepts, a function of the pattern text alone.
#[verifier::external_body]
pub(crate) fn regex_check(pat: &str) -> (r: bool)
    ensures
        r == regex_valid(pat@),
{
    regex::Regex::new(pat).is_ok()
}

/// Relies on `regex::Regex::new` and `regex::Regex::is_match`: on a valid
/// pattern, reports whether the pattern matches anywhere in the text; on an
/// invalid pattern there is nothing to report.
#[verifier::external_body]
pub(crate) fn regex_find(pat: &str, text: &str) -> (r: Option<bool>)
    ensures
        r is Some <==> regex_valid(pat@),
        r is Some ==> r->0 == regex_match(pat@, text@),
{
    match regex::Regex::new(pat) {
        Ok(re) => Some(re.is_match(text)),
        Err(_) => None,
    }
}

/// The result cap injected when a query does not name one.
pub const DEFAULT_RESULT_LIMIT: u32 = 1000;

/// Mathematical view of a [`CompiledQuery`].
pub ghost struct CompiledV {
    pub term: Seq<char>,
    pub file_types: Seq<Seq<char>>,
    pub size_min: Option<int>,
    pub size_max: Option<int>,
    pub date_from: Option<int>,
    pub date_to: Option<int>,
    pub include_hidden: bool,
    pub case_sensitive: bool,
    pub use_regex: bool,
    pub directories_only: bool,
    pub files_only: bool,
    pub limit: int,
    pub offset: int,
}

/// A validated query in the form the store executes: the term as given, the
/// extension allow-list folded to lower case, concrete pagination, and — when
/// regex mode is on — a pattern known to be valid.
pub struct CompiledQuery {
    pub term: String,
    pub file_types: Vec<String>,
    pub size_min: Option<i64>,
    pub size_max: Option<i64>,
    pub date_from: Option<i64>,
    pub date_to: Option<i64>,
    pub include_hidden: bool,
    pub case_sensitive: bool,
    pub use_regex: bool,
    pub directories_only: bool,
    pub files_only: bool,
    pub limit: u32,
    pub offset: u32,
}

impl View for CompiledQuery {
    type V = CompiledV;

    open spec fn view(&self) -> CompiledV {
        CompiledV {
            term: self.term@,
            file_types: self.file_types@.map_values(|s: String| s@),
            size_min: match self.size_min {
                Some(v) => Some(v as int),
                None => None,
            },
            size_max: match self.size_max {
                Some(v) => Some(v as int),
                None => None,
            },
            date_from: match self.date_from {
                Some(v) => Some(v as int),
                None => None,
            },
            date_to: match self.date_to {
                Some(v) => Some(v as int),
                None => None,
            },
            include_hidden: self.include_hidden,
            case_sensitive: self.case_sensitive,
            use_regex: self.use_regex,
            directories_only: self.directories_only,
            files_only: self.files_only,
            limit: self.limit as int,
            offset: self.offset as int,
        }
    }
}

/// What compilation produces for a query: the term as given, the allow-list
/// folded, pagination made concrete.
pub open spec fn compiled_of(q: crate::types::QueryV) -> CompiledV {
    CompiledV {
        term: q.query,
        file_types: q.filters.file_types.map_values(|t: Seq<char>| lower_seq(t)),
        size_min: q.filters.size_min,
        size_max: q.filters.size_max,
        date_from: q.filters.date_from,
        date_to: q.filters.date_to,
        include_hidden: q.filters.include_hidden,
        case_sensitive: q.filters.case_sensitive,
        use_regex: q.filters.use_regex,
        directories_only: q.filters.directories_only,
        files_only: q.filters.files_only,
        limit: match q.limit {
            Some(l) => l,
            None => DEFAULT_RESULT_LIMIT as int,
        },
        offset: match q.offset {
            Some(o) => o,
            None => 0,
        },
    }
}

impl CompiledQuery {
    /// A compiled query is well-formed when a regex term is known valid and
    /// the allow-list is folded to lower case.
    pub open spec fn wf(&self) -> bool {
        &&& (self@.use_regex && self@.term.len() > 0 ==> regex_valid(self@.term))
        &&& (forall|i: int|
            0 <= i < self@.file_types.len() ==> #[trigger] self@.file_types[i] == lower_seq(
                self@.file_types[i],
            ))
    }

    /// The compiled form of `q`: its filters carried over one to one, the
    /// allow-list folded, pagination made concrete. Rejects exactly the
    /// queries whose regex term does not compile, before any store access.
    pub fn compile(q: &SearchQuery) -> (r: Result<CompiledQuery, SearchError>)
        ensures
            match r {
                Ok(c) => {
                    &&& !(q@.filters.use_regex && !regex_valid(q@.query))
                    &&& c.wf()
                    &&& c@ == compiled_of(q@)
                },
                Err(e) => {
                    &&& q@.filters.use_regex && !regex_valid(q@.query)
                    &&& e is InvalidQuery
                },
            },
    {
        if q.filters.use_regex {
            if !regex_check(q.query.as_str()) {
                return Err(
                    SearchError::InvalidQuery(String::from_str("invalid regex pattern")),
                );
            }
        }
        let mut folded: Vec<String> = Vec::new();
        let mut i: usize = 0;
        while i < q.filters.file_types.len()
            invariant
                i <= q.filters.file_types.len(),
                folded@.map_values(|s: String| s@) =~= q.filters.file_types@.map_values(
                    |s: String| s@,
                ).take(i as int).map_values(|t: Seq<char>| lower_seq(t)),
            decreases q.filters.file_types.len() - i,
        {
            folded.push(to_ascii_lower(q.filters.file_types[i].as_str()));
            proof {
                let a = q.filters.file_types@.map_values(|s: String| s@);
                assert(a.take(i + 1) =~= a.take(i as int).push(a[i as int]));
                assert(a.take(i + 1).map_values(|t: Seq<char>| lower_seq(t)) =~= a.take(
                    i as int,
                ).map_values(|t: Seq<char>| lower_seq(t)).push(lower_seq(a[i as int])));
            }
            i += 1;
        }
        proof {
            let a = q.filters.file_types@.map_values(|s: String| s@);
            assert(a.take(a.len() as int) =~= a);
        }
        let c = CompiledQuery {
            term: q.query.clone(),
            file_types: folded,
            size_min: q.filters.size_min,
            size_max: q.filters.size_max,
            date_from: q.filters.date_from,
            date_to: q.filters.date_to,
            include_hidden: q.filters.include_hidden,
            case_sensitive: q.filters.case_sensitive,
            use_regex: q.filters.use_regex,
            directories_only: q.filters.directories_only,
            files_only: q.filters.files_only,
            limit: match q.limit {
                Some(l) => l,
                None => DEFAULT_RESULT_LIMIT,
            },
            offset: match q.offset {
                Some(o) => o,
                None => 0,
            },
        };
        proof {
            assert(c@.file_types =~= q@.filters.file_types.map_values(
                |t: Seq<char>| lower_seq(t),
            ));
            assert forall|k: int| 0 <= k < c@.file_types.len() implies #[trigger] c@.file_types[k]
                == lower_seq(c@.file_types[k]) by {
                crate::text::lemma_lower_seq_idempotent(q@.filters.file_types[k]);
            }
            assert(c@ == compiled_of(q@));
        }
        Ok(c)
    }
}

/// Whether the free-text term accepts the entry: an empty term accepts
/// everything; a regex term matches name or path under regex semantics; a
/// plain term is a substring of name or path, folded per the
/// case-sensitivity flag.
pub open spec fn term_matches(c: CompiledV, e: EntryV) -> bool {
    if c.term.len() == 0 {
        true
    } else if c.use_regex {
        regex_match(c.term, e.name) || regex_match(c.term, e.path)
    } else {
        let fold = !c.case_sensitive;
        contains_seq(fold_seq(fold, e.name), fold_seq(fold, c.term)) || contains_seq(
            fold_seq(fold, e.path),
            fold_seq(fold, c.term),
        )
    }
}

/// The conjunction of every active predicate: term, extension allow-list,
/// inclusive size and date bounds, hidden-name policy, and the
/// directory/file kind flags.
pub open spec fn entry_matches(c: CompiledV, e: EntryV) -> bool {
    &&& term_matches(c, e)
    &&& (c.file_types.len() == 0 || (match e.extension {
        Some(x) => c.file_types.contains(x),
        None => false,
    }))
    &&& (match c.size_min {
        Some(v) => e.size >= v,
        None => true,
    })
    &&& (match c.size_max {
        Some(v) => e.size <= v,
        None => true,
    })
    &&& (match c.date_from {
        Some(v) => e.modified >= v,
        None => true,
    })
    &&& (match c.date_to {
        Some(v) => e.modified <= v,
        None => true,
    })
    &&& (c.include_hidden || !starts_with_dot(e.name))
    &&& (c.directories_only ==> e.is_directory)
    &&& (c.files_only ==> !e.is_directory)
}

/// Executable evaluation of the compiled predicate against one entry.
pub fn entry_matches_exec(c: &CompiledQuery, e: &FileEntry) -> (r: bool)
    requires
        c.wf(),
    ensures
        r == entry_matches(c@, e@),
{
    let term_ok: bool = if c.term.unicode_len() == 0 {
        true
    } else if c.use_regex {
        let on_name = regex_find(c.term.as_str(), e.name.as_str());
        let on_path = regex_find(c.term.as_str(), e.path.as_str());
        match (on_name, on_path) {
            (Some(a), Some(b)) => a || b,
            _ => false,
        }
    } else {
        let fold = !c.case_sensitive;
        str_contains_fold(e.name.as_str(), c.term.as_str(), fold) || str_contains_fold(
            e.path.as_str(),
            c.term.as_str(),
            fold,
        )
    };
    if !term_ok {
        return false;
    }
    if c.file_types.len() > 0 {
        let ext_ok: bool = match &e.extension {
            Some(x) => {
                let mut found = false;
                let mut i: usize = 0;
                while i < c.file_types.len()
                    invariant
                        i <= c.file_types.len(),
                        found == (exists|k: int|
                            0 <= k < i && c@.file_types[k] == x@),
                    decreases c.file_types.len() - i,
                {
                    if !found && c.file_types[i] == *x {
                        found = true;
                        proof {
                            assert(c@.file_types[i as int] == x@);
                        }
                    }
                    i += 1;
                }
                found
            },
            None => false,
        };
        proof {
            match e@.extension {
                Some(xv) => {
                    assert(c@.file_types.contains(xv) == (exists|k: int|
                        0 <= k < c@.file_types.len() && c@.file_types[k] == xv));
                },
                None => {},
            }
        }
        if !ext_ok {
            return false;
        }
    }
    let size_ok = (match c.size_min {
        Some(v) => e.size >= v,
        None => true,
    }) && (match c.size_max {
        Some(v) => e.size <= v,
        None => true,
    });
    if !size_ok {
        return false;
    }
    let date_ok = (match c.date_from {
        Some(v) => e.modified >= v,
        None => true,
    }) && (match c.date_to {
        Some(v) => e.modified <= v,
        None => true,
    });
    if !date_ok {
        return false;
    }
    if !c.include_hidden && crate::text::name_starts_with_dot(e.name.as_str()) {
        return false;
    }
    if c.directories_only && !e.is_directory {
        return false;
    }
    if c.files_only && e.is_directory {
        return false;
    }
    true
}

} // verus!
