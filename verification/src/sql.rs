//! Translation of a compiled query into a parameterized SQL predicate. The
//! text of the statement is a function of the query's *shape* — which
//! filters are active and how many extensions the allow-list holds — and of
//! nothing else: every filter value travels as a bound parameter, one
//! placeholder per value, never as literal text. A regex term is a distinct
//! code path evaluated outside SQL and contributes no text predicate.
use vstd::prelude::*;

use crate::query::{CompiledQuery, CompiledV};

verus! {

/// A value bound to one placeholder.
#[derive(Debug, Clone)]
pub enum SqlParam {
    Text(String),
    Int(i64),
}

/// Mathematical view of a bound value.
pub ghost enum SqlParamV {
    Text(Seq<char>),
    Int(int),
}

/// The views of a parameter list.
pub open spec fn params_view(s: Seq<SqlParam>) -> Seq<SqlParamV> {
    s.map_values(
        |p: SqlParam|
            match p {
                SqlParam::Text(t) => SqlParamV::Text(t@),
                SqlParam::Int(v) => SqlParamV::Int(v as int),
            },
    )
}

/// A compiled statement: the SQL text and the values bound to its
/// placeholders, in order.
#[derive(Debug, Clone)]
pub struct SqlQuery {
    pub sql: String,
    pub params: Vec<SqlParam>,
}

/// The shape of a query: which predicates are active. No filter value
/// occurs in it.
pub ghost struct SqlShape {
    pub has_term: bool,
    pub case_sensitive: bool,
    pub use_regex: bool,
    pub n_types: int,
    pub has_size_min: bool,
    pub has_size_max: bool,
    pub has_date_from: bool,
    pub has_date_to: bool,
    pub include_hidden: bool,
    pub directories_only: bool,
    pub files_only: bool,
}

pub open spec fn shape_of(c: CompiledV) -> SqlShape {
    SqlShape {
        has_term: c.term.len() > 0,
        case_sensitive: c.case_sensitive,
        use_regex: c.use_regex,
        n_types: c.file_types.len() as int,
        has_size_min: c.size_min is Some,
        has_size_max: c.size_max is Some,
        has_date_from: c.date_from is Some,
        has_date_to: c.date_to is Some,
        include_hidden: c.include_hidden,
        directories_only: c.directories_only,
        files_only: c.files_only,
    }
}

/// `n` comma-separated placeholders.
pub open spec fn qmarks(n: int) -> Seq<char>
    decreases n,
{
    if n <= 1 {
        "?"@
    } else {
        qmarks(n - 1) + ", ?"@
    }
}

/// The SQL text compiled for a shape. Every fragment is a fixed literal;
/// the only variability is which fragments appear and how many placeholders
/// the allow-list contributes.
pub open spec fn spec_sql(sh: SqlShape) -> Seq<char> {
    "SELECT id, name, path, size, modified, created, is_directory, extension, attributes, indexed_at FROM file_entries WHERE 1=1"@
        + (if sh.has_term && !sh.use_regex {
        if sh.case_sensitive {
            " AND (instr(name, ?) > 0 OR instr(path, ?) > 0)"@
        } else {
            " AND (instr(lower(name), lower(?)) > 0 OR instr(lower(path), lower(?)) > 0)"@
        }
    } else {
        Seq::<char>::empty()
    }) + (if sh.n_types > 0 {
        " AND extension IN ("@ + qmarks(sh.n_types) + ")"@
    } else {
        Seq::<char>::empty()
    }) + (if sh.has_size_min {
        " AND size >= ?"@
    } else {
        Seq::<char>::empty()
    }) + (if sh.has_size_max {
        " AND size <= ?"@
    } else {
        Seq::<char>::empty()
    }) + (if sh.has_date_from {
        " AND modified >= ?"@
    } else {
        Seq::<char>::empty()
    }) + (if sh.has_date_to {
        " AND modified <= ?"@
    } else {
        Seq::<char>::empty()
    }) + (if !sh.include_hidden {
        " AND substr(name, 1, 1) != '.'"@
    } else {
        Seq::<char>::empty()
    }) + (if sh.directories_only {
        " AND is_directory = 1"@
    } else if sh.files_only {
        " AND is_directory = 0"@
    } else {
        Seq::<char>::empty()
    }) + " ORDER BY is_directory DESC, name ASC, path ASC LIMIT ? OFFSET ?"@
}

/// The values bound to the placeholders, in the order the text introduces
/// them: the term twice when a substring predicate is present, the folded
/// allow-list, the active bounds, and the pagination window.
pub open spec fn spec_params(c: CompiledV) -> Seq<SqlParamV> {
    (if c.term.len() > 0 && !c.use_regex {
        seq![SqlParamV::Text(c.term), SqlParamV::Text(c.term)]
    } else {
        Seq::<SqlParamV>::empty()
    }) + c.file_types.map_values(|t: Seq<char>| SqlParamV::Text(t)) + (match c.size_min {
        Some(v) => seq![SqlParamV::Int(v)],
        None => Seq::<SqlParamV>::empty(),
    }) + (match c.size_max {
        Some(v) => seq![SqlParamV::Int(v)],
        None => Seq::<SqlParamV>::empty(),
    }) + (match c.date_from {
        Some(v) => seq![SqlParamV::Int(v)],
        None => Seq::<SqlParamV>::empty(),
    }) + (match c.date_to {
        Some(v) => seq![SqlParamV::Int(v)],
        None => Seq::<SqlParamV>::empty(),
    }) + seq![SqlParamV::Int(c.limit), SqlParamV::Int(c.offset)]
}

/// The compiled text depends on the shape alone: two queries whose shapes
/// agree compile to the same text, whatever their filter values.
pub proof fn lemma_sql_value_independent(c1: CompiledV, c2: CompiledV)
    requires
        shape_of(c1) == shape_of(c2),
    ensures
        spec_sql(shape_of(c1)) == spec_sql(shape_of(c2)),
{
}

/// The parameter list as the compiled statement binds it, one push per
/// placeholder.
#[verifier::rlimit(100)]
fn sql_params_of(c: &CompiledQuery) -> (r: Vec<SqlParam>)
    ensures
        params_view(r@) == spec_params(c@),
{
    let ghost sh = shape_of(c@);
    let mut params: Vec<SqlParam> = Vec::new();
    let has_term = c.term.unicode_len() > 0;
    let ghost part_term: Seq<SqlParamV> = if c@.term.len() > 0 && !c@.use_regex {
        seq![SqlParamV::Text(c@.term), SqlParamV::Text(c@.term)]
    } else {
        Seq::<SqlParamV>::empty()
    };
    if has_term && !c.use_regex {
        params.push(SqlParam::Text(c.term.clone()));
        params.push(SqlParam::Text(c.term.clone()));
    }
    proof {
        assert(params_view(params@) =~= part_term);
    }
    let ghost part_types: Seq<SqlParamV> = c@.file_types.map_values(
        |t: Seq<char>| SqlParamV::Text(t),
    );
    let mut i: usize = 0;
    proof {
        assert(part_types.take(0) =~= Seq::<SqlParamV>::empty());
        assert(params_view(params@) =~= part_term + part_types.take(0));
    }
    while i < c.file_types.len()
        invariant
            i <= c.file_types@.len(),
            part_term == (if c@.term.len() > 0 && !c@.use_regex {
                seq![SqlParamV::Text(c@.term), SqlParamV::Text(c@.term)]
            } else {
                Seq::<SqlParamV>::empty()
            }),
            part_types == c@.file_types.map_values(|t: Seq<char>| SqlParamV::Text(t)),
            params_view(params@) == part_term + part_types.take(i as int),
        decreases c.file_types@.len() - i,
    {
        let ghost ps0 = params@;
        params.push(SqlParam::Text(c.file_types[i].clone()));
        proof {
            assert(params@ =~= ps0.push(SqlParam::Text(c.file_types@[i as int])));
            assert(part_types[i as int] == SqlParamV::Text(c@.file_types[i as int]));
            assert(part_types.take(i + 1) =~= part_types.take(i as int).push(
                part_types[i as int],
            ));
            assert(params_view(params@) =~= params_view(ps0).push(
                SqlParamV::Text(c.file_types@[i as int]@),
            ));
            assert(c@.file_types[i as int] == c.file_types@[i as int]@);
            assert(params_view(params@) =~= part_term + part_types.take(i + 1));
        }
        i += 1;
    }
    let ghost gp2 = part_term + part_types;
    proof {
        assert(part_types.take(c@.file_types.len() as int) =~= part_types);
        assert(params_view(params@) =~= gp2);
    }
    let ghost gp3 = gp2 + (match c@.size_min {
        Some(v) => seq![SqlParamV::Int(v)],
        None => Seq::<SqlParamV>::empty(),
    });
    match c.size_min {
        Some(v) => {
            params.push(SqlParam::Int(v));
        },
        None => {},
    }
    proof {
        assert(params_view(params@) =~= gp3);
    }
    let ghost gp4 = gp3 + (match c@.size_max {
        Some(v) => seq![SqlParamV::Int(v)],
        None => Seq::<SqlParamV>::empty(),
    });
    match c.size_max {
        Some(v) => {
            params.push(SqlParam::Int(v));
        },
        None => {},
    }
    proof {
        assert(params_view(params@) =~= gp4);
    }
    let ghost gp5 = gp4 + (match c@.date_from {
        Some(v) => seq![SqlParamV::Int(v)],
        None => Seq::<SqlParamV>::empty(),
    });
    match c.date_from {
        Some(v) => {
            params.push(SqlParam::Int(v));
        },
        None => {},
    }
    proof {
        assert(params_view(params@) =~= gp5);
    }
    let ghost gp6 = gp5 + (match c@.date_to {
        Some(v) => seq![SqlParamV::Int(v)],
        None => Seq::<SqlParamV>::empty(),
    });
    match c.date_to {
        Some(v) => {
            params.push(SqlParam::Int(v));
        },
        None => {},
    }
    proof {
        assert(params_view(params@) =~= gp6);
    }
    params.push(SqlParam::Int(c.limit as i64));
    params.push(SqlParam::Int(c.offset as i64));
    proof {
        assert(params_view(params@) =~= spec_params(c@));
    }
    params
}

/// The SQL text compiled for the query's shape.
#[verifier::rlimit(60)]
fn sql_text_of(c: &CompiledQuery) -> (r: String)
    ensures
        r@ == spec_sql(shape_of(c@)),
{
    let ghost sh = shape_of(c@);
    let mut sql = String::from_str(
        "SELECT id, name, path, size, modified, created, is_directory, extension, attributes, indexed_at FROM file_entries WHERE 1=1",
    );
    let has_term = c.term.unicode_len() > 0;
    if has_term && !c.use_regex {
        if c.case_sensitive {
            sql.append(" AND (instr(name, ?) > 0 OR instr(path, ?) > 0)");
        } else {
            sql.append(" AND (instr(lower(name), lower(?)) > 0 OR instr(lower(path), lower(?)) > 0)");
        }
    }
    let ghost g1 = spec_sql_prefix(sh);
    proof {
        assert(sql@ =~= g1);
    }
    let ghost g2 = g1 + (if sh.n_types > 0 {
        " AND extension IN ("@ + qmarks(sh.n_types) + ")"@
    } else {
        Seq::<char>::empty()
    });
    if c.file_types.len() > 0 {
        sql.append(" AND extension IN (");
        sql.append("?");
        let mut i: usize = 1;
        while i < c.file_types.len()
            invariant
                1 <= i <= c.file_types@.len(),
                sh == shape_of(c@),
                g1 == spec_sql_prefix(sh),
                sql@ == g1 + " AND extension IN ("@ + qmarks(i as int),
            decreases c.file_types@.len() - i,
        {
            sql.append(", ?");
            i += 1;
        }
        sql.append(")");
        proof {
            assert(sql@ =~= g2);
        }
    } else {
        proof {
            assert(sql@ =~= g2);
        }
    }
    let ghost g3 = g2 + (if sh.has_size_min {
        " AND size >= ?"@
    } else {
        Seq::<char>::empty()
    });
    if c.size_min.is_some() {
        sql.append(" AND size >= ?");
    }
    proof {
        assert(sql@ =~= g3);
    }
    let ghost g4 = g3 + (if sh.has_size_max {
        " AND size <= ?"@
    } else {
        Seq::<char>::empty()
    });
    if c.size_max.is_some() {
        sql.append(" AND size <= ?");
    }
    proof {
        assert(sql@ =~= g4);
    }
    let ghost g5 = g4 + (if sh.has_date_from {
        " AND modified >= ?"@
    } else {
        Seq::<char>::empty()
    });
    if c.date_from.is_some() {
        sql.append(" AND modified >= ?");
    }
    proof {
        assert(sql@ =~= g5);
    }
    let ghost g6 = g5 + (if sh.has_date_to {
        " AND modified <= ?"@
    } else {
        Seq::<char>::empty()
    });
    if c.date_to.is_some() {
        sql.append(" AND modified <= ?");
    }
    proof {
        assert(sql@ =~= g6);
    }
    let ghost g7 = g6 + (if !sh.include_hidden {
        " AND substr(name, 1, 1) != '.'"@
    } else {
        Seq::<char>::empty()
    });
    if !c.include_hidden {
        sql.append(" AND substr(name, 1, 1) != '.'");
    }
    proof {
        assert(sql@ =~= g7);
    }
    let ghost g8 = g7 + (if sh.directories_only {
        " AND is_directory = 1"@
    } else if sh.files_only {
        " AND is_directory = 0"@
    } else {
        Seq::<char>::empty()
    });
    if c.directories_only {
        sql.append(" AND is_directory = 1");
    } else if c.files_only {
        sql.append(" AND is_directory = 0");
    }
    proof {
        assert(sql@ =~= g8);
    }
    sql.append(" ORDER BY is_directory DESC, name ASC, path ASC LIMIT ? OFFSET ?");
    proof {
        assert(sql@ =~= spec_sql(sh));
    }
    sql
}

/// Compiles the query into parameterized SQL: the text determined by the
/// shape, the values bound in order.
pub fn compile_sql(c: &CompiledQuery) -> (r: SqlQuery)
    ensures
        r.sql@ == spec_sql(shape_of(c@)),
        params_view(r.params@) == spec_params(c@),
{
    SqlQuery { sql: sql_text_of(c), params: sql_params_of(c) }
}

/// The fixed head of the statement together with the term predicate, as
/// the compiled text holds it before the allow-list clause.
pub open spec fn spec_sql_prefix(sh: SqlShape) -> Seq<char> {
    "SELECT id, name, path, size, modified, created, is_directory, extension, attributes, indexed_at FROM file_entries WHERE 1=1"@
        + (if sh.has_term && !sh.use_regex {
        if sh.case_sensitive {
            " AND (instr(name, ?) > 0 OR instr(path, ?) > 0)"@
        } else {
            " AND (instr(lower(name), lower(?)) > 0 OR instr(lower(path), lower(?)) > 0)"@
        }
    } else {
        Seq::<char>::empty()
    })
}

/// How many placeholders a text holds.
pub open spec fn count_qmarks(s: Seq<char>) -> int
    decreases s.len(),
{
    if s.len() == 0 {
        0
    } else {
        count_qmarks(s.drop_last()) + if s.last() == '?' {
            1int
        } else {
            0int
        }
    }
}

/// Counts the placeholders of a compiled text, so a caller can hold it
/// against the parameter list.
pub fn count_placeholders(sql: &str) -> (r: usize)
    ensures
        r == count_qmarks(sql@),
{
    let n = sql.unicode_len();
    let mut count: usize = 0;
    proof {
        assert(sql@.take(0) =~= Seq::<char>::empty());
    }
    let mut i: usize = 0;
    while i < n
        invariant
            i <= n,
            n == sql@.len(),
            count <= i,
            count == count_qmarks(sql@.take(i as int)),
        decreases n - i,
    {
        proof {
            assert(sql@.take(i + 1).drop_last() =~= sql@.take(i as int));
            assert(sql@.take(i + 1).last() == sql@[i as int]);
        }
        if sql.get_char(i) == '?' {
            count += 1;
        }
        i += 1;
    }
    proof {
        assert(sql@.take(n as int) =~= sql@);
    }
    count
}

} // verus!
