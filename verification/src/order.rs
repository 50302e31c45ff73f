//! Result ordering: directories first, then lexicographically by name, with
//! the path as the final tie-break, together with a verified insertion sort
//! whose outcome is pinned down by the `sort_entries` specification.
use vstd::prelude::*;

use crate::text::{lex_leq, lemma_lex_leq_antisymmetric, lemma_lex_leq_total,
    lemma_lex_leq_transitive, str_leq};
use crate::types::{views_of, EntryV, FileEntry};

verus! {

/// The display order of search results: directories before files, then by
/// name, then by path.
pub open spec fn entry_le(a: EntryV, b: EntryV) -> bool {
    if a.is_directory != b.is_directory {
        a.is_directory
    } else if a.name == b.name {
        lex_leq(a.path, b.path)
    } else {
        lex_leq(a.name, b.name)
    }
}

/// The sequence is sorted in the display order.
pub open spec fn entries_sorted(s: Seq<EntryV>) -> bool {
    forall|i: int, j: int| 0 <= i < j < s.len() ==> entry_le(#[trigger] s[i], #[trigger] s[j])
}

/// Any two entries are related by the display order.
pub proof fn lemma_entry_le_total(a: EntryV, b: EntryV)
    ensures
        entry_le(a, b) || entry_le(b, a),
{
    if a.is_directory == b.is_directory {
        if a.name == b.name {
            lemma_lex_leq_total(a.path, b.path);
        } else {
            lemma_lex_leq_total(a.name, b.name);
        }
    }
}

/// The display order is transitive.
pub proof fn lemma_entry_le_transitive(a: EntryV, b: EntryV, c: EntryV)
    requires
        entry_le(a, b),
        entry_le(b, c),
    ensures
        entry_le(a, c),
{
    if a.is_directory == b.is_directory && b.is_directory == c.is_directory {
        if a.name == b.name && b.name == c.name {
            lemma_lex_leq_transitive(a.path, b.path, c.path);
        } else if a.name == b.name {
            assert(lex_leq(b.name, c.name));
        } else if b.name == c.name {
            assert(lex_leq(a.name, b.name));
        } else {
            lemma_lex_leq_transitive(a.name, b.name, c.name);
            if a.name == c.name {
                // le(a.name, b.name) and le(b.name, c.name) == le(b.name, a.name)
                // would force the names equal, against the case assumption.
                lemma_lex_leq_antisymmetric(a.name, b.name);
            }
        }
    }
}

/// Executable comparison in the display order.
pub fn entry_le_exec(a: &FileEntry, b: &FileEntry) -> (r: bool)
    ensures
        r == entry_le(a@, b@),
{
    if a.is_directory != b.is_directory {
        a.is_directory
    } else if a.name == b.name {
        str_leq(a.path.as_str(), b.path.as_str())
    } else {
        str_leq(a.name.as_str(), b.name.as_str())
    }
}

/// The position at which `x` is inserted into `s` by the insertion sort:
/// just after the elements that precede it in the display order.
pub open spec fn insert_pos(s: Seq<EntryV>, x: EntryV) -> int
    decreases s.len(),
{
    if s.len() == 0 {
        0
    } else if !entry_le(s[0], x) {
        0
    } else {
        1 + insert_pos(s.drop_first(), x)
    }
}

pub proof fn lemma_insert_pos_props(s: Seq<EntryV>, x: EntryV)
    ensures
        0 <= insert_pos(s, x) <= s.len(),
        forall|k: int| 0 <= k < insert_pos(s, x) ==> entry_le(#[trigger] s[k], x),
        insert_pos(s, x) < s.len() ==> !entry_le(s[insert_pos(s, x)], x),
    decreases s.len(),
{
    if s.len() > 0 && entry_le(s[0], x) {
        lemma_insert_pos_props(s.drop_first(), x);
        assert forall|k: int| 0 <= k < insert_pos(s, x) implies entry_le(#[trigger] s[k], x) by {
            if k > 0 {
                assert(s.drop_first()[k - 1] == s[k]);
            }
        }
        if insert_pos(s, x) < s.len() {
            assert(s.drop_first()[insert_pos(s, x) - 1] == s[insert_pos(s, x)]);
        }
    }
}

/// The insertion position is determined by the two properties above.
pub proof fn lemma_insert_pos_unique(s: Seq<EntryV>, x: EntryV, i: int)
    requires
        0 <= i <= s.len(),
        forall|k: int| 0 <= k < i ==> entry_le(#[trigger] s[k], x),
        i < s.len() ==> !entry_le(s[i], x),
    ensures
        i == insert_pos(s, x),
    decreases s.len(),
{
    if s.len() > 0 && entry_le(s[0], x) {
        assert(i > 0);
        lemma_insert_pos_unique(s.drop_first(), x, i - 1);
    }
}

/// Inserting into `s` at the insertion position.
pub open spec fn sorted_insert(s: Seq<EntryV>, x: EntryV) -> Seq<EntryV> {
    s.insert(insert_pos(s, x), x)
}

pub proof fn lemma_sorted_insert_sorted(s: Seq<EntryV>, x: EntryV)
    requires
        entries_sorted(s),
    ensures
        entries_sorted(sorted_insert(s, x)),
{
    let p = insert_pos(s, x);
    let t = sorted_insert(s, x);
    lemma_insert_pos_props(s, x);
    s.insert_ensures(p, x);
    assert forall|i: int, j: int| 0 <= i < j < t.len() implies entry_le(#[trigger] t[i], #[trigger] t[j]) by {
        if i < p && j < p {
            assert(t[i] == s[i] && t[j] == s[j]);
        } else if i < p && j == p {
            assert(t[i] == s[i]);
            assert(entry_le(s[i], x));
        } else if i < p && j > p {
            assert(t[i] == s[i] && t[j] == s[j - 1]);
            if j - 1 == i {
                assert(entry_le(s[i], x));
                assert(!entry_le(s[p], x));
                lemma_entry_le_total(x, s[p]);
                lemma_entry_le_transitive(s[i], x, s[p]);
            } else {
                assert(entry_le(s[i], s[j - 1]));
            }
        } else if i == p && j > p {
            assert(t[j] == s[j - 1]);
            assert(!entry_le(s[p], x));
            lemma_entry_le_total(x, s[p]);
            assert(entry_le(x, s[p]));
            if j - 1 > p {
                assert(entry_le(s[p], s[j - 1]));
                lemma_entry_le_transitive(x, s[p], s[j - 1]);
            }
        } else {
            assert(t[i] == s[i - 1] && t[j] == s[j - 1]);
        }
    }
}

pub proof fn lemma_sorted_insert_multiset(s: Seq<EntryV>, x: EntryV)
    ensures
        sorted_insert(s, x).to_multiset() == s.to_multiset().insert(x),
        sorted_insert(s, x).len() == s.len() + 1,
{
    broadcast use vstd::seq_lib::group_to_multiset_ensures;

    let p = insert_pos(s, x);
    lemma_insert_pos_props(s, x);
    s.insert_ensures(p, x);
    let left = s.subrange(0, p);
    let right = s.subrange(p, s.len() as int);
    assert(sorted_insert(s, x) == left.push(x) + right);
    vstd::seq_lib::lemma_multiset_commutative(left.push(x), right);
    vstd::seq_lib::lemma_multiset_commutative(left, right);
    assert(left + right =~= s);
    assert(left.push(x).to_multiset() =~= left.to_multiset().insert(x));
    assert(sorted_insert(s, x).to_multiset() =~= s.to_multiset().insert(x));
}

/// The sorted rearrangement of a sequence of entries: the fold of
/// `sorted_insert` over the sequence.
pub open spec fn sort_entries(s: Seq<EntryV>) -> Seq<EntryV>
    decreases s.len(),
{
    if s.len() == 0 {
        s
    } else {
        sorted_insert(sort_entries(s.drop_last()), s.last())
    }
}

/// The sorted rearrangement is sorted in the display order.
pub proof fn lemma_sort_entries_sorted(s: Seq<EntryV>)
    ensures
        entries_sorted(sort_entries(s)),
    decreases s.len(),
{
    if s.len() > 0 {
        lemma_sort_entries_sorted(s.drop_last());
        lemma_sorted_insert_sorted(sort_entries(s.drop_last()), s.last());
    }
}

/// The sorted rearrangement is a permutation of its input.
pub proof fn lemma_sort_entries_multiset(s: Seq<EntryV>)
    ensures
        sort_entries(s).to_multiset() == s.to_multiset(),
        sort_entries(s).len() == s.len(),
    decreases s.len(),
{
    broadcast use vstd::seq_lib::group_to_multiset_ensures;

    if s.len() > 0 {
        lemma_sort_entries_multiset(s.drop_last());
        lemma_sorted_insert_multiset(sort_entries(s.drop_last()), s.last());
        assert(s =~= s.drop_last().push(s.last()));
        assert(s.drop_last().push(s.last()).to_multiset() =~= s.drop_last().to_multiset().insert(
            s.last(),
        ));
    }
}

/// Inserts `e` into the sorted vector `v`, keeping it sorted.
pub fn sorted_push(v: &mut Vec<FileEntry>, e: FileEntry)
    ensures
        views_of(final(v)@) == sorted_insert(views_of(old(v)@), e@),
{
    let ghost s = views_of(v@);
    let mut i: usize = 0;
    while i < v.len()
        invariant
            i <= v.len(),
            s == views_of(v@),
            s.len() == v.len(),
            forall|k: int| 0 <= k < i ==> entry_le(#[trigger] s[k], e@),
        ensures
            i <= v.len(),
            forall|k: int| 0 <= k < i ==> entry_le(#[trigger] s[k], e@),
            i < v.len() ==> !entry_le(s[i as int], e@),
        decreases v.len() - i,
    {
        if !entry_le_exec(&v[i], &e) {
            break;
        }
        i += 1;
    }
    proof {
        lemma_insert_pos_unique(s, e@, i as int);
    }
    v.insert(i, e);
    proof {
        assert(views_of(v@) =~= sorted_insert(s, e@));
    }
}

} // verus!
