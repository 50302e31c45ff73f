//! The entry store: a table of file entries keyed by `path`, kept in lock
//! step with a full-text shadow index over `name` and `path`. Every mutation
//! preserves the synchronization invariant; batches are all-or-nothing.
use vstd::prelude::*;

use crate::order::{sort_entries, sorted_push};
use crate::query::{entry_matches, entry_matches_exec, CompiledQuery, CompiledV};
use crate::types::{valid_entry, views_of, EntryV, FileEntry, IndexStats, SearchError,
    SearchResult};

verus! {

/// The rows accepted by the compiled predicate, in table order.
pub open spec fn matched_of(c: CompiledV, s: Seq<EntryV>) -> Seq<EntryV> {
    s.filter(|ev: EntryV| entry_matches(c, ev))
}

/// The page `[offset, offset + limit)` of a result sequence, clamped to its
/// length.
pub open spec fn page_of(s: Seq<EntryV>, off: int, lim: int) -> Seq<EntryV> {
    let a = if off > s.len() {
        s.len() as int
    } else {
        off
    };
    let b = if off + lim > s.len() {
        s.len() as int
    } else {
        off + lim
    };
    s.subrange(a, b)
}

/// How many rows are files.
pub open spec fn num_files(s: Seq<EntryV>) -> int
    decreases s.len(),
{
    if s.len() == 0 {
        0
    } else {
        num_files(s.drop_last()) + if s.last().is_directory {
            0int
        } else {
            1int
        }
    }
}

/// How many rows are directories.
pub open spec fn num_dirs(s: Seq<EntryV>) -> int
    decreases s.len(),
{
    if s.len() == 0 {
        0
    } else {
        num_dirs(s.drop_last()) + if s.last().is_directory {
            1int
        } else {
            0int
        }
    }
}

/// The total byte size of the file rows.
pub open spec fn total_size(s: Seq<EntryV>) -> int
    decreases s.len(),
{
    if s.len() == 0 {
        0
    } else {
        total_size(s.drop_last()) + if s.last().is_directory {
            0int
        } else {
            s.last().size
        }
    }
}

/// The most recent `indexed_at` over all rows, or 0 for an empty store.
pub open spec fn last_indexed(s: Seq<EntryV>) -> int
    decreases s.len(),
{
    if s.len() == 0 {
        0
    } else if s.last().indexed_at > last_indexed(s.drop_last()) {
        s.last().indexed_at
    } else {
        last_indexed(s.drop_last())
    }
}

/// No two rows carry the same path.
pub open spec fn distinct_paths(s: Seq<EntryV>) -> bool {
    forall|i: int, j: int| 0 <= i < j < s.len() ==> s[i].path != s[j].path
}

/// Every row is a well-formed entry.
pub open spec fn all_valid(s: Seq<EntryV>) -> bool {
    forall|i: int| 0 <= i < s.len() ==> valid_entry(#[trigger] s[i])
}

/// The index of the first row carrying `p`, or -1 when no row does.
pub open spec fn find_path(s: Seq<EntryV>, p: Seq<char>) -> int
    decreases s.len(),
{
    if s.len() == 0 {
        -1
    } else if s[0].path == p {
        0
    } else if find_path(s.drop_first(), p) == -1 {
        -1
    } else {
        1 + find_path(s.drop_first(), p)
    }
}

pub proof fn lemma_find_path(s: Seq<EntryV>, p: Seq<char>)
    ensures
        -1 <= find_path(s, p) < s.len(),
        find_path(s, p) >= 0 ==> s[find_path(s, p)].path == p && (forall|k: int|
            0 <= k < find_path(s, p) ==> (#[trigger] s[k]).path != p),
        find_path(s, p) == -1 ==> (forall|k: int| 0 <= k < s.len() ==> (#[trigger] s[k]).path != p),
    decreases s.len(),
{
    if s.len() > 0 && s[0].path != p {
        lemma_find_path(s.drop_first(), p);
        assert forall|k: int| 1 <= k < s.len() implies s.drop_first()[k - 1] == s[k] by {}
    }
}

/// The first-match index is determined by its characteristic properties.
pub proof fn lemma_find_path_at(s: Seq<EntryV>, p: Seq<char>, i: int)
    requires
        0 <= i < s.len(),
        s[i].path == p,
        forall|k: int| 0 <= k < i ==> (#[trigger] s[k]).path != p,
    ensures
        find_path(s, p) == i,
    decreases s.len(),
{
    if i > 0 {
        assert(s[0].path != p);
        assert forall|k: int| 0 <= k < i - 1 implies (#[trigger] s.drop_first()[k]).path != p by {
            assert(s.drop_first()[k] == s[k + 1]);
        }
        assert(s.drop_first()[i - 1] == s[i]);
        lemma_find_path_at(s.drop_first(), p, i - 1);
    }
}

/// The row for `e.path` replaced by `e`, or `e` appended when the path is
/// new: the meaning of one upsert.
pub open spec fn spec_upsert(s: Seq<EntryV>, e: EntryV) -> Seq<EntryV> {
    let j = find_path(s, e.path);
    if j >= 0 {
        s.update(j, e)
    } else {
        s.push(e)
    }
}

/// The meaning of a batch: the entries upserted in order.
pub open spec fn spec_upsert_all(s: Seq<EntryV>, es: Seq<EntryV>) -> Seq<EntryV>
    decreases es.len(),
{
    if es.len() == 0 {
        s
    } else {
        spec_upsert(spec_upsert_all(s, es.drop_last()), es.last())
    }
}

/// The row for `p` removed, when one exists.
pub open spec fn spec_delete(s: Seq<EntryV>, p: Seq<char>) -> Seq<EntryV> {
    let j = find_path(s, p);
    if j >= 0 {
        s.remove(j)
    } else {
        s
    }
}

/// One row of the full-text shadow index: the searchable columns of the
/// entry it mirrors.
#[derive(Debug, Clone)]
pub struct FtsRow {
    pub name: String,
    pub path: String,
}

/// The entry store. `entries` is the primary table, `shadow` the derived
/// full-text index; `wf` ties the two together row by row.
#[derive(Debug)]
pub struct Database {
    pub entries: Vec<FileEntry>,
    pub shadow: Vec<FtsRow>,
}

impl View for Database {
    type V = Seq<EntryV>;

    open spec fn view(&self) -> Seq<EntryV> {
        views_of(self.entries@)
    }
}

impl Database {
    /// The store's invariant: unique paths, well-formed rows, and a shadow
    /// index holding exactly one row per live path, mirroring name and path.
    pub open spec fn wf(&self) -> bool {
        &&& distinct_paths(self@)
        &&& all_valid(self@)
        &&& self.shadow@.len() == self.entries@.len()
        &&& (forall|i: int|
            0 <= i < self.entries@.len() ==> (#[trigger] self.shadow@[i]).name@
                == self.entries@[i].name@ && self.shadow@[i].path@ == self.entries@[i].path@)
    }

    /// An empty store.
    pub fn new() -> (r: Database)
        ensures
            r.wf(),
            r@.len() == 0,
    {
        Database { entries: Vec::new(), shadow: Vec::new() }
    }

    /// The index of the row carrying `path`, when one exists.
    fn find_index(&self, path: &String) -> (r: Option<usize>)
        ensures
            match r {
                Some(i) => i < self@.len() && find_path(self@, path@) == i,
                None => find_path(self@, path@) == -1,
            },
    {
        let mut i: usize = 0;
        while i < self.entries.len()
            invariant
                i <= self.entries@.len(),
                forall|k: int| 0 <= k < i ==> (#[trigger] self@[k]).path != path@,
            decreases self.entries@.len() - i,
        {
            if self.entries[i].path == *path {
                proof {
                    lemma_find_path_at(self@, path@, i as int);
                }
                return Some(i);
            }
            i += 1;
        }
        proof {
            lemma_find_path(self@, path@);
            if find_path(self@, path@) >= 0 {
                assert(self@[find_path(self@, path@)].path != path@);
            }
        }
        None
    }

    /// Inserts the entry, or replaces the row that carries its path. The
    /// shadow index is updated in the same step. A malformed entry is
    /// rejected and the store is left untouched.
    pub fn insert_file_entry(&mut self, entry: &FileEntry) -> (r: Result<(), SearchError>)
        requires
            old(self).wf(),
        ensures
            final(self).wf(),
            match r {
                Ok(_) => valid_entry(entry@) && final(self)@ == spec_upsert(
                    old(self)@,
                    entry@,
                ),
                Err(e) => !valid_entry(entry@) && *final(self) == *old(self) && e is Io,
            },
    {
        if !check_entry(entry) {
            return Err(
                SearchError::Io(String::from_str("constraint violation: malformed entry")),
            );
        }
        let ghost s0 = self@;
        let row = FtsRow { name: entry.name.clone(), path: entry.path.clone() };
        match self.find_index(&entry.path) {
            Some(i) => {
                proof {
                    lemma_find_path(s0, entry@.path);
                }
                self.entries.set(i, entry.duplicate());
                self.shadow.set(i, row);
                proof {
                    assert(self@ =~= s0.update(i as int, entry@));
                    assert(s0[i as int].path == entry@.path);
                    assert forall|a: int, b: int| 0 <= a < b < self@.len() implies self@[a].path
                        != self@[b].path by {
                        assert(s0[a].path != s0[b].path);
                    }
                }
            },
            None => {
                proof {
                    lemma_find_path(s0, entry@.path);
                }
                self.entries.push(entry.duplicate());
                self.shadow.push(row);
                proof {
                    assert(self@ =~= s0.push(entry@));
                    assert forall|a: int, b: int| 0 <= a < b < self@.len() implies self@[a].path
                        != self@[b].path by {
                        if b < s0.len() {
                            assert(s0[a].path != s0[b].path);
                        } else {
                            assert(self@[b] == entry@);
                            assert(s0[a].path != entry@.path);
                        }
                    }
                }
            },
        }
        Ok(())
    }

    /// Upserts the whole batch, or nothing: when any entry is malformed the
    /// batch is rejected and the store is exactly as it was.
    pub fn batch_insert_file_entries(&mut self, entries: &Vec<FileEntry>) -> (r: Result<
        (),
        SearchError,
    >)
        requires
            old(self).wf(),
        ensures
            final(self).wf(),
            match r {
                Ok(_) => all_valid(views_of(entries@)) && final(self)@ == spec_upsert_all(
                    old(self)@,
                    views_of(entries@),
                ),
                Err(_) => !all_valid(views_of(entries@)) && *final(self) == *old(self),
            },
    {
        let ghost vs = views_of(entries@);
        let mut i: usize = 0;
        while i < entries.len()
            invariant
                i <= entries@.len(),
                vs == views_of(entries@),
                forall|k: int| 0 <= k < i ==> valid_entry(#[trigger] vs[k]),
                *self == *old(self),
                self.wf(),
            decreases entries@.len() - i,
        {
            if !check_entry(&entries[i]) {
                proof {
                    assert(!valid_entry(vs[i as int]));
                    assert(!all_valid(vs));
                }
                return Err(
                    SearchError::Io(
                        String::from_str("constraint violation: malformed entry in batch"),
                    ),
                );
            }
            i += 1;
        }
        let ghost s0 = self@;
        let mut i: usize = 0;
        while i < entries.len()
            invariant
                i <= entries@.len(),
                vs == views_of(entries@),
                forall|k: int| 0 <= k < vs.len() ==> valid_entry(#[trigger] vs[k]),
                self.wf(),
                self@ == spec_upsert_all(s0, vs.take(i as int)),
            decreases entries@.len() - i,
        {
            proof {
                assert(vs[i as int] == entries@[i as int]@);
                assert(valid_entry(entries@[i as int]@));
            }
            let r = self.insert_file_entry(&entries[i]);
            proof {
                assert(r is Ok);
                assert(vs.take(i + 1).drop_last() =~= vs.take(i as int));
                assert(vs.take(i + 1).last() == vs[i as int]);
            }
            i += 1;
        }
        proof {
            assert(vs.take(vs.len() as int) =~= vs);
        }
        Ok(())
    }

    /// Removes the row carrying `path`, and its shadow row, in one step; a
    /// path with no row leaves the store unchanged.
    pub fn delete(&mut self, path: &String)
        requires
            old(self).wf(),
        ensures
            final(self).wf(),
            final(self)@ == spec_delete(old(self)@, path@),
    {
        let ghost s0 = self@;
        match self.find_index(path) {
            Some(i) => {
                proof {
                    lemma_find_path(s0, path@);
                    s0.remove_ensures(i as int);
                }
                self.entries.remove(i);
                self.shadow.remove(i);
                proof {
                    assert(self@ =~= s0.remove(i as int));
                    assert forall|a: int, b: int| 0 <= a < b < self@.len() implies self@[a].path
                        != self@[b].path by {
                        let a0 = if a < i { a } else { a + 1 };
                        let b0 = if b < i { b } else { b + 1 };
                        assert(self@[a] == s0[a0] && self@[b] == s0[b0]);
                        assert(s0[a0].path != s0[b0].path);
                    }
                    assert forall|k: int| 0 <= k < self@.len() implies valid_entry(
                        #[trigger] self@[k],
                    ) by {
                        let k0 = if k < i { k } else { k + 1 };
                        assert(self@[k] == s0[k0]);
                        assert(valid_entry(s0[k0]));
                    }
                }
            },
            None => {},
        }
    }

    /// Executes a compiled query: every row accepted by the predicate, in
    /// the display order — directories first, then by name, then by path —
    /// with pagination applied after filtering and ordering. The total
    /// count is the number of matches before pagination.
    pub fn search(&self, c: &CompiledQuery) -> (r: SearchResult)
        requires
            self.wf(),
            c.wf(),
        ensures
            views_of(r.entries@) == page_of(sort_entries(matched_of(c@, self@)), c@.offset, c@.limit),
            r.total_count == matched_of(c@, self@).len(),
            r.query_time_ms == 0,
    {
        let ghost cv = c@;
        let ghost all = self@;
        let mut sorted: Vec<FileEntry> = Vec::new();
        proof {
            reveal(Seq::filter);
            assert(all.take(0) =~= Seq::<EntryV>::empty());
        }
        let mut i: usize = 0;
        while i < self.entries.len()
            invariant
                i <= self.entries@.len(),
                cv == c@,
                c.wf(),
                all == self@,
                views_of(sorted@) == sort_entries(matched_of(cv, all.take(i as int))),
                sorted@.len() == matched_of(cv, all.take(i as int)).len(),
            decreases self.entries@.len() - i,
        {
            let ghost m0 = matched_of(cv, all.take(i as int));
            let hit = entry_matches_exec(c, &self.entries[i]);
            if hit {
                sorted_push(&mut sorted, self.entries[i].duplicate());
            }
            proof {
                reveal(Seq::filter);
                assert(all.take(i + 1).drop_last() =~= all.take(i as int));
                assert(all.take(i + 1).last() == all[i as int]);
                assert(all[i as int] == self.entries@[i as int]@);
                let m1 = matched_of(cv, all.take(i + 1));
                if hit {
                    assert(m1 == m0.push(all[i as int]));
                    assert(m1.len() > 0);
                    assert(m1.drop_last() =~= m0);
                    assert(m1.last() == all[i as int]);
                    assert(sort_entries(m1) == crate::order::sorted_insert(
                        sort_entries(m0),
                        all[i as int],
                    ));
                    crate::order::lemma_sorted_insert_multiset(sort_entries(m0), all[i as int]);
                } else {
                    assert(m1 == m0);
                }
            }
            i += 1;
        }
        proof {
            assert(all.take(self.entries@.len() as int) =~= all);
        }
        let ghost full = sort_entries(matched_of(cv, all));
        let total: u64 = sorted.len() as u64;
        let off_u: usize = c.offset as usize;
        let lim_u: usize = c.limit as usize;
        let mut page: Vec<FileEntry> = Vec::new();
        let mut k: usize = off_u;
        let mut cnt: usize = 0;
        proof {
            assert(views_of(page@) =~= page_of(full, off_u as int, 0));
        }
        while k < sorted.len() && cnt < lim_u
            invariant
                views_of(sorted@) == full,
                sorted@.len() == full.len(),
                k == off_u + cnt,
                cnt <= lim_u,
                views_of(page@) == page_of(full, off_u as int, cnt as int),
            decreases sorted@.len() - k,
        {
            let ghost pv = views_of(page@);
            proof {
                assert(pv =~= full.subrange(off_u as int, k as int));
            }
            page.push(sorted[k].duplicate());
            proof {
                assert(views_of(page@) =~= pv.push(full[k as int]));
                assert(views_of(page@) =~= full.subrange(off_u as int, k + 1));
                assert(views_of(page@) =~= page_of(full, off_u as int, cnt + 1));
            }
            k += 1;
            cnt += 1;
        }
        proof {
            assert(views_of(page@) =~= page_of(full, off_u as int, lim_u as int));
        }
        SearchResult { entries: page, total_count: total, query_time_ms: 0 }
    }

    /// Aggregate statistics computed from the current table contents: file
    /// and directory counts, the total byte size of files (saturated at the
    /// counter's width), and the most recent `indexed_at` over all rows.
    /// The store itself does not know the configured roots, so the root
    /// list is left empty here.
    pub fn get_stats(&self) -> (r: IndexStats)
        requires
            self.wf(),
        ensures
            r.total_files == num_files(self@),
            r.total_directories == num_dirs(self@),
            r.index_size_bytes == (if total_size(self@) > u64::MAX {
                u64::MAX as int
            } else {
                total_size(self@)
            }),
            r.last_index_time == last_indexed(self@),
            r.indexed_paths@.len() == 0,
    {
        let ghost all = self@;
        let mut nf: u64 = 0;
        let mut nd: u64 = 0;
        let mut acc: u128 = 0;
        let mut latest: i64 = 0;
        proof {
            assert(all.take(0) =~= Seq::<EntryV>::empty());
        }
        let mut i: usize = 0;
        while i < self.entries.len()
            invariant
                i <= self.entries@.len(),
                all == self@,
                self.wf(),
                nf == num_files(all.take(i as int)),
                nd == num_dirs(all.take(i as int)),
                nf + nd == i,
                acc == total_size(all.take(i as int)),
                acc <= (i as int) * 0x7fff_ffff_ffff_ffff,
                latest == last_indexed(all.take(i as int)),
            decreases self.entries@.len() - i,
        {
            proof {
                assert(all.take(i + 1).drop_last() =~= all.take(i as int));
                assert(all.take(i + 1).last() == all[i as int]);
                assert(all[i as int] == self.entries@[i as int]@);
                assert(valid_entry(all[i as int]));
                assert(usize::MAX <= u64::MAX);
            }
            let e = &self.entries[i];
            if e.is_directory {
                nd += 1;
            } else {
                nf += 1;
                acc += e.size as u128;
            }
            if e.indexed_at > latest {
                latest = e.indexed_at;
            }
            i += 1;
        }
        proof {
            assert(all.take(self.entries@.len() as int) =~= all);
        }
        let size_total: u64 = if acc > u64::MAX as u128 {
            u64::MAX
        } else {
            acc as u64
        };
        IndexStats {
            total_files: nf,
            total_directories: nd,
            indexed_paths: Vec::new(),
            last_index_time: latest,
            index_size_bytes: size_total,
        }
    }

    /// Empties the primary table and the shadow index together.
    pub fn clear_index(&mut self)
        ensures
            final(self).wf(),
            final(self)@.len() == 0,
            final(self).shadow@.len() == 0,
    {
        self.entries = Vec::new();
        self.shadow = Vec::new();
    }
}

/// Upserting twice under one path is upserting once: the second write's
/// values win and the first leaves no trace.
pub proof fn lemma_upsert_idempotent(s: Seq<EntryV>, e1: EntryV, e2: EntryV)
    requires
        e1.path == e2.path,
    ensures
        spec_upsert(spec_upsert(s, e1), e2) == spec_upsert(s, e2),
{
    lemma_find_path(s, e1.path);
    let j = find_path(s, e1.path);
    if j >= 0 {
        let t1 = s.update(j, e1);
        assert(t1[j].path == e2.path);
        assert forall|k: int| 0 <= k < j implies (#[trigger] t1[k]).path != e2.path by {
            assert(t1[k] == s[k]);
        }
        lemma_find_path_at(t1, e2.path, j);
        assert(spec_upsert(spec_upsert(s, e1), e2) =~= s.update(j, e2));
        assert(spec_upsert(s, e2) =~= s.update(j, e2));
    } else {
        let t1 = s.push(e1);
        assert(t1[s.len() as int].path == e2.path);
        assert forall|k: int| 0 <= k < s.len() implies (#[trigger] t1[k]).path != e2.path by {
            assert(t1[k] == s[k]);
        }
        lemma_find_path_at(t1, e2.path, s.len() as int);
        assert(spec_upsert(spec_upsert(s, e1), e2) =~= t1.update(s.len() as int, e2));
        assert(t1.update(s.len() as int, e2) =~= s.push(e2));
        assert(spec_upsert(s, e2) =~= s.push(e2));
    }
}

/// After an upsert, exactly one row carries the entry's path, and it holds
/// the written values.
pub proof fn lemma_upsert_exactly_one(s: Seq<EntryV>, e: EntryV)
    requires
        distinct_paths(s),
    ensures
        ({
            let t = spec_upsert(s, e);
            let j = if find_path(s, e.path) >= 0 {
                find_path(s, e.path)
            } else {
                s.len() as int
            };
            &&& 0 <= j < t.len()
            &&& t[j] == e
            &&& forall|k: int| 0 <= k < t.len() && k != j ==> (#[trigger] t[k]).path != e.path
        }),
{
    lemma_find_path(s, e.path);
    let t = spec_upsert(s, e);
    let f = find_path(s, e.path);
    if f >= 0 {
        assert forall|k: int| 0 <= k < t.len() && k != f implies (#[trigger] t[k]).path
            != e.path by {
            assert(t[k] == s[k]);
            if k > f {
                assert(s[f].path != s[k].path);
            }
        }
    } else {
        assert forall|k: int| 0 <= k < t.len() && k != s.len() implies (#[trigger] t[k]).path
            != e.path by {
            assert(t[k] == s[k]);
        }
    }
}

/// The full-text shadow index of a well-formed store holds exactly one row
/// per live path — no more, no fewer — and each row mirrors its entry's
/// name and path. Every mutating operation promises `wf`, so this holds
/// after any sequence of upserts and deletes.
pub proof fn lemma_shadow_consistent(db: &Database)
    requires
        db.wf(),
    ensures
        db.shadow@.len() == db@.len(),
        forall|i: int|
            0 <= i < db@.len() ==> (#[trigger] db.shadow@[i]).path@ == db@[i].path
                && db.shadow@[i].name@ == db@[i].name,
        forall|i: int, j: int|
            0 <= i < j < db.shadow@.len() ==> (#[trigger] db.shadow@[i]).path@
                != (#[trigger] db.shadow@[j]).path@,
{
    assert forall|i: int, j: int| 0 <= i < j < db.shadow@.len() implies (
    #[trigger] db.shadow@[i]).path@ != (#[trigger] db.shadow@[j]).path@ by {
        assert(db@[i].path != db@[j].path);
    }
}

/// After a delete, no row carries the deleted path.
pub proof fn lemma_delete_removes_path(s: Seq<EntryV>, p: Seq<char>)
    requires
        distinct_paths(s),
    ensures
        forall|k: int|
            0 <= k < spec_delete(s, p).len() ==> (#[trigger] spec_delete(s, p)[k]).path != p,
{
    lemma_find_path(s, p);
    let j = find_path(s, p);
    if j >= 0 {
        s.remove_ensures(j);
        assert forall|k: int| 0 <= k < spec_delete(s, p).len() implies (#[trigger] spec_delete(
            s,
            p,
        )[k]).path != p by {
            let k0 = if k < j {
                k
            } else {
                k + 1
            };
            assert(spec_delete(s, p)[k] == s[k0]);
            if k0 != j {
                if k0 < j {
                    assert(s[k0].path != s[j].path);
                } else {
                    assert(s[j].path != s[k0].path);
                }
            }
        }
    } else {
        assert forall|k: int| 0 <= k < spec_delete(s, p).len() implies (#[trigger] spec_delete(
            s,
            p,
        )[k]).path != p by {}
    }
}

/// Everything a search hands back was a row of the store and was accepted
/// by the predicate.
pub proof fn lemma_search_matches(c: CompiledV, s: Seq<EntryV>, x: EntryV)
    requires
        sort_entries(matched_of(c, s)).contains(x),
    ensures
        s.contains(x),
        entry_matches(c, x),
{
    broadcast use vstd::seq_lib::group_to_multiset_ensures;

    let m = matched_of(c, s);
    crate::order::lemma_sort_entries_multiset(m);
    assert(sort_entries(m).to_multiset().contains(x));
    assert(m.contains(x));
    s.lemma_filter_contains_rev(|ev: EntryV| entry_matches(c, ev), x);
    let i = choose|i: int| 0 <= i < m.len() && m[i] == x;
    s.lemma_filter_pred(|ev: EntryV| entry_matches(c, ev), i);
}

/// Search misses nothing: every row the predicate accepts reaches the
/// result sequence that pagination is applied to.
pub proof fn lemma_search_complete(c: CompiledV, s: Seq<EntryV>, i: int)
    requires
        0 <= i < s.len(),
        entry_matches(c, s[i]),
    ensures
        sort_entries(matched_of(c, s)).contains(s[i]),
{
    broadcast use vstd::seq_lib::group_to_multiset_ensures;

    let m = matched_of(c, s);
    s.lemma_filter_contains(|ev: EntryV| entry_matches(c, ev), i);
    assert(m.contains(s[i]));
    crate::order::lemma_sort_entries_multiset(m);
    assert(sort_entries(m).to_multiset().contains(s[i]));
}

/// What search hands back is in display order: directories first, then by
/// name, then by path.
pub proof fn lemma_search_page_sorted(c: CompiledV, s: Seq<EntryV>, off: int, lim: int)
    requires
        0 <= off,
        0 <= lim,
    ensures
        crate::order::entries_sorted(page_of(sort_entries(matched_of(c, s)), off, lim)),
{
    let full = sort_entries(matched_of(c, s));
    crate::order::lemma_sort_entries_sorted(matched_of(c, s));
    let page = page_of(full, off, lim);
    let a = if off > full.len() {
        full.len() as int
    } else {
        off
    };
    assert forall|i: int, j: int| 0 <= i < j < page.len() implies crate::order::entry_le(
        #[trigger] page[i],
        #[trigger] page[j],
    ) by {
        assert(page[i] == full[a + i] && page[j] == full[a + j]);
    }
}

/// Once a path is deleted from the store, no later search result contains
/// a row carrying it: what the remove event took out stays out.
pub proof fn lemma_removed_never_returned(
    c: CompiledV,
    s: Seq<EntryV>,
    p: Seq<char>,
    off: int,
    lim: int,
    k: int,
)
    requires
        distinct_paths(s),
        0 <= off,
        0 <= lim,
        0 <= k < page_of(sort_entries(matched_of(c, spec_delete(s, p))), off, lim).len(),
    ensures
        page_of(sort_entries(matched_of(c, spec_delete(s, p))), off, lim)[k].path != p,
{
    let t = spec_delete(s, p);
    let full = sort_entries(matched_of(c, t));
    let x = page_of(full, off, lim)[k];
    let a = if off > full.len() {
        full.len() as int
    } else {
        off
    };
    assert(x == full[a + k]);
    assert(full.contains(x));
    lemma_search_matches(c, t, x);
    lemma_delete_removes_path(s, p);
    let i = choose|i: int| 0 <= i < t.len() && t[i] == x;
    assert(t[i].path != p);
}

/// Executable check of [`valid_entry`].
pub fn check_entry(e: &FileEntry) -> (r: bool)
    ensures
        r == valid_entry(e@),
{
    if e.path.unicode_len() == 0 {
        return false;
    }
    if e.size < 0 {
        return false;
    }
    if e.is_directory {
        if e.size != 0 {
            return false;
        }
        match &e.extension {
            Some(_) => {
                return false;
            },
            None => {},
        }
    }
    match &e.extension {
        Some(x) => crate::text::str_is_folded(x.as_str()),
        None => true,
    }
}

} // verus!
