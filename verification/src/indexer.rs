//! The scanner policy and incremental ingestion: which paths are indexed,
//! how an entry is synthesized from metadata, how filesystem change events
//! mutate the store, and how bulk scan results are flushed to the store in
//! batches.
use vstd::prelude::*;

use crate::store::{find_path, spec_delete, spec_upsert, spec_upsert_all, Database};
use crate::text::{contains_seq, file_name_of, is_dot_pseudo, lower_seq, name_is_dot_pseudo,
    name_of_path, name_starts_with_dot, spec_extension, starts_with_dot, str_contains_fold};
use crate::types::{valid_entry, views_of, EntryV, FileEntry, SearchError};

verus! {

/// Relies on `uuid::Uuid::new_v4` and its hyphenated display form: a fresh
/// random identifier, 36 characters long; nothing else can be promised of a
/// random value.
#[verifier::external_body]
pub(crate) fn fresh_id() -> (r: String)
    ensures
        r@.len() == 36,
{
    uuid::Uuid::new_v4().to_string()
}

/// A row of the shadow index is mirrored from some entry; a path has a row
/// exactly when some row carries it.
pub open spec fn has_path(s: Seq<EntryV>, p: Seq<char>) -> bool {
    exists|k: int| 0 <= k < s.len() && (#[trigger] s[k]).path == p
}

/// Appending an entry adds exactly its path to the live paths.
pub proof fn lemma_has_path_push(s: Seq<EntryV>, e: EntryV, p: Seq<char>)
    ensures
        has_path(s.push(e), p) == (has_path(s, p) || e.path == p),
{
    if has_path(s.push(e), p) {
        let k = choose|k: int| 0 <= k < s.push(e).len() && (#[trigger] s.push(e)[k]).path == p;
        if k < s.len() {
            assert(s[k].path == p);
        } else {
            assert(s.push(e)[k] == e);
        }
    }
    if has_path(s, p) {
        let k = choose|k: int| 0 <= k < s.len() && (#[trigger] s[k]).path == p;
        assert(s.push(e)[k].path == p);
    }
    if e.path == p {
        assert(s.push(e)[s.len() as int].path == p);
    }
}

/// An upsert adds exactly its own path to the set of live paths.
pub proof fn lemma_upsert_has_path(s: Seq<EntryV>, e: EntryV, p: Seq<char>)
    ensures
        has_path(spec_upsert(s, e), p) == (p == e.path || has_path(s, p)),
{
    crate::store::lemma_find_path(s, e.path);
    let t = spec_upsert(s, e);
    let j = find_path(s, e.path);
    if j >= 0 {
        if has_path(t, p) {
            let k = choose|k: int| 0 <= k < t.len() && (#[trigger] t[k]).path == p;
            if k != j {
                assert(s[k].path == p);
            }
        }
        if p == e.path {
            assert(t[j].path == p);
        } else if has_path(s, p) {
            let k = choose|k: int| 0 <= k < s.len() && (#[trigger] s[k]).path == p;
            assert(k != j ==> t[k].path == p);
            assert(k == j ==> s[j].path == p && p == e.path);
            assert(t[k].path == p);
        }
    } else {
        if has_path(t, p) {
            let k = choose|k: int| 0 <= k < t.len() && (#[trigger] t[k]).path == p;
            if k < s.len() {
                assert(s[k].path == p);
            } else {
                assert(t[k] == e);
            }
        }
        if p == e.path {
            assert(t[s.len() as int].path == p);
        } else if has_path(s, p) {
            let k = choose|k: int| 0 <= k < s.len() && (#[trigger] s[k]).path == p;
            assert(t[k].path == p);
        }
    }
}

/// A batch adds exactly the paths of its entries to the set of live paths.
pub proof fn lemma_upsert_all_has_path(s: Seq<EntryV>, es: Seq<EntryV>, p: Seq<char>)
    ensures
        has_path(spec_upsert_all(s, es), p) == (has_path(s, p) || exists|k: int|
            0 <= k < es.len() && (#[trigger] es[k]).path == p),
    decreases es.len(),
{
    if es.len() > 0 {
        lemma_upsert_all_has_path(s, es.drop_last(), p);
        lemma_upsert_has_path(spec_upsert_all(s, es.drop_last()), es.last(), p);
        if exists|k: int| 0 <= k < es.len() && (#[trigger] es[k]).path == p {
            let k = choose|k: int| 0 <= k < es.len() && (#[trigger] es[k]).path == p;
            if k < es.len() - 1 {
                assert(es.drop_last()[k].path == p);
            }
        }
        if exists|k: int| 0 <= k < es.drop_last().len() && (#[trigger] es.drop_last()[k]).path
            == p {
            let k = choose|k: int|
                0 <= k < es.drop_last().len() && (#[trigger] es.drop_last()[k]).path == p;
            assert(es[k].path == p);
        }
        assert(es[es.len() - 1] == es.last());
    }
}

/// The scanner's view of one discovered filesystem object: its metadata as
/// plain values. Timestamps are UTC seconds since the epoch.
#[derive(Debug, Clone)]
pub struct FsMeta {
    pub is_directory: bool,
    pub size: i64,
    pub modified: i64,
    pub created: i64,
    pub attributes: i32,
}

/// One discovered filesystem object: its path and metadata.
#[derive(Debug, Clone)]
pub struct ScanItem {
    pub path: String,
    pub meta: FsMeta,
}

/// The kinds of filesystem change notification the indexer reacts to.
#[derive(Debug, Clone, PartialEq, Eq, Structural)]
pub enum FsEventKind {
    Create,
    Modify,
    Remove,
    Other,
}

/// The entry synthesized for a path with the given metadata and identifier.
pub open spec fn entry_v_of(
    id: Seq<char>,
    path: Seq<char>,
    meta: FsMeta,
    indexed_at: int,
) -> EntryV {
    EntryV {
        id: id,
        name: file_name_of(path),
        path: path,
        size: if meta.is_directory {
            0
        } else {
            meta.size as int
        },
        modified: meta.modified as int,
        created: meta.created as int,
        is_directory: meta.is_directory,
        extension: if meta.is_directory {
            None
        } else {
            spec_extension(file_name_of(path))
        },
        attributes: meta.attributes as int,
        indexed_at: indexed_at,
    }
}

/// The scanner and watcher configuration: the roots to index and the
/// substrings whose presence in a path excludes it.
#[derive(Debug)]
pub struct FileIndexer {
    pub indexed_paths: Vec<String>,
    pub exclude_patterns: Vec<String>,
}

impl FileIndexer {
    /// The exclusion patterns as sequences.
    pub open spec fn patterns(&self) -> Seq<Seq<char>> {
        self.exclude_patterns@.map_values(|s: String| s@)
    }

    /// The configured roots as sequences.
    pub open spec fn roots(&self) -> Seq<Seq<char>> {
        self.indexed_paths@.map_values(|s: String| s@)
    }

    /// No root is configured twice.
    pub open spec fn wf(&self) -> bool {
        forall|i: int, j: int| 0 <= i < j < self.roots().len() ==> self.roots()[i]
            != self.roots()[j]
    }

    /// A fresh indexer with no roots and the default exclusion list:
    /// version-control metadata, dependency caches, build output,
    /// recycle/trash and OS index stores.
    pub fn new() -> (r: FileIndexer)
        ensures
            r.wf(),
            r.roots().len() == 0,
            r.patterns().len() == 11,
            r.patterns()[0] == "System Volume Information"@,
            r.patterns()[1] == "$Recycle.Bin"@,
            r.patterns()[2] == "Windows/WinSxS"@,
            r.patterns()[3] == "ProgramData/Microsoft"@,
            r.patterns()[4] == ".git"@,
            r.patterns()[5] == "node_modules"@,
            r.patterns()[6] == ".vs"@,
            r.patterns()[7] == ".vscode"@,
            r.patterns()[8] == "target"@,
            r.patterns()[9] == "dist"@,
            r.patterns()[10] == "build"@,
    {
        let mut pats: Vec<String> = Vec::new();
        pats.push(String::from_str("System Volume Information"));
        pats.push(String::from_str("$Recycle.Bin"));
        pats.push(String::from_str("Windows/WinSxS"));
        pats.push(String::from_str("ProgramData/Microsoft"));
        pats.push(String::from_str(".git"));
        pats.push(String::from_str("node_modules"));
        pats.push(String::from_str(".vs"));
        pats.push(String::from_str(".vscode"));
        pats.push(String::from_str("target"));
        pats.push(String::from_str("dist"));
        pats.push(String::from_str("build"));
        FileIndexer { indexed_paths: Vec::new(), exclude_patterns: pats }
    }

    /// Adds a root, once: a root already present is not duplicated.
    pub fn add_indexed_path(&mut self, path: String)
        requires
            old(self).wf(),
        ensures
            final(self).wf(),
            final(self).patterns() == old(self).patterns(),
            final(self).roots() == (if old(self).roots().contains(path@) {
                old(self).roots()
            } else {
                old(self).roots().push(path@)
            }),
    {
        let ghost r0 = self.roots();
        let mut i: usize = 0;
        while i < self.indexed_paths.len()
            invariant
                i <= self.indexed_paths@.len(),
                r0 == self.roots(),
                *self == *old(self),
                self.wf(),
                forall|k: int| 0 <= k < i ==> r0[k] != path@,
            decreases self.indexed_paths@.len() - i,
        {
            if self.indexed_paths[i] == path {
                proof {
                    assert(r0[i as int] == path@);
                    assert(r0.contains(path@));
                }
                return ;
            }
            i += 1;
        }
        proof {
            if r0.contains(path@) {
                let k = choose|k: int| 0 <= k < r0.len() && r0[k] == path@;
                assert(r0[k] != path@);
            }
        }
        self.indexed_paths.push(path);
        proof {
            assert(self.roots() =~= r0.push(path@));
        }
    }

    /// Replaces the exclusion list.
    pub fn set_exclude_patterns(&mut self, patterns: Vec<String>)
        ensures
            final(self).patterns() == patterns@.map_values(|s: String| s@),
            final(self).roots() == old(self).roots(),
    {
        self.exclude_patterns = patterns;
    }

    /// A path is excluded when it contains one of the patterns,
    /// case-insensitively.
    pub open spec fn excluded(&self, path: Seq<char>) -> bool {
        exists|i: int|
            0 <= i < self.patterns().len() && contains_seq(
                lower_seq(path),
                lower_seq(#[trigger] self.patterns()[i]),
            )
    }

    /// A path is indexed when it is not excluded and its file name is not
    /// hidden — it does not start with a dot, the `.`/`..` pseudo-entries
    /// aside. This is the indexing-time policy; the
    /// query-time `include_hidden` flag only affects search.
    pub open spec fn spec_should_index(&self, path: Seq<char>) -> bool {
        &&& !self.excluded(path)
        &&& (starts_with_dot(file_name_of(path)) ==> is_dot_pseudo(file_name_of(path)))
    }

    /// Executable decision whether a path is indexed.
    pub fn should_index_path(&self, path: &String) -> (r: bool)
        ensures
            r == self.spec_should_index(path@),
    {
        let mut i: usize = 0;
        while i < self.exclude_patterns.len()
            invariant
                i <= self.exclude_patterns@.len(),
                forall|k: int| 0 <= k < i ==> !contains_seq(
                    lower_seq(path@),
                    lower_seq(#[trigger] self.patterns()[k]),
                ),
            decreases self.exclude_patterns@.len() - i,
        {
            if str_contains_fold(path.as_str(), self.exclude_patterns[i].as_str(), true) {
                proof {
                    assert(contains_seq(lower_seq(path@), lower_seq(self.patterns()[i as int])));
                }
                return false;
            }
            i += 1;
        }
        let name = name_of_path(path.as_str());
        if name_starts_with_dot(name.as_str()) && !name_is_dot_pseudo(name.as_str()) {
            return false;
        }
        true
    }

    /// Synthesizes the entry for a discovered filesystem object: the name
    /// is the path's file name, directories carry size 0 and no
    /// extension, files carry the lower-cased suffix of their name, and the
    /// identifier is freshly drawn.
    pub fn create_file_entry(&self, path: &String, meta: &FsMeta, indexed_at: i64) -> (r:
        FileEntry)
        requires
            path@.len() > 0,
            meta.size >= 0,
        ensures
            r@ == entry_v_of(r.id@, path@, *meta, indexed_at as int),
            r.id@.len() == 36,
            valid_entry(r@),
    {
        let name = name_of_path(path.as_str());
        let extension: Option<String> = if meta.is_directory {
            None
        } else {
            crate::text::extension_of_name(name.as_str())
        };
        let size: i64 = if meta.is_directory {
            0
        } else {
            meta.size
        };
        let r = FileEntry {
            id: fresh_id(),
            name,
            path: path.clone(),
            size,
            modified: meta.modified,
            created: meta.created,
            is_directory: meta.is_directory,
            extension,
            attributes: meta.attributes,
            indexed_at,
        };
        proof {
            match r@.extension {
                Some(x) => {
                    crate::text::lemma_lower_seq_idempotent(x);
                    assert(x == lower_seq(x));
                },
                None => {},
            }
        }
        r
    }

    /// Applies one filesystem change notification to the store: a create
    /// or modify event on an indexed path upserts a freshly synthesized
    /// entry; a remove event deletes the path; everything else — events on
    /// excluded paths, or paths whose metadata could no longer be read —
    /// is silently ignored.
    pub fn handle_file_system_event(
        &self,
        db: &mut Database,
        kind: FsEventKind,
        path: &String,
        meta: Option<&FsMeta>,
        now: i64,
    ) -> (r: Result<(), SearchError>)
        requires
            old(db).wf(),
            path@.len() > 0,
            match meta {
                Some(m) => m.size >= 0,
                None => true,
            },
        ensures
            final(db).wf(),
            r is Ok,
            match kind {
                FsEventKind::Create | FsEventKind::Modify => {
                    if self.spec_should_index(path@) && meta is Some {
                        exists|id: Seq<char>|
                            id.len() == 36 && final(db)@ == spec_upsert(
                                old(db)@,
                                entry_v_of(id, path@, *meta->0, now as int),
                            )
                    } else {
                        *final(db) == *old(db)
                    }
                },
                FsEventKind::Remove => final(db)@ == spec_delete(old(db)@, path@),
                FsEventKind::Other => *final(db) == *old(db),
            },
    {
        match kind {
            FsEventKind::Create | FsEventKind::Modify => {
                if self.should_index_path(path) {
                    match meta {
                        Some(m) => {
                            let entry = self.create_file_entry(path, m, now);
                            let res = db.insert_file_entry(&entry);
                            proof {
                                assert(res is Ok);
                                assert(entry@ == entry_v_of(
                                    entry.id@,
                                    path@,
                                    *m,
                                    now as int,
                                ));
                            }
                        },
                        None => {},
                    }
                }
            },
            FsEventKind::Remove => {
                self.remove_from_index(db, path);
            },
            FsEventKind::Other => {},
        }
        Ok(())
    }

    /// Removes a path from the store.
    pub fn remove_from_index(&self, db: &mut Database, path: &String)
        requires
            old(db).wf(),
        ensures
            final(db).wf(),
            final(db)@ == spec_delete(old(db)@, path@),
    {
        db.delete(path);
    }

    /// Ingests the results of a bulk scan: each discovered object that
    /// passes the indexing policy is synthesized into an entry, and the
    /// entries are flushed to the store in batches of at most
    /// [`SCAN_BATCH_SIZE`] rather than one write per object. Afterwards
    /// every accepted path is live, and no path becomes live that was not
    /// live before unless an accepted item carries it — in particular, an
    /// excluded path never enters the index.
    pub fn ingest_scan(&self, db: &mut Database, items: &Vec<ScanItem>, now: i64) -> (r: Result<
        (),
        SearchError,
    >)
        requires
            old(db).wf(),
            forall|k: int|
                0 <= k < items@.len() ==> (#[trigger] items@[k]).path@.len() > 0
                    && items@[k].meta.size >= 0,
        ensures
            final(db).wf(),
            r is Ok,
            forall|k: int|
                0 <= k < items@.len() && self.spec_should_index((#[trigger] items@[k]).path@)
                    ==> has_path(final(db)@, items@[k].path@),
            forall|p: Seq<char>|
                #[trigger] has_path(final(db)@, p) ==> has_path(old(db)@, p) || exists|k: int|
                    0 <= k < items@.len() && (#[trigger] items@[k]).path@ == p
                        && self.spec_should_index(p),
    {
        let ghost s0 = db@;
        let mut buf: Vec<FileEntry> = Vec::new();
        let mut i: usize = 0;
        while i < items.len()
            invariant
                i <= items@.len(),
                db.wf(),
                forall|k: int|
                    0 <= k < items@.len() ==> (#[trigger] items@[k]).path@.len() > 0
                        && items@[k].meta.size >= 0,
                s0 == old(db)@,
                forall|k: int| 0 <= k < buf@.len() ==> valid_entry((#[trigger] buf@[k])@),
                forall|k: int|
                    0 <= k < i && self.spec_should_index((#[trigger] items@[k]).path@)
                        ==> has_path(db@, items@[k].path@) || has_path(
                        views_of(buf@),
                        items@[k].path@,
                    ),
                forall|p: Seq<char>|
                    #[trigger] has_path(db@, p) ==> has_path(s0, p) || exists|k: int|
                        0 <= k < i && (#[trigger] items@[k]).path@ == p
                            && self.spec_should_index(p),
                forall|p: Seq<char>|
                    #[trigger] has_path(views_of(buf@), p) ==> exists|k: int|
                        0 <= k < i && (#[trigger] items@[k]).path@ == p
                            && self.spec_should_index(p),
            decreases items@.len() - i,
        {
            let item = &items[i];
            let accepted = self.should_index_path(&item.path);
            if accepted {
                let entry = self.create_file_entry(&item.path, &item.meta, now);
                let ghost bv0 = views_of(buf@);
                let ghost ev = entry@;
                buf.push(entry);
                proof {
                    assert(views_of(buf@) =~= bv0.push(ev));
                    assert(ev.path == items@[i as int].path@);
                    assert forall|p: Seq<char>| #[trigger] has_path(views_of(buf@), p) implies
                        exists|k: int|
                            0 <= k < i + 1 && (#[trigger] items@[k]).path@ == p
                                && self.spec_should_index(p) by {
                        lemma_has_path_push(bv0, ev, p);
                        if has_path(bv0, p) {
                            let k = choose|k: int|
                                0 <= k < i && (#[trigger] items@[k]).path@ == p
                                    && self.spec_should_index(p);
                            assert(0 <= k < i + 1 && items@[k].path@ == p
                                && self.spec_should_index(p));
                        } else {
                            assert(items@[i as int].path@ == p && self.spec_should_index(p));
                        }
                    }
                    assert forall|k: int|
                        0 <= k < i + 1 && self.spec_should_index(
                            (#[trigger] items@[k]).path@,
                        ) implies has_path(db@, items@[k].path@) || has_path(
                        views_of(buf@),
                        items@[k].path@,
                    ) by {
                        lemma_has_path_push(bv0, ev, items@[k].path@);
                        if k == i {
                            assert(has_path(views_of(buf@), items@[k].path@));
                        }
                    }
                }
                if buf.len() >= SCAN_BATCH_SIZE {
                    let ghost bv = views_of(buf@);
                    let ghost d0 = db@;
                    let res = db.batch_insert_file_entries(&buf);
                    proof {
                        assert(res is Ok);
                        flush_transfer(d0, bv, s0, self, items@, i + 1);
                        assert forall|k: int|
                            0 <= k < i + 1 && self.spec_should_index(
                                (#[trigger] items@[k]).path@,
                            ) implies has_path(db@, items@[k].path@) by {
                            assert(has_path(d0, items@[k].path@) || has_path(
                                bv,
                                items@[k].path@,
                            ));
                        }
                    }
                    buf = Vec::new();
                    proof {
                        assert(views_of(buf@) =~= Seq::<EntryV>::empty());
                        assert(forall|p: Seq<char>| !has_path(views_of(buf@), p));
                    }
                }
            } else {
                proof {
                    assert forall|k: int|
                        0 <= k < i + 1 && self.spec_should_index(
                            (#[trigger] items@[k]).path@,
                        ) implies has_path(db@, items@[k].path@) || has_path(
                        views_of(buf@),
                        items@[k].path@,
                    ) by {
                        assert(k < i);
                    }
                }
            }
            i += 1;
        }
        if buf.len() > 0 {
            let ghost bv = views_of(buf@);
            let ghost d0 = db@;
            let res = db.batch_insert_file_entries(&buf);
            proof {
                assert(res is Ok);
                flush_transfer(d0, bv, s0, self, items@, items@.len() as int);
            }
        }
        Ok(())
    }
}

/// Entries are flushed to the store once this many have accumulated.
pub const SCAN_BATCH_SIZE: usize = 1000;

/// After a buffered batch is flushed, the live paths of the store are the
/// old ones plus the buffered ones; the ingestion invariants carry over.
proof fn flush_transfer(
    d0: Seq<EntryV>,
    bv: Seq<EntryV>,
    s0: Seq<EntryV>,
    ix: &FileIndexer,
    items: Seq<ScanItem>,
    i: int,
)
    requires
        0 <= i <= items.len(),
        forall|p: Seq<char>|
            #[trigger] has_path(d0, p) ==> has_path(s0, p) || exists|k: int|
                0 <= k < i && (#[trigger] items[k]).path@ == p && ix.spec_should_index(p),
        forall|p: Seq<char>|
            #[trigger] has_path(bv, p) ==> exists|k: int|
                0 <= k < i && (#[trigger] items[k]).path@ == p && ix.spec_should_index(p),
    ensures
        forall|p: Seq<char>|
            #[trigger] has_path(spec_upsert_all(d0, bv), p) ==> has_path(s0, p) || exists|k: int|
                0 <= k < i && (#[trigger] items[k]).path@ == p && ix.spec_should_index(p),
        forall|p: Seq<char>|
            has_path(d0, p) || has_path(bv, p) ==> #[trigger] has_path(
                spec_upsert_all(d0, bv),
                p,
            ),
{
    assert forall|p: Seq<char>| #[trigger] has_path(spec_upsert_all(d0, bv), p) implies has_path(
        s0,
        p,
    ) || exists|k: int|
        0 <= k < i && (#[trigger] items[k]).path@ == p && ix.spec_should_index(p) by {
        lemma_upsert_all_has_path(d0, bv, p);
        if !has_path(d0, p) {
            let k = choose|k: int| 0 <= k < bv.len() && (#[trigger] bv[k]).path == p;
            assert(has_path(bv, p));
        }
    }
    assert forall|p: Seq<char>| has_path(d0, p) || has_path(bv, p) implies #[trigger] has_path(
        spec_upsert_all(d0, bv),
        p,
    ) by {
        lemma_upsert_all_has_path(d0, bv, p);
        if !has_path(d0, p) {
            let k = choose|k: int| 0 <= k < bv.len() && (#[trigger] bv[k]).path == p;
        }
    }
}

/// Attribute bits as the platform reports them; unknown on this platform,
/// so 0, the documented value for "unknown".
pub fn get_windows_attributes(_path: &String) -> (r: i32)
    ensures
        r == 0,
{
    0
}

/// The hidden attribute bit.
pub const FILE_ATTRIBUTE_HIDDEN: i32 = 2;

/// The system attribute bit.
pub const FILE_ATTRIBUTE_SYSTEM: i32 = 4;

/// Whether an attribute bitmask marks the object hidden or system.
pub fn is_hidden_or_system(attributes: i32) -> (r: bool)
    ensures
        r == (attributes & FILE_ATTRIBUTE_HIDDEN != 0 || attributes & FILE_ATTRIBUTE_SYSTEM != 0),
{
    (attributes & FILE_ATTRIBUTE_HIDDEN) != 0 || (attributes & FILE_ATTRIBUTE_SYSTEM) != 0
}

} // verus!
