//! The file index: documents kept in the engine, the record of indexed paths
//! and registered roots, and search over them.
use vstd::prelude::*;
use crate::catalog::{PathCatalog, RootList, listed, strictly_sorted};
use crate::codec::{
    FileDocument,
    FileSnapshot,
    accepts,
    decimal,
    document_for,
    extension_of,
    file_name_of,
    is_document_of,
    or_empty,
    parent_of,
};
use crate::engine::{
    Occurrence,
    SearchRecord,
    TextModel,
    all_required,
    EngineDoc,
    EngineOp,
    EngineQuery,
    Fields,
    Hits,
    QueryModel,
    Role,
    TermClause,
    TextClause,
    Writer,
    create_index_in,
    document_schema,
    index_reader,
    open_index_in,
    reload_reader,
    term_models,
};
use crate::query::{SearchPlan, directory_words, has_text, highlight_words, opt_str_view};
use crate::snippet::{extract_snippet, find_match_line, match_offset, snippet_text};
use crate::text::{count_byte, lower_of, views};
use vstd::utf8::encode_utf8;
use tantivy::query::QueryParserError;
use tantivy::{Index, IndexReader, TantivyError};

verus! {

/// Bytes of memory the engine's writer may use while indexing.
pub const WRITER_MEMORY_BUDGET: usize = 50_000_000;

/// Width, in bytes, of the excerpt shown with each search result.
pub const SNIPPET_WINDOW: usize = 200;

/// Why an index operation failed.
#[derive(Debug)]
pub enum IndexError {
    /// The engine failed to open, create, write, commit or read the index.
    Engine(TantivyError),
    /// The free-text query is not valid query syntax.
    Query(QueryParserError),
    /// The path is not among the indexed paths.
    NotIndexed(String),
}

/// One document found by a search.
#[derive(Debug)]
pub struct SearchResult {
    pub file_path: String,
    pub file_name: String,
    /// The excerpt of the content around the first highlighted term.
    pub snippet: String,
    /// The engine's relevance score, as the bit pattern of its `f32`.
    pub score_bits: u32,
    /// The line of the first highlighted term, when one occurs.
    pub line_number: Option<usize>,
}

/// The results of a search, best first.
pub struct SearchOutput {
    pub results: Vec<SearchResult>,
    /// The number of results returned.
    pub total_count: usize,
    /// The record of the engine search, if one ran.
    pub searched: Option<SearchRecord>,
}

impl SearchOutput {
    /// An output holding `results`, out of `total_count`, for which no query
    /// was run.
    pub fn new(results: Vec<SearchResult>, total_count: usize) -> (r: SearchOutput)
        ensures
            r.results == results,
            r.total_count == total_count,
            r.searched is None,
    {
        SearchOutput { results, total_count, searched: None }
    }
}

/// What the index holds, for display.
#[derive(Debug)]
pub struct IndexStatus {
    pub num_files: usize,
    pub watched_paths: Vec<String>,
    pub index_path: String,
}

/// Whether `r` is the result built from a document with content `content`
/// for the highlight terms `terms`.
pub open spec fn is_result_for(r: SearchResult, content: Seq<char>, terms: Seq<String>) -> bool {
    &&& r.snippet@ == snippet_text(
        content,
        match match_offset(content, terms) {
            Some(p) => p,
            None => 0,
        },
        SNIPPET_WINDOW as nat,
    )
    &&& r.line_number == match match_offset(content, terms) {
        Some(p) => Some(
            (count_byte(encode_utf8(lower_of(content)).subrange(0, p as int), 10) + 1) as usize,
        ),
        None => None,
    }
}

/// The words of query `q` that place excerpts and lines.
pub open spec fn highlight_of(q: Seq<char>) -> Seq<Seq<char>> {
    if has_text(q) {
        highlight_words(q)
    } else {
        Seq::empty()
    }
}

/// Whether `r` is the result, for query `q`, of a hit with score bits
/// `score` whose stored path, name and content were read as `stored`.
pub open spec fn from_stored(
    r: SearchResult,
    stored: Option<(Seq<char>, Seq<char>, Seq<char>)>,
    score: u32,
    q: Seq<char>,
) -> bool {
    match stored {
        Some(f) => {
            &&& r.file_path@ == f.0
            &&& r.file_name@ == f.1
            &&& r.score_bits == score
            &&& exists|t: Seq<String>|
                views(t) == highlight_of(q) && #[trigger] is_result_for(r, f.2, t)
        },
        None => false,
    }
}

impl SearchResult {
    /// The result for a document found with score `score_bits`, its excerpt and
    /// line placed by the first of `terms` that occurs in `content`.
    pub fn from_hit(
        file_path: String,
        file_name: String,
        content: &str,
        score_bits: u32,
        terms: &[String],
    ) -> (r: SearchResult)
        ensures
            r.file_path == file_path,
            r.file_name == file_name,
            r.score_bits == score_bits,
            is_result_for(r, content@, terms@),
    {
        let snippet = extract_snippet(content, terms, SNIPPET_WINDOW);
        let line_number = find_match_line(content, terms);
        SearchResult { file_path, file_name, snippet, score_bits, line_number }
    }
}

/// The values, field by field, of the document for the file at `path` with
/// text `content` changed at `modified_secs`.
pub open spec fn expected_values(path: Seq<char>, content: Seq<char>, modified_secs: nat) -> Seq<
    (Role, Seq<char>),
> {
    seq![
        (Role::Path, path),
        (Role::Name, or_empty(file_name_of(path))),
        (Role::Content, content),
        (Role::Modified, decimal(modified_secs).push('s')),
        (Role::Extension, lower_of(or_empty(extension_of(path)))),
        (Role::Directory, or_empty(parent_of(path))),
    ]
}

/// The values of `d`, field by field.
pub open spec fn values_of(d: FileDocument) -> Seq<(Role, Seq<char>)> {
    seq![
        (Role::Path, d.file_path@),
        (Role::Name, d.file_name@),
        (Role::Content, d.content@),
        (Role::Modified, d.last_modified@),
        (Role::Extension, d.extension@),
        (Role::Directory, d.directory@),
    ]
}

/// The exact clauses of a search: the lowercase extension, then one term per
/// lowercase segment of the path filter.
pub open spec fn expected_terms(ext: Option<Seq<char>>, prefix: Option<Seq<char>>) -> Seq<
    (Role, Seq<char>),
> {
    (match ext {
        Some(e) => seq![(Role::Extension, lower_of(e))],
        None => Seq::empty(),
    }) + match prefix {
        Some(s) => directory_words(s).map_values(|w: Seq<char>| (Role::Directory, w)),
        None => Seq::empty(),
    }
}

/// The query a search runs: its free text over the content and the name,
/// when it holds more than blanks, and the exact clauses of its filters.
pub open spec fn expected_query(q: Seq<char>, ext: Option<Seq<char>>, prefix: Option<Seq<char>>) -> QueryModel {
    QueryModel {
        text: if has_text(q) {
            Some(
            (
                Occurrence::Required,
                TextModel { text: q, roles: seq![Role::Content, Role::Name], conjunctive: true },
            ),
        )
        } else {
            None
        },
        terms: all_required(expected_terms(ext, prefix)),
    }
}

/// The index of the last file among the first `n` of `files` that is
/// accepted and has path `p`, or -1.
pub open spec fn last_accepted(files: Seq<FileSnapshot>, n: int, p: Seq<char>) -> int
    decreases n,
{
    if n <= 0 {
        -1
    } else if accepts(files[n - 1]) && files[n - 1].path@ == p {
        n - 1
    } else {
        last_accepted(files, n - 1, p)
    }
}

/// The operations that indexing the first `n` of `files` hands to the
/// engine: for each accepted file, the deletion of its path, then its
/// document.
pub open spec fn file_ops(files: Seq<FileSnapshot>, n: int) -> Seq<EngineOp>
    decreases n,
{
    if n <= 0 {
        Seq::empty()
    } else {
        let f = files[n - 1];
        if accepts(f) {
            file_ops(files, n - 1).push(EngineOp::Delete(Role::Path, f.path@)).push(
                EngineOp::Add(expected_values(f.path@, f.content->0@, f.modified_secs as nat)),
            )
        } else {
            file_ops(files, n - 1)
        }
    }
}

proof fn lemma_last_accepted_bounds(files: Seq<FileSnapshot>, n: int, p: Seq<char>)
    ensures
        -1 <= last_accepted(files, n, p) < n || (n <= 0 && last_accepted(files, n, p) == -1),
        last_accepted(files, n, p) >= 0 ==> accepts(files[last_accepted(files, n, p)])
            && files[last_accepted(files, n, p)].path@ == p,
    decreases n,
{
    if n > 0 {
        lemma_last_accepted_bounds(files, n - 1, p);
    }
}

/// What indexing the first `n` of `files` in order did to path `p`, the files
/// whose engine add failed being `failed`: the path holds the document of its
/// last accepted file, unless that one failed and the path is gone; a path
/// with no accepted file keeps what it had.
pub open spec fn path_after(
    before: Map<Seq<char>, FileDocument>,
    after: Map<Seq<char>, FileDocument>,
    files: Seq<FileSnapshot>,
    n: int,
    failed: Set<int>,
    p: Seq<char>,
) -> bool {
        let k = last_accepted(files, n, p);
        if k < 0 {
            after.contains_key(p) == before.contains_key(p) && (after.contains_key(p)
                ==> after[p] == before[p])
        } else {
            (after.contains_key(p) <==> !failed.contains(k)) && (after.contains_key(p)
                ==> is_document_of(
                after[p],
                p,
                files[k].content->0@,
                files[k].modified_secs as nat,
            ))
        }
}

/// What indexing the first `n` of `files` in order did to the documents
/// `before`, path by path.
pub open spec fn after_files(
    before: Map<Seq<char>, FileDocument>,
    after: Map<Seq<char>, FileDocument>,
    files: Seq<FileSnapshot>,
    n: int,
    failed: Set<int>,
) -> bool {
    forall|p: Seq<char>| #[trigger] path_after(before, after, files, n, failed, p)
}

/// A full-text index over files, with the record of which paths it holds.
pub struct FileIndex {
    index: Index,
    writer: Writer,
    reader: IndexReader,
    fields: Fields,
    catalog: PathCatalog,
    roots: RootList,
    index_path: String,
    /// The documents written through this index, by path, as they stand once
    /// every operation handed to the engine is committed.
    docs: Ghost<Map<Seq<char>, FileDocument>>,
    /// The same as of the last successful commit.
    visible: Ghost<Map<Seq<char>, FileDocument>>,
}

/// An empty result list, for which the engine was not asked.
fn no_results() -> (r: SearchOutput)
    ensures
        r.results@.len() == 0,
        r.total_count == 0,
        r.searched is None,
{
    SearchOutput::new(Vec::new(), 0)
}

impl FileIndex {
    pub closed spec fn wf(&self) -> bool {
        &&& self.catalog.wf()
        &&& self.roots.wf()
        &&& self.catalog@ == self.docs@.dom()
        &&& forall|k: Seq<char>| #[trigger] self.docs@.contains_key(k) ==> self.docs@[k].file_path@ == k
    }

    /// The indexed paths.
    pub closed spec fn indexed_paths(&self) -> Set<Seq<char>> {
        self.catalog@
    }

    /// The indexed paths in byte order.
    pub closed spec fn indexed_listing(&self) -> Seq<Seq<char>> {
        self.catalog.entries()
    }

    /// The documents written through this index, once committed, by path.
    pub closed spec fn documents(&self) -> Map<Seq<char>, FileDocument> {
        self.docs@
    }

    /// The documents written through this index as of the last successful
    /// commit. Searches also see the documents the directory held when it was
    /// opened and that were not written again since.
    pub closed spec fn visible_documents(&self) -> Map<Seq<char>, FileDocument> {
        self.visible@
    }

    /// The operations handed to the engine's writer, in order.
    pub closed spec fn handed(&self) -> Seq<EngineOp> {
        self.writer.log()
    }

    /// The registered roots, in order of registration.
    pub closed spec fn watched_roots(&self) -> Seq<Seq<char>> {
        self.roots@
    }

    /// Where the index is stored.
    pub closed spec fn location(&self) -> Seq<char> {
        self.index_path@
    }

    /// The paths of documents and the indexed paths agree, each document is
    /// kept under its own path, and the listing holds the indexed paths in byte
    /// order.
    pub proof fn lemma_paths_mirror_documents(&self)
        requires
            self.wf(),
        ensures
            self.indexed_paths() == self.documents().dom(),
            forall|k: Seq<char>| #[trigger]
                self.documents().contains_key(k) ==> self.documents()[k].file_path@ == k,
            self.indexed_listing().to_set() == self.indexed_paths(),
            strictly_sorted(self.indexed_listing()),
    {
        self.catalog.lemma_entries_sorted();
    }

    fn with_index(index: Index, fields: Fields, dir: &str) -> (r: Result<FileIndex, IndexError>)
        ensures
            r matches Ok(i) ==> (i.wf() && i.indexed_paths() == Set::<Seq<char>>::empty()
                && i.documents() == Map::<Seq<char>, FileDocument>::empty()
                && i.visible_documents() == Map::<Seq<char>, FileDocument>::empty()
                && i.handed() == Seq::<EngineOp>::empty()
                && i.watched_roots() == Seq::<Seq<char>>::empty() && i.location() == dir@),
    {
        let writer = match Writer::open(&index, WRITER_MEMORY_BUDGET) {
            Ok(w) => w,
            Err(e) => {
                return Err(IndexError::Engine(e));
            },
        };
        let reader = match index_reader(&index) {
            Ok(r) => r,
            Err(e) => {
                return Err(IndexError::Engine(e));
            },
        };
        let catalog = PathCatalog::new();
        let r = FileIndex {
            index,
            writer,
            reader,
            fields,
            catalog,
            roots: RootList::new(),
            index_path: String::from_str(dir),
            docs: Ghost(Map::empty()),
            visible: Ghost(Map::empty()),
        };
        assert(r.catalog@ =~= Set::<Seq<char>>::empty());
        assert(r.docs@.dom() =~= Set::<Seq<char>>::empty());
        Ok(r)
    }

    /// A new, empty index in the existing, empty directory `dir`.
    pub fn create_in(dir: &str) -> (r: Result<FileIndex, IndexError>)
        ensures
            r matches Ok(i) ==> (i.wf() && i.indexed_paths() == Set::<Seq<char>>::empty()
                && i.documents() == Map::<Seq<char>, FileDocument>::empty()
                && i.visible_documents() == Map::<Seq<char>, FileDocument>::empty()
                && i.handed() == Seq::<EngineOp>::empty()
                && i.watched_roots() == Seq::<Seq<char>>::empty() && i.location() == dir@),
    {
        let (schema, fields) = document_schema();
        match create_index_in(dir, schema) {
            Ok(index) => FileIndex::with_index(index, fields, dir),
            Err(e) => Err(IndexError::Engine(e)),
        }
    }

    /// The index stored in directory `dir`. Documents stored there before are
    /// searched, but no path is recorded as indexed until it is indexed again.
    pub fn open_in(dir: &str) -> (r: Result<FileIndex, IndexError>)
        ensures
            r matches Ok(i) ==> (i.wf() && i.indexed_paths() == Set::<Seq<char>>::empty()
                && i.documents() == Map::<Seq<char>, FileDocument>::empty()
                && i.visible_documents() == Map::<Seq<char>, FileDocument>::empty()
                && i.handed() == Seq::<EngineOp>::empty()
                && i.watched_roots() == Seq::<Seq<char>>::empty() && i.location() == dir@),
    {
        let (_schema, fields) = document_schema();
        match open_index_in(dir) {
            Ok(index) => FileIndex::with_index(index, fields, dir),
            Err(e) => Err(IndexError::Engine(e)),
        }
    }

    /// The engine document for `d`.
    fn engine_document(&self, d: &FileDocument) -> (r: EngineDoc)
        ensures
            r.values() == values_of(*d),
    {
        let mut doc = EngineDoc::new();
        doc.put(&self.fields, Role::Path, d.file_path.as_str());
        doc.put(&self.fields, Role::Name, d.file_name.as_str());
        doc.put(&self.fields, Role::Content, d.content.as_str());
        doc.put(&self.fields, Role::Modified, d.last_modified.as_str());
        doc.put(&self.fields, Role::Extension, d.extension.as_str());
        doc.put(&self.fields, Role::Directory, d.directory.as_str());
        assert(doc.values() =~= values_of(*d));
        doc
    }

    /// Indexes the file read as `file`, replacing the document of its path: the
    /// old one is deleted, then the new one added, both before the next commit.
    /// A file of an unsupported kind, over the size limit, or not read as text
    /// is skipped. Nothing is committed.
    pub fn index_file(&mut self, file: FileSnapshot) -> (r: Result<(), IndexError>)
        requires
            old(self).wf(),
        ensures
            final(self).wf(),
            final(self).watched_roots() == old(self).watched_roots(),
            final(self).location() == old(self).location(),
            final(self).visible_documents() == old(self).visible_documents(),
            !accepts(file) ==> r is Ok && final(self).documents() == old(self).documents()
                && final(self).indexed_paths() == old(self).indexed_paths()
                && final(self).handed() == old(self).handed(),
            accepts(file) ==> final(self).handed() == old(self).handed().push(
                EngineOp::Delete(Role::Path, file.path@),
            ).push(
                EngineOp::Add(
                    expected_values(file.path@, file.content->0@, file.modified_secs as nat),
                ),
            ),
            accepts(file) && r is Ok ==> final(self).documents() == old(self).documents().insert(
                file.path@,
                final(self).documents()[file.path@],
            ) && is_document_of(
                final(self).documents()[file.path@],
                file.path@,
                file.content->0@,
                file.modified_secs as nat,
            ),
            accepts(file) && r is Err ==> final(self).documents() == old(self).documents().remove(
                file.path@,
            ),
    {
        let doc = match document_for(file) {
            Some(d) => d,
            None => {
                return Ok(());
            },
        };
        let _ = self.remove_file(doc.file_path.as_str());
        let engine_doc = self.engine_document(&doc);
        assert(values_of(doc) =~= expected_values(
            file.path@,
            file.content->0@,
            file.modified_secs as nat,
        ));
        match self.writer.add(engine_doc) {
            Ok(_) => {
                self.catalog.insert(doc.file_path.as_str());
                let ghost p = doc.file_path@;
                self.docs = Ghost(self.docs@.insert(p, doc));
                assert(self.catalog@ =~= self.docs@.dom());
                Ok(())
            },
            Err(e) => Err(IndexError::Engine(e)),
        }
    }

    /// Deletes the document of `path` and forgets the path; nothing happens
    /// when it is not indexed. Nothing is committed.
    pub fn remove_file(&mut self, path: &str) -> (r: Result<(), IndexError>)
        requires
            old(self).wf(),
        ensures
            r is Ok,
            final(self).wf(),
            final(self).documents() == old(self).documents().remove(path@),
            final(self).indexed_paths() == old(self).indexed_paths().remove(path@),
            final(self).handed() == old(self).handed().push(EngineOp::Delete(Role::Path, path@)),
            final(self).watched_roots() == old(self).watched_roots(),
            final(self).location() == old(self).location(),
            final(self).visible_documents() == old(self).visible_documents(),
    {
        self.writer.delete(&self.fields, Role::Path, path);
        self.catalog.remove(path);
        self.docs = Ghost(self.docs@.remove(path@));
        assert(self.catalog@ =~= self.docs@.dom());
        Ok(())
    }
    /// Indexes each of `files`, read while walking the directory `root`, in
    /// order, and registers `root`. Counts the files visited, skipped ones
    /// included, less those whose document the engine failed to take. Nothing
    /// is committed.
    pub fn index_directory(&mut self, root: &str, files: Vec<FileSnapshot>) -> (r: u64)
        requires
            old(self).wf(),
            files@.len() <= u64::MAX,
        ensures
            final(self).wf(),
            final(self).watched_roots() == if old(self).watched_roots().contains(root@) {
                old(self).watched_roots()
            } else {
                old(self).watched_roots().push(root@)
            },
            final(self).location() == old(self).location(),
            final(self).visible_documents() == old(self).visible_documents(),
            r == files@.len(),
            final(self).handed() == old(self).handed() + file_ops(files@, files@.len() as int),
            forall|p: Seq<char>| #[trigger]
                final(self).indexed_paths().contains(p) ==> old(self).indexed_paths().contains(p)
                    || exists|k: int|
                    0 <= k < files@.len() && accepts(files@[k]) && #[trigger] files@[k].path@ == p,
            exists|failed: Set<int>|
                {
                    &&& failed.finite()
                    &&& forall|k: int| #[trigger]
                        failed.contains(k) ==> 0 <= k < files@.len() && accepts(files@[k])
                    &&& after_files(
                        old(self).documents(),
                        final(self).documents(),
                        files@,
                        files@.len() as int,
                        failed,
                    )
                },
    {
        let ghost start = self.docs@;
        let ghost all = files@;
        let ghost mut failed: Set<int> = Set::empty();
        let mut count: u64 = 0;
        let mut seen: usize = 0;
        let mut files = files;
        let total = files.len();
        let ghost handed0 = self.handed();
        assert(after_files(start, self.docs@, all, 0, failed));
        assert(handed0 + file_ops(all, 0) =~= handed0);
        while files.len() > 0
            invariant
                self.wf(),
                self.handed() == handed0 + file_ops(all, seen as int),
                self.watched_roots() == old(self).watched_roots(),
                self.location() == old(self).location(),
                self.visible_documents() == old(self).visible_documents(),
                all.len() <= u64::MAX,
                all.len() == total,
                seen <= all.len(),
                files@.len() == all.len() - seen,
                files@ == all.skip(seen as int),
                failed.finite(),
                forall|k: int| #[trigger] failed.contains(k) ==> 0 <= k < seen && accepts(all[k]),
                count == seen,
                after_files(start, self.docs@, all, seen as int, failed),
            decreases files@.len(),
        {
            let f = files.remove(0);
            let ghost k = seen as int;
            assert(f == all[k]);
            let ghost q = f.path@;
            let ghost before = self.docs@;
            let ghost was_failed = failed;
            let outcome = self.index_file(f);
            if outcome.is_err() {
                proof {
                    failed = failed.insert(k);
                }
            }
            count += 1;
            assert(after_files(start, self.docs@, all, k + 1, failed)) by {
                assert forall|p: Seq<char>| #[trigger] path_after(start, self.docs@, all, k + 1, failed, p) by {
                    assert(path_after(start, before, all, k, was_failed, p));
                    lemma_last_accepted_bounds(all, k, p);
                    if accepts(all[k]) && q == p {
                        assert(last_accepted(all, k + 1, p) == k);
                    } else {
                        assert(last_accepted(all, k + 1, p) == last_accepted(all, k, p));
                    }
                }
            }
            assert(self.handed() =~= handed0 + file_ops(all, k + 1));
            assert(files@ =~= all.skip(seen + 1));
            seen += 1;
        }
        self.roots.add(root);
        proof {
            assert forall|p: Seq<char>| #[trigger]
                self.indexed_paths().contains(p) implies start.contains_key(p) || exists|j: int|
                0 <= j < all.len() && accepts(all[j]) && #[trigger] all[j].path@ == p by {
                assert(path_after(start, self.docs@, all, seen as int, failed, p));
                lemma_last_accepted_bounds(all, seen as int, p);
                let j = last_accepted(all, seen as int, p);
                if j >= 0 {
                    assert(all[j].path@ == p);
                }
            }
        }
        count
    }

    /// Makes every operation handed to the engine durable and visible to the
    /// searches that follow.
    pub fn commit(&mut self) -> (r: Result<(), IndexError>)
        requires
            old(self).wf(),
        ensures
            final(self).wf(),
            final(self).documents() == old(self).documents(),
            final(self).indexed_paths() == old(self).indexed_paths(),
            final(self).handed() == old(self).handed().push(EngineOp::Commit),
            final(self).watched_roots() == old(self).watched_roots(),
            final(self).location() == old(self).location(),
            r is Ok ==> final(self).visible_documents() == old(self).documents(),
    {
        match self.writer.commit() {
            Ok(_) => {},
            Err(e) => {
                return Err(IndexError::Engine(e));
            },
        }
        match reload_reader(&self.reader) {
            Ok(()) => {
                self.visible = Ghost(self.docs@);
                Ok(())
            },
            Err(e) => Err(IndexError::Engine(e)),
        }
    }

    /// Searches the committed documents: the free text `query_str` (over names
    /// and contents), narrowed to the extension `file_type` and to documents
    /// whose directory holds each `/`-separated segment of `path_prefix`; at
    /// most `limit` results, best first. With neither text nor filter, or a
    /// limit of 0, nothing is found and the engine is not asked.
    pub fn search(
        &self,
        query_str: &str,
        limit: usize,
        file_type: Option<&str>,
        path_prefix: Option<&str>,
    ) -> (r: Result<SearchOutput, IndexError>)
        requires
            self.wf(),
        ensures
            (!has_text(query_str@) && file_type is None && path_prefix is None) || limit == 0
                ==> (r matches Ok(o) && o.results@.len() == 0 && o.total_count == 0
                && o.searched is None),
            !((!has_text(query_str@) && file_type is None && path_prefix is None) || limit == 0)
                ==> (r matches Ok(o) ==> (o.searched matches Some(rec) && rec.query()
                == expected_query(query_str@, opt_str_view(file_type), opt_str_view(path_prefix))
                && rec.scores().len() == o.results@.len() && rec.read().len() == o.results@.len()
                && forall|i: int|
                0 <= i < o.results@.len() ==> from_stored(
                    #[trigger] o.results@[i],
                    rec.read()[i],
                    rec.scores()[i],
                    query_str@,
                ))),
            r matches Ok(o) ==> o.total_count == o.results@.len() && o.results@.len() <= limit,
    {
        let plan = match SearchPlan::new(query_str, file_type, path_prefix) {
            Some(p) => p,
            None => {
                return Ok(no_results());
            },
        };
        if limit == 0 {
            return Ok(no_results());
        }
        let text_clause = match &plan.text {
            Some(t) => match TextClause::parse(&self.index, &self.fields, t.as_str()) {
                Ok(c) => Some(c),
                Err(e) => {
                    return Err(IndexError::Query(e));
                },
            },
            None => None,
        };
        let ghost dir_words = views(plan.directory_terms@);
        let ghost ext_part: Seq<(Role, Seq<char>)> = match opt_str_view(file_type) {
            Some(e) => seq![(Role::Extension, lower_of(e))],
            None => Seq::empty(),
        };
        let mut terms: Vec<TermClause> = Vec::new();
        match &plan.extension {
            Some(ext) => {
                terms.push(TermClause::exact(&self.fields, Role::Extension, ext.as_str()));
            },
            None => {},
        }
        assert(term_models(terms@) =~= ext_part);
        let mut k: usize = 0;
        while k < plan.directory_terms.len()
            invariant
                k <= plan.directory_terms@.len(),
                dir_words == views(plan.directory_terms@),
                term_models(terms@) == ext_part + dir_words.take(k as int).map_values(
                    |w: Seq<char>| (Role::Directory, w),
                ),
            decreases plan.directory_terms@.len() - k,
        {
            let ghost before = terms@;
            let c = TermClause::exact(&self.fields, Role::Directory, plan.directory_terms[k].as_str());
            terms.push(c);
            assert(term_models(terms@) =~= term_models(before).push(c.model()));
            assert(dir_words.take(k + 1) =~= dir_words.take(k as int).push(dir_words[k as int]));
            assert(dir_words.take(k + 1).map_values(|w: Seq<char>| (Role::Directory, w))
                =~= dir_words.take(k as int).map_values(|w: Seq<char>| (Role::Directory, w)).push(
                (Role::Directory, dir_words[k as int]),
            ));
            k += 1;
        }
        assert(dir_words.take(k as int) =~= dir_words);
        assert(term_models(terms@) =~= expected_terms(opt_str_view(file_type), opt_str_view(path_prefix)));
        let query = EngineQuery::all(text_clause, terms);
        let mut hits = match Hits::find(&self.reader, &query, limit) {
            Ok(h) => h,
            Err(e) => {
                return Err(IndexError::Engine(e));
            },
        };
        let ghost words = views(plan.highlight_terms@);
        let mut results: Vec<SearchResult> = Vec::new();
        let mut i: usize = 0;
        while i < hits.len()
            invariant
                i <= hits.count(),
                hits.count() <= limit,
                hits.read().len() == hits.count(),
                hits.scores().len() == hits.count(),
                hits.query() == query.model(),
                limit > 0,
                has_text(query_str@) || file_type is Some || path_prefix is Some,
                results@.len() == i,
                words == views(plan.highlight_terms@),
                words == highlight_of(query_str@),
                forall|j: int|
                    0 <= j < i ==> from_stored(
                        #[trigger] results@[j],
                        hits.read()[j],
                        hits.scores()[j],
                        query_str@,
                    ),
            decreases hits.count() - i,
        {
            let ghost read_before = hits.read();
            let stored = match hits.read_stored(&self.fields, i) {
                Ok(f) => f,
                Err(e) => {
                    return Err(IndexError::Engine(e));
                },
            };
            let score = hits.score_bits(i);
            let ghost read_now = (stored.path@, stored.name@, stored.content@);
            assert(hits.read()[i as int] == Some(read_now));
            let r = SearchResult::from_hit(
                stored.path,
                stored.name,
                stored.content.as_str(),
                score,
                plan.highlight_terms.as_slice(),
            );
            assert(is_result_for(r, read_now.2, plan.highlight_terms@));
            assert(views(plan.highlight_terms@) == highlight_of(query_str@));
            assert(r.file_path@ == read_now.0 && r.file_name@ == read_now.1);
            assert(from_stored(r, hits.read()[i as int], hits.scores()[i as int], query_str@));
            let ghost before = results@;
            results.push(r);
            assert forall|j: int| 0 <= j < i + 1 implies from_stored(
                #[trigger] results@[j],
                hits.read()[j],
                hits.scores()[j],
                query_str@,
            ) by {
                if j < i {
                    assert(results@[j] == before[j]);
                    assert(hits.read()[j] == read_before[j]);
                }
            }
            i += 1;
        }
        let total_count = results.len();
        let record = hits.record();
        Ok(SearchOutput { results, total_count, searched: Some(record) })
    }

    /// Whether `path` may be read: it must be an indexed path.
    pub fn ensure_indexed(&self, path: &str) -> (r: Result<(), IndexError>)
        requires
            self.wf(),
        ensures
            r is Ok <==> self.indexed_paths().contains(path@),
            r matches Err(e) ==> (e matches IndexError::NotIndexed(p) && p@ == path@),
    {
        if self.catalog.contains(path) {
            Ok(())
        } else {
            Err(IndexError::NotIndexed(String::from_str(path)))
        }
    }

    /// The indexed paths whose extension is `extension` (ASCII case aside) and
    /// that hold `path_prefix` anywhere, in byte order without duplicates.
    pub fn list_files(&self, extension: Option<&str>, path_prefix: Option<&str>) -> (r: Vec<
        String,
    >)
        requires
            self.wf(),
        ensures
            views(r@) == self.indexed_listing().filter(
                |p: Seq<char>| listed(p, opt_str_view(extension), opt_str_view(path_prefix)),
            ),
            strictly_sorted(views(r@)),
    {
        self.catalog.list(extension, path_prefix)
    }

    /// The number of indexed paths, the registered roots and the index's
    /// location.
    pub fn status(&self) -> (r: IndexStatus)
        requires
            self.wf(),
        ensures
            r.num_files == self.indexed_paths().len(),
            views(r.watched_paths@) == self.watched_roots(),
            r.index_path@ == self.location(),
    {
        IndexStatus {
            num_files: self.catalog.len(),
            watched_paths: self.roots.list(),
            index_path: self.index_path.clone(),
        }
    }
}


/// Indexing the same path twice keeps one document for it, built from the
/// later content, and leaves every other path as it was: the states `before`,
/// `between` and `after` are the documents around two successful
/// `index_file` calls.
pub proof fn lemma_reindex_keeps_latest(
    before: Map<Seq<char>, FileDocument>,
    between: Map<Seq<char>, FileDocument>,
    after: Map<Seq<char>, FileDocument>,
    first: FileSnapshot,
    second: FileSnapshot,
)
    requires
        first.path@ == second.path@,
        accepts(first),
        accepts(second),
        between == before.insert(first.path@, between[first.path@]),
        is_document_of(
            between[first.path@],
            first.path@,
            first.content->0@,
            first.modified_secs as nat,
        ),
        after == between.insert(second.path@, after[second.path@]),
        is_document_of(
            after[second.path@],
            second.path@,
            second.content->0@,
            second.modified_secs as nat,
        ),
    ensures
        after.contains_key(second.path@),
        after[second.path@].content@ == second.content->0@,
        after.remove(second.path@) == before.remove(second.path@),
{
    assert(after.remove(second.path@) =~= before.remove(second.path@));
}

/// A path that is not indexed, removed or never added, is in no listing,
/// whatever the filters.
pub proof fn lemma_unindexed_path_unlisted(
    index: FileIndex,
    p: Seq<char>,
    ext: Option<Seq<char>>,
    prefix: Option<Seq<char>>,
)
    requires
        index.wf(),
        !index.indexed_paths().contains(p),
    ensures
        !index.indexed_listing().filter(|q: Seq<char>| listed(q, ext, prefix)).contains(p),
{
    index.lemma_paths_mirror_documents();
    let f = |q: Seq<char>| listed(q, ext, prefix);
    if index.indexed_listing().filter(f).contains(p) {
        index.indexed_listing().lemma_filter_contains_rev(f, p);
    }
}

} // verus!
