//! The inverted-index engine (tantivy) as the rest of the library sees it:
//! its types, and one function of the library for each engine call made.
use vstd::prelude::*;
use tantivy::collector::TopDocs;
use tantivy::query::{BooleanQuery, Occur, Query, QueryParser, QueryParserError, TermQuery};
use tantivy::schema::{Field, IndexRecordOption, Schema, SchemaBuilder, TextOptions, Value};
use tantivy::schema::{STORED, STRING, TEXT};
use tantivy::{DocAddress, Index, IndexReader, IndexWriter, Searcher, TantivyDocument};
use tantivy::{TantivyError, Term};

verus! {

#[verifier::external_type_specification]
#[verifier::external_body]
pub struct ExIndex(Index);

/// The index's writer. tantivy's `IndexWriter` is generic over an outside
/// trait and cannot be declared as the other engine types are, so it is held
/// here, opaque, and reached only through the functions below.
#[verifier::external_body]
pub struct EngineWriter {
    inner: IndexWriter,
}

#[verifier::external_type_specification]
#[verifier::external_body]
pub struct ExIndexReader(IndexReader);

#[verifier::external_type_specification]
#[verifier::external_body]
pub struct ExSearcher(Searcher);

#[verifier::external_type_specification]
#[verifier::external_body]
pub struct ExSchema(Schema);

#[verifier::external_type_specification]
#[verifier::external_body]
pub struct ExSchemaBuilder(SchemaBuilder);

#[verifier::external_type_specification]
#[verifier::external_body]
pub struct ExTextOptions(TextOptions);

#[verifier::external_type_specification]
#[verifier::external_body]
pub struct ExField(Field);


#[verifier::external_type_specification]
#[verifier::external_body]
pub struct ExTantivyDocument(TantivyDocument);

#[verifier::external_type_specification]
#[verifier::external_body]
pub struct ExDocAddress(DocAddress);

#[verifier::external_type_specification]
#[verifier::external_body]
pub struct ExTantivyError(TantivyError);

#[verifier::external_type_specification]
#[verifier::external_body]
pub struct ExQueryParser(QueryParser);

#[verifier::external_type_specification]
#[verifier::external_body]
pub struct ExQueryParserError(QueryParserError);

#[verifier::external_type_specification]
#[verifier::external_body]
pub struct ExBooleanQuery(BooleanQuery);

#[verifier::external_type_specification]
#[verifier::external_body]
pub struct ExTermQuery(TermQuery);

/// The fields of a document, by what they hold.
#[derive(PartialEq, Eq, Structural, Clone, Copy, Debug)]
pub enum Role {
    Path,
    Name,
    Content,
    Modified,
    Extension,
    Directory,
}

/// A schema being built, with the names of the fields added so far.
pub struct SchemaDraft {
    builder: SchemaBuilder,
    names: Ghost<Set<Seq<char>>>,
}

impl SchemaDraft {
    pub closed spec fn names(&self) -> Set<Seq<char>> {
        self.names@
    }
}

/// Relies on `Schema::builder`: an empty schema builder.
#[verifier::external_body]
fn schema_builder() -> SchemaBuilder {
    Schema::builder()
}

/// Relies on `SchemaBuilder::add_text_field`, which panics on a name already
/// added, an empty name, or a name that starts with `-`, and otherwise adds
/// the field under `name`.
#[verifier::external_body]
fn add_text_field(draft: &mut SchemaDraft, name: &str, options: TextOptions) -> (r: Field)
    requires
        !old(draft).names().contains(name@),
        name@.len() > 0,
        name@[0] != '-',
    ensures
        final(draft).names() == old(draft).names().insert(name@),
{
    draft.builder.add_text_field(name, options)
}

/// Relies on `STRING | STORED`: a field indexed as one untokenized term and
/// stored.
#[verifier::external_body]
fn keyword_stored() -> TextOptions {
    STRING | STORED
}

/// Relies on `TEXT | STORED`: a field tokenized for full-text search and
/// stored.
#[verifier::external_body]
fn tokenized_stored() -> TextOptions {
    TEXT | STORED
}

/// Relies on `SchemaBuilder::build`.
#[verifier::external_body]
fn build_schema(draft: SchemaDraft) -> Schema {
    draft.builder.build()
}

/// The engine field of each role.
pub struct Fields {
    path: Field,
    name: Field,
    content: Field,
    modified: Field,
    extension: Field,
    directory: Field,
}

impl Fields {
    /// The field that holds `role`.
    pub fn field(&self, role: Role) -> Field {
        match role {
            Role::Path => self.path,
            Role::Name => self.name,
            Role::Content => self.content,
            Role::Modified => self.modified,
            Role::Extension => self.extension,
            Role::Directory => self.directory,
        }
    }
}

/// The document schema: the path and modification time as exact terms, the
/// name, content, extension and directory tokenized; all stored.
pub fn document_schema() -> (Schema, Fields) {
    proof {
        reveal_strlit("file_path");
        reveal_strlit("file_name");
        reveal_strlit("content");
        reveal_strlit("last_modified");
        reveal_strlit("extension");
        reveal_strlit("directory");
        assert("file_name"@[5] != "file_path"@[5]);
        assert("content"@.len() != "file_path"@.len());
        assert("extension"@[0] != "file_path"@[0]);
        assert("extension"@[0] != "file_name"@[0]);
        assert("directory"@[0] != "file_path"@[0]);
        assert("directory"@[0] != "file_name"@[0]);
        assert("directory"@[0] != "extension"@[0]);
    }
    let mut b = SchemaDraft { builder: schema_builder(), names: Ghost(Set::empty()) };
    let path = add_text_field(&mut b, "file_path", keyword_stored());
    let name = add_text_field(&mut b, "file_name", tokenized_stored());
    let content = add_text_field(&mut b, "content", tokenized_stored());
    let modified = add_text_field(&mut b, "last_modified", keyword_stored());
    let extension = add_text_field(&mut b, "extension", tokenized_stored());
    let directory = add_text_field(&mut b, "directory", tokenized_stored());
    (build_schema(b), Fields { path, name, content, modified, extension, directory })
}

/// Relies on `Index::create_in_dir`: a new index in the existing, empty
/// directory `dir`.
#[verifier::external_body]
pub(crate) fn create_index_in(dir: &str, schema: Schema) -> Result<Index, TantivyError> {
    Index::create_in_dir(dir, schema)
}

/// Relies on `Index::open_in_dir`: the index stored in `dir`.
#[verifier::external_body]
pub(crate) fn open_index_in(dir: &str) -> Result<Index, TantivyError> {
    Index::open_in_dir(dir)
}

/// Relies on `Index::writer`: the index's single writer, with an indexing
/// memory budget of `budget` bytes.
#[verifier::external_body]
fn index_writer(index: &Index, budget: usize) -> Result<EngineWriter, TantivyError> {
    index.writer(budget).map(|inner| EngineWriter { inner })
}

/// Relies on `Index::reader`: a reader that reloads after commits.
#[verifier::external_body]
pub(crate) fn index_reader(index: &Index) -> Result<IndexReader, TantivyError> {
    index.reader()
}

/// Relies on `TantivyDocument::new`: a document with no field values.
#[verifier::external_body]
fn new_document() -> TantivyDocument {
    TantivyDocument::new()
}

/// Relies on `TantivyDocument::add_text`: adds a text value to `field`.
#[verifier::external_body]
fn add_text(doc: &mut TantivyDocument, field: Field, text: &str) {
    doc.add_text(field, text)
}

/// A document for the engine, with the field values put into it, in order.
pub struct EngineDoc {
    doc: TantivyDocument,
    values: Ghost<Seq<(Role, Seq<char>)>>,
}

impl EngineDoc {
    pub closed spec fn values(&self) -> Seq<(Role, Seq<char>)> {
        self.values@
    }

    /// A document with no values.
    pub fn new() -> (r: EngineDoc)
        ensures
            r.values() == Seq::<(Role, Seq<char>)>::empty(),
    {
        EngineDoc { doc: new_document(), values: Ghost(Seq::empty()) }
    }

    /// Puts `text` into the field of `role`.
    pub fn put(&mut self, fields: &Fields, role: Role, text: &str)
        ensures
            final(self).values() == old(self).values().push((role, text@)),
    {
        add_text(&mut self.doc, fields.field(role), text);
        self.values = Ghost(self.values@.push((role, text@)));
    }
}

/// An operation handed to the engine's writer.
pub enum EngineOp {
    /// Delete the documents whose field of this role holds this exact term.
    Delete(Role, Seq<char>),
    /// Add a document with these values.
    Add(Seq<(Role, Seq<char>)>),
    /// Commit.
    Commit,
}

/// The index's writer, with the operations handed to it, in order.
pub struct Writer {
    inner: EngineWriter,
    log: Ghost<Seq<EngineOp>>,
}

/// Relies on `IndexWriter::add_document`: queues `doc` for the next commit.
#[verifier::external_body]
fn add_document(w: &EngineWriter, doc: TantivyDocument) -> Result<u64, TantivyError> {
    w.inner.add_document(doc)
}

/// Relies on `IndexWriter::delete_term`: queues, for the next commit, the
/// deletion of every document added before whose `field` holds the exact term
/// `text` (built by `Term::from_field_text`).
#[verifier::external_body]
fn delete_term(w: &EngineWriter, field: Field, text: &str) {
    w.inner.delete_term(Term::from_field_text(field, text));
}

/// Relies on `IndexWriter::commit`: makes the queued operations durable.
#[verifier::external_body]
fn commit_writer(w: &mut EngineWriter) -> Result<u64, TantivyError> {
    w.inner.commit()
}

impl Writer {
    /// The operations handed to the writer.
    pub closed spec fn log(&self) -> Seq<EngineOp> {
        self.log@
    }

    /// The writer of `index`.
    pub fn open(index: &Index, budget: usize) -> (r: Result<Writer, TantivyError>)
        ensures
            r matches Ok(w) ==> w.log() == Seq::<EngineOp>::empty(),
    {
        match index_writer(index, budget) {
            Ok(inner) => Ok(Writer { inner, log: Ghost(Seq::empty()) }),
            Err(e) => Err(e),
        }
    }

    /// Hands `doc` to the engine.
    pub fn add(&mut self, doc: EngineDoc) -> (r: Result<u64, TantivyError>)
        ensures
            final(self).log() == old(self).log().push(EngineOp::Add(doc.values())),
    {
        let ghost values = doc.values();
        self.log = Ghost(self.log@.push(EngineOp::Add(values)));
        add_document(&self.inner, doc.doc)
    }

    /// Hands the engine the deletion of the documents whose field of `role`
    /// holds `text`.
    pub fn delete(&mut self, fields: &Fields, role: Role, text: &str)
        ensures
            final(self).log() == old(self).log().push(EngineOp::Delete(role, text@)),
    {
        delete_term(&self.inner, fields.field(role), text);
        self.log = Ghost(self.log@.push(EngineOp::Delete(role, text@)));
    }

    /// Commits.
    pub fn commit(&mut self) -> (r: Result<u64, TantivyError>)
        ensures
            final(self).log() == old(self).log().push(EngineOp::Commit),
    {
        self.log = Ghost(self.log@.push(EngineOp::Commit));
        commit_writer(&mut self.inner)
    }
}

/// Relies on `IndexReader::reload`: makes the last commit visible to the
/// searchers handed out afterwards.
#[verifier::external_body]
pub(crate) fn reload_reader(r: &IndexReader) -> Result<(), TantivyError> {
    r.reload()
}

/// Relies on `IndexReader::searcher`: a searcher over the visible commit.
#[verifier::external_body]
fn searcher_of(r: &IndexReader) -> Searcher {
    r.searcher()
}

/// Relies on `QueryParser::for_index`: a parser whose bare terms search
/// `fields`.
#[verifier::external_body]
fn query_parser(index: &Index, fields: Vec<Field>) -> QueryParser {
    QueryParser::for_index(index, fields)
}

/// Relies on `QueryParser::set_conjunction_by_default`: bare terms that
/// follow one another are then all required, as if joined by `AND`.
#[verifier::external_body]
fn conjunction_by_default(p: &mut QueryParser) {
    p.set_conjunction_by_default()
}

/// Relies on `QueryParser::parse_query`. The parsed query becomes the one
/// required clause of a `BooleanQuery`, which matches the same documents.
#[verifier::external_body]
fn parse_query(p: &QueryParser, text: &str) -> Result<BooleanQuery, QueryParserError> {
    p.parse_query(text).map(|q| BooleanQuery::new(vec![(Occur::Must, q)]))
}

/// Relies on `TermQuery::new`: matches the documents whose `field` holds the
/// exact term `text` (built by `Term::from_field_text`).
#[verifier::external_body]
fn term_query(field: Field, text: &str) -> TermQuery {
    TermQuery::new(Term::from_field_text(field, text), IndexRecordOption::Basic)
}

/// How a clause takes part in a boolean query.
#[derive(PartialEq, Eq, Structural, Clone, Copy, Debug)]
pub enum Occurrence {
    /// A document must match the clause.
    Required,
    /// Matching the clause adds to the score.
    Optional,
    /// A document must not match the clause.
    Excluded,
}

/// Relies on `BooleanQuery::new`: combines the clauses, each with the
/// occurrence given beside it.
#[verifier::external_body]
fn boolean_query(
    text: Option<(Occurrence, BooleanQuery)>,
    terms: Vec<(Occurrence, TermQuery)>,
) -> BooleanQuery {
    let occur = |o: Occurrence| match o {
        Occurrence::Required => Occur::Must,
        Occurrence::Optional => Occur::Should,
        Occurrence::Excluded => Occur::MustNot,
    };
    let mut clauses: Vec<(Occur, Box<dyn Query>)> = Vec::new();
    if let Some((o, q)) = text {
        clauses.push((occur(o), Box::new(q)));
    }
    clauses.extend(terms.into_iter().map(|(o, t)| (occur(o), Box::new(t) as Box<dyn Query>)));
    BooleanQuery::new(clauses)
}

/// What a parsed free-text clause asks: the text, the fields its bare terms
/// search, and whether those terms are all required.
pub struct TextModel {
    pub text: Seq<char>,
    pub roles: Seq<Role>,
    pub conjunctive: bool,
}

/// What a query asks: each clause with its occurrence.
pub struct QueryModel {
    pub text: Option<(Occurrence, TextModel)>,
    pub terms: Seq<(Occurrence, (Role, Seq<char>))>,
}

/// A free-text clause.
pub struct TextClause {
    query: BooleanQuery,
    model: Ghost<TextModel>,
}

impl TextClause {
    pub closed spec fn model(&self) -> TextModel {
        self.model@
    }

    /// `text` parsed as a query whose bare terms search the content and the
    /// name, and are all required.
    pub fn parse(index: &Index, fields: &Fields, text: &str) -> (r: Result<TextClause, QueryParserError>)
        ensures
            r matches Ok(c) ==> c.model() == (TextModel {
                text: text@,
                roles: seq![Role::Content, Role::Name],
                conjunctive: true,
            }),
    {
        let mut parser = query_parser(index, vec![fields.field(Role::Content), fields.field(Role::Name)]);
        conjunction_by_default(&mut parser);
        let ghost m = TextModel { text: text@, roles: seq![Role::Content, Role::Name], conjunctive: true };
        match parse_query(&parser, text) {
            Ok(query) => Ok(TextClause { query, model: Ghost(m) }),
            Err(e) => Err(e),
        }
    }
}

/// An exact-term clause.
pub struct TermClause {
    query: TermQuery,
    role: Ghost<Role>,
    text: Ghost<Seq<char>>,
}

impl TermClause {
    pub closed spec fn model(&self) -> (Role, Seq<char>) {
        (self.role@, self.text@)
    }

    /// Matches the documents whose field of `role` holds the term `text`.
    pub fn exact(fields: &Fields, role: Role, text: &str) -> (r: TermClause)
        ensures
            r.model() == (role, text@),
    {
        TermClause { query: term_query(fields.field(role), text), role: Ghost(role), text: Ghost(text@) }
    }
}

/// The models of `terms`.
pub open spec fn term_models(terms: Seq<TermClause>) -> Seq<(Role, Seq<char>)> {
    terms.map_values(|t: TermClause| t.model())
}

/// `clauses`, each required.
pub open spec fn all_required(clauses: Seq<(Role, Seq<char>)>) -> Seq<(Occurrence, (Role, Seq<char>))> {
    clauses.map_values(|c: (Role, Seq<char>)| (Occurrence::Required, c))
}

/// A boolean query over free text and exact terms.
pub struct EngineQuery {
    query: BooleanQuery,
    model: Ghost<QueryModel>,
}

impl EngineQuery {
    pub closed spec fn model(&self) -> QueryModel {
        self.model@
    }

    /// The query requiring `text`, when there is one, and every one of
    /// `terms`: all clauses combine with AND.
    pub fn all(text: Option<TextClause>, terms: Vec<TermClause>) -> (r: EngineQuery)
        ensures
            r.model() == (QueryModel {
                text: match text {
                    Some(c) => Some((Occurrence::Required, c.model())),
                    None => None,
                },
                terms: all_required(term_models(terms@)),
            }),
    {
        let ghost all = terms@;
        let mut rest = terms;
        let mut queries: Vec<(Occurrence, TermQuery)> = Vec::new();
        let total = rest.len();
        while rest.len() > 0
            invariant
                all.len() == total,
                queries@.len() <= total,
                rest@ == all.skip(queries@.len() as int),
                rest@.len() == all.len() - queries@.len(),
            decreases rest@.len(),
        {
            let c = rest.remove(0);
            queries.push((Occurrence::Required, c.query));
            assert(rest@ =~= all.skip(queries@.len() as int));
        }
        let ghost text_model = match &text {
            Some(c) => Some((Occurrence::Required, c.model())),
            None => None,
        };
        let q = match text {
            Some(c) => boolean_query(Some((Occurrence::Required, c.query)), queries),
            None => boolean_query(None, queries),
        };
        EngineQuery {
            query: q,
            model: Ghost(QueryModel { text: text_model, terms: all_required(term_models(all)) }),
        }
    }
}

/// Relies on `Searcher::search` with `TopDocs::with_limit`, which panics on a
/// limit of 0 and keeps at most `limit` best-scoring documents, best first.
/// Each score is handed on as the bit pattern of the engine's score.
#[verifier::external_body]
fn top_docs(s: &Searcher, q: &BooleanQuery, limit: usize) -> (r: Result<
    Vec<(u32, DocAddress)>,
    TantivyError,
>)
    requires
        limit >= 1,
    ensures
        r matches Ok(v) ==> v@.len() <= limit,
{
    s.search(q, &TopDocs::with_limit(limit)).map(
        |v| v.into_iter().map(|(score, a)| (score.to_bits(), a)).collect(),
    )
}

/// The path, name and content stored with a hit.
pub struct StoredFields {
    pub path: String,
    pub name: String,
    pub content: String,
}

/// What a search found: the query run, the score of each hit, best first,
/// and the stored fields read for each hit so far. Only a search makes one.
pub struct SearchRecord {
    query: Ghost<QueryModel>,
    scores: Ghost<Seq<u32>>,
    read: Ghost<Seq<Option<(Seq<char>, Seq<char>, Seq<char>)>>>,
}

impl SearchRecord {
    pub closed spec fn query(&self) -> QueryModel {
        self.query@
    }

    /// The score bits of each hit, in the engine's order.
    pub closed spec fn scores(&self) -> Seq<u32> {
        self.scores@
    }

    /// The path, name and content read for each hit, if read.
    pub closed spec fn read(&self) -> Seq<Option<(Seq<char>, Seq<char>, Seq<char>)>> {
        self.read@
    }
}

/// The documents found by one query, with the searcher that found them.
pub struct Hits {
    searcher: Searcher,
    entries: Vec<(u32, DocAddress)>,
    query: Ghost<QueryModel>,
    read: Ghost<Seq<Option<(Seq<char>, Seq<char>, Seq<char>)>>>,
}

impl Hits {
    /// The query that found these hits.
    pub closed spec fn query(&self) -> QueryModel {
        self.query@
    }

    pub closed spec fn count(&self) -> nat {
        self.entries@.len()
    }

    /// The score bits of each hit, in the engine's order.
    pub closed spec fn scores(&self) -> Seq<u32> {
        self.entries@.map_values(|e: (u32, DocAddress)| e.0)
    }

    /// The stored fields read for each hit, if read.
    pub closed spec fn read(&self) -> Seq<Option<(Seq<char>, Seq<char>, Seq<char>)>> {
        self.read@
    }

    /// Searches the commit visible to `reader` for `q`, keeping at most
    /// `limit` hits.
    pub fn find(reader: &IndexReader, q: &EngineQuery, limit: usize) -> (r: Result<Hits, TantivyError>)
        requires
            limit >= 1,
        ensures
            r matches Ok(h) ==> (h.query() == q.model() && h.count() <= limit && h.read().len()
                == h.count() && h.scores().len() == h.count() && forall|i: int| 0 <= i < h.count() ==> #[trigger] h.read()[i] is None),
    {
        let searcher = searcher_of(reader);
        match top_docs(&searcher, &q.query, limit) {
            Ok(entries) => {
                let ghost n = entries@.len();
                Ok(Hits {
                    searcher,
                    entries,
                    query: Ghost(q.model@),
                    read: Ghost(Seq::new(n, |i: int| None)),
                })
            },
            Err(e) => Err(e),
        }
    }

    /// The number of hits.
    pub fn len(&self) -> (r: usize)
        ensures
            r == self.count(),
    {
        self.entries.len()
    }

    /// The score of hit `i`, as the bit pattern of the engine's score.
    pub fn score_bits(&self, i: usize) -> (r: u32)
        requires
            i < self.count(),
        ensures
            r == self.scores()[i as int],
    {
        self.entries[i].0
    }

    /// Reads the path, name and content stored with hit `i`; a field that
    /// holds no text reads as empty.
    pub fn read_stored(&mut self, fields: &Fields, i: usize) -> (r: Result<StoredFields, TantivyError>)
        requires
            i < old(self).count(),
            old(self).read().len() == old(self).count(),
        ensures
            final(self).query() == old(self).query(),
            final(self).count() == old(self).count(),
            final(self).scores() == old(self).scores(),
            r matches Ok(s) ==> final(self).read() == old(self).read().update(
                i as int,
                Some((s.path@, s.name@, s.content@)),
            ),
            r is Err ==> final(self).read() == old(self).read(),
    {
        let doc = match fetch_doc(self, i) {
            Ok(d) => d,
            Err(e) => {
                return Err(e);
            },
        };
        let path = text_or_empty(stored_text(&doc, fields.field(Role::Path)));
        let name = text_or_empty(stored_text(&doc, fields.field(Role::Name)));
        let content = text_or_empty(stored_text(&doc, fields.field(Role::Content)));
        self.read = Ghost(self.read@.update(i as int, Some((path@, name@, content@))));
        Ok(StoredFields { path, name, content })
    }

    /// The record of this search.
    pub fn record(&self) -> (r: SearchRecord)
        ensures
            r.query() == self.query(),
            r.scores() == self.scores(),
            r.read() == self.read(),
    {
        SearchRecord { query: Ghost(self.query@), scores: Ghost(self.scores()), read: Ghost(self.read@) }
    }
}

/// `t`, or the empty string for a field that holds no text.
fn text_or_empty(t: Option<String>) -> String {
    match t {
        Some(s) => s,
        None => String::new(),
    }
}

/// Relies on `Searcher::doc`: the stored fields of hit `i`, whose address the
/// same searcher produced.
#[verifier::external_body]
fn fetch_doc(h: &Hits, i: usize) -> Result<TantivyDocument, TantivyError>
    requires
        i < h.count(),
{
    h.searcher.doc(h.entries[i].1)
}

/// Relies on `TantivyDocument::get_first`: the first stored value of
/// `field`, when it is text.
#[verifier::external_body]
fn stored_text(doc: &TantivyDocument, field: Field) -> Option<String> {
    doc.get_first(field).and_then(|v| v.as_str()).map(|t| t.to_string())
}

} // verus!
