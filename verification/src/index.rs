//! Documents, raw matches and the contract of an index backend.

use vstd::prelude::*;
use vstd::string::StringExecFns;
use crate::outside::{fresh_id, is_hyphenated_id, now_millis};
use crate::score::Score;

verus! {

/// An entity extracted from a document.
#[derive(Debug)]
pub struct Entity {
    /// Entity name.
    pub name: String,
    /// Kind of entity: person, organization, location and the like.
    pub entity_type: String,
    /// Confidence of the extraction.
    pub confidence: Score,
}

/// What an `Entity` holds.
pub ghost struct EntityView {
    pub name: Seq<char>,
    pub entity_type: Seq<char>,
    pub confidence: nat,
}

impl View for Entity {
    type V = EntityView;

    open spec fn view(&self) -> EntityView {
        EntityView {
            name: self.name@,
            entity_type: self.entity_type@,
            confidence: self.confidence@,
        }
    }
}

impl Clone for Entity {
    fn clone(&self) -> (r: Entity)
        ensures
            r@ == self@,
    {
        Entity {
            name: self.name.clone(),
            entity_type: self.entity_type.clone(),
            confidence: self.confidence,
        }
    }
}

/// Metadata of a document.
#[derive(Debug)]
pub struct Metadata {
    /// Where the document came from: a URL, a file path and the like.
    pub source: String,
    /// Creation time, in milliseconds since the Unix epoch.
    pub created_at: i64,
    /// Time of the last update, in milliseconds since the Unix epoch.
    pub updated_at: i64,
    /// Reliability of the source.
    pub trust_score: Score,
    /// Tags for categorization.
    pub tags: Vec<String>,
}

/// What a `Metadata` holds.
pub ghost struct MetadataView {
    pub source: Seq<char>,
    pub created_at: int,
    pub updated_at: int,
    pub trust_score: nat,
    pub tags: Seq<Seq<char>>,
}

impl View for Metadata {
    type V = MetadataView;

    open spec fn view(&self) -> MetadataView {
        MetadataView {
            source: self.source@,
            created_at: self.created_at as int,
            updated_at: self.updated_at as int,
            trust_score: self.trust_score@,
            tags: self.tags@.map_values(|t: String| t@),
        }
    }
}

impl Clone for Metadata {
    fn clone(&self) -> (r: Metadata)
        ensures
            r@ == self@,
    {
        let mut tags: Vec<String> = Vec::new();
        let mut i: usize = 0;
        while i < self.tags.len()
            invariant
                i <= self.tags.len(),
                tags@.len() == i,
                forall|k: int| 0 <= k < i ==> tags@[k]@ == self.tags@[k]@,
            decreases self.tags.len() - i,
        {
            tags.push(self.tags[i].clone());
            i = i + 1;
        }
        assert(tags@.map_values(|t: String| t@) =~= self.tags@.map_values(|t: String| t@));
        Metadata {
            source: self.source.clone(),
            created_at: self.created_at,
            updated_at: self.updated_at,
            trust_score: self.trust_score,
            tags,
        }
    }
}

/// A unit stored in an index.
#[derive(Debug)]
pub struct Document {
    /// Identifier, stable for the document's lifetime.
    pub id: String,
    /// The content.
    pub content: String,
    /// Metadata.
    pub metadata: Metadata,
    /// Embedding for semantic search; each component is carried as the
    /// 32-bit pattern of its single-precision value and never interpreted.
    pub embeddings: Option<Vec<u32>>,
    /// Entities extracted from the content.
    pub entities: Vec<Entity>,
}

/// What a `Document` holds.
pub ghost struct DocumentView {
    pub id: Seq<char>,
    pub content: Seq<char>,
    pub metadata: MetadataView,
    pub embeddings: Option<Seq<u32>>,
    pub entities: Seq<EntityView>,
}

impl DocumentView {
    /// The same document with another trust score.
    pub open spec fn with_trust(self, trust_score: nat) -> DocumentView {
        DocumentView {
            id: self.id,
            content: self.content,
            metadata: MetadataView {
                source: self.metadata.source,
                created_at: self.metadata.created_at,
                updated_at: self.metadata.updated_at,
                trust_score,
                tags: self.metadata.tags,
            },
            embeddings: self.embeddings,
            entities: self.entities,
        }
    }

    /// The same document under another identifier.
    pub open spec fn with_id(self, id: Seq<char>) -> DocumentView {
        DocumentView {
            id,
            content: self.content,
            metadata: self.metadata,
            embeddings: self.embeddings,
            entities: self.entities,
        }
    }
}

impl View for Document {
    type V = DocumentView;

    open spec fn view(&self) -> DocumentView {
        DocumentView {
            id: self.id@,
            content: self.content@,
            metadata: self.metadata@,
            embeddings: match self.embeddings {
                Some(v) => Some(v@),
                None => None,
            },
            entities: self.entities@.map_values(|e: Entity| e@),
        }
    }
}

impl Clone for Document {
    fn clone(&self) -> (r: Document)
        ensures
            r@ == self@,
    {
        let mut entities: Vec<Entity> = Vec::new();
        let mut i: usize = 0;
        while i < self.entities.len()
            invariant
                i <= self.entities.len(),
                entities@.len() == i,
                forall|k: int| 0 <= k < i ==> entities@[k]@ == self.entities@[k]@,
            decreases self.entities.len() - i,
        {
            entities.push(self.entities[i].clone());
            i = i + 1;
        }
        assert(entities@.map_values(|e: Entity| e@) =~= self.entities@.map_values(
            |e: Entity| e@,
        ));
        let embeddings = match &self.embeddings {
            Some(v) => Some(v.clone()),
            None => None,
        };
        Document {
            id: self.id.clone(),
            content: self.content.clone(),
            metadata: self.metadata.clone(),
            embeddings,
            entities,
        }
    }
}

impl Document {
    /// A document with the given identifier and times, trust one half, and
    /// no tags, embedding or entities.
    pub fn with_id(id: String, content: &str, source: &str, now: i64) -> (d: Document)
        ensures
            d.id == id,
            d.content@ == content@,
            d.metadata.source@ == source@,
            d.metadata.created_at == now,
            d.metadata.updated_at == now,
            d.metadata.trust_score@ == 500_000,
            d.metadata.tags@.len() == 0,
            d.embeddings.is_none(),
            d.entities@.len() == 0,
    {
        Document {
            id,
            content: content.to_owned(),
            metadata: Metadata {
                source: source.to_owned(),
                created_at: now,
                updated_at: now,
                trust_score: Score::half(),
                tags: Vec::new(),
            },
            embeddings: None,
            entities: Vec::new(),
        }
    }

    /// A document with a freshly generated identifier, created now.
    pub fn new(content: &str, source: &str) -> (d: Document)
        ensures
            is_hyphenated_id(d.id@),
            d.content@ == content@,
            d.metadata.source@ == source@,
            d.metadata.created_at == d.metadata.updated_at,
            d.metadata.created_at >= 0,
            d.metadata.trust_score@ == 500_000,
            d.metadata.tags@.len() == 0,
            d.embeddings.is_none(),
            d.entities@.len() == 0,
    {
        let now = now_millis();
        Document::with_id(fresh_id(), content, source, now)
    }
}

/// A request to one backend.
#[derive(Debug, Clone)]
pub struct SearchQuery {
    /// The search text.
    pub text: String,
    /// Most matches the backend may return.
    pub limit: usize,
    /// Least trust score the backend should return, if it filters at all.
    pub min_trust_score: Option<Score>,
    /// Query vector for semantic search, as 32-bit patterns.
    pub vector: Option<Vec<u32>>,
}

impl SearchQuery {
    /// A request for `text` with a limit of ten matches.
    pub fn new(text: &str) -> (q: SearchQuery)
        ensures
            q.text@ == text@,
            q.limit == 10,
            q.min_trust_score.is_none(),
            q.vector.is_none(),
    {
        SearchQuery { text: text.to_owned(), limit: 10, min_trust_score: None, vector: None }
    }
}

/// A raw match of one backend: not yet filtered by constraints nor ranked
/// against the matches of other backends.
#[derive(Debug, Clone)]
pub struct SearchResult {
    /// Identifier of the matching document.
    pub id: String,
    /// Title, taken from the content.
    pub title: String,
    /// Snippet of the content.
    pub content: String,
    /// Source of the document.
    pub source: String,
    /// Relevance of the match, by the backend's own measure.
    pub confidence: Score,
    /// Trust score stored with the document.
    pub trust_score: Score,
    /// Metadata of the document.
    pub metadata: Metadata,
}

/// What a raw match holds.
pub ghost struct MatchView {
    pub id: Seq<char>,
    pub title: Seq<char>,
    pub content: Seq<char>,
    pub source: Seq<char>,
    pub confidence: nat,
    pub trust_score: nat,
    pub metadata: MetadataView,
}

impl View for SearchResult {
    type V = MatchView;

    open spec fn view(&self) -> MatchView {
        MatchView {
            id: self.id@,
            title: self.title@,
            content: self.content@,
            source: self.source@,
            confidence: self.confidence@,
            trust_score: self.trust_score@,
            metadata: self.metadata@,
        }
    }
}

/// What went wrong in an index operation.
#[derive(Debug)]
pub enum IndexError {
    /// Persistence failed.
    StorageError(String),
    /// The query was malformed or could not be run.
    QueryError(String),
    /// No such document.
    NotFound,
}

/// The text of an `IndexError`.
pub open spec fn index_error_text(e: IndexError) -> Seq<char> {
    match e {
        IndexError::StorageError(msg) => "Storage error: "@ + msg@,
        IndexError::QueryError(msg) => "Query error: "@ + msg@,
        IndexError::NotFound => "Document not found"@,
    }
}

impl IndexError {
    /// A human-readable description of the error.
    pub fn message(&self) -> (s: String)
        ensures
            s@ == index_error_text(*self),
    {
        match self {
            IndexError::StorageError(msg) => "Storage error: ".to_owned().concat(msg.as_str()),
            IndexError::QueryError(msg) => "Query error: ".to_owned().concat(msg.as_str()),
            IndexError::NotFound => "Document not found".to_owned(),
        }
    }
}

/// The documents of a store: a map from identifier to document.
pub type Contents = Map<Seq<char>, DocumentView>;

/// The document stored under `id`, if any.
pub open spec fn lookup(m: Contents, id: Seq<char>) -> Option<DocumentView> {
    if m.dom().contains(id) {
        Some(m[id])
    } else {
        None
    }
}

/// A store after the insertion of `doc`, which takes the place of any
/// document with the same identifier.
pub open spec fn after_insert(m: Contents, doc: DocumentView) -> Contents {
    m.insert(doc.id, doc)
}

/// A store after the deletion of `id`.
pub open spec fn after_delete(m: Contents, id: Seq<char>) -> Contents {
    m.remove(id)
}

/// What `delete` answers: whether a document was there to remove.
pub open spec fn delete_answer(m: Contents, id: Seq<char>) -> bool {
    m.dom().contains(id)
}

/// Once deleted, a document is gone: a second deletion answers false and
/// changes nothing, and a lookup finds nothing.
pub proof fn lemma_delete_is_idempotent(m: Contents, id: Seq<char>)
    ensures
        !delete_answer(after_delete(m, id), id),
        lookup(after_delete(m, id), id).is_none(),
        after_delete(after_delete(m, id), id) == after_delete(m, id),
{
    assert(after_delete(after_delete(m, id), id) =~= after_delete(m, id));
}

/// A lookup right after an insertion finds the inserted document.
pub proof fn lemma_insert_then_lookup(m: Contents, doc: DocumentView)
    ensures
        lookup(after_insert(m, doc), doc.id) == Some(doc),
{
}

/// A storage backend. Every backend answers in one query mode; the
/// planner reads it through `search` alone. Backends are written outside
/// this library as well, so the planner relies on nothing that a method
/// returns: it checks what it is given.
pub trait IndexStore {
    /// Stores a document and returns its identifier. A document without an
    /// identifier is given one; an identifier already in use is
    /// overwritten. Fails with `StorageError` where persistence fails.
    fn insert(&mut self, doc: Document) -> Result<String, IndexError>;

    /// Raw matches for a query, each with the backend's own confidence and
    /// the stored trust score of its document. Fails with `QueryError` on
    /// a malformed query; no match is an empty list, not an error.
    fn search(&self, query: SearchQuery) -> Result<Vec<SearchResult>, IndexError>;

    /// The document stored under `id`; a missing one is `None`, not an
    /// error.
    fn get(&self, id: &str) -> Result<Option<Document>, IndexError>;

    /// Removes the document stored under `id` and says whether there was
    /// one. A missing one is `false`, not an error.
    fn delete(&mut self, id: &str) -> Result<bool, IndexError>;
}

} // verus!
