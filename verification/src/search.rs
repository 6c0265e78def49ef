//! Document indexing and search: the data model of an inverted index
//! over a set of documents. Ingestion and query evaluation are open
//! extension points: a freshly built graph holds no index terms, and
//! every query yields the empty result.

use vstd::prelude::*;

verus! {

/// A document known to the index.
#[derive(Debug)]
struct Document {
    path: String,
}

/// How often one document matches an index term.
#[derive(Debug)]
struct DocumentReference {
    document: Document,
    ocurrences: usize,
}

/// One term of the inverted index, with the documents it occurs in.
#[derive(Debug)]
struct IndexTerm {
    term: String,
    refs: Vec<DocumentReference>,
}

/// The answer to a text query. It carries nothing while query evaluation
/// remains an extension point.
#[derive(Debug)]
pub struct QueryResult;

/// Where the indexed documents come from.
#[derive(Debug)]
pub enum IngestionType {
    FileSystem(String),
}

/// An inverted index over a document source.
#[derive(Debug)]
pub struct SearchGraph {
    indexes: Vec<IndexTerm>,
    ingestion_type: IngestionType,
}

impl SearchGraph {
    /// How many index terms the graph holds.
    pub closed spec fn term_count(&self) -> nat {
        self.indexes@.len()
    }

    /// The document source the graph was built over.
    pub closed spec fn source(&self) -> IngestionType {
        self.ingestion_type
    }

    /// A new graph over the given document source. It holds no index
    /// terms until ingestion is implemented.
    pub fn new(ingestion_type: IngestionType) -> (r: Self)
        ensures
            r.term_count() == 0,
            r.source() == ingestion_type,
    {
        SearchGraph { indexes: Vec::new(), ingestion_type }
    }

    /// Answer a text query: while query evaluation remains an extension
    /// point, every query yields the empty result.
    pub fn text_query(text: String) -> (r: QueryResult) {
        let _ = text;
        QueryResult
    }
}

} // verus!
