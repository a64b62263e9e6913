//! Ranked hits and the full response to a query.

use vstd::prelude::*;
use crate::index::{MatchView, Metadata};
use crate::score::{rank_of, Score, ScoringWeights};

verus! {

/// One ranked hit. Confidence and trust are independent axes; the rank
/// combines them.
#[derive(Debug)]
pub struct SearchResult {
    /// Identifier of the result; no later stage may change it.
    pub id: String,
    /// Title.
    pub title: String,
    /// Snippet of the content.
    pub content: String,
    /// Source of the result.
    pub source: String,
    /// Relevance of the match.
    pub confidence: Score,
    /// Trust score of the source.
    pub trust_score: Score,
    /// Metadata of the underlying document.
    pub metadata: Metadata,
}

impl View for SearchResult {
    type V = MatchView;

    open spec fn view(&self) -> MatchView {
        MatchView {
            id: self.id@,
            title: self.title@,
            content: self.content@,
            source: self.source@,
            confidence: self.confidence@,
            trust_score: self.trust_score@,
            metadata: self.metadata@,
        }
    }
}

impl Clone for SearchResult {
    fn clone(&self) -> (r: SearchResult)
        ensures
            r@ == self@,
    {
        SearchResult {
            id: self.id.clone(),
            title: self.title.clone(),
            content: self.content.clone(),
            source: self.source.clone(),
            confidence: self.confidence,
            trust_score: self.trust_score,
            metadata: self.metadata.clone(),
        }
    }
}

impl SearchResult {
    /// The hit that a backend's raw match stands for.
    pub fn from_match(m: crate::index::SearchResult) -> (r: SearchResult)
        ensures
            r.id == m.id,
            r.title == m.title,
            r.content == m.content,
            r.source == m.source,
            r.confidence == m.confidence,
            r.trust_score == m.trust_score,
            r.metadata == m.metadata,
    {
        SearchResult {
            id: m.id,
            title: m.title,
            content: m.content,
            source: m.source,
            confidence: m.confidence,
            trust_score: m.trust_score,
            metadata: m.metadata,
        }
    }

    /// The combined rank of this hit under the given weights.
    pub open spec fn rank(self, w: ScoringWeights) -> int {
        rank_of(self.confidence@ as int, self.trust_score@ as int, w)
    }
}

/// The response to a query.
#[derive(Debug, Clone)]
pub struct QueryResult {
    /// Identifier of the query.
    pub query_id: String,
    /// The hits, best first.
    pub results: Vec<SearchResult>,
    /// Number of hits.
    pub total_count: usize,
    /// Time taken, in milliseconds.
    pub execution_time_ms: u64,
}

impl QueryResult {
    /// The count agrees with the hits.
    pub open spec fn wf(&self) -> bool {
        self.total_count == self.results@.len()
    }

    /// An empty response to the query `query_id`.
    pub fn new(query_id: String) -> (q: QueryResult)
        ensures
            q.query_id == query_id,
            q.results@.len() == 0,
            q.total_count == 0,
            q.execution_time_ms == 0,
            q.wf(),
    {
        QueryResult { query_id, results: Vec::new(), total_count: 0, execution_time_ms: 0 }
    }

    /// Appends a hit and counts it.
    pub fn add_result(&mut self, result: SearchResult)
        requires
            old(self).wf(),
        ensures
            final(self).wf(),
            final(self).results@ == old(self).results@.push(result),
            final(self).total_count == old(self).total_count + 1,
            final(self).query_id == old(self).query_id,
            final(self).execution_time_ms == old(self).execution_time_ms,
    {
        self.results.push(result);
        self.total_count = self.results.len();
    }

    /// The same response with the execution time set.
    pub fn with_execution_time(self, time_ms: u64) -> (q: QueryResult)
        ensures
            q.execution_time_ms == time_ms,
            q.query_id == self.query_id,
            q.results == self.results,
            q.total_count == self.total_count,
    {
        let mut q = self;
        q.execution_time_ms = time_ms;
        q
    }
}

} // verus!
