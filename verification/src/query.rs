//! Query modes, constraints and post-actions.

use vstd::prelude::*;
use crate::score::Score;

verus! {

/// The retrieval strategy of a query; it selects the eligible backends.
#[derive(Debug, Clone, Copy, PartialEq, Eq, Structural)]
pub enum QueryMode {
    /// Keyword search.
    Keyword,
    /// Vector similarity search.
    Semantic,
    /// Traversal of entity relationships.
    Graph,
    /// Temporal queries.
    TimeBased,
    /// Local filesystem search.
    FileSystem,
    /// External API discovery.
    API,
}

impl QueryMode {
    /// Modes that are served by exactly one backend.
    pub open spec fn is_exclusive(self) -> bool {
        self == QueryMode::Graph || self == QueryMode::API
    }

    /// Whether this mode is served by exactly one backend.
    pub fn exclusive(&self) -> (r: bool)
        ensures
            r == self.is_exclusive(),
    {
        match self {
            QueryMode::Graph => true,
            QueryMode::API => true,
            _ => false,
        }
    }
}

/// An action performed on the results of a query, in the order declared.
#[derive(Debug, Clone, Copy, PartialEq, Eq, Structural)]
pub enum QueryAction {
    /// Verify the accuracy of results.
    Verify,
    /// Compare results against each other.
    Compare,
    /// Summarize the results.
    Summarize,
    /// Execute an action based on the results.
    Execute,
}

/// The cap on results that constraints carry unless another is set.
pub const DEFAULT_MAX_RESULTS: usize = 10;

/// Filter and cap applied to the matches of any query.
#[derive(Debug, Clone, Copy)]
pub struct QueryConstraints {
    /// Keep only results updated at or after this time, in milliseconds
    /// since the Unix epoch.
    pub updated_after: Option<i64>,
    /// Least trust score kept; zero when absent.
    pub min_trust_score: Option<Score>,
    /// Cap on the merged result set; it is meant to be positive.
    pub max_results: usize,
}

impl Default for QueryConstraints {
    fn default() -> (c: QueryConstraints)
        ensures
            c.updated_after.is_none(),
            c.min_trust_score.is_none(),
            c.max_results == DEFAULT_MAX_RESULTS,
            c.max_results > 0,
    {
        QueryConstraints {
            updated_after: None,
            min_trust_score: None,
            max_results: DEFAULT_MAX_RESULTS,
        }
    }
}

impl QueryConstraints {
    /// The least trust that a result must have.
    pub open spec fn min_trust(self) -> int {
        match self.min_trust_score {
            Some(s) => s@ as int,
            None => 0,
        }
    }

    /// A result with this trust and update time passes the constraints.
    pub open spec fn admits(self, trust: int, updated_at: int) -> bool {
        &&& trust >= self.min_trust()
        &&& match self.updated_after {
            Some(t) => updated_at >= t,
            None => true,
        }
    }

    /// Decides `admits`.
    pub fn passes(&self, trust: Score, updated_at: i64) -> (r: bool)
        ensures
            r == self.admits(trust@ as int, updated_at as int),
    {
        let trusted = match self.min_trust_score {
            Some(s) => trust.millionths() >= s.millionths(),
            None => true,
        };
        let fresh = match self.updated_after {
            Some(t) => updated_at >= t,
            None => true,
        };
        trusted && fresh
    }

    /// Whether the cap allows at least one result.
    pub fn is_valid(&self) -> (r: bool)
        ensures
            r == (self.max_results > 0),
    {
        self.max_results > 0
    }
}

/// A retrieval request.
#[derive(Debug, Clone)]
pub struct SearchQuery {
    /// The query mode.
    pub mode: QueryMode,
    /// The search text.
    pub text: String,
    /// Constraints applied after raw retrieval.
    pub constraints: QueryConstraints,
    /// Actions performed on the results, in this order.
    pub actions: Vec<QueryAction>,
}

impl SearchQuery {
    /// A query for `text` in `mode`, with default constraints and no actions.
    pub fn new(text: &str, mode: QueryMode) -> (q: SearchQuery)
        ensures
            q.mode == mode,
            q.text@ == text@,
            q.constraints.updated_after.is_none(),
            q.constraints.min_trust_score.is_none(),
            q.constraints.max_results == DEFAULT_MAX_RESULTS,
            q.constraints.max_results > 0,
            q.actions@.len() == 0,
    {
        SearchQuery {
            mode,
            text: text.to_owned(),
            constraints: QueryConstraints::default(),
            actions: Vec::new(),
        }
    }
}

} // verus!
