//! The search API: one keyword index behind the planner.

use vstd::prelude::*;
use crate::error::SorcererError;
use crate::index::{IndexStore, MatchView};
use crate::keyword::{keyword_hits, KeywordIndex};
use crate::outside::is_hyphenated_id;
use crate::planner::{
    hit_views, match_views, merged_failures, merged_hits, request_of, Answer, KeepResults, Planner,
};
use crate::query::{QueryMode, SearchQuery};
use crate::ranking::{is_ranked, kept_count, selection};
use crate::result::{QueryResult, SearchResult};
use crate::score::ScoringWeights;

verus! {

/// The raw matches that a keyword index holding `stored` gives for `text`
/// when asked for at most `fan_out` of them.
pub open spec fn raw_hits(stored: Seq<crate::index::DocumentView>, text: Seq<char>, fan_out: usize) -> Seq<
    MatchView,
> {
    let all = keyword_hits(stored, text, None);
    all.take(kept_count(fan_out, all.len()))
}

/// The search API. It answers keyword queries from one keyword index, by
/// way of the planner; queries in other modes find no backend and get an
/// empty response.
pub struct SearchApi {
    planner: Planner<KeywordIndex>,
}

impl SearchApi {
    #[verifier::type_invariant]
    spec fn one_keyword_backend(self) -> bool {
        self.planner.backends().len() == 1 && self.planner.backends()[0].mode == QueryMode::Keyword
    }

    /// The index that the API answers from.
    pub closed spec fn index(&self) -> KeywordIndex {
        self.planner.backends()[0].store
    }

    /// The weights that the API ranks with.
    pub closed spec fn weights(&self) -> ScoringWeights {
        self.planner.weights()
    }

    /// The most raw matches that the API asks of its index.
    pub closed spec fn fan_out(&self) -> usize {
        self.planner.fan_out()
    }

    /// A search API over the given index.
    pub fn over(index: KeywordIndex, weights: ScoringWeights, fan_out: usize) -> (a: SearchApi)
        ensures
            a.index() == index,
            a.weights() == weights,
            a.fan_out() == fan_out,
    {
        let mut planner: Planner<KeywordIndex> = Planner::new(weights, fan_out);
        let slot = planner.register(QueryMode::Keyword, index);
        assert(slot is Some);
        SearchApi { planner }
    }

    /// A search API over an empty index, with balanced weights and no
    /// bound on the raw matches.
    pub fn new() -> (a: SearchApi)
        ensures
            a.index().stored().len() == 0,
            a.weights() == (ScoringWeights { confidence_weight: 1, trust_weight: 1 }),
            a.fan_out() == usize::MAX,
    {
        SearchApi::over(KeywordIndex::new(), ScoringWeights::balanced(), usize::MAX)
    }

    /// Answers a query. A query whose result cap is zero is refused, and
    /// so is a keyword query without text. A keyword query is answered
    /// with the selection from the raw matches of the index; a query in
    /// another mode with an empty response.
    pub fn search(&self, query: SearchQuery) -> (r: Result<QueryResult, SorcererError>)
        ensures
            r is Err <==> query.constraints.max_results == 0 || (query.mode == QueryMode::Keyword
                && query.text@.len() == 0),
            r is Err ==> r->Err_0 is QueryError,
            r matches Ok(res) ==> {
                &&& res.wf()
                &&& is_hyphenated_id(res.query_id@)
                &&& res.results@.len() <= query.constraints.max_results
                &&& is_ranked(res.results@, self.weights())
                &&& forall|i: int|
                    0 <= i < res.results@.len() ==> query.constraints.admits(
                        (#[trigger] res.results@[i]).trust_score@ as int,
                        res.results@[i].metadata.updated_at as int,
                    )
                &&& query.mode != QueryMode::Keyword ==> res.results@.len() == 0
                &&& query.mode == QueryMode::Keyword && query.actions@.len() == 0 ==> exists|
                    raw: Seq<SearchResult>,
                |
                    #[trigger] hit_views(raw) == raw_hits(
                        self.index().stored(),
                        query.text@,
                        self.fan_out(),
                    ) && res.results@ == selection(raw, query.constraints, self.weights())
            },
    {
        proof {
            use_type_invariant(self);
        }
        if !query.constraints.is_valid() {
            return Err(SorcererError::QueryError("the result cap must be positive".to_owned()));
        }
        let mut keep = KeepResults;
        let out = self.planner.plan_and_execute(&query, &mut keep);
        proof {
            let (answers, raw) = choose|answers: Seq<Answer>, raw: Seq<SearchResult>| #[trigger]
                self.planner.gathered(query, answers, raw, out.failures@) && (query.actions@.len()
                    == 0 ==> out.result.results@ == selection(
                    raw,
                    query.constraints,
                    self.planner.weights(),
                ));
            let modes = self.planner.modes();
            let none = answers.drop_last();
            assert(none.len() == 0);
            assert(answers.last() == answers[0]);
            assert(modes[0] == QueryMode::Keyword);
            assert(merged_hits(modes, query.mode, none) =~= Seq::<MatchView>::empty());
            assert(merged_failures(modes, query.mode, none) =~= Seq::<
                crate::planner::BackendFailure,
            >::empty());
            if query.mode == QueryMode::Keyword {
                let request = request_of(query, self.planner.fan_out());
                assert(call_ensures(
                    KeywordIndex::search,
                    (&self.planner.backends()[0].store, request),
                    answers[0],
                ));
                if query.text@.len() > 0 {
                    let found = answers[0].unwrap();
                    assert(match_views(found@) =~= found@.map_values(
                        |m: crate::index::SearchResult| m@,
                    ));
                    assert(hit_views(raw) =~= raw_hits(
                        self.index().stored(),
                        query.text@,
                        self.fan_out(),
                    ));
                }
            }
        }
        let mut failures = out.failures;
        match failures.pop() {
            Some(failure) => Err(SorcererError::from_index(failure.error)),
            None => Ok(out.result),
        }
    }
}

impl Default for SearchApi {
    fn default() -> (a: SearchApi) {
        SearchApi::new()
    }
}

} // verus!
