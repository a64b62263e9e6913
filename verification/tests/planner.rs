use sorcerer::index::{Document, IndexError, IndexStore};
use sorcerer::keyword::KeywordIndex;
use sorcerer::planner::{accept_revision, keeps_ids, ActionHandler, KeepResults, Planner};
use sorcerer::query::{QueryAction, QueryConstraints, QueryMode, SearchQuery};
use sorcerer::ranking::{comes_before, rank_results, retain_admitted, select};
use sorcerer::result::{QueryResult, SearchResult};
use sorcerer::score::{Score, ScoringWeights};

fn doc(id: &str, content: &str, source: &str, trust: u32, updated_at: i64) -> Document {
    let mut d = Document::with_id(id.to_string(), content, source, updated_at);
    d.metadata.trust_score = Score::new(trust).unwrap();
    d
}

fn hit(id: &str, confidence: u32, trust: u32, updated_at: i64) -> SearchResult {
    let d = doc(id, "content", "source", trust, updated_at);
    SearchResult {
        id: id.to_string(),
        title: "title".to_string(),
        content: "content".to_string(),
        source: "source".to_string(),
        confidence: Score::new(confidence).unwrap(),
        trust_score: Score::new(trust).unwrap(),
        metadata: d.metadata,
    }
}

fn ids(results: &[SearchResult]) -> Vec<&str> {
    results.iter().map(|r| r.id.as_str()).collect()
}

fn constraints(min_trust: Option<u32>, updated_after: Option<i64>, max_results: usize) -> QueryConstraints {
    QueryConstraints {
        updated_after,
        min_trust_score: min_trust.map(|t| Score::new(t).unwrap()),
        max_results,
    }
}

fn keyword_query(text: &str, min_trust: Option<u32>, max_results: usize) -> SearchQuery {
    let mut q = SearchQuery::new(text, QueryMode::Keyword);
    q.constraints = constraints(min_trust, None, max_results);
    q
}

enum Store {
    Working(KeywordIndex),
    Broken,
}

impl IndexStore for Store {
    fn insert(&mut self, doc: Document) -> Result<String, IndexError> {
        match self {
            Store::Working(idx) => idx.insert(doc),
            Store::Broken => Err(IndexError::StorageError("offline".to_string())),
        }
    }

    fn search(&self, query: sorcerer::index::SearchQuery) -> Result<Vec<sorcerer::index::SearchResult>, IndexError> {
        match self {
            Store::Working(idx) => idx.search(query),
            Store::Broken => Err(IndexError::StorageError("offline".to_string())),
        }
    }

    fn get(&self, id: &str) -> Result<Option<Document>, IndexError> {
        match self {
            Store::Working(idx) => idx.get(id),
            Store::Broken => Err(IndexError::StorageError("offline".to_string())),
        }
    }

    fn delete(&mut self, id: &str) -> Result<bool, IndexError> {
        match self {
            Store::Working(idx) => idx.delete(id),
            Store::Broken => Err(IndexError::StorageError("offline".to_string())),
        }
    }
}

struct LowerTrust;

impl ActionHandler for LowerTrust {
    fn apply(&mut self, _action: QueryAction, results: &Vec<SearchResult>) -> Vec<SearchResult> {
        results
            .iter()
            .map(|r| {
                let mut c = r.clone();
                if c.id == "d1" {
                    c.trust_score = Score::new(100_000).unwrap();
                }
                c
            })
            .collect()
    }
}

struct Renamer;

impl ActionHandler for Renamer {
    fn apply(&mut self, _action: QueryAction, results: &Vec<SearchResult>) -> Vec<SearchResult> {
        results
            .iter()
            .map(|r| {
                let mut c = r.clone();
                c.id = format!("{}-renamed", c.id);
                c
            })
            .collect()
    }
}

struct Digest;

impl ActionHandler for Digest {
    fn apply(&mut self, action: QueryAction, results: &Vec<SearchResult>) -> Vec<SearchResult> {
        results
            .iter()
            .map(|r| {
                let mut c = r.clone();
                if action == QueryAction::Summarize {
                    c.content = "digest".to_string();
                }
                c
            })
            .collect()
    }
}

#[test]
fn query_defaults() {
    let q = SearchQuery::new("ownership", QueryMode::Keyword);
    assert_eq!(q.text, "ownership");
    assert_eq!(q.mode, QueryMode::Keyword);
    assert!(q.actions.is_empty());
    assert!(q.constraints.updated_after.is_none());
    assert!(q.constraints.min_trust_score.is_none());
    assert_eq!(q.constraints.max_results, 10);
    assert_eq!(sorcerer::query::DEFAULT_MAX_RESULTS, 10);
    assert!(q.constraints.is_valid());
    assert!(QueryConstraints::default().is_valid());
    assert!(constraints(None, None, 1).is_valid());
    assert!(!constraints(None, None, 0).is_valid());
}

#[test]
fn constraints_pass_by_trust_and_time() {
    let c = constraints(Some(500_000), Some(2_000), 5);
    assert!(c.passes(Score::new(500_000).unwrap(), 2_000));
    assert!(c.passes(Score::new(900_000).unwrap(), 3_000));
    assert!(!c.passes(Score::new(499_999).unwrap(), 3_000));
    assert!(!c.passes(Score::new(900_000).unwrap(), 1_999));
    let open = QueryConstraints::default();
    assert!(open.passes(Score::zero(), i64::MIN));
}

#[test]
fn exclusive_modes() {
    assert!(QueryMode::Graph.exclusive());
    assert!(QueryMode::API.exclusive());
    assert!(!QueryMode::Keyword.exclusive());
    assert!(!QueryMode::Semantic.exclusive());
    assert!(!QueryMode::TimeBased.exclusive());
    assert!(!QueryMode::FileSystem.exclusive());
}

#[test]
fn query_result_counts_its_hits() {
    let mut q = QueryResult::new("q-1".to_string());
    assert_eq!(q.query_id, "q-1");
    assert_eq!(q.total_count, 0);
    assert_eq!(q.execution_time_ms, 0);
    q.add_result(hit("a", 1, 1, 0));
    q.add_result(hit("b", 1, 1, 0));
    assert_eq!(q.total_count, 2);
    assert_eq!(ids(&q.results), vec!["a", "b"]);
    let q = q.with_execution_time(42);
    assert_eq!(q.execution_time_ms, 42);
    assert_eq!(q.total_count, 2);
    assert_eq!(q.query_id, "q-1");
}

#[test]
fn filter_keeps_order_and_drops_the_excluded() {
    let raw = vec![
        hit("a", 100_000, 900_000, 10),
        hit("b", 100_000, 200_000, 10),
        hit("c", 100_000, 500_000, 5),
        hit("d", 100_000, 500_000, 10),
    ];
    let kept = retain_admitted(raw, &constraints(Some(500_000), Some(10), 9));
    assert_eq!(ids(&kept), vec!["a", "d"]);
}

#[test]
fn ranking_is_by_rank_then_by_identifier() {
    let w = ScoringWeights::balanced();
    let raw = vec![
        hit("m", 100_000, 100_000, 0),
        hit("z", 500_000, 500_000, 0),
        hit("b", 300_000, 700_000, 0),
        hit("a", 900_000, 100_000, 0),
        hit("k", 999_999, 999_999, 0),
    ];
    let ranked = rank_results(raw, &w);
    assert_eq!(ids(&ranked), vec!["k", "a", "b", "z", "m"]);
    assert!(comes_before(&ranked[0], &ranked[1], &w));
    assert!(!comes_before(&ranked[1], &ranked[0], &w));
    assert!(comes_before(&ranked[1], &ranked[2], &w));
    assert!(!comes_before(&ranked[2], &ranked[1], &w));
}

#[test]
fn ranking_uses_the_weights() {
    let raw = vec![hit("a", 900_000, 100_000, 0), hit("b", 100_000, 800_000, 0)];
    let by_trust = rank_results(raw, &ScoringWeights { confidence_weight: 0, trust_weight: 1 });
    assert_eq!(ids(&by_trust), vec!["b", "a"]);
    let raw = vec![hit("a", 900_000, 100_000, 0), hit("b", 100_000, 800_000, 0)];
    let by_confidence = rank_results(raw, &ScoringWeights { confidence_weight: 1, trust_weight: 0 });
    assert_eq!(ids(&by_confidence), vec!["a", "b"]);
}

#[test]
fn selection_never_exceeds_the_cap() {
    let w = ScoringWeights::balanced();
    for k in 0..6 {
        let raw = vec![
            hit("a", 100_000, 900_000, 0),
            hit("b", 200_000, 900_000, 0),
            hit("c", 300_000, 900_000, 0),
            hit("d", 400_000, 900_000, 0),
        ];
        let out = select(raw, &constraints(None, None, k), &w);
        assert_eq!(out.len(), k.min(4));
        let all = ["d", "c", "b", "a"];
        assert_eq!(ids(&out), all[..k.min(4)].to_vec());
    }
}

#[test]
fn selection_drops_what_is_below_the_minimum_trust() {
    let w = ScoringWeights::balanced();
    let raw = vec![
        hit("low", 1_000_000, 499_999, 0),
        hit("edge", 0, 500_000, 0),
        hit("high", 0, 900_000, 0),
    ];
    let out = select(raw, &constraints(Some(500_000), None, 10), &w);
    assert_eq!(ids(&out), vec!["high", "edge"]);
    assert!(out.iter().all(|r| r.trust_score.millionths() >= 500_000));
}

#[test]
fn revision_is_accepted_only_with_the_same_identifiers() {
    let current = vec![hit("a", 1, 1, 0), hit("b", 1, 1, 0)];
    let same = vec![hit("a", 9, 9, 0), hit("b", 9, 9, 0)];
    assert!(keeps_ids(&current, &same));
    let (next, accepted) = accept_revision(current, same);
    assert!(accepted);
    assert_eq!(next[0].confidence.millionths(), 9);
    let current = vec![hit("a", 1, 1, 0), hit("b", 1, 1, 0)];
    let swapped = vec![hit("b", 9, 9, 0), hit("a", 9, 9, 0)];
    assert!(!keeps_ids(&current, &swapped));
    let (next, accepted) = accept_revision(current, swapped);
    assert!(!accepted);
    assert_eq!(ids(&next), vec!["a", "b"]);
    assert_eq!(next[0].confidence.millionths(), 1);
    let current = vec![hit("a", 1, 1, 0), hit("b", 1, 1, 0)];
    let shorter = vec![hit("a", 9, 9, 0)];
    assert!(!keeps_ids(&current, &shorter));
}

#[test]
fn one_trusted_document_matches() {
    let mut idx = KeywordIndex::new();
    idx.insert(doc("d1", "Rust ownership model", "wiki", 900_000, 1_000)).unwrap();
    let mut planner: Planner<KeywordIndex> = Planner::new(ScoringWeights::balanced(), 100);
    assert_eq!(planner.register(QueryMode::Keyword, idx), Some(0));
    let out = planner.plan_and_execute(&keyword_query("ownership", Some(500_000), 5), &mut KeepResults);
    assert_eq!(out.result.results.len(), 1);
    assert_eq!(out.result.total_count, 1);
    assert_eq!(out.result.results[0].trust_score.millionths(), 900_000);
    assert!(out.result.results[0].confidence.millionths() > 0);
    assert_eq!(out.result.results[0].confidence.millionths(), 450_000);
    assert_eq!(out.result.results[0].id, "d1");
    assert_eq!(out.result.query_id.len(), 36);
    assert!(out.failures.is_empty());
    assert!(out.refused_actions.is_empty());
}

#[test]
fn untrusted_document_is_left_out() {
    let mut idx = KeywordIndex::new();
    idx.insert(doc("d1", "Rust ownership model", "wiki", 900_000, 1_000)).unwrap();
    idx.insert(doc("d2", "ownership in C++", "forum", 200_000, 1_000)).unwrap();
    let mut planner: Planner<KeywordIndex> = Planner::new(ScoringWeights::balanced(), 100);
    planner.register(QueryMode::Keyword, idx);
    let out = planner.plan_and_execute(&keyword_query("ownership", Some(500_000), 5), &mut KeepResults);
    assert_eq!(out.result.total_count, 1);
    assert_eq!(ids(&out.result.results), vec!["d1"]);
    assert_eq!(out.result.results[0].trust_score.millionths(), 900_000);
}

#[test]
fn absent_minimum_trust_means_zero() {
    let mut idx = KeywordIndex::new();
    idx.insert(doc("d1", "ownership", "wiki", 0, 1_000)).unwrap();
    let mut planner: Planner<KeywordIndex> = Planner::new(ScoringWeights::balanced(), 100);
    planner.register(QueryMode::Keyword, idx);
    let out = planner.plan_and_execute(&keyword_query("ownership", None, 5), &mut KeepResults);
    assert_eq!(ids(&out.result.results), vec!["d1"]);
}

#[test]
fn results_are_capped_after_the_merge() {
    let mut first = KeywordIndex::new();
    let mut second = KeywordIndex::new();
    for i in 0..4 {
        first.insert(doc(&format!("a{}", i), "fish", "one", 600_000 + i, 0)).unwrap();
        second.insert(doc(&format!("b{}", i), "fish", "two", 700_000 + i, 0)).unwrap();
    }
    let mut planner: Planner<KeywordIndex> = Planner::new(ScoringWeights::balanced(), 100);
    assert_eq!(planner.register(QueryMode::Keyword, first), Some(0));
    assert_eq!(planner.register(QueryMode::Keyword, second), Some(1));
    assert_eq!(planner.backend_count(), 2);
    let out = planner.plan_and_execute(&keyword_query("fish", None, 3), &mut KeepResults);
    assert_eq!(out.result.total_count, 3);
    assert_eq!(ids(&out.result.results), vec!["b3", "b2", "b1"]);
    let out = planner.plan_and_execute(&keyword_query("fish", None, 0), &mut KeepResults);
    assert_eq!(out.result.total_count, 0);
    let out = planner.plan_and_execute(&keyword_query("fish", None, 50), &mut KeepResults);
    assert_eq!(out.result.total_count, 8);
}

#[test]
fn old_results_are_left_out() {
    let mut idx = KeywordIndex::new();
    idx.insert(doc("old", "fish", "a", 900_000, 1_000)).unwrap();
    idx.insert(doc("new", "fish", "a", 900_000, 5_000)).unwrap();
    let mut planner: Planner<KeywordIndex> = Planner::new(ScoringWeights::balanced(), 100);
    planner.register(QueryMode::Keyword, idx);
    let mut q = keyword_query("fish", None, 5);
    q.constraints.updated_after = Some(5_000);
    let out = planner.plan_and_execute(&q, &mut KeepResults);
    assert_eq!(ids(&out.result.results), vec!["new"]);
}

#[test]
fn only_backends_of_the_mode_are_asked() {
    let mut keyword = KeywordIndex::new();
    keyword.insert(doc("k", "fish", "a", 900_000, 0)).unwrap();
    let mut files = KeywordIndex::new();
    files.insert(doc("f", "fish", "a", 900_000, 0)).unwrap();
    let mut planner: Planner<KeywordIndex> = Planner::new(ScoringWeights::balanced(), 100);
    planner.register(QueryMode::Keyword, keyword);
    planner.register(QueryMode::FileSystem, files);
    assert!(planner.has_backend_for(QueryMode::Keyword));
    assert!(!planner.has_backend_for(QueryMode::Semantic));
    let out = planner.plan_and_execute(&keyword_query("fish", None, 5), &mut KeepResults);
    assert_eq!(ids(&out.result.results), vec!["k"]);
    let mut q = SearchQuery::new("fish", QueryMode::Semantic);
    q.constraints.max_results = 5;
    let out = planner.plan_and_execute(&q, &mut KeepResults);
    assert!(out.result.results.is_empty());
    assert!(out.failures.is_empty());
}

#[test]
fn a_second_backend_for_an_exclusive_mode_is_refused() {
    let mut planner: Planner<KeywordIndex> = Planner::new(ScoringWeights::balanced(), 100);
    assert_eq!(planner.register(QueryMode::Graph, KeywordIndex::new()), Some(0));
    assert_eq!(planner.register(QueryMode::Graph, KeywordIndex::new()), None);
    assert_eq!(planner.register(QueryMode::API, KeywordIndex::new()), Some(1));
    assert_eq!(planner.register(QueryMode::API, KeywordIndex::new()), None);
    assert_eq!(planner.register(QueryMode::Keyword, KeywordIndex::new()), Some(2));
    assert_eq!(planner.register(QueryMode::Keyword, KeywordIndex::new()), Some(3));
    assert_eq!(planner.backend_count(), 4);
}

#[test]
fn a_failing_backend_is_recorded_and_the_others_answer() {
    let mut idx = KeywordIndex::new();
    idx.insert(doc("d1", "fish", "a", 900_000, 0)).unwrap();
    let mut planner: Planner<Store> = Planner::new(ScoringWeights::balanced(), 100);
    planner.register(QueryMode::Keyword, Store::Broken);
    planner.register(QueryMode::Keyword, Store::Working(idx));
    planner.register(QueryMode::FileSystem, Store::Broken);
    let out = planner.plan_and_execute(&keyword_query("fish", None, 5), &mut KeepResults);
    assert_eq!(ids(&out.result.results), vec!["d1"]);
    assert_eq!(out.failures.len(), 1);
    assert_eq!(out.failures[0].backend, 0);
    assert_eq!(out.failures[0].error.message(), "Storage error: offline");
}

#[test]
fn a_malformed_query_is_a_recorded_failure() {
    let mut idx = KeywordIndex::new();
    idx.insert(doc("d1", "fish", "a", 900_000, 0)).unwrap();
    let mut planner: Planner<KeywordIndex> = Planner::new(ScoringWeights::balanced(), 100);
    planner.register(QueryMode::Keyword, idx);
    let out = planner.plan_and_execute(&keyword_query("", None, 5), &mut KeepResults);
    assert!(out.result.results.is_empty());
    assert_eq!(out.failures.len(), 1);
    assert_eq!(out.failures[0].error.message(), "Query error: empty query text");
}

#[test]
fn the_fan_out_bounds_each_backend() {
    let mut idx = KeywordIndex::new();
    for i in 0..5 {
        idx.insert(doc(&format!("d{}", i), "fish", "a", 900_000, 0)).unwrap();
    }
    let mut planner: Planner<KeywordIndex> = Planner::new(ScoringWeights::balanced(), 2);
    planner.register(QueryMode::Keyword, idx);
    let out = planner.plan_and_execute(&keyword_query("fish", None, 10), &mut KeepResults);
    assert_eq!(ids(&out.result.results), vec!["d0", "d1"]);
}

#[test]
fn an_action_may_rewrite_content() {
    let mut idx = KeywordIndex::new();
    idx.insert(doc("d1", "fish", "a", 900_000, 0)).unwrap();
    let mut planner: Planner<KeywordIndex> = Planner::new(ScoringWeights::balanced(), 100);
    planner.register(QueryMode::Keyword, idx);
    let mut q = keyword_query("fish", None, 5);
    q.actions = vec![QueryAction::Verify, QueryAction::Summarize];
    let out = planner.plan_and_execute(&q, &mut Digest);
    assert_eq!(out.result.results[0].content, "digest");
    assert_eq!(out.result.results[0].id, "d1");
    assert!(out.refused_actions.is_empty());
}

#[test]
fn an_action_that_lowers_trust_cannot_break_the_constraints() {
    let mut idx = KeywordIndex::new();
    idx.insert(doc("d1", "fish", "a", 900_000, 0)).unwrap();
    idx.insert(doc("d2", "fish", "a", 800_000, 0)).unwrap();
    let mut planner: Planner<KeywordIndex> = Planner::new(ScoringWeights::balanced(), 100);
    planner.register(QueryMode::Keyword, idx);
    let mut q = keyword_query("fish", Some(500_000), 5);
    q.actions = vec![QueryAction::Verify];
    let out = planner.plan_and_execute(&q, &mut LowerTrust);
    assert_eq!(ids(&out.result.results), vec!["d2"]);
    assert_eq!(out.result.total_count, 1);
    assert!(out.refused_actions.is_empty());
}

#[test]
fn an_action_that_changes_an_identifier_is_refused() {
    let mut idx = KeywordIndex::new();
    idx.insert(doc("d1", "fish", "a", 900_000, 0)).unwrap();
    let mut planner: Planner<KeywordIndex> = Planner::new(ScoringWeights::balanced(), 100);
    planner.register(QueryMode::Keyword, idx);
    let mut q = keyword_query("fish", None, 5);
    q.actions = vec![QueryAction::Execute, QueryAction::Compare];
    let out = planner.plan_and_execute(&q, &mut Renamer);
    assert_eq!(ids(&out.result.results), vec!["d1"]);
    assert_eq!(out.refused_actions, vec![QueryAction::Execute, QueryAction::Compare]);
}

#[test]
fn the_request_carries_the_text_and_the_fan_out() {
    let q = keyword_query("ownership", Some(500_000), 5);
    let request = sorcerer::planner::request_for(&q, 17);
    assert_eq!(request.text, "ownership");
    assert_eq!(request.limit, 17);
    assert!(request.min_trust_score.is_none());
    assert!(request.vector.is_none());
}

#[test]
fn answers_are_merged_in_order() {
    let mut idx = KeywordIndex::new();
    idx.insert(doc("d1", "fish one", "a", 900_000, 0)).unwrap();
    idx.insert(doc("d2", "fish two", "b", 100_000, 0)).unwrap();
    let mut raw = vec![hit("first", 1, 1, 0)];
    let mut failures = Vec::new();
    let found = idx.search(sorcerer::index::SearchQuery::new("fish")).unwrap();
    sorcerer::planner::absorb(&mut raw, &mut failures, 3, Ok(found));
    assert_eq!(ids(&raw), vec!["first", "d1", "d2"]);
    assert_eq!(raw[1].source, "a");
    assert_eq!(raw[2].trust_score.millionths(), 100_000);
    assert!(failures.is_empty());
    sorcerer::planner::absorb(&mut raw, &mut failures, 4, Err(IndexError::QueryError("bad".to_string())));
    assert_eq!(raw.len(), 3);
    assert_eq!(failures.len(), 1);
    assert_eq!(failures[0].backend, 4);
    assert_eq!(failures[0].error.message(), "Query error: bad");
}

#[test]
fn hits_that_tie_keep_their_order() {
    let w = ScoringWeights::balanced();
    let mut first = hit("same", 500_000, 500_000, 0);
    first.content = "first".to_string();
    let mut second = hit("same", 600_000, 400_000, 0);
    second.content = "second".to_string();
    let mut third = hit("same", 400_000, 600_000, 0);
    third.content = "third".to_string();
    let ranked = rank_results(vec![first, hit("zz", 900_000, 900_000, 0), second, third], &w);
    let contents: Vec<&str> = ranked.iter().map(|r| r.content.as_str()).collect();
    assert_eq!(contents, vec!["content", "first", "second", "third"]);
}

#[test]
fn gather_merges_the_answers_in_the_order_of_the_slots() {
    let mut first = KeywordIndex::new();
    first.insert(doc("a1", "fish", "one", 100_000, 0)).unwrap();
    first.insert(doc("a2", "fish", "one", 900_000, 0)).unwrap();
    let mut second = KeywordIndex::new();
    second.insert(doc("b1", "fish", "two", 500_000, 0)).unwrap();
    let mut other = KeywordIndex::new();
    other.insert(doc("f1", "fish", "files", 500_000, 0)).unwrap();
    let mut planner: Planner<Store> = Planner::new(ScoringWeights::balanced(), 100);
    planner.register(QueryMode::Keyword, Store::Working(first));
    planner.register(QueryMode::FileSystem, Store::Working(other));
    planner.register(QueryMode::Keyword, Store::Broken);
    planner.register(QueryMode::Keyword, Store::Working(second));
    let (raw, failures) = planner.gather(&keyword_query("fish", Some(800_000), 1));
    assert_eq!(ids(&raw), vec!["a1", "a2", "b1"]);
    assert_eq!(raw[0].trust_score.millionths(), 100_000);
    assert_eq!(failures.len(), 1);
    assert_eq!(failures[0].backend, 2);
    let (raw, failures) = planner.gather(&SearchQuery::new("fish", QueryMode::Graph));
    assert_eq!(SearchQuery::new("fish", QueryMode::Graph).constraints.max_results, 10);
    assert!(raw.is_empty());
    assert!(failures.is_empty());
}

#[test]
fn raising_a_score_never_moves_a_hit_back() {
    let w = ScoringWeights { confidence_weight: 2, trust_weight: 1 };
    let c = constraints(Some(300_000), None, 3);
    let others = || {
        vec![
            hit("a", 900_000, 900_000, 0),
            hit("b", 500_000, 500_000, 0),
            hit("c", 400_000, 400_000, 0),
            hit("d", 100_000, 100_000, 0),
        ]
    };
    let place_of = |confidence: u32, trust: u32| {
        let mut raw = others();
        raw.insert(2, hit("m", confidence, trust, 0));
        select(raw, &c, &w).iter().position(|r| r.id == "m")
    };
    assert_eq!(place_of(300_000, 200_000), None);
    assert_eq!(place_of(300_000, 300_000), None);
    assert_eq!(place_of(400_000, 400_000), None);
    assert_eq!(place_of(450_000, 400_000), Some(2));
    assert_eq!(place_of(500_000, 500_000), Some(2));
    assert_eq!(place_of(500_001, 500_000), Some(1));
    assert_eq!(place_of(500_000, 1_000_000), Some(1));
    assert_eq!(place_of(1_000_000, 1_000_000), Some(0));
    let steps = [(300_000u32, 300_000u32), (400_000, 300_000), (400_000, 700_000), (800_000, 700_000), (800_000, 1_000_000)];
    let mut last: Option<usize> = None;
    for (confidence, trust) in steps {
        let now = place_of(confidence, trust);
        if let Some(before) = last {
            assert!(now.unwrap() <= before);
        }
        last = now;
    }
}
