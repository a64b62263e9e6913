//! The query planner: fans a query out to the backends of its mode, merges
//! what they return, applies the constraints, ranks, and runs post-actions.

use vstd::prelude::*;
use crate::index::{IndexError, IndexStore, MatchView};
use crate::outside::{fresh_id, is_hyphenated_id, now_millis};
use crate::query::{QueryAction, QueryConstraints, QueryMode, SearchQuery};
use crate::ranking::{is_ranked, select, selection};
use crate::result::{QueryResult, SearchResult};
use crate::score::ScoringWeights;

verus! {

/// Carries out post-actions. It may rewrite the hits it is shown, and may
/// call on agents to do so; the planner accepts a rewrite only if every
/// hit kept its identifier.
pub trait ActionHandler {
    /// The hits as they should be after `action`.
    fn apply(&mut self, action: QueryAction, results: &Vec<SearchResult>) -> Vec<SearchResult>;
}

/// A handler that leaves the hits as they are.
pub struct KeepResults;

impl ActionHandler for KeepResults {
    fn apply(&mut self, action: QueryAction, results: &Vec<SearchResult>) -> (out: Vec<
        SearchResult,
    >)
        ensures
            hit_views(out@) == hit_views(results@),
            same_ids(results@, out@),
    {
        let mut out: Vec<SearchResult> = Vec::new();
        let mut i: usize = 0;
        while i < results.len()
            invariant
                i <= results@.len(),
                out@.len() == i,
                forall|k: int| 0 <= k < i ==> out@[k]@ == results@[k]@,
            decreases results@.len() - i,
        {
            out.push(results[i].clone());
            i = i + 1;
        }
        assert(hit_views(out@) =~= hit_views(results@));
        out
    }
}

/// The two lists name the same identifiers, position by position.
pub open spec fn same_ids(a: Seq<SearchResult>, b: Seq<SearchResult>) -> bool {
    &&& a.len() == b.len()
    &&& forall|i: int| 0 <= i < a.len() ==> a[i].id@ == b[i].id@
}

/// Decides `same_ids`.
pub fn keeps_ids(a: &Vec<SearchResult>, b: &Vec<SearchResult>) -> (r: bool)
    ensures
        r == same_ids(a@, b@),
{
    if a.len() != b.len() {
        return false;
    }
    let mut i: usize = 0;
    while i < a.len()
        invariant
            i <= a@.len(),
            a@.len() == b@.len(),
            forall|k: int| 0 <= k < i ==> a@[k].id@ == b@[k].id@,
        decreases a@.len() - i,
    {
        if a[i].id != b[i].id {
            return false;
        }
        i = i + 1;
    }
    true
}

/// The outcome of a post-action: the rewrite where it kept every
/// identifier, the hits as they were where it did not.
pub fn accept_revision(current: Vec<SearchResult>, proposed: Vec<SearchResult>) -> (r: (
    Vec<SearchResult>,
    bool,
))
    ensures
        r.1 == same_ids(current@, proposed@),
        r.0 == if r.1 {
            proposed
        } else {
            current
        },
{
    if keeps_ids(&current, &proposed) {
        (proposed, true)
    } else {
        (current, false)
    }
}

/// A backend whose search failed, and why.
#[derive(Debug)]
pub struct BackendFailure {
    /// Slot of the backend in the planner.
    pub backend: usize,
    /// What the backend reported.
    pub error: IndexError,
}

/// What a query gave: the ranked hits, the backends that failed, and the
/// post-actions whose rewrite was refused.
#[derive(Debug)]
pub struct PlanOutcome {
    /// The response.
    pub result: QueryResult,
    /// One record for each backend that failed.
    pub failures: Vec<BackendFailure>,
    /// The actions whose rewrite changed an identifier.
    pub refused_actions: Vec<QueryAction>,
}

/// A backend registered for one query mode.
pub struct Registered<B: IndexStore> {
    /// The mode that the backend answers.
    pub mode: QueryMode,
    /// The backend.
    pub store: B,
}

/// The query planner over backends of type `B`.
pub struct Planner<B: IndexStore> {
    backends: Vec<Registered<B>>,
    weights: ScoringWeights,
    fan_out: usize,
}

impl<B: IndexStore> Planner<B> {
    /// The registered backends, by slot.
    pub closed spec fn backends(&self) -> Seq<Registered<B>> {
        self.backends@
    }

    /// The weights used for ranking.
    pub closed spec fn weights(&self) -> ScoringWeights {
        self.weights
    }

    /// The most raw matches asked of each backend.
    pub closed spec fn fan_out(&self) -> usize {
        self.fan_out
    }

    /// The modes of the registered backends, by slot.
    pub open spec fn modes(&self) -> Seq<QueryMode> {
        self.backends().map_values(|r: Registered<B>| r.mode)
    }

    /// `answers` holds, for each backend of the query's mode, an answer
    /// that this backend gives to the planner's request.
    pub open spec fn answered(&self, query: SearchQuery, answers: Seq<Answer>) -> bool {
        &&& answers.len() == self.backends().len()
        &&& forall|b: int|
            0 <= b < answers.len() && self.backends()[b].mode == query.mode ==> call_ensures(
                B::search,
                (&self.backends()[b].store, request_of(query, self.fan_out())),
                #[trigger] answers[b],
            )
    }

    /// `raw` and `failures` are what the answers of the eligible backends
    /// merge to.
    pub open spec fn gathered(
        &self,
        query: SearchQuery,
        answers: Seq<Answer>,
        raw: Seq<SearchResult>,
        failures: Seq<BackendFailure>,
    ) -> bool {
        &&& self.answered(query, answers)
        &&& hit_views(raw) == merged_hits(self.modes(), query.mode, answers)
        &&& failures == merged_failures(self.modes(), query.mode, answers)
    }

    /// `out` is the planner's answer to `query` when the backends answer
    /// with `answers`, which merge to `raw`, and the handler answers the
    /// post-actions with `proposals`.
    pub open spec fn planned<H: ActionHandler>(
        &self,
        query: SearchQuery,
        answers: Seq<Answer>,
        raw: Seq<SearchResult>,
        proposals: Seq<Vec<SearchResult>>,
        out: PlanOutcome,
    ) -> bool {
        &&& self.gathered(query, answers, raw, out.failures@)
        &&& refined_by::<H>(
            raw,
            query.constraints,
            self.weights(),
            query.actions@,
            proposals,
            out.result.results@,
            out.refused_actions@,
        )
        &&& out.result.total_count == out.result.results@.len()
    }

    /// Some backend is registered for `mode`.
    pub open spec fn serves(&self, mode: QueryMode) -> bool {
        exists|i: int| 0 <= i < self.backends().len() && #[trigger] self.backends()[i].mode == mode
    }

    /// The modes that take exactly one backend have no more than one.
    pub open spec fn wf(&self) -> bool {
        forall|i: int, j: int|
            0 <= i < self.backends().len() && 0 <= j < self.backends().len() && i != j && (
            #[trigger] self.backends()[i].mode).is_exclusive() ==> self.backends()[i].mode != (
            #[trigger] self.backends()[j].mode)
    }

    /// A planner without backends.
    pub fn new(weights: ScoringWeights, fan_out: usize) -> (p: Planner<B>)
        ensures
            p.wf(),
            p.backends().len() == 0,
            p.weights() == weights,
            p.fan_out() == fan_out,
    {
        Planner { backends: Vec::new(), weights, fan_out }
    }

    /// The number of registered backends.
    pub fn backend_count(&self) -> (n: usize)
        ensures
            n == self.backends().len(),
    {
        self.backends.len()
    }

    /// Whether a backend is registered for `mode`.
    pub fn has_backend_for(&self, mode: QueryMode) -> (r: bool)
        ensures
            r == self.serves(mode),
    {
        let mut i: usize = 0;
        while i < self.backends.len()
            invariant
                i <= self.backends@.len(),
                forall|k: int| 0 <= k < i ==> self.backends@[k].mode != mode,
            decreases self.backends@.len() - i,
        {
            if self.backends[i].mode == mode {
                return true;
            }
            i = i + 1;
        }
        false
    }

    /// Registers a backend for `mode` and returns its slot. A second
    /// backend for a mode that takes exactly one is refused.
    pub fn register(&mut self, mode: QueryMode, store: B) -> (slot: Option<usize>)
        requires
            old(self).wf(),
        ensures
            final(self).wf(),
            final(self).weights() == old(self).weights(),
            final(self).fan_out() == old(self).fan_out(),
            slot is None <==> mode.is_exclusive() && old(self).serves(mode),
            slot is None ==> final(self).backends() == old(self).backends(),
            slot is Some ==> slot.unwrap() == old(self).backends().len() && final(self).backends()
                == old(self).backends().push(Registered { mode, store }),
    {
        if mode.exclusive() && self.has_backend_for(mode) {
            return None;
        }
        let slot = self.backends.len();
        self.backends.push(Registered { mode, store });
        Some(slot)
    }

    /// Asks every backend of the query's mode, in the order of the slots,
    /// what `request_of` says, and merges the answers: the matches of each
    /// backend that answered behind those of the backends before it, and
    /// one record for each backend that failed. A backend that fails does
    /// not stop the others.
    pub fn gather(&self, query: &SearchQuery) -> (r: (Vec<SearchResult>, Vec<BackendFailure>))
        ensures
            exists|answers: Seq<Answer>| #[trigger] self.gathered(*query, answers, r.0@, r.1@),
            forall|i: int|
                0 <= i < r.1@.len() ==> (#[trigger] r.1@[i]).backend < self.backends().len()
                    && self.backends()[r.1@[i].backend as int].mode == query.mode,
            forall|i: int, j: int|
                0 <= i < j < r.1@.len() ==> (#[trigger] r.1@[i]).backend < (
                #[trigger] r.1@[j]).backend,
            !self.serves(query.mode) ==> r.0@.len() == 0 && r.1@.len() == 0,
    {
        let mut raw: Vec<SearchResult> = Vec::new();
        let mut failures: Vec<BackendFailure> = Vec::new();
        let ghost mut answers: Seq<Answer> = Seq::empty();
        let mut b: usize = 0;
        assert(hit_views(raw@) =~= merged_hits(self.modes(), query.mode, answers));
        assert(failures@ =~= merged_failures(self.modes(), query.mode, answers));
        while b < self.backends.len()
            invariant
                b <= self.backends@.len(),
                answers.len() == b,
                forall|k: int|
                    0 <= k < b && self.backends()[k].mode == query.mode ==> call_ensures(
                        B::search,
                        (&self.backends()[k].store, request_of(*query, self.fan_out())),
                        #[trigger] answers[k],
                    ),
                hit_views(raw@) == merged_hits(self.modes(), query.mode, answers),
                failures@ == merged_failures(self.modes(), query.mode, answers),
                forall|i: int|
                    0 <= i < failures@.len() ==> (#[trigger] failures@[i]).backend < b
                        && self.backends()[failures@[i].backend as int].mode == query.mode,
                forall|i: int, j: int|
                    0 <= i < j < failures@.len() ==> (#[trigger] failures@[i]).backend < (
                    #[trigger] failures@[j]).backend,
                (forall|k: int| 0 <= k < b ==> (#[trigger] self.backends@[k]).mode != query.mode)
                    ==> raw@.len() == 0 && failures@.len() == 0,
            decreases self.backends@.len() - b,
        {
            let ghost before = answers;
            if self.backends[b].mode == query.mode {
                let request = request_for(query, self.fan_out);
                let answer = self.backends[b].store.search(request);
                proof {
                    answers = before.push(answer);
                }
                absorb(&mut raw, &mut failures, b, answer);
            } else {
                proof {
                    answers = before.push(Err(IndexError::NotFound));
                }
            }
            proof {
                assert(answers.drop_last() =~= before);
                assert(self.modes()[b as int] == self.backends()[b as int].mode);
            }
            b = b + 1;
        }
        let merged = (raw, failures);
        proof {
            assert(self.gathered(*query, answers, merged.0@, merged.1@));
        }
        merged
    }

    /// Answers a query: gathers the raw matches of the eligible backends,
    /// refines them, and wraps them with a fresh query identifier and the
    /// time taken. The hits are what `refined` makes of the matches that
    /// the backends' answers merge to: without post-actions the selection
    /// from them. Whatever the backends and the handler return, the
    /// response obeys the constraints, is ranked, and fits the cap.
    pub fn plan_and_execute<H: ActionHandler>(&self, query: &SearchQuery, handler: &mut H) -> (out:
        PlanOutcome)
        ensures
            exists|answers: Seq<Answer>, raw: Seq<SearchResult>, proposals: Seq<Vec<SearchResult>>|
                #[trigger] self.planned::<H>(*query, answers, raw, proposals, out),
            exists|answers: Seq<Answer>, raw: Seq<SearchResult>| #[trigger]
                self.gathered(*query, answers, raw, out.failures@) && (query.actions@.len() == 0
                    ==> out.result.results@ == selection(
                    raw,
                    query.constraints,
                    self.weights(),
                )) && (forall|i: int|
                    0 <= i < out.result.results@.len() ==> names(
                        raw,
                        #[trigger] out.result.results@[i].id@,
                    )),
            out.result.wf(),
            is_hyphenated_id(out.result.query_id@),
            out.result.results@.len() <= query.constraints.max_results,
            is_ranked(out.result.results@, self.weights()),
            forall|i: int|
                0 <= i < out.result.results@.len() ==> {
                    let hit = #[trigger] out.result.results@[i];
                    &&& query.constraints.admits(
                        hit.trust_score@ as int,
                        hit.metadata.updated_at as int,
                    )
                    &&& hit.trust_score@ >= query.constraints.min_trust()
                },
            forall|i: int|
                0 <= i < out.failures@.len() ==> (#[trigger] out.failures@[i]).backend
                    < self.backends().len() && self.backends()[out.failures@[i].backend as int].mode
                    == query.mode,
            out.refused_actions@.len() <= query.actions@.len(),
            !self.serves(query.mode) ==> out.result.results@.len() == 0 && out.failures@.len() == 0,
    {
        let query_id = fresh_id();
        let started = now_millis();
        let (raw, failures) = self.gather(query);
        let ghost merged = raw@;
        let (results, refused_actions) = refine(raw, query, &self.weights, handler);
        let finished = now_millis();
        let elapsed: u64 = if finished >= started {
            (finished - started) as u64
        } else {
            0
        };
        let total_count = results.len();
        let out = PlanOutcome {
            result: QueryResult { query_id, results, total_count, execution_time_ms: elapsed },
            failures,
            refused_actions,
        };
        proof {
            let answers = choose|answers: Seq<Answer>| #[trigger]
                self.gathered(*query, answers, merged, out.failures@);
            let proposals = choose|proposals: Seq<Vec<SearchResult>>| #[trigger]
                refined_by::<H>(
                    merged,
                    query.constraints,
                    self.weights(),
                    query.actions@,
                    proposals,
                    out.result.results@,
                    out.refused_actions@,
                );
            assert(self.planned::<H>(*query, answers, merged, proposals, out));
            assert(self.gathered(*query, answers, merged, out.failures@));
        }
        out
    }
}

/// What the planner asks of each eligible backend: the query's text, at
/// most `fan_out` matches, and no filter, since the constraints are
/// applied to the merged matches.
pub fn request_for(query: &SearchQuery, fan_out: usize) -> (request: crate::index::SearchQuery)
    ensures
        request == request_of(*query, fan_out),
        request.text@ == query.text@,
        request.limit == fan_out,
        request.min_trust_score.is_none(),
        request.vector.is_none(),
{
    crate::index::SearchQuery {
        text: query.text.clone(),
        limit: fan_out,
        min_trust_score: None,
        vector: None,
    }
}

/// What a backend answers to a request.
pub type Answer = Result<Vec<crate::index::SearchResult>, IndexError>;

/// The request that the planner makes for `query`.
pub open spec fn request_of(query: SearchQuery, fan_out: usize) -> crate::index::SearchQuery {
    crate::index::SearchQuery {
        text: query.text,
        limit: fan_out,
        min_trust_score: None,
        vector: None,
    }
}

/// The matches that the answers merge to: those of each backend of the
/// mode that answered, in the order of the slots.
pub open spec fn merged_hits(modes: Seq<QueryMode>, mode: QueryMode, answers: Seq<Answer>) -> Seq<
    MatchView,
>
    decreases answers.len(),
{
    if answers.len() == 0 {
        Seq::empty()
    } else {
        let before = merged_hits(modes, mode, answers.drop_last());
        if modes[answers.len() - 1] == mode {
            match answers.last() {
                Ok(found) => before + match_views(found@),
                Err(_) => before,
            }
        } else {
            before
        }
    }
}

/// The failures that the answers merge to: one record for each backend of
/// the mode that failed, in the order of the slots.
pub open spec fn merged_failures(
    modes: Seq<QueryMode>,
    mode: QueryMode,
    answers: Seq<Answer>,
) -> Seq<BackendFailure>
    decreases answers.len(),
{
    if answers.len() == 0 {
        Seq::empty()
    } else {
        let before = merged_failures(modes, mode, answers.drop_last());
        if modes[answers.len() - 1] == mode {
            match answers.last() {
                Ok(_) => before,
                Err(error) => before.push(
                    BackendFailure { backend: (answers.len() - 1) as usize, error },
                ),
            }
        } else {
            before
        }
    }
}

/// What the hits hold, in their order.
pub open spec fn hit_views(s: Seq<SearchResult>) -> Seq<MatchView> {
    s.map_values(|r: SearchResult| r@)
}

/// What the raw matches hold, in their order.
pub open spec fn match_views(s: Seq<crate::index::SearchResult>) -> Seq<MatchView> {
    s.map_values(|m: crate::index::SearchResult| m@)
}

/// Takes the answer of the backend in slot `backend` into the merge: its
/// matches go behind those already merged, in their order, and its
/// failure behind those already recorded.
pub fn absorb(
    raw: &mut Vec<SearchResult>,
    failures: &mut Vec<BackendFailure>,
    backend: usize,
    answer: Result<Vec<crate::index::SearchResult>, IndexError>,
)
    ensures
        match answer {
            Ok(found) => {
                &&& hit_views(final(raw)@) == hit_views(old(raw)@) + match_views(found@)
                &&& final(failures)@ == old(failures)@
            },
            Err(error) => {
                &&& final(raw)@ == old(raw)@
                &&& final(failures)@ == old(failures)@.push(BackendFailure { backend, error })
            },
        },
{
    match answer {
        Ok(found) => {
            let ghost before = raw@;
            assert(found@.take(0) =~= Seq::<crate::index::SearchResult>::empty());
            assert(hit_views(raw@) =~= hit_views(before) + match_views(found@.take(0)));
            for m in it: found.into_iter()
                invariant
                    it.seq() == found@,
                    hit_views(raw@) == hit_views(before) + match_views(
                        found@.take(it.index() as int),
                    ),
            {
                let ghost sofar = raw@;
                let ghost i = it.index();
                raw.push(SearchResult::from_match(m));
                proof {
                    assert(found@.take(i + 1) =~= found@.take(i as int).push(m));
                    assert(hit_views(raw@) =~= hit_views(sofar).push(m@));
                    assert(match_views(found@.take(i + 1)) =~= match_views(
                        found@.take(i as int),
                    ).push(m@));
                    assert(hit_views(raw@) =~= hit_views(before) + match_views(
                        found@.take(i + 1),
                    ));
                }
            }
            assert(found@.take(found@.len() as int) =~= found@);
        },
        Err(error) => {
            failures.push(BackendFailure { backend, error });
        },
    }
}

/// Some hit in `raw` has the identifier `id`.
pub open spec fn names(raw: Seq<SearchResult>, id: Seq<char>) -> bool {
    exists|k: int| 0 <= k < raw.len() && (#[trigger] raw[k]).id@ == id
}

/// The hits after one post-action: where the proposed rewrite keeps every
/// identifier, the selection from it; where it does not, the hits as they
/// were.
pub open spec fn revised(
    current: Seq<SearchResult>,
    proposed: Seq<SearchResult>,
    c: QueryConstraints,
    w: ScoringWeights,
) -> Seq<SearchResult> {
    if same_ids(current, proposed) {
        selection(proposed, c, w)
    } else {
        current
    }
}

/// The hits after the post-actions that gave `proposals`, in their order,
/// starting from the selection from `raw`.
pub open spec fn refined(
    raw: Seq<SearchResult>,
    c: QueryConstraints,
    w: ScoringWeights,
    proposals: Seq<Vec<SearchResult>>,
) -> Seq<SearchResult>
    decreases proposals.len(),
{
    if proposals.len() == 0 {
        selection(raw, c, w)
    } else {
        revised(refined(raw, c, w, proposals.drop_last()), proposals.last()@, c, w)
    }
}

/// The actions whose proposal changed an identifier, in their order.
pub open spec fn refusals(
    raw: Seq<SearchResult>,
    c: QueryConstraints,
    w: ScoringWeights,
    actions: Seq<QueryAction>,
    proposals: Seq<Vec<SearchResult>>,
) -> Seq<QueryAction>
    decreases proposals.len(),
{
    if proposals.len() == 0 {
        Seq::empty()
    } else {
        let before = refusals(raw, c, w, actions, proposals.drop_last());
        if same_ids(refined(raw, c, w, proposals.drop_last()), proposals.last()@) {
            before
        } else {
            before.push(actions[proposals.len() - 1])
        }
    }
}

/// `proposed` is what a handler of type `H` returned for `action` when it
/// was shown the hits `shown`.
pub open spec fn offered<H: ActionHandler>(
    shown: Seq<SearchResult>,
    action: QueryAction,
    proposed: Vec<SearchResult>,
) -> bool {
    exists|m: &mut H, v: Vec<SearchResult>|
        v@ == shown && #[trigger] call_ensures(H::apply, (m, action, &v), proposed)
}

/// `hits` and `refused` are what refining `raw` gives when the handler
/// answers the actions, each shown the hits as they then stand, with
/// `proposals`.
pub open spec fn refined_by<H: ActionHandler>(
    raw: Seq<SearchResult>,
    c: QueryConstraints,
    w: ScoringWeights,
    actions: Seq<QueryAction>,
    proposals: Seq<Vec<SearchResult>>,
    hits: Seq<SearchResult>,
    refused: Seq<QueryAction>,
) -> bool {
    &&& proposals.len() == actions.len()
    &&& forall|k: int|
        0 <= k < proposals.len() ==> #[trigger] offered::<H>(
            refined(raw, c, w, proposals.take(k)),
            actions[k],
            proposals[k],
        )
    &&& hits == refined(raw, c, w, proposals)
    &&& refused == refusals(raw, c, w, actions, proposals)
}

/// Turns merged raw matches into the hits of the response: drops those
/// that the constraints exclude, ranks the rest, keeps the best
/// `max_results`, and runs the query's post-actions in their order: the
/// handler is shown the hits and proposes a rewrite. A rewrite that keeps
/// every identifier is taken over, and the constraints and the ranking
/// are applied to it again; any other is refused and recorded. Without
/// post-actions the hits are exactly the selection.
pub fn refine<H: ActionHandler>(
    raw: Vec<SearchResult>,
    query: &SearchQuery,
    weights: &ScoringWeights,
    handler: &mut H,
) -> (r: (Vec<SearchResult>, Vec<QueryAction>))
    ensures
        exists|proposals: Seq<Vec<SearchResult>>| #[trigger]
            refined_by::<H>(
                raw@,
                query.constraints,
                *weights,
                query.actions@,
                proposals,
                r.0@,
                r.1@,
            ),
        r.0@.len() <= query.constraints.max_results,
        r.0@.len() <= raw@.len(),
        is_ranked(r.0@, *weights),
        forall|i: int|
            0 <= i < r.0@.len() ==> {
                let hit = #[trigger] r.0@[i];
                &&& query.constraints.admits(hit.trust_score@ as int, hit.metadata.updated_at as int)
                &&& hit.trust_score@ >= query.constraints.min_trust()
                &&& names(raw@, hit.id@)
            },
        r.1@.len() <= query.actions@.len(),
        query.actions@.len() == 0 ==> r.0@ == selection(raw@, query.constraints, *weights)
            && r.1@.len() == 0,
{
    let ghost gathered = raw@;
    let ghost c = query.constraints;
    let ghost w = *weights;
    let mut selected = select(raw, &query.constraints, weights);
    proof {
        vstd::seq_lib::to_multiset_len(gathered);
        assert(selected@.len() <= gathered.len()) by {
            crate::ranking::lemma_selection_is_sound(gathered, query.constraints, *weights);
        }
        assert forall|i: int| 0 <= i < selected@.len() implies names(
            gathered,
            #[trigger] selected@[i].id@,
        ) by {
            assert(gathered.contains(selected@[i]));
            let k = choose|k: int| 0 <= k < gathered.len() && gathered[k] == selected@[i];
            assert(gathered[k].id@ == selected@[i].id@);
        }
    }
    let mut refused: Vec<QueryAction> = Vec::new();
    let ghost mut proposals: Seq<Vec<SearchResult>> = Seq::empty();
    let mut a: usize = 0;
    assert(refused@ =~= refusals(gathered, c, w, query.actions@, proposals));
    while a < query.actions.len()
        invariant
            a <= query.actions@.len(),
            c == query.constraints,
            w == *weights,
            proposals.len() == a,
            forall|k: int|
                0 <= k < a ==> #[trigger] offered::<H>(
                    refined(gathered, c, w, proposals.take(k)),
                    query.actions@[k],
                    proposals[k],
                ),
            selected@ == refined(gathered, c, w, proposals),
            refused@ == refusals(gathered, c, w, query.actions@, proposals),
            refused@.len() <= a,
            selected@.len() <= query.constraints.max_results,
            selected@.len() <= gathered.len(),
            is_ranked(selected@, *weights),
            forall|i: int|
                0 <= i < selected@.len() ==> {
                    let hit = #[trigger] selected@[i];
                    &&& query.constraints.admits(
                        hit.trust_score@ as int,
                        hit.metadata.updated_at as int,
                    )
                    &&& hit.trust_score@ >= query.constraints.min_trust()
                    &&& names(gathered, hit.id@)
                },
        decreases query.actions@.len() - a,
    {
        let action = query.actions[a];
        let ghost shown = selected;
        let proposed = handler.apply(action, &selected);
        let ghost before = selected@;
        let ghost offer = proposed@;
        let ghost earlier = proposals;
        proof {
            assert(offered::<H>(before, action, proposed));
            proposals = earlier.push(proposed);
            assert(proposals.drop_last() =~= earlier);
            assert(proposals.take(a as int) =~= earlier);
            assert forall|k: int| 0 <= k < a + 1 implies #[trigger] offered::<H>(
                refined(gathered, c, w, proposals.take(k)),
                query.actions@[k],
                proposals[k],
            ) by {
                if k < a {
                    assert(proposals.take(k) =~= earlier.take(k));
                    assert(offered::<H>(
                        refined(gathered, c, w, earlier.take(k)),
                        query.actions@[k],
                        earlier[k],
                    ));
                }
            }
        }
        let (next, accepted) = accept_revision(selected, proposed);
        if accepted {
            selected = select(next, &query.constraints, weights);
            proof {
                crate::ranking::lemma_selection_is_sound(offer, query.constraints, *weights);
                assert forall|i: int| 0 <= i < selected@.len() implies names(
                    gathered,
                    #[trigger] selected@[i].id@,
                ) by {
                    assert(offer.contains(selected@[i]));
                    let k = choose|k: int| 0 <= k < offer.len() && offer[k] == selected@[i];
                    assert(before[k].id@ == offer[k].id@);
                    assert(names(gathered, before[k].id@));
                }
            }
        } else {
            selected = next;
            refused.push(action);
        }
        a = a + 1;
    }
    let refinement = (selected, refused);
    proof {
        assert(proposals.take(proposals.len() as int) =~= proposals);
        assert(refined_by::<H>(
            gathered,
            c,
            w,
            query.actions@,
            proposals,
            refinement.0@,
            refinement.1@,
        ));
    }
    refinement
}

} // verus!
