//! The task scheduler: an arena of tasks with parent links, the state of
//! each task, timeouts that cancel a task with its running descendants,
//! and the aggregation of child results into the parent's.

use vstd::prelude::*;
use crate::agent::{
    agent_error_text, Agent, AgentError, AgentResult, AgentResultView, AgentType,
    ExecutionStatus, StatusView, Task, TaskView,
};
use crate::config::AgentsConfig;
use crate::outside::{json_object, json_object_of, member_views, now_millis};
use crate::score::Score;

verus! {

/// Milliseconds in a second.
pub const MILLIS_PER_SECOND: i64 = 1_000;

/// What the scheduler knows of one task.
#[derive(Debug)]
pub struct TaskRecord {
    /// The task.
    pub task: Task,
    /// The kind of agent that the task needs.
    pub agent_type: AgentType,
    /// Whether a failure here fails the parent.
    pub required: bool,
    /// Slot of the parent task, if this is a child.
    pub parent: Option<usize>,
    /// Where the task stands.
    pub status: ExecutionStatus,
    /// When the task began to run, in milliseconds since the Unix epoch.
    pub started_at: i64,
    /// Seconds that the task may run.
    pub timeout_secs: u32,
    /// What the agent returned, if it returned in time.
    pub result: Option<AgentResult>,
}

/// What a `TaskRecord` holds.
pub ghost struct RecordView {
    pub task: TaskView,
    pub agent_type: AgentType,
    pub required: bool,
    pub parent: Option<usize>,
    pub status: StatusView,
    pub started_at: int,
    pub timeout_secs: u32,
    pub result: Option<AgentResultView>,
}

impl View for TaskRecord {
    type V = RecordView;

    open spec fn view(&self) -> RecordView {
        RecordView {
            task: self.task@,
            agent_type: self.agent_type,
            required: self.required,
            parent: self.parent,
            status: self.status@,
            started_at: self.started_at as int,
            timeout_secs: self.timeout_secs,
            result: match self.result {
                Some(r) => Some(r@),
                None => None,
            },
        }
    }
}

impl RecordView {
    /// The same record in another state.
    pub open spec fn with_status(self, status: StatusView) -> RecordView {
        RecordView { status, ..self }
    }

    /// The same record, running since `now`.
    pub open spec fn started(self, now: int) -> RecordView {
        RecordView { status: StatusView::Running, started_at: now, ..self }
    }

    /// The same record, ended in `status` with `result`.
    pub open spec fn ended(self, status: StatusView, result: Option<AgentResultView>) -> RecordView {
        RecordView { status, result, ..self }
    }
}

/// Some task in `s` has the identifier `id`.
pub open spec fn known(s: Seq<RecordView>, id: Seq<char>) -> bool {
    exists|i: int| 0 <= i < s.len() && #[trigger] s[i].task.id == id
}

/// A slot in `s` of a task with the identifier `id`.
pub open spec fn slot_of(s: Seq<RecordView>, id: Seq<char>) -> int {
    choose|i: int| 0 <= i < s.len() && #[trigger] s[i].task.id == id
}

/// The number of tasks in `s` whose parent is in slot `p`.
pub open spec fn child_count(s: Seq<RecordView>, p: int) -> nat
    decreases s.len(),
{
    if s.len() == 0 {
        0
    } else {
        child_count(s.drop_last(), p) + if s.last().parent == Some(p as usize) {
            1nat
        } else {
            0nat
        }
    }
}

/// No two tasks share an identifier.
pub open spec fn ids_distinct(s: Seq<RecordView>) -> bool {
    forall|i: int, j: int|
        0 <= i < s.len() && 0 <= j < s.len() && i != j ==> #[trigger] s[i].task.id
            != #[trigger] s[j].task.id
}

/// The task in slot `i`, if it is a child, names its parent, which stands
/// in an earlier slot and was created no later; if not, it names none.
pub open spec fn linked_at(s: Seq<RecordView>, i: int) -> bool {
    match s[i].parent {
        Some(p) => {
            &&& p < i
            &&& s[i].task.parent_id == Some(s[p as int].task.id)
            &&& s[p as int].task.created_at <= s[i].task.created_at
        },
        None => s[i].task.parent_id.is_none(),
    }
}

/// Every task is linked to its parent as `linked_at` says.
pub open spec fn well_linked(s: Seq<RecordView>) -> bool {
    forall|i: int| 0 <= i < s.len() ==> #[trigger] linked_at(s, i)
}

/// The task in slot `j` is the task in slot `root` or descends from it.
pub open spec fn in_subtree(s: Seq<RecordView>, j: int, root: int) -> bool
    decreases j,
{
    if j == root {
        0 <= root < s.len()
    } else if 0 <= j < s.len() {
        match s[j].parent {
            Some(p) => p < j && in_subtree(s, p as int, root),
            None => false,
        }
    } else {
        false
    }
}

/// A running task started at `started_at` has used up `timeout_secs` at `now`.
pub open spec fn is_overdue(started_at: int, now: int, timeout_secs: int) -> bool {
    now - started_at > timeout_secs * MILLIS_PER_SECOND
}

/// The arena after the task in slot `root` timed out: its descendants that
/// were running are timed out too, and nothing else has changed.
pub open spec fn cancelled(s: Seq<RecordView>, root: int) -> Seq<RecordView> {
    Seq::new(
        s.len(),
        |j: int|
            if j != root && in_subtree(s, j, root) && s[j].status is Running {
                s[j].with_status(StatusView::TimedOut)
            } else {
                s[j]
            },
    )
}

/// The state in which a running task ends, given what its agent returned
/// and whether the deadline had passed.
pub open spec fn verdict(
    id: Seq<char>,
    outcome: Result<AgentResult, AgentError>,
    late: bool,
) -> StatusView {
    if late {
        StatusView::TimedOut
    } else {
        match outcome {
            Ok(res) => if res.task_id@ != id {
                StatusView::Failed("result names another task"@)
            } else {
                match res.status@ {
                    StatusView::Success => StatusView::Success,
                    StatusView::Failed(reason) => StatusView::Failed(reason),
                    StatusView::TimedOut => StatusView::TimedOut,
                    _ => StatusView::Failed("agent returned before finishing"@),
                }
            },
            Err(e) => match e {
                AgentError::Timeout => StatusView::TimedOut,
                _ => StatusView::Failed(agent_error_text(e)),
            },
        }
    }
}

/// The result kept for a task: what the agent returned for it in time.
pub open spec fn kept_result(
    id: Seq<char>,
    outcome: Result<AgentResult, AgentError>,
    late: bool,
) -> Option<AgentResultView> {
    match outcome {
        Ok(res) => if !late && res.task_id@ == id {
            Some(res@)
        } else {
            None
        },
        Err(_) => None,
    }
}

/// The arena after the running task in slot `idx` ended in `status` with
/// `result`; a timeout takes its running descendants along.
pub open spec fn ended(
    s: Seq<RecordView>,
    idx: int,
    status: StatusView,
    result: Option<AgentResultView>,
) -> Seq<RecordView> {
    let t = s.update(idx, s[idx].ended(status, result));
    if status is TimedOut {
        cancelled(t, idx)
    } else {
        t
    }
}

/// The arena after the agent's answer for the task in slot `idx` was
/// recorded at `now`. Only a running task takes an answer.
pub open spec fn completed(
    s: Seq<RecordView>,
    idx: int,
    outcome: Result<AgentResult, AgentError>,
    now: int,
) -> Seq<RecordView> {
    if 0 <= idx < s.len() && s[idx].status is Running {
        let rec = s[idx];
        let late = is_overdue(rec.started_at, now, rec.timeout_secs as int);
        ended(
            s,
            idx,
            verdict(rec.task.id, outcome, late),
            kept_result(rec.task.id, outcome, late),
        )
    } else {
        s
    }
}

/// The task in slot `idx` is running and past its deadline at `now`.
pub open spec fn is_late(s: Seq<RecordView>, idx: int, now: int) -> bool {
    0 <= idx < s.len() && s[idx].status is Running && is_overdue(
        s[idx].started_at,
        now,
        s[idx].timeout_secs as int,
    )
}

/// The arena after the deadline of the task in slot `idx` was looked at
/// at `now`: a late task is timed out, with its running descendants.
pub open spec fn expired(s: Seq<RecordView>, idx: int, now: int) -> Seq<RecordView> {
    if is_late(s, idx, now) {
        ended(s, idx, StatusView::TimedOut, None)
    } else {
        s
    }
}

/// The arena after the deadlines of the tasks in the first `n` slots were
/// looked at, in the order of the slots.
pub open spec fn swept(s: Seq<RecordView>, now: int, n: int) -> Seq<RecordView>
    decreases n,
{
    if n <= 0 {
        s
    } else {
        expired(swept(s, now, n - 1), n - 1, now)
    }
}

/// The number of tasks in the first `n` slots that were found late when
/// their turn came. A task that a parent's timeout took along before is
/// not counted again.
pub open spec fn late_count(s: Seq<RecordView>, now: int, n: int) -> nat
    decreases n,
{
    if n <= 0 {
        0
    } else {
        late_count(s, now, n - 1) + if is_late(swept(s, now, n - 1), n - 1, now) {
            1nat
        } else {
            0nat
        }
    }
}

/// Every task in the subtree of `root` stands in a slot no earlier than `root`.
pub proof fn lemma_subtree_is_later(s: Seq<RecordView>, j: int, root: int)
    requires
        in_subtree(s, j, root),
    ensures
        root <= j < s.len(),
    decreases j,
{
    if j != root {
        lemma_subtree_is_later(s, s[j].parent.unwrap() as int, root);
    }
}

proof fn lemma_subtree_same(s: Seq<RecordView>, t: Seq<RecordView>, j: int, root: int)
    requires
        same_shape(s, t),
    ensures
        in_subtree(t, j, root) == in_subtree(s, j, root),
    decreases j,
{
    if j != root && 0 <= j < s.len() {
        assert(t[j].parent == s[j].parent);
        if let Some(p) = s[j].parent {
            if p < j {
                lemma_subtree_same(s, t, p as int, root);
            }
        }
    }
}

proof fn lemma_timeout_frame(s: Seq<RecordView>, root: int, j: int)
    requires
        0 <= root < s.len(),
        0 <= j < s.len(),
    ensures
        !in_subtree(s, j, root) ==> ended(s, root, StatusView::TimedOut, None)[j] == s[j],
{
    let t = s.update(root, s[root].ended(StatusView::TimedOut, None));
    assert(same_shape(s, t));
    lemma_subtree_same(s, t, j, root);
}

/// A timeout leaves the siblings of the timed-out task, and every other
/// task outside its subtree, exactly as they were: they can still end in
/// their own time.
pub proof fn lemma_timeout_spares_siblings(s: Seq<RecordView>, root: int, other: int)
    requires
        well_linked(s),
        0 <= root < s.len(),
        0 <= other < s.len(),
        other != root,
        s[other].parent == s[root].parent,
    ensures
        !in_subtree(s, other, root),
        cancelled(s, root)[other] == s[other],
        forall|j: int| 0 <= j < s.len() && !in_subtree(s, j, root) ==> cancelled(s, root)[j] == s[j],
        ended(s, root, StatusView::TimedOut, None)[other] == s[other],
{
    lemma_timeout_frame(s, root, other);
    if in_subtree(s, other, root) {
        let p = s[other].parent.unwrap() as int;
        lemma_subtree_is_later(s, p, root);
        assert(linked_at(s, root));
    }
}

proof fn lemma_completed_at(
    s: Seq<RecordView>,
    i: int,
    outcome: Result<AgentResult, AgentError>,
    now: int,
    j: int,
)
    requires
        0 <= j < s.len(),
    ensures
        same_shape(s, completed(s, i, outcome, now)),
        completed(s, i, outcome, now)[j] == ({
            let rec = s[i];
            let late = is_overdue(rec.started_at, now, rec.timeout_secs as int);
            let status = verdict(rec.task.id, outcome, late);
            if !(0 <= i < s.len() && rec.status is Running) {
                s[j]
            } else if j == i {
                rec.ended(status, kept_result(rec.task.id, outcome, late))
            } else if status is TimedOut && in_subtree(s, j, i) && s[j].status is Running {
                s[j].with_status(StatusView::TimedOut)
            } else {
                s[j]
            }
        }),
{
    if 0 <= i < s.len() && s[i].status is Running {
        let rec = s[i];
        let late = is_overdue(rec.started_at, now, rec.timeout_secs as int);
        let status = verdict(rec.task.id, outcome, late);
        let t = s.update(i, rec.ended(status, kept_result(rec.task.id, outcome, late)));
        assert(same_shape(s, t));
        lemma_subtree_same(s, t, j, i);
        assert(same_shape(s, completed(s, i, outcome, now)));
    }
}

proof fn lemma_subtrees_are_nested_or_apart(s: Seq<RecordView>, j: int, a: int, b: int)
    requires
        in_subtree(s, j, a),
        in_subtree(s, j, b),
    ensures
        in_subtree(s, a, b) || in_subtree(s, b, a),
    decreases j,
{
    if j != a && j != b {
        lemma_subtrees_are_nested_or_apart(s, s[j].parent.unwrap() as int, a, b);
    }
}

/// The order in which two tasks end is immaterial when neither descends
/// from the other, as with siblings: the arena is the same either way.
pub proof fn lemma_completion_order_is_immaterial(
    s: Seq<RecordView>,
    a: int,
    outcome_a: Result<AgentResult, AgentError>,
    now_a: int,
    b: int,
    outcome_b: Result<AgentResult, AgentError>,
    now_b: int,
)
    requires
        0 <= a < s.len(),
        0 <= b < s.len(),
        !in_subtree(s, a, b),
        !in_subtree(s, b, a),
    ensures
        completed(completed(s, a, outcome_a, now_a), b, outcome_b, now_b) == completed(
            completed(s, b, outcome_b, now_b),
            a,
            outcome_a,
            now_a,
        ),
{
    let sa = completed(s, a, outcome_a, now_a);
    let sb = completed(s, b, outcome_b, now_b);
    let sab = completed(sa, b, outcome_b, now_b);
    let sba = completed(sb, a, outcome_a, now_a);
    lemma_completed_at(s, a, outcome_a, now_a, b);
    lemma_completed_at(s, b, outcome_b, now_b, a);
    lemma_completed_at(sa, b, outcome_b, now_b, a);
    lemma_completed_at(sb, a, outcome_a, now_a, b);
    assert(sa[b] == s[b]);
    assert(sb[a] == s[a]);
    assert(sab.len() == sba.len());
    assert forall|j: int| 0 <= j < sab.len() implies sab[j] == sba[j] by {
        lemma_completed_at(s, a, outcome_a, now_a, j);
        lemma_completed_at(s, b, outcome_b, now_b, j);
        lemma_completed_at(sa, b, outcome_b, now_b, j);
        lemma_completed_at(sb, a, outcome_a, now_a, j);
        lemma_subtree_same(s, sa, j, b);
        lemma_subtree_same(s, sb, j, a);
        if in_subtree(s, j, a) && in_subtree(s, j, b) {
            lemma_subtrees_are_nested_or_apart(s, j, a, b);
        }
    }
    assert(sab =~= sba);
}

/// A submission of `task` is refused: its identifier is taken, or it names
/// a parent that is unknown, was created later, or has no room for
/// another child.
pub open spec fn submit_refused(s: Seq<RecordView>, max_sub_agents: usize, task: TaskView) -> bool {
    ||| known(s, task.id)
    ||| match task.parent_id {
        Some(pid) => {
            ||| !known(s, pid)
            ||| s[slot_of(s, pid)].task.created_at > task.created_at
            ||| child_count(s, slot_of(s, pid)) >= max_sub_agents
        },
        None => false,
    }
}

/// The record of a task that was just submitted.
pub open spec fn submitted(
    s: Seq<RecordView>,
    task: TaskView,
    agent_type: AgentType,
    required: bool,
    timeout_secs: u32,
) -> RecordView {
    RecordView {
        task,
        agent_type,
        required,
        parent: match task.parent_id {
            Some(pid) => Some(slot_of(s, pid) as usize),
            None => None,
        },
        status: StatusView::Pending,
        started_at: 0,
        timeout_secs,
        result: None,
    }
}

/// The task in slot `idx` waits for an agent of the kind `agent_type`.
pub open spec fn can_assign(s: Seq<RecordView>, idx: int, agent_type: AgentType) -> bool {
    0 <= idx < s.len() && s[idx].status is Pending && s[idx].agent_type == agent_type
}

/// The two arenas hold the same tasks under the same parents.
pub open spec fn same_shape(s: Seq<RecordView>, t: Seq<RecordView>) -> bool {
    &&& s.len() == t.len()
    &&& forall|i: int|
        0 <= i < s.len() ==> (#[trigger] t[i]).task == s[i].task && t[i].parent == s[i].parent
}

proof fn lemma_same_shape(s: Seq<RecordView>, t: Seq<RecordView>)
    requires
        same_shape(s, t),
    ensures
        ids_distinct(s) ==> ids_distinct(t),
        well_linked(s) ==> well_linked(t),
        forall|p: int| child_count(t, p) == child_count(s, p),
{
    if ids_distinct(s) {
        assert forall|i: int, j: int|
            0 <= i < t.len() && 0 <= j < t.len() && i != j implies #[trigger] t[i].task.id
            != #[trigger] t[j].task.id by {
            assert(t[i].task == s[i].task && t[j].task == s[j].task);
        }
    }
    if well_linked(s) {
        assert forall|i: int| 0 <= i < t.len() implies #[trigger] linked_at(t, i) by {
            assert(linked_at(s, i));
            assert(t[i].task == s[i].task);
            assert(s[i].parent == t[i].parent);
            if let Some(p) = s[i].parent {
                assert(t[p as int].task == s[p as int].task);
            }
        }
    }
    assert forall|p: int| child_count(t, p) == child_count(s, p) by {
        lemma_same_count(s, t, p);
    }
}

proof fn lemma_same_count(s: Seq<RecordView>, t: Seq<RecordView>, p: int)
    requires
        same_shape(s, t),
    ensures
        child_count(t, p) == child_count(s, p),
    decreases s.len(),
{
    if s.len() > 0 {
        assert(t.last().parent == s.last().parent);
        assert(same_shape(s.drop_last(), t.drop_last())) by {
            assert forall|i: int| 0 <= i < s.len() - 1 implies (#[trigger] t.drop_last()[i]).task
                == s.drop_last()[i].task && t.drop_last()[i].parent == s.drop_last()[i].parent by {
                assert(t[i].task == s[i].task);
            }
        }
        lemma_same_count(s.drop_last(), t.drop_last(), p);
    }
}

/// What a parent learns from its required children.
pub ghost struct Summary {
    /// The reason of the first required child that failed.
    pub failure: Option<Seq<char>>,
    /// Some required child timed out.
    pub timed_out: bool,
    /// Some required child has not ended.
    pub waiting: bool,
    /// The least confidence among the parent and its required children
    /// that succeeded.
    pub weakest: nat,
}

/// The record is a required child of the task in slot `p`.
pub open spec fn counts(r: RecordView, p: int) -> bool {
    r.parent == Some(p as usize) && r.required
}

/// The summary after one more required child.
pub open spec fn absorb(sum: Summary, r: RecordView) -> Summary {
    Summary {
        failure: match (sum.failure, r.status) {
            (None, StatusView::Failed(reason)) => Some(reason),
            _ => sum.failure,
        },
        timed_out: sum.timed_out || r.status is TimedOut,
        waiting: sum.waiting || !r.status.is_terminal(),
        weakest: match (r.status, r.result) {
            (StatusView::Success, Some(res)) => if res.confidence < sum.weakest {
                res.confidence
            } else {
                sum.weakest
            },
            _ => sum.weakest,
        },
    }
}

/// The summary of the required children of `p` among the first `n` tasks,
/// starting from the confidence `base`.
pub open spec fn summarize(s: Seq<RecordView>, p: int, n: int, base: nat) -> Summary
    decreases n,
{
    if n <= 0 {
        Summary { failure: None, timed_out: false, waiting: false, weakest: base }
    } else {
        let before = summarize(s, p, n - 1, base);
        if counts(s[n - 1], p) {
            absorb(before, s[n - 1])
        } else {
            before
        }
    }
}

/// The confidence that the task in slot `p` reported for itself, or zero.
pub open spec fn own_confidence(s: Seq<RecordView>, p: int) -> nat {
    match s[p].result {
        Some(res) => res.confidence,
        None => 0,
    }
}

/// The state of a parent once its children are taken into account. A
/// parent that did not succeed itself stays as it is. One that did fails
/// with the reason of its first failed required child; failing that, it
/// times out if a required child did; failing that, it is still running
/// while a required child has not ended. Children that are not required
/// have no say.
pub open spec fn aggregate_status(s: Seq<RecordView>, p: int) -> StatusView {
    let sum = summarize(s, p, s.len() as int, own_confidence(s, p));
    if !(s[p].status is Success) {
        s[p].status
    } else if sum.failure is Some {
        StatusView::Failed(sum.failure.unwrap())
    } else if sum.timed_out {
        StatusView::TimedOut
    } else if sum.waiting {
        StatusView::Running
    } else {
        StatusView::Success
    }
}

/// The confidence of a parent once its children are taken into account:
/// the least among its own and those of its required children that
/// succeeded.
pub open spec fn aggregate_confidence(s: Seq<RecordView>, p: int) -> nat {
    summarize(s, p, s.len() as int, own_confidence(s, p)).weakest
}

/// The outputs of the children of `p` among the first `n` tasks, each
/// under its task's identifier, in the order of the slots.
pub open spec fn child_members(s: Seq<RecordView>, p: int, n: int) -> Seq<
    (Seq<char>, serde_json::Value),
>
    decreases n,
{
    if n <= 0 {
        Seq::empty()
    } else {
        let before = child_members(s, p, n - 1);
        let r = s[n - 1];
        if r.parent == Some(p as usize) && r.result is Some {
            before.push((r.task.id, r.result.unwrap().output))
        } else {
            before
        }
    }
}

/// The output of the task in slot `p` itself, under its identifier.
pub open spec fn own_member(s: Seq<RecordView>, p: int) -> Seq<(Seq<char>, serde_json::Value)> {
    match s[p].result {
        Some(res) => seq![(s[p].task.id, res.output)],
        None => Seq::empty(),
    }
}

/// The result of the task in slot `p` with its children taken into
/// account.
pub open spec fn aggregated(s: Seq<RecordView>, p: int) -> AgentResultView {
    AgentResultView {
        task_id: s[p].task.id,
        status: aggregate_status(s, p),
        output: json_object_of(own_member(s, p) + child_members(s, p, s.len() as int)),
        confidence: aggregate_confidence(s, p),
        execution_time_ms: match s[p].result {
            Some(res) => res.execution_time_ms,
            None => 0,
        },
    }
}

proof fn lemma_failure_is_seen(s: Seq<RecordView>, p: int, j: int, n: int, base: nat)
    requires
        0 <= j < n,
        counts(s[j], p),
        s[j].status is Failed,
    ensures
        summarize(s, p, n, base).failure is Some,
    decreases n,
{
    if j < n - 1 {
        lemma_failure_is_seen(s, p, j, n - 1, base);
    }
}

/// A parent whose own execution ended in success or in failure fails when
/// a required child failed. (One that timed out itself stays timed out.)
pub proof fn lemma_required_failure_fails_parent(s: Seq<RecordView>, p: int, child: int)
    requires
        0 <= p < s.len(),
        0 <= child < s.len(),
        s[p].status is Success || s[p].status is Failed,
        counts(s[child], p),
        s[child].status is Failed,
    ensures
        aggregate_status(s, p) is Failed,
{
    lemma_failure_is_seen(s, p, child, s.len() as int, own_confidence(s, p));
}

proof fn lemma_summary_ignores(
    s: Seq<RecordView>,
    t: Seq<RecordView>,
    p: int,
    child: int,
    n: int,
    base: nat,
)
    requires
        s.len() == t.len(),
        0 <= n <= s.len(),
        forall|i: int| 0 <= i < s.len() && i != child ==> t[i] == s[i],
        !counts(s[child], p),
        !counts(t[child], p),
    ensures
        summarize(t, p, n, base) == summarize(s, p, n, base),
    decreases n,
{
    if n > 0 {
        lemma_summary_ignores(s, t, p, child, n - 1, base);
    }
}

/// Whatever becomes of a child that is not required, the parent's state
/// and confidence are those that the other children give.
pub proof fn lemma_optional_child_is_ignored(
    s: Seq<RecordView>,
    t: Seq<RecordView>,
    p: int,
    child: int,
)
    requires
        s.len() == t.len(),
        0 <= p < s.len(),
        0 <= child < s.len(),
        child != p,
        forall|i: int| 0 <= i < s.len() && i != child ==> t[i] == s[i],
        !counts(s[child], p),
        !counts(t[child], p),
    ensures
        aggregate_status(t, p) == aggregate_status(s, p),
        aggregate_confidence(t, p) == aggregate_confidence(s, p),
{
    lemma_summary_ignores(s, t, p, child, s.len() as int, own_confidence(s, p));
}

proof fn lemma_weakest_is_least(s: Seq<RecordView>, p: int, j: int, n: int, base: nat)
    requires
        0 <= n,
    ensures
        summarize(s, p, n, base).weakest <= base,
        0 <= j < n && counts(s[j], p) && s[j].status is Success && s[j].result is Some ==> summarize(
            s,
            p,
            n,
            base,
        ).weakest <= s[j].result.unwrap().confidence,
    decreases n,
{
    if n > 0 {
        lemma_weakest_is_least(s, p, j, n - 1, base);
    }
}

/// The weak link: a parent is never more confident than itself or any
/// required child that succeeded.
pub proof fn lemma_weak_link(s: Seq<RecordView>, p: int, child: int)
    requires
        0 <= p < s.len(),
    ensures
        aggregate_confidence(s, p) <= own_confidence(s, p),
        0 <= child < s.len() && counts(s[child], p) && s[child].status is Success
            && s[child].result is Some ==> aggregate_confidence(s, p)
            <= s[child].result.unwrap().confidence,
{
    lemma_weakest_is_least(s, p, child, s.len() as int, own_confidence(s, p));
}

/// The scheduler's arena of tasks.
pub struct Scheduler {
    records: Vec<TaskRecord>,
    max_sub_agents: usize,
    default_timeout_secs: u32,
}

impl View for Scheduler {
    type V = Seq<RecordView>;

    closed spec fn view(&self) -> Seq<RecordView> {
        self.records@.map_values(|r: TaskRecord| r@)
    }
}

impl Scheduler {
    /// The most children that one task may have.
    pub closed spec fn max_sub_agents(&self) -> usize {
        self.max_sub_agents
    }

    /// Seconds that a task may run unless its submission says otherwise.
    pub closed spec fn default_timeout_secs(&self) -> u32 {
        self.default_timeout_secs
    }

    /// Identifiers are unique, parent links are sound, and no task has
    /// more children than allowed.
    pub open spec fn wf(&self) -> bool {
        &&& ids_distinct(self@)
        &&& well_linked(self@)
        &&& forall|p: int| 0 <= p < self@.len() ==> child_count(self@, p) <= self.max_sub_agents()
    }

    /// An empty arena.
    pub fn new(max_sub_agents: usize, default_timeout_secs: u32) -> (s: Scheduler)
        ensures
            s.wf(),
            s@.len() == 0,
            s.max_sub_agents() == max_sub_agents,
            s.default_timeout_secs() == default_timeout_secs,
    {
        Scheduler { records: Vec::new(), max_sub_agents, default_timeout_secs }
    }

    /// An empty arena with the limits that the configuration sets.
    pub fn from_config(config: &AgentsConfig) -> (s: Scheduler)
        ensures
            s.wf(),
            s@.len() == 0,
            s.max_sub_agents() == config.max_sub_agents,
            s.default_timeout_secs() == config.default_timeout_secs,
    {
        Scheduler::new(config.max_sub_agents, config.default_timeout_secs)
    }

    /// The number of tasks.
    pub fn len(&self) -> (n: usize)
        ensures
            n == self@.len(),
    {
        self.records.len()
    }

    /// The record in slot `idx`.
    pub fn record(&self, idx: usize) -> (r: Option<&TaskRecord>)
        ensures
            match r {
                Some(rec) => idx < self@.len() && rec@ == self@[idx as int],
                None => idx >= self@.len(),
            },
    {
        if idx < self.records.len() {
            Some(&self.records[idx])
        } else {
            None
        }
    }

    /// The slot of the task with the identifier `id`.
    pub fn find(&self, id: &str) -> (r: Option<usize>)
        ensures
            match r {
                Some(i) => i < self@.len() && self@[i as int].task.id == id@ && known(self@, id@),
                None => !known(self@, id@),
            },
            self.wf() && r is Some ==> slot_of(self@, id@) == r.unwrap(),
    {
        let key: String = id.to_owned();
        let mut i: usize = 0;
        while i < self.records.len()
            invariant
                i <= self.records@.len(),
                key@ == id@,
                forall|k: int| 0 <= k < i ==> self@[k].task.id != id@,
            decreases self.records@.len() - i,
        {
            if self.records[i].task.id == key {
                assert(self@[i as int].task.id == id@);
                return Some(i);
            }
            i = i + 1;
        }
        None
    }

    /// The number of children of the task in slot `p`.
    pub fn children_of(&self, p: usize) -> (n: usize)
        ensures
            n == child_count(self@, p as int),
    {
        let mut n: usize = 0;
        let mut j: usize = 0;
        assert(self@.take(0) =~= Seq::<RecordView>::empty());
        while j < self.records.len()
            invariant
                j <= self.records@.len(),
                n == child_count(self@.take(j as int), p as int),
                n <= j,
            decreases self.records@.len() - j,
        {
            proof {
                assert(self@.take(j + 1).drop_last() =~= self@.take(j as int));
                assert(self@.take(j + 1).last() == self@[j as int]);
            }
            let is_child = match self.records[j].parent {
                Some(q) => q == p,
                None => false,
            };
            if is_child {
                n = n + 1;
            }
            j = j + 1;
        }
        assert(self@.take(self@.len() as int) =~= self@);
        n
    }

    /// Takes a task into the arena as `Pending` and returns its slot. The
    /// task may run for `timeout_secs`, or for the default if none is given.
    /// A refused task leaves the arena unchanged.
    pub fn submit(
        &mut self,
        task: Task,
        agent_type: AgentType,
        required: bool,
        timeout_secs: Option<u32>,
    ) -> (r: Result<usize, AgentError>)
        requires
            old(self).wf(),
        ensures
            final(self).wf(),
            final(self).max_sub_agents() == old(self).max_sub_agents(),
            final(self).default_timeout_secs() == old(self).default_timeout_secs(),
            r is Err <==> submit_refused(old(self)@, old(self).max_sub_agents(), task@),
            match r {
                Ok(slot) => slot == old(self)@.len() && final(self)@ == old(self)@.push(
                    submitted(
                        old(self)@,
                        task@,
                        agent_type,
                        required,
                        match timeout_secs {
                            Some(t) => t,
                            None => old(self).default_timeout_secs(),
                        },
                    ),
                ),
                Err(e) => e is InvalidTask && final(self)@ == old(self)@,
            },
    {
        if self.find(task.id.as_str()).is_some() {
            return Err(AgentError::InvalidTask("task identifier already in use".to_owned()));
        }
        let parent: Option<usize> = match &task.parent_id {
            Some(pid) => {
                match self.find(pid.as_str()) {
                    Some(p) => {
                        if self.records[p].task.created_at > task.created_at {
                            return Err(
                                AgentError::InvalidTask(
                                    "parent task was created later".to_owned(),
                                ),
                            );
                        }
                        if self.children_of(p) >= self.max_sub_agents {
                            return Err(
                                AgentError::InvalidTask(
                                    "parent task has no room for another child".to_owned(),
                                ),
                            );
                        }
                        Some(p)
                    },
                    None => {
                        return Err(AgentError::InvalidTask("unknown parent task".to_owned()));
                    },
                }
            },
            None => None,
        };
        let timeout = match timeout_secs {
            Some(t) => t,
            None => self.default_timeout_secs,
        };
        let ghost before = self@;
        let record = TaskRecord {
            task,
            agent_type,
            required,
            parent,
            status: ExecutionStatus::Pending,
            started_at: 0,
            timeout_secs: timeout,
            result: None,
        };
        let ghost rv = record@;
        let slot = self.records.len();
        self.records.push(record);
        proof {
            let after = self@;
            assert(after =~= before.push(rv));
            assert(after.drop_last() =~= before);
            assert forall|i: int| 0 <= i < after.len() implies #[trigger] linked_at(after, i) by {
                if i < before.len() {
                    assert(linked_at(before, i));
                    assert(after[i] == before[i]);
                }
            }
            assert forall|p: int| 0 <= p < after.len() implies child_count(after, p)
                <= self.max_sub_agents() by {
                if p == before.len() {
                    assert forall|i: int| 0 <= i < after.len() implies (#[trigger] after[i]).parent
                        != Some(p as usize) by {
                        assert(linked_at(after, i));
                    }
                    lemma_no_children(after, p);
                } else {
                    assert(after.last() == rv);
                    assert(child_count(after, p) == child_count(before, p) + if rv.parent == Some(
                        p as usize,
                    ) {
                        1nat
                    } else {
                        0nat
                    });
                    if rv.parent == Some(p as usize) {
                        assert(parent == Some(p as usize));
                        assert(child_count(before, p) < self.max_sub_agents());
                    }
                }
            }
        }
        Ok(slot)
    }

    /// Hands the pending task in slot `idx` to an agent of the kind
    /// `agent_type`: it is `Running` from `now` on. Nothing changes unless
    /// the task is pending and needs that kind of agent.
    pub fn assign(&mut self, idx: usize, agent_type: AgentType, now: i64) -> (r: bool)
        requires
            old(self).wf(),
        ensures
            final(self).wf(),
            final(self).max_sub_agents() == old(self).max_sub_agents(),
            final(self).default_timeout_secs() == old(self).default_timeout_secs(),
            r == can_assign(old(self)@, idx as int, agent_type),
            final(self)@ == if r {
                old(self)@.update(idx as int, old(self)@[idx as int].started(now as int))
            } else {
                old(self)@
            },
    {
        if idx >= self.records.len() {
            return false;
        }
        let pending = match self.records[idx].status {
            ExecutionStatus::Pending => true,
            _ => false,
        };
        if !pending || self.records[idx].agent_type != agent_type {
            return false;
        }
        let ghost before = self@;
        self.records[idx].status = ExecutionStatus::Running;
        self.records[idx].started_at = now;
        proof {
            assert(self@ =~= before.update(idx as int, before[idx as int].started(now as int)));
            lemma_same_shape(before, self@);
        }
        true
    }

    /// Times out every running descendant of the task in slot `root`.
    fn cancel_descendants(&mut self, root: usize)
        requires
            old(self).wf(),
            root < old(self)@.len(),
        ensures
            final(self).wf(),
            final(self).max_sub_agents() == old(self).max_sub_agents(),
            final(self).default_timeout_secs() == old(self).default_timeout_secs(),
            final(self)@ == cancelled(old(self)@, root as int),
    {
        let ghost before = self@;
        let n = self.records.len();
        let mut inside: Vec<bool> = Vec::new();
        let mut j: usize = 0;
        while j < n
            invariant
                n == before.len(),
                self@.len() == n,
                root < n,
                j <= n,
                inside@.len() == j,
                well_linked(before),
                self.max_sub_agents() == old(self).max_sub_agents(),
                self.default_timeout_secs() == old(self).default_timeout_secs(),
                forall|k: int| 0 <= k < j ==> inside@[k] == in_subtree(before, k, root as int),
                forall|k: int| 0 <= k < j ==> self@[k] == cancelled(before, root as int)[k],
                forall|k: int| j <= k < n ==> self@[k] == before[k],
            decreases n - j,
        {
            let ghost current = self@;
            assert(linked_at(before, j as int));
            let within = if j == root {
                true
            } else {
                match self.records[j].parent {
                    Some(p) => p < j && inside[p],
                    None => false,
                }
            };
            let running = match self.records[j].status {
                ExecutionStatus::Running => true,
                _ => false,
            };
            if within && j != root && running {
                self.records[j].status = ExecutionStatus::TimedOut;
                assert(self@ =~= current.update(
                    j as int,
                    current[j as int].with_status(StatusView::TimedOut),
                ));
            }
            inside.push(within);
            j = j + 1;
        }
        proof {
            assert(self@ =~= cancelled(before, root as int));
            lemma_same_shape(before, self@);
        }
    }

    /// Ends the running task in slot `idx` in `status`, keeping `result`.
    fn finish(&mut self, idx: usize, status: ExecutionStatus, result: Option<AgentResult>)
        requires
            old(self).wf(),
            idx < old(self)@.len(),
        ensures
            final(self).wf(),
            final(self).max_sub_agents() == old(self).max_sub_agents(),
            final(self).default_timeout_secs() == old(self).default_timeout_secs(),
            final(self)@ == ended(
                old(self)@,
                idx as int,
                status@,
                match result {
                    Some(r) => Some(r@),
                    None => None,
                },
            ),
    {
        let ghost before = self@;
        let timed_out = match status {
            ExecutionStatus::TimedOut => true,
            _ => false,
        };
        self.records[idx].status = status;
        self.records[idx].result = result;
        proof {
            assert(self@ =~= before.update(
                idx as int,
                before[idx as int].ended(
                    status@,
                    match result {
                        Some(r) => Some(r@),
                        None => None,
                    },
                ),
            ));
            lemma_same_shape(before, self@);
        }
        if timed_out {
            self.cancel_descendants(idx);
        }
    }

    /// Whether the task in slot `idx` is running.
    pub fn is_running(&self, idx: usize) -> (r: bool)
        ensures
            r == (idx < self@.len() && self@[idx as int].status is Running),
    {
        if idx >= self.records.len() {
            return false;
        }
        match self.records[idx].status {
            ExecutionStatus::Running => true,
            _ => false,
        }
    }

    /// Whether the task in slot `idx` is running and past its deadline at `now`.
    pub fn is_late(&self, idx: usize, now: i64) -> (r: bool)
        ensures
            r == (idx < self@.len() && self@[idx as int].status is Running && is_overdue(
                self@[idx as int].started_at,
                now as int,
                self@[idx as int].timeout_secs as int,
            )),
    {
        if !self.is_running(idx) {
            return false;
        }
        let used: i128 = now as i128 - self.records[idx].started_at as i128;
        let allowed: i128 = self.records[idx].timeout_secs as i128 * 1_000;
        used > allowed
    }

    /// Records what the agent returned for the running task in slot `idx`.
    /// The task ends as `verdict` says; past the deadline it is timed out
    /// whatever was returned, and its running descendants with it. Nothing
    /// changes unless the task is running: an ended task is never re-entered.
    pub fn complete(&mut self, idx: usize, outcome: Result<AgentResult, AgentError>, now: i64) -> (r:
        bool)
        requires
            old(self).wf(),
        ensures
            final(self).wf(),
            final(self).max_sub_agents() == old(self).max_sub_agents(),
            final(self).default_timeout_secs() == old(self).default_timeout_secs(),
            r == (idx < old(self)@.len() && old(self)@[idx as int].status is Running),
            final(self)@ == completed(old(self)@, idx as int, outcome, now as int),
    {
        if !self.is_running(idx) {
            return false;
        }
        let late = self.is_late(idx, now);
        let (status, result) = resolve(&self.records[idx].task.id, outcome, late);
        self.finish(idx, status, result);
        true
    }

    /// Times out the task in slot `idx` if it is running and past its
    /// deadline at `now`, and its running descendants with it. Tasks
    /// outside its subtree are left as they are.
    pub fn expire(&mut self, idx: usize, now: i64) -> (r: bool)
        requires
            old(self).wf(),
        ensures
            final(self).wf(),
            final(self).max_sub_agents() == old(self).max_sub_agents(),
            final(self).default_timeout_secs() == old(self).default_timeout_secs(),
            r == is_late(old(self)@, idx as int, now as int),
            final(self)@ == expired(old(self)@, idx as int, now as int),
    {
        if !self.is_late(idx, now) {
            return false;
        }
        self.finish(idx, ExecutionStatus::TimedOut, None);
        true
    }

    /// Looks at the deadline of every task at `now`, in the order of the
    /// slots, and times out each running task that is late, with its
    /// running descendants. The answer is the number of tasks found late.
    pub fn sweep(&mut self, now: i64) -> (found: usize)
        requires
            old(self).wf(),
        ensures
            final(self).wf(),
            final(self).max_sub_agents() == old(self).max_sub_agents(),
            final(self).default_timeout_secs() == old(self).default_timeout_secs(),
            final(self)@ == swept(old(self)@, now as int, old(self)@.len() as int),
            found == late_count(old(self)@, now as int, old(self)@.len() as int),
    {
        let ghost before = self@;
        let n = self.records.len();
        let mut found: usize = 0;
        let mut slot: usize = 0;
        while slot < n
            invariant
                self.wf(),
                self.max_sub_agents() == old(self).max_sub_agents(),
                self.default_timeout_secs() == old(self).default_timeout_secs(),
                n == before.len(),
                self@.len() == n,
                slot <= n,
                found <= slot,
                self@ == swept(before, now as int, slot as int),
                found == late_count(before, now as int, slot as int),
            decreases n - slot,
        {
            if self.expire(slot, now) {
                found = found + 1;
            }
            slot = slot + 1;
        }
        found
    }

    /// The result of the task in slot `idx` with its children taken into
    /// account: the state and the confidence that the required children
    /// allow, and the outputs of the task and of all its children as one
    /// JSON object keyed by task identifier.
    pub fn aggregate(&self, idx: usize) -> (r: Option<AgentResult>)
        ensures
            match r {
                Some(res) => idx < self@.len() && res@ == aggregated(self@, idx as int),
                None => idx >= self@.len(),
            },
    {
        if idx >= self.records.len() {
            return None;
        }
        let ghost s = self@;
        let ghost p = idx as int;
        let own = &self.records[idx];
        let mut members: Vec<(String, serde_json::Value)> = Vec::new();
        let mut weakest = Score::zero();
        let mut execution_time_ms: u64 = 0;
        match &own.result {
            Some(res) => {
                members.push((own.task.id.clone(), res.output.clone()));
                weakest = res.confidence;
                execution_time_ms = res.execution_time_ms;
            },
            None => {},
        }
        assert(member_views(members@) =~= own_member(s, p) + child_members(s, p, 0));
        let mut failure: Option<String> = None;
        let mut timed_out = false;
        let mut waiting = false;
        let mut j: usize = 0;
        while j < self.records.len()
            invariant
                s == self@,
                p == idx as int,
                idx < self.records@.len(),
                j <= self.records@.len(),
                member_views(members@) == own_member(s, p) + child_members(s, p, j as int),
                summarize(s, p, j as int, own_confidence(s, p)) == (Summary {
                    failure: match failure {
                        Some(reason) => Some(reason@),
                        None => None,
                    },
                    timed_out,
                    waiting,
                    weakest: weakest@,
                }),
            decreases self.records@.len() - j,
        {
            let r = &self.records[j];
            let is_child = match r.parent {
                Some(q) => q == idx,
                None => false,
            };
            if is_child {
                match &r.result {
                    Some(res) => {
                        let ghost before = members@;
                        members.push((r.task.id.clone(), res.output.clone()));
                        assert(member_views(members@) =~= member_views(before).push(
                            (r.task.id@, res.output),
                        ));
                        assert(member_views(members@) =~= own_member(s, p) + child_members(
                            s,
                            p,
                            j + 1,
                        ));
                    },
                    None => {},
                }
                if r.required {
                    match &r.status {
                        ExecutionStatus::Failed(reason) => {
                            if failure.is_none() {
                                failure = Some(reason.clone());
                            }
                        },
                        ExecutionStatus::TimedOut => {
                            timed_out = true;
                        },
                        ExecutionStatus::Success => {
                            match &r.result {
                                Some(res) => {
                                    weakest = weakest.min(res.confidence);
                                },
                                None => {},
                            }
                        },
                        _ => {
                            waiting = true;
                        },
                    }
                }
            }
            j = j + 1;
        }
        let status = match &own.status {
            ExecutionStatus::Success => {
                match failure {
                    Some(reason) => ExecutionStatus::Failed(reason),
                    None => {
                        if timed_out {
                            ExecutionStatus::TimedOut
                        } else if waiting {
                            ExecutionStatus::Running
                        } else {
                            ExecutionStatus::Success
                        }
                    },
                }
            },
            other => other.clone(),
        };
        Some(
            AgentResult {
                task_id: own.task.id.clone(),
                status,
                output: json_object(members),
                confidence: weakest,
                execution_time_ms,
            },
        )
    }

    /// Runs the pending task in slot `idx` on `agent`: assigns it, lets the
    /// agent execute a copy of the task, and records what came back, timed
    /// out if the agent took longer than the task may run. Nothing happens
    /// unless the task is pending and the agent is of the kind it needs.
    /// The arena is then as `assign` and `complete` leave it, for the kind
    /// that the agent names, the answer that it gave when it executed a
    /// copy of the task, and the times at which it was asked and had
    /// answered.
    pub fn dispatch<A: Agent>(&mut self, idx: usize, agent: &mut A) -> (r: bool)
        requires
            old(self).wf(),
        ensures
            final(self).wf(),
            final(self).max_sub_agents() == old(self).max_sub_agents(),
            final(self).default_timeout_secs() == old(self).default_timeout_secs(),
            exists|
                kind: AgentType,
                started: int,
                outcome: Result<AgentResult, AgentError>,
                finished: int,
            | #[trigger]
                dispatched(
                    *old(agent),
                    old(self)@,
                    idx as int,
                    kind,
                    started,
                    outcome,
                    finished,
                    r,
                    final(self)@,
                ) && (r ==> exists|m: &mut A, task: Task|
                    task@ == old(self)@[idx as int].task && mut_ref_current(m) == *old(agent)
                        && mut_ref_future(m) == *final(agent) && #[trigger] call_ensures(
                        A::execute,
                        (m, task),
                        outcome,
                    )),
            !r ==> *final(agent) == *old(agent),
            !r ==> final(self)@ == old(self)@,
            r ==> {
                &&& idx < old(self)@.len()
                &&& old(self)@[idx as int].status is Pending
                &&& same_shape(old(self)@, final(self)@)
                &&& final(self)@[idx as int].status.is_terminal()
                &&& forall|j: int|
                    0 <= j < old(self)@.len() && !in_subtree(old(self)@, j, idx as int)
                        ==> final(self)@[j] == old(self)@[j]
            },
    {
        let kind = agent.agent_type();
        let started = now_millis();
        let ghost before = self@;
        if !self.assign(idx, kind, started) {
            proof {
                assert(dispatched(
                    *old(agent),
                    before,
                    idx as int,
                    kind,
                    started as int,
                    Err(AgentError::Timeout),
                    0,
                    false,
                    self@,
                ));
            }
            return false;
        }
        let ghost running = self@;
        let task = self.records[idx].task.clone();
        let ghost handed = task;
        let outcome = agent.execute(task);
        let ghost answer = outcome;
        assert(exists|m: &mut A, t: Task|
            t@ == before[idx as int].task && mut_ref_current(m) == *old(agent) && mut_ref_future(m)
                == *agent && #[trigger] call_ensures(A::execute, (m, t), answer));
        let finished = now_millis();
        let done = self.complete(idx, outcome, finished);
        proof {
            let rec = running[idx as int];
            let late = is_overdue(rec.started_at, finished as int, rec.timeout_secs as int);
            let status = verdict(rec.task.id, outcome, late);
            let mid = running.update(
                idx as int,
                rec.ended(status, kept_result(rec.task.id, outcome, late)),
            );
            assert(same_shape(before, mid));
            assert(self@ == ended(running, idx as int, status, kept_result(rec.task.id, outcome, late)));
            assert forall|j: int|
                0 <= j < before.len() && !in_subtree(before, j, idx as int) implies self@[j]
                == before[j] by {
                lemma_subtree_same(before, mid, j, idx as int);
                assert(j != idx);
                assert(mid[j] == before[j]);
            }
            assert(dispatched(
                *old(agent),
                before,
                idx as int,
                kind,
                started as int,
                outcome,
                finished as int,
                done,
                self@,
            ));
        }
        done
    }
}

/// What `dispatch` does to the arena `s`, given the kind that the agent
/// names, the time at which the task was handed over, the agent's answer
/// and the time at which it came: the task is assigned if it may be, and
/// the answer is then recorded.
pub open spec fn dispatched<A: Agent>(
    agent: A,
    s: Seq<RecordView>,
    idx: int,
    kind: AgentType,
    started: int,
    outcome: Result<AgentResult, AgentError>,
    finished: int,
    r: bool,
    t: Seq<RecordView>,
) -> bool {
    &&& call_ensures(A::agent_type, (&agent,), kind)
    &&& r == can_assign(s, idx, kind)
    &&& t == if r {
        completed(s.update(idx, s[idx].started(started)), idx, outcome, finished)
    } else {
        s
    }
}

/// Decides `verdict` and `kept_result`.
pub fn resolve(id: &String, outcome: Result<AgentResult, AgentError>, late: bool) -> (r: (
    ExecutionStatus,
    Option<AgentResult>,
))
    ensures
        r.0@ == verdict(id@, outcome, late),
        match r.1 {
            Some(res) => kept_result(id@, outcome, late) == Some(res@),
            None => kept_result(id@, outcome, late).is_none(),
        },
{
    if late {
        return (ExecutionStatus::TimedOut, None);
    }
    match outcome {
        Ok(res) => {
            if res.task_id != *id {
                return (ExecutionStatus::Failed("result names another task".to_owned()), None);
            }
            let status = match &res.status {
                ExecutionStatus::Success => ExecutionStatus::Success,
                ExecutionStatus::Failed(reason) => ExecutionStatus::Failed(reason.clone()),
                ExecutionStatus::TimedOut => ExecutionStatus::TimedOut,
                _ => ExecutionStatus::Failed("agent returned before finishing".to_owned()),
            };
            (status, Some(res))
        },
        Err(e) => {
            let status = match &e {
                AgentError::Timeout => ExecutionStatus::TimedOut,
                _ => ExecutionStatus::Failed(e.message()),
            };
            (status, None)
        },
    }
}

proof fn lemma_no_children(s: Seq<RecordView>, p: int)
    requires
        forall|i: int| 0 <= i < s.len() ==> (#[trigger] s[i]).parent != Some(p as usize),
    ensures
        child_count(s, p) == 0,
    decreases s.len(),
{
    if s.len() > 0 {
        assert(s.last() == s[s.len() - 1]);
        assert forall|i: int| 0 <= i < s.drop_last().len() implies (#[trigger] s.drop_last()[i]).parent
            != Some(p as usize) by {
            assert(s.drop_last()[i] == s[i]);
        }
        lemma_no_children(s.drop_last(), p);
    }
}

} // verus!
